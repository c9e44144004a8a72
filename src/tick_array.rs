//! Ticks grouped into fixed-size arrays keyed by their first tick index.
//!
//! An array holds `TICK_ARRAY_SIZE` slots; slot `i` of the array starting at
//! `s` stands for tick `s + i * tick_spacing`, and `s` is a multiple of
//! `tick_count(tick_spacing)`.
use crate::errors::ClmmError;
use crate::tick_math::{MAX_TICK, MIN_TICK};
use vstd::prelude::*;

verus! {

pub const TICK_ARRAY_SIZE_USIZE: usize = 60;

pub const TICK_ARRAY_SIZE: i32 = 60;

/// Stored size of a tick record inside an array: tick, net and gross
/// liquidity, padding.
pub const TICK_RECORD_LEN: usize = 4 + 16 + 16 + 52;

/// Stored size of a tick record on its own: a tag, then the record.
pub const TICK_STATE_LEN: usize = 8 + TICK_RECORD_LEN;

/// Stored size of a tick array, laid out in C order: an 8-byte tag, then
/// the pool id (32 bytes, offset 0 after the tag), the start index (4, at 32),
/// the packed records (60 of `TICK_RECORD_LEN` = 88 bytes, at 36), the
/// initialized count (1, at 5316), 3 bytes that align the epoch to 8, the
/// epoch (8, at 5320), 107 bytes of padding (at 5328), and 5 bytes that round
/// the 5435 bytes up to a multiple of 8: 8 + 5440 = 5448.
pub const TICK_ARRAY_STATE_LEN: usize = 8 + 32 + 4 + TICK_ARRAY_SIZE_USIZE * TICK_RECORD_LEN + 1
    + 3 + 8 + 107 + 5;

/// The liquidity bookkeeping of one tick.
#[derive(Clone, Copy, Debug, PartialEq, Eq, Structural)]
pub struct TickState {
    pub tick: i32,
    /// Liquidity added when the price crosses this tick upward.
    pub liquidity_net: i128,
    /// Total liquidity of the positions bounded by this tick.
    pub liquidity_gross: u128,
}

impl TickState {
    pub fn zeroed() -> (r: TickState)
        ensures
            r == (TickState { tick: 0, liquidity_net: 0, liquidity_gross: 0 }),
    {
        TickState { tick: 0, liquidity_net: 0, liquidity_gross: 0 }
    }
}

/// A bucket of `TICK_ARRAY_SIZE` tick records of one pool.
#[derive(Clone, Debug, PartialEq, Eq)]
pub struct TickArrayState {
    pub pool_id: [u8; 32],
    pub start_tick_index: i32,
    pub ticks: Vec<TickState>,
    pub initialized_tick_count: u8,
    /// Epoch of the last change.
    pub recent_epoch: u64,
}

impl TickArrayState {
    /// The array holds exactly `TICK_ARRAY_SIZE` slots.
    pub open spec fn wf(&self) -> bool {
        self.ticks@.len() == TICK_ARRAY_SIZE_USIZE
    }

    /// An array whose fields and slots are all zero.
    pub fn zeroed() -> (r: TickArrayState)
        ensures
            r.wf(),
            r.pool_id@ == seq![0u8; 32],
            r.start_tick_index == 0,
            r.initialized_tick_count == 0,
            r.recent_epoch == 0,
            forall|i: int|
                0 <= i < TICK_ARRAY_SIZE_USIZE ==> #[trigger] r.ticks@[i] == (TickState { tick: 0, liquidity_net: 0, liquidity_gross: 0 }),
    {
        let mut ticks: Vec<TickState> = Vec::new();
        let mut i: usize = 0;
        while i < TICK_ARRAY_SIZE_USIZE
            invariant
                i <= TICK_ARRAY_SIZE_USIZE,
                ticks@.len() == i,
                forall|j: int|
                    0 <= j < i ==> #[trigger] ticks@[j] == (TickState {
                        tick: 0,
                        liquidity_net: 0,
                        liquidity_gross: 0,
                    }),
            decreases TICK_ARRAY_SIZE_USIZE - i,
        {
            ticks.push(TickState::zeroed());
            i = i + 1;
        }
        let pool_id = [0u8; 32];
        assert(pool_id@ =~= seq![0u8; 32]);
        TickArrayState {
            pool_id,
            start_tick_index: 0,
            ticks,
            initialized_tick_count: 0,
            recent_epoch: 0,
        }
    }

    /// Stamps the array with its start index, its pool and the epoch.
    ///
    /// Fails with `InvalidTickRange` unless `start_index` is the start of
    /// an array that holds a valid tick, for a nonzero `tick_spacing`.
    pub fn initialize(&mut self, start_index: i32, tick_spacing: u16, pool_key: [u8; 32], epoch: u64) -> (r:
        Result<(), ClmmError>)
        ensures
            r is Ok <==> is_array_start(start_index, tick_spacing),
            r is Ok ==> (*final(self) == TickArrayState {
                pool_id: pool_key,
                start_tick_index: start_index,
                recent_epoch: epoch,
                ..*old(self)
            }),
            r is Err ==> r == Err::<(), ClmmError>(ClmmError::InvalidTickRange) && *final(self)
                == *old(self),
    {
        if tick_spacing == 0 || start_index <= MIN_TICK - tick_count(tick_spacing)
            || start_index > MAX_TICK || get_array_start_index(start_index, tick_spacing)
            != start_index {
            return Err(ClmmError::InvalidTickRange);
        }
        self.start_tick_index = start_index;
        self.pool_id = pool_key;
        self.recent_epoch = epoch;
        Ok(())
    }
}

/// Whether `start_index` is the first tick of an array that holds a valid
/// tick: a multiple of `tick_count(tick_spacing)`, at most `MAX_TICK`, whose
/// array reaches past `MIN_TICK`.
pub open spec fn is_array_start(start_index: i32, tick_spacing: u16) -> bool {
    &&& tick_spacing > 0
    &&& MIN_TICK - TICK_ARRAY_SIZE * tick_spacing < start_index <= MAX_TICK
    &&& array_start_index(start_index as int, tick_spacing as int) == start_index
}

/// The ticks covered by one array: `TICK_ARRAY_SIZE * tick_spacing`.
pub fn tick_count(tick_spacing: u16) -> (r: i32)
    ensures
        r == TICK_ARRAY_SIZE * tick_spacing,
{
    TICK_ARRAY_SIZE * tick_spacing as i32
}

/// The first tick of the array holding `tick`: `tick` rounded down to a
/// multiple of `tick_count(tick_spacing)`.
pub open spec fn array_start_index(tick: int, tick_spacing: int) -> int {
    let width = TICK_ARRAY_SIZE * tick_spacing;
    (tick / width) * width
}

/// The first tick of the array holding `tick_index`, rounding toward
/// negative infinity: `-1` lies in the array that starts at `-tick_count`.
///
/// `tick_index` is a valid tick or the start of an array that holds one.
pub fn get_array_start_index(tick_index: i32, tick_spacing: u16) -> (r: i32)
    requires
        tick_spacing > 0,
        MIN_TICK - TICK_ARRAY_SIZE * tick_spacing < tick_index <= MAX_TICK,
    ensures
        r == array_start_index(tick_index as int, tick_spacing as int),
        (r as int) % (TICK_ARRAY_SIZE * tick_spacing) == 0,
        r <= tick_index < r + TICK_ARRAY_SIZE * tick_spacing,
{
    proof {
        lemma_array_start_bucket(tick_index as int, tick_spacing as int);
    }
    let ticks_in_array = tick_count(tick_spacing);
    let ghost width = ticks_in_array as int;
    let mut start = tick_index / ticks_in_array;
    if tick_index < 0 && tick_index % ticks_in_array != 0 {
        start = start - 1;
    }
    proof {
        vstd::arithmetic::div_mod::lemma_fundamental_div_mod(tick_index as int, width);
        let q = (tick_index as int) / width;
        if tick_index < 0 {
            let n = -(tick_index as int);
            vstd::arithmetic::div_mod::lemma_fundamental_div_mod(n, width);
            let (qn, rn) = (n / width, n % width);
            assert((-qn) * width == -(width * qn)) by (nonlinear_arith);
            assert((-qn - 1) * width == -(width * qn) - width) by (nonlinear_arith);
            if rn == 0 {
                vstd::arithmetic::div_mod::lemma_fundamental_div_mod_converse(
                    tick_index as int,
                    width,
                    -qn,
                    0,
                );
            } else {
                vstd::arithmetic::div_mod::lemma_fundamental_div_mod_converse(
                    tick_index as int,
                    width,
                    -qn - 1,
                    width - rn,
                );
            }
        }
        assert(start == q);
        assert(q * width == width * q) by (nonlinear_arith);
        assert(width <= 60 * 65535);
    }
    start * ticks_in_array
}

/// An array start is a multiple of `tick_count(tick_spacing)` and lies in
/// the `tick_count(tick_spacing)` ticks up to `tick`.
pub proof fn lemma_array_start_bucket(tick: int, tick_spacing: int)
    requires
        tick_spacing > 0,
    ensures
        array_start_index(tick, tick_spacing) % (TICK_ARRAY_SIZE * tick_spacing) == 0,
        array_start_index(tick, tick_spacing) <= tick < array_start_index(tick, tick_spacing)
            + TICK_ARRAY_SIZE * tick_spacing,
{
    let width = TICK_ARRAY_SIZE * tick_spacing;
    let q = tick / width;
    vstd::arithmetic::div_mod::lemma_fundamental_div_mod(tick, width);
    vstd::arithmetic::div_mod::lemma_mod_multiples_basic(q, width);
    assert(width * q == q * width) by (nonlinear_arith);
}

/// The array start of an array start is itself: applying
/// `get_array_start_index` twice gives what applying it once gives, and the
/// first result is again an admissible argument.
pub proof fn lemma_array_start_idempotent(tick: int, tick_spacing: int)
    requires
        tick_spacing > 0,
    ensures
        array_start_index(array_start_index(tick, tick_spacing), tick_spacing)
            == array_start_index(tick, tick_spacing),
        MIN_TICK <= tick ==> MIN_TICK - TICK_ARRAY_SIZE * tick_spacing < array_start_index(
            tick,
            tick_spacing,
        ),
{
    let width = TICK_ARRAY_SIZE * tick_spacing;
    let q = tick / width;
    lemma_array_start_bucket(tick, tick_spacing);
    assert(q * width == width * q) by (nonlinear_arith);
    vstd::arithmetic::div_mod::lemma_div_multiples_vanish(q, width);
}

/// What `get_tick_offset_in_array` returns for an array starting at
/// `array_start`.
pub open spec fn tick_offset(array_start: i32, tick: i32, tick_spacing: u16) -> Result<
    usize,
    ClmmError,
> {
    if tick_spacing == 0 {
        Err(ClmmError::ArithmeticPrecondition)
    } else if !(MIN_TICK <= tick <= MAX_TICK) || array_start_index(
        tick as int,
        tick_spacing as int,
    ) != array_start {
        Err(ClmmError::InvalidTickRange)
    } else {
        Ok(((tick - array_start) / (tick_spacing as int)) as usize)
    }
}

/// The slot of `tick_index` in `tick_array`: `(tick - start) / tick_spacing`.
///
/// Fails with `InvalidTickRange` when the tick is not a valid tick of this
/// array, and with `ArithmeticPrecondition` on a zero spacing.
pub fn get_tick_offset_in_array(tick_array: &TickArrayState, tick_index: i32, tick_spacing: u16) -> (r:
    Result<usize, ClmmError>)
    ensures
        r == tick_offset(tick_array.start_tick_index, tick_index, tick_spacing),
        r matches Ok(offset) ==> offset < TICK_ARRAY_SIZE_USIZE,
{
    if tick_spacing == 0 {
        return Err(ClmmError::ArithmeticPrecondition);
    }
    if tick_index < MIN_TICK || tick_index > MAX_TICK {
        return Err(ClmmError::InvalidTickRange);
    }
    let start_tick_index = get_array_start_index(tick_index, tick_spacing);
    if start_tick_index != tick_array.start_tick_index {
        return Err(ClmmError::InvalidTickRange);
    }
    proof {
        lemma_array_start_bucket(tick_index as int, tick_spacing as int);
        let d = tick_index - start_tick_index;
        let s = tick_spacing as int;
        vstd::arithmetic::div_mod::lemma_fundamental_div_mod(d, s);
        assert(d / s < TICK_ARRAY_SIZE) by (nonlinear_arith)
            requires
                0 <= d < TICK_ARRAY_SIZE * s,
                s * (d / s) + d % s == d,
                0 <= d % s,
                s > 0,
        ;
        assert(d / s >= 0) by (nonlinear_arith)
            requires
                0 <= d,
                s * (d / s) + d % s == d,
                d % s < s,
                s > 0,
        ;
    }
    let offset_in_array = ((tick_index - tick_array.start_tick_index) / (tick_spacing as i32)) as usize;
    Ok(offset_in_array)
}

/// The slot of `tick_index`, to be changed in place.
pub fn get_tick_state_mut(tick_array: &mut TickArrayState, tick_index: i32, tick_spacing: u16) -> (r:
    Result<&mut TickState, ClmmError>)
    requires
        old(tick_array).wf(),
    ensures
        tick_offset(old(tick_array).start_tick_index, tick_index, tick_spacing) is Ok ==> r is Ok,
        tick_offset(old(tick_array).start_tick_index, tick_index, tick_spacing) is Err ==> r
            == Err::<&mut TickState, ClmmError>(
            tick_offset(old(tick_array).start_tick_index, tick_index, tick_spacing)->Err_0,
        ),
        match r {
            Ok(slot) => {
                let offset = tick_offset(old(tick_array).start_tick_index, tick_index, tick_spacing)->Ok_0 as int;
                &&& tick_offset(old(tick_array).start_tick_index, tick_index, tick_spacing) is Ok
                &&& *slot == old(tick_array).ticks@[offset]
                &&& *final(tick_array) == (TickArrayState {
                    ticks: final(tick_array).ticks,
                    ..*old(tick_array)
                })
                &&& final(tick_array).ticks@ == old(tick_array).ticks@.update(offset, *final(slot))
            },
            Err(_) => *final(tick_array) == *old(tick_array),
        },
{
    let offset_in_array = get_tick_offset_in_array(tick_array, tick_index, tick_spacing)?;
    Ok(&mut tick_array.ticks[offset_in_array])
}

/// Overwrites the slot of `tick_index` with `tick_state` and records `epoch`
/// as the array's last change.
pub fn update_tick_state(
    tick_array: &mut TickArrayState,
    tick_index: i32,
    tick_spacing: u16,
    tick_state: TickState,
    epoch: u64,
) -> (r: Result<(), ClmmError>)
    requires
        old(tick_array).wf(),
    ensures
        final(tick_array).wf(),
        match tick_offset(old(tick_array).start_tick_index, tick_index, tick_spacing) {
            Ok(offset) => r is Ok && *final(tick_array) == (TickArrayState {
                ticks: final(tick_array).ticks,
                recent_epoch: epoch,
                ..*old(tick_array)
            }) && final(tick_array).ticks@ == old(tick_array).ticks@.update(offset as int, tick_state),
            Err(e) => r == Err::<(), ClmmError>(e) && *final(tick_array) == *old(tick_array),
        },
{
    let offset_in_array = get_tick_offset_in_array(tick_array, tick_index, tick_spacing)?;
    tick_array.ticks.set(offset_in_array, tick_state);
    tick_array.recent_epoch = epoch;
    Ok(())
}

/// How `get_or_create_tick_array` obtained its array.
#[derive(Debug, PartialEq, Eq)]
pub enum TickArrayAccess {
    /// The array was stored already, under the identity asked for.
    Existing(TickArrayState),
    /// No array was stored: a zeroed one was created and stamped.
    Created(TickArrayState),
}

/// Whether two pool keys are equal.
fn same_key(a: &[u8; 32], b: &[u8; 32]) -> (r: bool)
    ensures
        r == (a@ == b@),
{
    let mut i: usize = 0;
    while i < 32
        invariant
            i <= 32,
            a@.len() == 32,
            b@.len() == 32,
            forall|j: int| 0 <= j < i ==> a@[j] == b@[j],
        decreases 32 - i,
    {
        if a[i] != b[i] {
            return false;
        }
        i = i + 1;
    }
    assert(a@ =~= b@);
    true
}

/// Whether `get_or_create_tick_array` refuses these arguments: a stored
/// array that is malformed or carries another pool or start index, or, with
/// none stored, a start index that begins no array holding a valid tick.
pub open spec fn tick_array_refused(
    stored: Option<TickArrayState>,
    pool_key: [u8; 32],
    start_index: i32,
    tick_spacing: u16,
) -> bool {
    match stored {
        Some(a) => !(a.wf() && a.pool_id@ == pool_key@ && a.start_tick_index == start_index),
        None => !is_array_start(start_index, tick_spacing),
    }
}

/// Whether `r` is what `get_or_create_tick_array` owes for these arguments:
/// a stored array is handed back when it is well formed and carries the pool
/// and start index asked for; with none stored, a valid start index gives a
/// fresh zeroed array stamped with the pool, the start index and the epoch.
/// Every other case is `InvalidTickRange`.
pub open spec fn tick_array_obtained(
    stored: Option<TickArrayState>,
    pool_key: [u8; 32],
    start_index: i32,
    tick_spacing: u16,
    epoch: u64,
    r: Result<TickArrayAccess, ClmmError>,
) -> bool {
    match stored {
        Some(a) => if a.wf() && a.pool_id@ == pool_key@ && a.start_tick_index == start_index {
            r == Ok::<TickArrayAccess, ClmmError>(TickArrayAccess::Existing(a))
        } else {
            r == Err::<TickArrayAccess, ClmmError>(ClmmError::InvalidTickRange)
        },
        None => if is_array_start(start_index, tick_spacing) {
            match r {
                Ok(TickArrayAccess::Created(a)) => {
                    &&& a.wf()
                    &&& a.pool_id == pool_key
                    &&& a.start_tick_index == start_index
                    &&& a.initialized_tick_count == 0
                    &&& a.recent_epoch == epoch
                    &&& forall|i: int|
                        0 <= i < TICK_ARRAY_SIZE_USIZE ==> #[trigger] a.ticks@[i] == (TickState {
                            tick: 0,
                            liquidity_net: 0,
                            liquidity_gross: 0,
                        })
                },
                _ => false,
            }
        } else {
            r == Err::<TickArrayAccess, ClmmError>(ClmmError::InvalidTickRange)
        },
    }
}

/// The tick array of pool `pool_key` that starts at `tick_array_start_index`.
///
/// `stored` is what the store holds at the array's address, if anything. A
/// stored array is checked and handed back; otherwise a new one is created.
pub fn get_or_create_tick_array(
    stored: Option<TickArrayState>,
    pool_key: [u8; 32],
    tick_array_start_index: i32,
    tick_spacing: u16,
    epoch: u64,
) -> (r: Result<TickArrayAccess, ClmmError>)
    ensures
        tick_array_obtained(stored, pool_key, tick_array_start_index, tick_spacing, epoch, r),
{
    match stored {
        Some(tick_array) => {
            if tick_array.ticks.len() == TICK_ARRAY_SIZE_USIZE && same_key(
                &tick_array.pool_id,
                &pool_key,
            ) && tick_array.start_tick_index == tick_array_start_index {
                Ok(TickArrayAccess::Existing(tick_array))
            } else {
                Err(ClmmError::InvalidTickRange)
            }
        },
        None => {
            let mut tick_array = TickArrayState::zeroed();
            tick_array.initialize(tick_array_start_index, tick_spacing, pool_key, epoch)?;
            Ok(TickArrayAccess::Created(tick_array))
        },
    }
}

/// Makes sure that the arrays of both bounds of a position exist: the
/// arrays starting at `tick_array_lower_start_index` and
/// `tick_array_upper_start_index`, given what the store holds for each.
pub fn open_position(
    stored_lower: Option<TickArrayState>,
    stored_upper: Option<TickArrayState>,
    pool_key: [u8; 32],
    tick_array_lower_start_index: i32,
    tick_array_upper_start_index: i32,
    tick_spacing: u16,
    epoch: u64,
) -> (r: Result<(TickArrayAccess, TickArrayAccess), ClmmError>)
    ensures
        r matches Ok((lower, upper)) ==> tick_array_obtained(
            stored_lower,
            pool_key,
            tick_array_lower_start_index,
            tick_spacing,
            epoch,
            Ok(lower),
        ) && tick_array_obtained(
            stored_upper,
            pool_key,
            tick_array_upper_start_index,
            tick_spacing,
            epoch,
            Ok(upper),
        ),
        r is Err <==> tick_array_refused(
            stored_lower,
            pool_key,
            tick_array_lower_start_index,
            tick_spacing,
        ) || tick_array_refused(stored_upper, pool_key, tick_array_upper_start_index, tick_spacing),
        r matches Err(e) ==> e == ClmmError::InvalidTickRange,
{
    let lower = get_or_create_tick_array(
        stored_lower,
        pool_key,
        tick_array_lower_start_index,
        tick_spacing,
        epoch,
    )?;
    let upper = get_or_create_tick_array(
        stored_upper,
        pool_key,
        tick_array_upper_start_index,
        tick_spacing,
        epoch,
    )?;
    Ok((lower, upper))
}

/// The big-endian bytes of `start_index`, as the seeds of the array's
/// address hold them after the namespace and the pool key.
pub open spec fn start_index_be_bytes(start_index: i32) -> Seq<u8> {
    let u = start_index as u32;
    seq![(u / 0x100_0000) as u8, (u / 0x1_0000 % 0x100) as u8, (u / 0x100 % 0x100) as u8, (u % 0x100) as u8]
}

/// The start index as the seed bytes of a tick array's address.
pub fn start_index_seed(start_index: i32) -> (r: [u8; 4])
    ensures
        r@ == start_index_be_bytes(start_index),
{
    let u = start_index as u32;
    let r = [(u / 0x100_0000) as u8, (u / 0x1_0000 % 0x100) as u8, (u / 0x100 % 0x100) as u8, (u % 0x100) as u8];
    assert(r@ =~= start_index_be_bytes(start_index));
    r
}

} // verus!
