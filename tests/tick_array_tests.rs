use clmm_basic::errors::ClmmError;
use clmm_basic::tick_array::{
    get_array_start_index, get_or_create_tick_array, get_tick_offset_in_array,
    get_tick_state_mut, open_position, start_index_seed, tick_count, update_tick_state,
    TickArrayAccess, TickArrayState, TickState, TICK_ARRAY_STATE_LEN, TICK_RECORD_LEN,
    TICK_STATE_LEN,
};

fn created(start: i32, spacing: u16) -> TickArrayState {
    match get_or_create_tick_array(None, [7u8; 32], start, spacing, 3) {
        Ok(TickArrayAccess::Created(a)) => a,
        other => panic!("unexpected {:?}", other),
    }
}

#[test]
fn tick_count_is_sixty_spacings() {
    assert_eq!(tick_count(1), 60);
    assert_eq!(tick_count(10), 600);
}

#[test]
fn array_start_rounds_down() {
    assert_eq!(get_array_start_index(-1, 1), -60);
    assert_eq!(get_array_start_index(-60, 1), -60);
    assert_eq!(get_array_start_index(-61, 1), -120);
    assert_eq!(get_array_start_index(0, 1), 0);
    assert_eq!(get_array_start_index(59, 1), 0);
    assert_eq!(get_array_start_index(60, 1), 60);
    assert_eq!(get_array_start_index(1234, 10), 1200);
    assert_eq!(get_array_start_index(-443636, 1), -443640);
}

#[test]
fn array_start_is_multiple_of_width() {
    for spacing in [1u16, 3, 10, 60] {
        let mut t: i32 = -1000;
        while t <= 1000 {
            let s = get_array_start_index(t, spacing);
            let w = tick_count(spacing);
            assert_eq!(s % w, 0);
            assert!(s <= t && t < s + w);
            t += 1;
        }
    }
}

#[test]
fn offsets_within_array() {
    let a = created(-60, 1);
    assert_eq!(get_tick_offset_in_array(&a, -60, 1), Ok(0));
    assert_eq!(get_tick_offset_in_array(&a, -1, 1), Ok(59));
    assert_eq!(get_tick_offset_in_array(&a, 0, 1), Err(ClmmError::InvalidTickRange));
    assert_eq!(get_tick_offset_in_array(&a, -1, 0), Err(ClmmError::ArithmeticPrecondition));
    let b = created(600, 10);
    assert_eq!(get_tick_offset_in_array(&b, 1190, 10), Ok(59));
}

#[test]
fn create_then_reuse() {
    let a = created(120, 2);
    assert_eq!(a.start_tick_index, 120);
    assert_eq!(a.pool_id, [7u8; 32]);
    assert_eq!(a.recent_epoch, 3);
    assert_eq!(a.ticks.len(), 60);
    let again = get_or_create_tick_array(Some(a.clone()), [7u8; 32], 120, 2, 9);
    assert_eq!(again, Ok(TickArrayAccess::Existing(a.clone())));
    let other_pool = get_or_create_tick_array(Some(a), [8u8; 32], 120, 2, 9);
    assert_eq!(other_pool, Err(ClmmError::InvalidTickRange));
}

#[test]
fn create_rejects_misaligned_start() {
    assert_eq!(
        get_or_create_tick_array(None, [7u8; 32], 30, 1, 0),
        Err(ClmmError::InvalidTickRange)
    );
}

#[test]
fn update_and_adjust_slots() {
    let mut a = created(0, 1);
    let record = TickState { tick: 5, liquidity_net: -4, liquidity_gross: 4 };
    assert_eq!(update_tick_state(&mut a, 5, 1, record, 11), Ok(()));
    assert_eq!(a.ticks[5], record);
    assert_eq!(a.recent_epoch, 11);
    {
        let slot = get_tick_state_mut(&mut a, 5, 1).unwrap();
        slot.liquidity_gross += 6;
    }
    assert_eq!(a.ticks[5].liquidity_gross, 10);
    assert_eq!(update_tick_state(&mut a, 60, 1, record, 12), Err(ClmmError::InvalidTickRange));
    assert_eq!(a.recent_epoch, 11);
}

#[test]
fn open_position_creates_both_arrays() {
    let (lower, upper) = open_position(None, None, [1u8; 32], -60, 0, 1, 4).unwrap();
    assert!(matches!(lower, TickArrayAccess::Created(ref a) if a.start_tick_index == -60));
    assert!(matches!(upper, TickArrayAccess::Created(ref a) if a.start_tick_index == 0));
}

#[test]
fn seed_is_big_endian() {
    assert_eq!(start_index_seed(-60), (-60i32).to_be_bytes());
    assert_eq!(start_index_seed(0x0102_0304), [1, 2, 3, 4]);
    assert_eq!(start_index_seed(443580), 443580i32.to_be_bytes());
}

#[test]
fn array_holding_min_tick_can_be_created() {
    assert_eq!(get_array_start_index(-443636, 1), -443640);
    assert_eq!(get_array_start_index(-443640, 1), -443640);
    let a = created(-443640, 1);
    assert_eq!(get_tick_offset_in_array(&a, -443636, 1), Ok(4));
    assert_eq!(
        get_or_create_tick_array(None, [7u8; 32], -443700, 1, 0),
        Err(ClmmError::InvalidTickRange)
    );
    assert_eq!(
        get_or_create_tick_array(None, [7u8; 32], 443640, 1, 0),
        Err(ClmmError::InvalidTickRange)
    );
    let b = created(443580, 1);
    assert_eq!(get_tick_offset_in_array(&b, 443636, 1), Ok(56));
}

#[test]
fn open_position_reports_refusal() {
    assert!(matches!(
        open_position(None, None, [1u8; 32], 30, 0, 1, 4),
        Err(ClmmError::InvalidTickRange)
    ));
    assert!(matches!(
        open_position(None, None, [1u8; 32], 0, 31, 1, 4),
        Err(ClmmError::InvalidTickRange)
    ));
}

#[test]
fn stored_sizes() {
    assert_eq!(TICK_RECORD_LEN, 88);
    assert_eq!(TICK_STATE_LEN, 96);
    assert_eq!(TICK_ARRAY_STATE_LEN, 5448);
}

#[test]
fn tick_state_mut_on_every_slot() {
    let mut a = created(-120, 2);
    let mut t: i32 = -120;
    while t < 0 {
        let slot = get_tick_state_mut(&mut a, t, 2).unwrap();
        slot.tick = t;
        t += 2;
    }
    assert_eq!(a.ticks[0].tick, -120);
    assert_eq!(a.ticks[59].tick, -2);
    assert!(get_tick_state_mut(&mut a, 0, 2).is_err());
}
