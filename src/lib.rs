//! Fixed-point math of a concentrated-liquidity market maker: conversion
//! between ticks and square-root prices, token amounts for a liquidity change,
//! and the bucketing of ticks into fixed-size arrays.
use vstd::prelude::*;

pub mod big_num;
pub mod errors;
pub mod liquidity_math;
pub mod precision_math;
pub mod tick_array;
pub mod tick_math;

verus! {

/// The pool state that the math reads: price, liquidity, current tick and
/// spacing, with the keys of its mints and vaults.
#[derive(Clone, Copy, Debug, PartialEq, Eq)]
pub struct PoolState {
    pub sqrt_price_x64: u128,
    pub liquidity: u128,
    pub token_mint_0: [u8; 32],
    pub token_mint_1: [u8; 32],
    pub token_vault_0: [u8; 32],
    pub token_vault_1: [u8; 32],
    pub open_time: u64,
    pub current_tick: i32,
    pub tick_spacing: u16,
    pub bump: u8,
}

} // verus!
