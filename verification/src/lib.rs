//! Market-making core for a single trading pair on one exchange.
//!
//! The library keeps a local mirror of the exchange's order book, tracks the
//! agent's own resting orders and base-asset balance, and decides which
//! orders to place or cancel.  All monetary amounts (prices, sizes,
//! balances) are fixed-point integers: a value counts atomic units whose
//! scale the surrounding program chooses once at startup.

pub mod account;
pub mod book;
pub mod decode;
pub mod orders;
pub mod quantize;
pub mod util;

use vstd::prelude::*;

verus! {

/// Largest amount of atomic units any price, size or balance may hold.
/// Keeping every amount under this bound keeps all the arithmetic of the
/// library free of overflow.
pub const AMOUNT_MAX: u64 = 0x20_0000_0000_0000;

} // verus!
