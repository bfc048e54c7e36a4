//! The agent's own orders and the fills reported against them.

use vstd::prelude::*;
use crate::AMOUNT_MAX;

verus! {

/// Which side of the book an order rests on.
#[derive(Clone, Copy, Debug, PartialEq, Eq, Structural)]
pub enum Side {
    Buy,
    Sell,
}

/// An order resting on the exchange's book, as the ledger believes it.
#[derive(Clone, Copy, Debug, PartialEq, Eq, Structural)]
pub struct RestingOrder {
    pub id: u64,
    pub side: Side,
    pub price: u64,
    pub size: u64,
}

impl RestingOrder {
    /// Amounts small enough for all the ledger's arithmetic.
    pub open spec fn wf(self) -> bool {
        self.price <= AMOUNT_MAX && self.size <= AMOUNT_MAX
    }
}

/// One trade execution, as far as the ledger cares: the filled size and
/// the id of the resting (maker) order it filled.  Ephemeral: consumed
/// once to update the ledger and the balance, never stored.
#[derive(Clone, Copy, Debug, PartialEq, Eq, Structural)]
pub struct Execution {
    pub size: u64,
    pub maker_id: u64,
}

} // verus!
