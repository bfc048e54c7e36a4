//! Rounding of fixed-point amounts to a configured increment.
//!
//! Every mutation of a balance or an order size passes through
//! [`round_to_increment`], so amounts never drift away from the grid of
//! representable exchange quantities.

use vstd::prelude::*;
use vstd::arithmetic::div_mod::{
    lemma_div_multiples_vanish_fancy, lemma_fundamental_div_mod, lemma_mod_bound,
    lemma_mod_multiples_basic,
};

verus! {

/// The value `v` rounded to the nearest multiple of `inc` (ties upward).
pub open spec fn spec_round_to_increment(v: int, inc: int) -> int
    recommends
        inc >= 1,
{
    ((v + inc / 2) / inc) * inc
}

/// Rounds `v` to the nearest multiple of `inc`, ties upward.
pub fn round_to_increment(v: u64, inc: u64) -> (r: u64)
    requires
        1 <= inc,
        v + inc <= u64::MAX,
    ensures
        r == spec_round_to_increment(v as int, inc as int),
        r % inc == 0,
        r <= v + inc / 2,
{
    let half: u64 = inc / 2;
    let q: u64 = (v + half) / inc;
    proof {
        lemma_fundamental_div_mod((v + half) as int, inc as int);
        lemma_mod_bound((v + half) as int, inc as int);
        lemma_mod_multiples_basic(q as int, inc as int);
        assert(inc as int * (q as int) <= v + half);
    }
    q * inc
}

/// Rounding to an increment is idempotent: rounding an already-rounded
/// value changes nothing.
pub proof fn lemma_round_to_increment_idempotent(v: int, inc: int)
    requires
        inc >= 1,
    ensures
        spec_round_to_increment(spec_round_to_increment(v, inc), inc)
            == spec_round_to_increment(v, inc),
{
    let k = (v + inc / 2) / inc;
    assert((inc * k + inc / 2) / inc == k) by {
        lemma_div_multiples_vanish_fancy(k, inc / 2, inc);
    }
}

} // verus!
