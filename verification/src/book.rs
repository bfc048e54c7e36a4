//! The local mirror of the exchange's order book for one trading pair.
//!
//! A [`MarketSnapshot`] holds the two sides of the book.  The streaming
//! feed sends incremental [`BookDelta`] values; applying one replaces the
//! size at each named price, removes levels whose new size is zero, and
//! keeps bids strictly descending and asks strictly ascending by price.

use vstd::prelude::*;

verus! {

/// One price level of the book: `size` atomic units resting at `price`.
#[derive(Clone, Copy, Debug, PartialEq, Eq, Structural)]
pub struct PriceLevel {
    pub price: u64,
    pub size: u64,
}

/// One incremental update from the streaming feed.  An entry with size 0
/// asks for the removal of that price from the book.
pub struct BookDelta {
    pub bids: Vec<PriceLevel>,
    pub asks: Vec<PriceLevel>,
}

/// The best-known state of the book: bids descending, asks ascending by
/// price.  A full snapshot fetched at startup is applied as a delta to an
/// empty book.
pub struct MarketSnapshot {
    pub bids: Vec<PriceLevel>,
    pub asks: Vec<PriceLevel>,
}

/// Prices strictly sorted: descending for the bid side, ascending for the
/// ask side.
pub open spec fn sorted_strict(s: Seq<PriceLevel>, descending: bool) -> bool {
    forall|i: int, j: int|
        0 <= i < j < s.len() ==> (if descending {
            s[i].price > s[j].price
        } else {
            s[i].price < s[j].price
        })
}

pub open spec fn positive_sizes(s: Seq<PriceLevel>) -> bool {
    forall|i: int| 0 <= i < s.len() ==> s[i].size > 0
}

/// A well-formed side: strictly sorted (hence duplicate-free) with no
/// zero-size levels stored.
pub open spec fn wf_side(s: Seq<PriceLevel>, descending: bool) -> bool {
    sorted_strict(s, descending) && positive_sizes(s)
}

/// The size resting at price `p`, 0 when the price is absent.  When a
/// price occurs several times the entry nearest the end decides, which is
/// also what gives delta sequences their last-entry-wins meaning.
pub open spec fn level_size(s: Seq<PriceLevel>, p: int) -> int
    decreases s.len(),
{
    if s.len() == 0 {
        0
    } else if s.last().price == p {
        s.last().size as int
    } else {
        level_size(s.drop_last(), p)
    }
}

/// What a delta dictates at price `p`: the size of its last entry for
/// `p`, or nothing when it never names `p`.
pub open spec fn delta_entry(d: Seq<PriceLevel>, p: int) -> Option<int>
    decreases d.len(),
{
    if d.len() == 0 {
        None
    } else if d.last().price == p {
        Some(d.last().size as int)
    } else {
        delta_entry(d.drop_last(), p)
    }
}

/// The size at price `p` after a delta `d` is applied to side `s`.
pub open spec fn updated_size(s: Seq<PriceLevel>, d: Seq<PriceLevel>, p: int) -> int {
    match delta_entry(d, p) {
        Some(z) => z,
        None => level_size(s, p),
    }
}

proof fn lemma_level_size_present(s: Seq<PriceLevel>, i: int)
    requires
        0 <= i < s.len(),
        forall|j: int| 0 <= j < s.len() && j != i ==> s[j].price != s[i].price,
    ensures
        level_size(s, s[i].price as int) == s[i].size,
    decreases s.len(),
{
    if i == s.len() - 1 {
    } else {
        assert(s.last().price != s[i].price);
        assert(s.drop_last()[i] == s[i]);
        lemma_level_size_present(s.drop_last(), i);
    }
}

proof fn lemma_level_size_absent(s: Seq<PriceLevel>, p: int)
    requires
        forall|j: int| 0 <= j < s.len() ==> s[j].price != p,
    ensures
        level_size(s, p) == 0,
    decreases s.len(),
{
    if s.len() == 0 {
    } else {
        lemma_level_size_absent(s.drop_last(), p);
    }
}

/// Two prices at distinct indexes of a well-formed side always differ:
/// strict sortedness leaves no room for duplicate price levels.
pub proof fn lemma_wf_side_distinct(s: Seq<PriceLevel>, descending: bool, i: int, j: int)
    requires
        wf_side(s, descending),
        0 <= i < s.len(),
        0 <= j < s.len(),
        i != j,
    ensures
        s[i].price != s[j].price,
{
}

/// A nonzero size at price `p` is witnessed by a level at `p`.
proof fn lemma_level_size_witness(s: Seq<PriceLevel>, p: int)
    requires
        level_size(s, p) != 0,
    ensures
        exists|i: int| 0 <= i < s.len() && (#[trigger] s[i]).price == p,
    decreases s.len(),
{
    if s.len() == 0 {
    } else if s.last().price == p {
        assert(s[s.len() - 1].price == p);
    } else {
        lemma_level_size_witness(s.drop_last(), p);
        let i = choose|i: int| 0 <= i < s.drop_last().len() && (#[trigger] s.drop_last()[i]).price
            == p;
        assert(s[i].price == p);
    }
}

/// The size-by-price view determines a well-formed side completely: two
/// well-formed sides of the same orientation that agree on the size at
/// every price are the same sequence.  So the `apply_delta` contract
/// pins each side of the result uniquely.
pub proof fn lemma_wf_side_unique(s1: Seq<PriceLevel>, s2: Seq<PriceLevel>, descending: bool)
    requires
        wf_side(s1, descending),
        wf_side(s2, descending),
        forall|p: int| level_size(s1, p) == level_size(s2, p),
    ensures
        s1 == s2,
    decreases s1.len(),
{
    if s1.len() == 0 {
        if s2.len() != 0 {
            let p2 = s2.last().price as int;
            assert(level_size(s2, p2) == s2.last().size);
            lemma_level_size_absent(s1, p2);
        }
        assert(s1 =~= s2);
    } else if s2.len() == 0 {
        let p1 = s1.last().price as int;
        assert(level_size(s1, p1) == s1.last().size);
        lemma_level_size_absent(s2, p1);
    } else {
        let p1 = s1.last().price as int;
        let p2 = s2.last().price as int;
        assert(level_size(s1, p1) == s1.last().size);
        assert(level_size(s2, p2) == s2.last().size);
        // The two last prices occur in each other's sequence.
        lemma_level_size_witness(s2, p1);
        lemma_level_size_witness(s1, p2);
        let i2 = choose|i: int| 0 <= i < s2.len() && (#[trigger] s2[i]).price == p1;
        let i1 = choose|i: int| 0 <= i < s1.len() && (#[trigger] s1[i]).price == p2;
        // Being last means holding the extreme price of the side, so the
        // two last prices must coincide.
        if p1 != p2 {
            assert(i1 < s1.len() - 1);
            assert(i2 < s2.len() - 1);
            if descending {
                assert(s1[i1].price > s1.last().price);
                assert(s2[i2].price > s2.last().price);
            } else {
                assert(s1[i1].price < s1.last().price);
                assert(s2[i2].price < s2.last().price);
            }
        }
        assert(p1 == p2);
        assert(s1.last().size == s2.last().size);
        // The remainders agree on every size, so induction closes it.
        let t1 = s1.drop_last();
        let t2 = s2.drop_last();
        assert forall|p: int| level_size(t1, p) == level_size(t2, p) by {
            if p == p1 {
                assert forall|j: int| 0 <= j < t1.len() implies (#[trigger] t1[j]).price != p by {
                    lemma_wf_side_distinct(s1, descending, j, s1.len() - 1);
                }
                assert forall|j: int| 0 <= j < t2.len() implies (#[trigger] t2[j]).price != p by {
                    lemma_wf_side_distinct(s2, descending, j, s2.len() - 1);
                }
                lemma_level_size_absent(t1, p);
                lemma_level_size_absent(t2, p);
            } else {
                assert(level_size(t1, p) == level_size(s1, p));
                assert(level_size(t2, p) == level_size(s2, p));
            }
        }
        lemma_wf_side_unique(t1, t2, descending);
        assert(s1.last() == s2.last());
        assert forall|i: int| 0 <= i < s1.len() implies s1[i] == s2[i] by {
            if i < s1.len() - 1 {
                assert(s1[i] == t1[i]);
                assert(s2[i] == t2[i]);
            }
        }
        assert(s1 =~= s2);
    }
}

/// Applies one delta entry to one side, keeping it well formed.
fn apply_entry(side: &mut Vec<PriceLevel>, e: PriceLevel, descending: bool)
    requires
        wf_side(old(side)@, descending),
    ensures
        wf_side(final(side)@, descending),
        level_size(final(side)@, e.price as int) == e.size,
        forall|p: int|
            p != e.price as int ==> level_size(final(side)@, p) == level_size(old(side)@, p),
{
    let ghost s0 = side@;
    let price = e.price;
    let mut pos: usize = 0;
    loop
        invariant
            side@ == s0,
            wf_side(s0, descending),
            pos <= s0.len(),
            forall|m: int|
                0 <= m < pos ==> (if descending {
                    s0[m].price > price
                } else {
                    s0[m].price < price
                }),
        ensures
            side@ == s0,
            pos <= s0.len(),
            forall|m: int|
                0 <= m < pos ==> (if descending {
                    s0[m].price > price
                } else {
                    s0[m].price < price
                }),
            pos < s0.len() ==> (if descending {
                s0[pos as int].price <= price
            } else {
                s0[pos as int].price >= price
            }),
        decreases s0.len() - pos,
    {
        if pos >= side.len() {
            break;
        }
        let goes_before = if descending {
            side[pos].price > price
        } else {
            side[pos].price < price
        };
        if !goes_before {
            break;
        }
        pos += 1;
    }
    let found = pos < side.len() && side[pos].price == price;
    proof {
        // Every index other than `pos` holds a different price.
        assert forall|j: int| 0 <= j < s0.len() && j != pos implies s0[j].price != price as int by {
            if j > pos && pos < s0.len() {
                lemma_wf_side_distinct(s0, descending, pos as int, j);
            }
        }
    }
    if found {
        if e.size == 0 {
            side.remove(pos);
            proof {
                let s1 = side@;
                assert(s1 =~= s0.remove(pos as int));
                assert forall|j: int| 0 <= j < s1.len() implies s1[j].price != price as int by {
                    if j < pos {
                        assert(s1[j] == s0[j]);
                    } else {
                        assert(s1[j] == s0[j + 1]);
                    }
                }
                lemma_level_size_absent(s1, price as int);
                assert forall|p: int|
                    p != e.price as int implies level_size(s1, p) == level_size(s0, p) by {
                    lemma_level_sizes_shift_remove(s0, s1, pos as int, p);
                }
            }
        } else {
            let repl = PriceLevel { price, size: e.size };
            side[pos] = repl;
            proof {
                let s1 = side@;
                assert(s1 =~= s0.update(pos as int, repl));
                lemma_level_size_present(s1, pos as int);
                assert forall|p: int|
                    p != e.price as int implies level_size(s1, p) == level_size(s0, p) by {
                    lemma_level_sizes_match_update(s0, s1, pos as int, p);
                }
            }
        }
    } else {
        if e.size > 0 {
            let ins = PriceLevel { price, size: e.size };
            side.insert(pos, ins);
            proof {
                let s1 = side@;
                assert(s1 =~= s0.insert(pos as int, ins));
                assert forall|i: int, j: int| 0 <= i < j < s1.len() implies (if descending {
                    s1[i].price > s1[j].price
                } else {
                    s1[i].price < s1[j].price
                }) by {
                    if i < pos {
                        assert(s1[i] == s0[i]);
                    } else if i == pos {
                        assert(s1[i] == ins);
                    } else {
                        assert(s1[i] == s0[i - 1]);
                    }
                    if j < pos {
                        assert(s1[j] == s0[j]);
                    } else if j == pos {
                        assert(s1[j] == ins);
                    } else {
                        assert(s1[j] == s0[j - 1]);
                    }
                }
                assert forall|j: int| 0 <= j < s1.len() && j != pos implies s1[j].price
                    != price as int by {
                    if j < pos {
                        assert(s1[j] == s0[j]);
                    } else {
                        assert(s1[j] == s0[j - 1]);
                    }
                }
                lemma_level_size_present(s1, pos as int);
                assert forall|p: int|
                    p != e.price as int implies level_size(s1, p) == level_size(s0, p) by {
                    lemma_level_sizes_shift_insert(s0, s1, pos as int, p);
                }
            }
        } else {
            proof {
                lemma_level_size_absent(s0, price as int);
            }
        }
    }
}

/// After removing index `pos`, the size at any price not held at `pos`
/// is unchanged.
proof fn lemma_level_sizes_shift_remove(s0: Seq<PriceLevel>, s1: Seq<PriceLevel>, pos: int, p: int)
    requires
        0 <= pos < s0.len(),
        s1 == s0.remove(pos),
        p != s0[pos].price as int,
        forall|i: int, j: int|
            0 <= i < s0.len() && 0 <= j < s0.len() && i != j ==> s0[i].price != s0[j].price,
    ensures
        level_size(s1, p) == level_size(s0, p),
{
    if exists|j: int| 0 <= j < s0.len() && s0[j].price == p {
        let j = choose|j: int| 0 <= j < s0.len() && s0[j].price == p;
        assert(j != pos);
        let j1 = if j < pos { j } else { j - 1 };
        assert(s1[j1] == s0[j]);
        assert forall|m: int| 0 <= m < s1.len() && m != j1 implies s1[m].price != s1[j1].price by {
            let m0 = if m < pos { m } else { m + 1 };
            assert(s1[m] == s0[m0]);
        }
        lemma_level_size_present(s1, j1);
        lemma_level_size_present(s0, j);
    } else {
        assert forall|m: int| 0 <= m < s1.len() implies s1[m].price != p by {
            let m0 = if m < pos { m } else { m + 1 };
            assert(s1[m] == s0[m0]);
        }
        lemma_level_size_absent(s1, p);
        lemma_level_size_absent(s0, p);
    }
}

/// After replacing the level at index `pos`, the size at any other price
/// is unchanged.
proof fn lemma_level_sizes_match_update(s0: Seq<PriceLevel>, s1: Seq<PriceLevel>, pos: int, p: int)
    requires
        0 <= pos < s0.len(),
        s1 == s0.update(pos, s1[pos]),
        s1[pos].price == s0[pos].price,
        p != s0[pos].price as int,
        forall|i: int, j: int|
            0 <= i < s0.len() && 0 <= j < s0.len() && i != j ==> s0[i].price != s0[j].price,
    ensures
        level_size(s1, p) == level_size(s0, p),
{
    if exists|j: int| 0 <= j < s0.len() && s0[j].price == p {
        let j = choose|j: int| 0 <= j < s0.len() && s0[j].price == p;
        assert(j != pos);
        assert(s1[j] == s0[j]);
        assert forall|m: int| 0 <= m < s1.len() && m != j implies s1[m].price != s1[j].price by {
            assert(s1[m].price == s0[m].price);
        }
        lemma_level_size_present(s1, j);
        lemma_level_size_present(s0, j);
    } else {
        assert forall|m: int| 0 <= m < s1.len() implies s1[m].price != p by {
            assert(s1[m].price == s0[m].price);
        }
        lemma_level_size_absent(s1, p);
        lemma_level_size_absent(s0, p);
    }
}

/// After inserting a level at index `pos`, the size at any price other
/// than the inserted one is unchanged.
proof fn lemma_level_sizes_shift_insert(s0: Seq<PriceLevel>, s1: Seq<PriceLevel>, pos: int, p: int)
    requires
        0 <= pos <= s0.len(),
        s1 == s0.insert(pos, s1[pos]),
        p != s1[pos].price as int,
        forall|i: int, j: int|
            0 <= i < s0.len() && 0 <= j < s0.len() && i != j ==> s0[i].price != s0[j].price,
    ensures
        level_size(s1, p) == level_size(s0, p),
{
    if exists|j: int| 0 <= j < s0.len() && s0[j].price == p {
        let j = choose|j: int| 0 <= j < s0.len() && s0[j].price == p;
        let j1 = if j < pos { j } else { j + 1 };
        assert(s1[j1] == s0[j]);
        assert forall|m: int| 0 <= m < s1.len() && m != j1 implies s1[m].price != s1[j1].price by {
            if m != pos {
                let m0 = if m < pos { m } else { m - 1 };
                assert(s1[m] == s0[m0]);
            }
        }
        lemma_level_size_present(s1, j1);
        lemma_level_size_present(s0, j);
    } else {
        assert forall|m: int| 0 <= m < s1.len() implies s1[m].price != p by {
            if m != pos {
                let m0 = if m < pos { m } else { m - 1 };
                assert(s1[m] == s0[m0]);
            }
        }
        lemma_level_size_absent(s1, p);
        lemma_level_size_absent(s0, p);
    }
}

/// Applies a whole delta sequence to one side, entry by entry.
fn apply_side(side: &mut Vec<PriceLevel>, delta: &Vec<PriceLevel>, descending: bool)
    requires
        wf_side(old(side)@, descending),
    ensures
        wf_side(final(side)@, descending),
        forall|p: int| level_size(final(side)@, p) == updated_size(old(side)@, delta@, p),
        delta@.len() == 0 ==> final(side)@ == old(side)@,
{
    let ghost s0 = side@;
    let n = delta.len();
    let mut k: usize = 0;
    while k < n
        invariant
            n == delta@.len(),
            k <= n,
            wf_side(side@, descending),
            forall|p: int| level_size(side@, p) == updated_size(s0, delta@.take(k as int), p),
            k == 0 ==> side@ == s0,
        decreases n - k,
    {
        let e = delta[k];
        let ghost before = side@;
        apply_entry(side, e, descending);
        proof {
            let d1 = delta@.take(k as int + 1);
            assert(d1.drop_last() =~= delta@.take(k as int));
            assert(d1.last() == delta@[k as int]);
            assert forall|p: int|
                level_size(side@, p) == updated_size(s0, d1, p) by {
                if p == e.price as int {
                    assert(delta_entry(d1, p) == Some(e.size as int));
                } else {
                    assert(delta_entry(d1, p) == delta_entry(d1.drop_last(), p));
                    assert(level_size(side@, p) == level_size(before, p));
                }
            }
        }
        k += 1;
    }
    proof {
        assert(delta@.take(n as int) =~= delta@);
    }
}

impl MarketSnapshot {
    /// Both sides well formed.
    pub open spec fn wf(self) -> bool {
        wf_side(self.bids@, true) && wf_side(self.asks@, false)
    }

    /// The price of the first (greatest) bid level, absent on an empty side.
    pub open spec fn spec_best_bid(self) -> Option<u64> {
        if self.bids@.len() == 0 {
            None
        } else {
            Some(self.bids@[0].price)
        }
    }

    /// The price of the first (least) ask level, absent on an empty side.
    pub open spec fn spec_best_ask(self) -> Option<u64> {
        if self.asks@.len() == 0 {
            None
        } else {
            Some(self.asks@[0].price)
        }
    }

    /// An empty book, the state before the initial full fetch is applied.
    pub fn new() -> (r: MarketSnapshot)
        ensures
            r.wf(),
            r.bids@.len() == 0,
            r.asks@.len() == 0,
    {
        MarketSnapshot { bids: Vec::new(), asks: Vec::new() }
    }

    pub fn best_bid(&self) -> (r: Option<u64>)
        ensures
            r == self.spec_best_bid(),
    {
        if self.bids.len() == 0 {
            None
        } else {
            Some(self.bids[0].price)
        }
    }

    pub fn best_ask(&self) -> (r: Option<u64>)
        ensures
            r == self.spec_best_ask(),
    {
        if self.asks.len() == 0 {
            None
        } else {
            Some(self.asks[0].price)
        }
    }

    /// Applies one feed delta: each named price takes the delta's size,
    /// zero-size levels disappear, and both sides stay strictly sorted.
    /// An empty delta leaves the snapshot unchanged.  By
    /// [`lemma_wf_side_unique`], well-formedness together with the
    /// size-by-price clauses determines each side of the result
    /// completely.
    pub fn apply_delta(&mut self, delta: &BookDelta)
        requires
            old(self).wf(),
        ensures
            final(self).wf(),
            forall|p: int|
                level_size(final(self).bids@, p) == updated_size(old(self).bids@, delta.bids@, p),
            forall|p: int|
                level_size(final(self).asks@, p) == updated_size(old(self).asks@, delta.asks@, p),
            delta.bids@.len() == 0 ==> final(self).bids@ == old(self).bids@,
            delta.asks@.len() == 0 ==> final(self).asks@ == old(self).asks@,
    {
        apply_side(&mut self.bids, &delta.bids, true);
        apply_side(&mut self.asks, &delta.asks, false);
    }
}

} // verus!
