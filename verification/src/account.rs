//! The aggregate state of the agent for one traded pair, and the three
//! operations the event loop drives it with: absorbing market events,
//! reconciling against exchange-reported truth, and deciding which
//! orders to place or cancel.

use vstd::prelude::*;
use vstd::string::StringExecFns;
use crate::AMOUNT_MAX;
use crate::book::{BookDelta, MarketSnapshot, level_size, updated_size};
use crate::decode::{DecodeError, decode_executions, decoded_execs, exec_nums_ok, exec_shape_ok};
use crate::orders::{Execution, RestingOrder, Side};
use crate::quantize::{round_to_increment, spec_round_to_increment};

verus! {

/// A rejected set of startup parameters.
#[derive(Clone, Copy, Debug, PartialEq, Eq, Structural)]
pub enum ConfigError {
    BadParameter,
}

/// The immutable trading parameters, fixed at startup.  All amounts are
/// atomic units: one price unit is `10^-price_scale` of the quote asset,
/// one size unit is `10^-size_scale` of the base asset.
#[derive(Debug)]
pub struct Config {
    /// The traded pair.
    pub symbol: String,
    /// The fixed size of a fresh buy order.
    pub size: u64,
    /// The largest size a single order may take.
    pub max_size: u64,
    /// The grid prices are rounded to.
    pub price_increment: u64,
    /// The grid sizes and balances are rounded to.
    pub size_increment: u64,
    /// Below this balance the agent quotes a buyer, from it a seller.
    pub min_order_size: u64,
    /// Decimal digits of one price unit.
    pub price_scale: u32,
    /// Decimal digits of one size unit.
    pub size_scale: u32,
}

impl Config {
    pub open spec fn wf(self) -> bool {
        &&& 1 <= self.price_increment <= AMOUNT_MAX
        &&& 1 <= self.size_increment <= AMOUNT_MAX
        &&& self.size <= AMOUNT_MAX
        &&& self.max_size <= AMOUNT_MAX
        &&& self.min_order_size <= AMOUNT_MAX
        &&& self.price_scale <= 15
        &&& self.size_scale <= 15
    }

    /// Accepts exactly the parameter sets whose amounts the library can
    /// hold and whose increments are positive.
    pub fn new(
        symbol: &str,
        size: u64,
        price_increment: u64,
        size_increment: u64,
        min_order_size: u64,
        price_scale: u32,
        size_scale: u32,
    ) -> (r: Result<Config, ConfigError>)
        ensures
            (match r {
                Ok(c) => {
                    &&& c.wf()
                    &&& c.symbol@ == symbol@
                    &&& c.size == size
                    &&& c.max_size == size
                    &&& c.price_increment == price_increment
                    &&& c.size_increment == size_increment
                    &&& c.min_order_size == min_order_size
                    &&& c.price_scale == price_scale
                    &&& c.size_scale == size_scale
                },
                Err(e) => {
                    &&& e == ConfigError::BadParameter
                    &&& !(1 <= price_increment <= AMOUNT_MAX && 1 <= size_increment <= AMOUNT_MAX
                        && size <= AMOUNT_MAX && min_order_size <= AMOUNT_MAX && price_scale <= 15
                        && size_scale <= 15)
                },
            }),
    {
        if !(1 <= price_increment && price_increment <= AMOUNT_MAX) {
            return Err(ConfigError::BadParameter);
        }
        if !(1 <= size_increment && size_increment <= AMOUNT_MAX) {
            return Err(ConfigError::BadParameter);
        }
        if !(size <= AMOUNT_MAX && min_order_size <= AMOUNT_MAX) {
            return Err(ConfigError::BadParameter);
        }
        if !(price_scale <= 15 && size_scale <= 15) {
            return Err(ConfigError::BadParameter);
        }
        Ok(Config {
            symbol: String::from_str(symbol),
            size,
            max_size: size,
            price_increment,
            size_increment,
            min_order_size,
            price_scale,
            size_scale,
        })
    }
}

/// An amount clipped to what the library can hold.
pub open spec fn clamp_amount(v: int) -> int {
    if v <= AMOUNT_MAX {
        v
    } else {
        AMOUNT_MAX as int
    }
}

/// One order placement or cancellation the decision pass asks for.
#[derive(Clone, Copy, Debug, PartialEq, Eq, Structural)]
pub enum OrderCommand {
    PlaceBuy { price: u64, size: u64 },
    PlaceSell { price: u64, size: u64 },
    CancelBuy { id: u64 },
    CancelSell { id: u64 },
}

/// The agent's state for one traded pair: base-asset balance, at most
/// one resting order per side, and the mirrored order book.
pub struct State {
    pub symbol: String,
    pub btc_balance: u64,
    pub buy_order: Option<RestingOrder>,
    pub sell_order: Option<RestingOrder>,
    pub order_book: Option<MarketSnapshot>,
}

/// The orders reported for one side, kept in reported sequence order.
pub open spec fn side_orders(s: Seq<RestingOrder>, side: Side) -> Seq<RestingOrder>
    decreases s.len(),
{
    if s.len() == 0 {
        Seq::empty()
    } else {
        let rest = side_orders(s.drop_last(), side);
        if s.last().side == side {
            rest.push(s.last())
        } else {
            rest
        }
    }
}

/// The one order of a side that reconciliation keeps: the last reported.
pub open spec fn kept_order(s: Seq<RestingOrder>) -> Option<RestingOrder> {
    if s.len() == 0 {
        None
    } else {
        Some(s.last())
    }
}

/// The ids reconciliation cancels on a side: every reported order but
/// the kept one.
pub open spec fn stale_ids(s: Seq<RestingOrder>) -> Seq<u64> {
    if s.len() <= 1 {
        Seq::empty()
    } else {
        s.drop_last().map_values(|o: RestingOrder| o.id)
    }
}

/// What is left of a resting order after a fill: gone when the fill
/// covers it, else its size less the filled size, rounded.
pub open spec fn fill_order_after(o: RestingOrder, ex: Execution, inc: int) -> Option<
    RestingOrder,
> {
    if ex.size >= o.size {
        None
    } else {
        Some(
            (RestingOrder {
                id: o.id,
                side: o.side,
                price: o.price,
                size: clamp_amount(spec_round_to_increment(o.size - ex.size, inc)) as u64,
            }),
        )
    }
}

/// The balance after a buy-side fill: the filled size is acquired.
pub open spec fn balance_after_buy(bal: int, sz: int, inc: int) -> int {
    clamp_amount(spec_round_to_increment(bal + sz, inc))
}

/// The balance after a sell-side fill: the filled size is given up,
/// never below zero.
pub open spec fn balance_after_sell(bal: int, sz: int, inc: int) -> int {
    clamp_amount(spec_round_to_increment(if bal >= sz { bal - sz } else { 0 }, inc))
}

/// One execution applied to the ledger: each side whose resting order
/// the execution's maker id names is filled, any other execution is
/// ignored.
pub open spec fn spec_apply_fill(
    buy: Option<RestingOrder>,
    sell: Option<RestingOrder>,
    bal: int,
    ex: Execution,
    inc: int,
) -> (Option<RestingOrder>, Option<RestingOrder>, int) {
    let hit_buy = buy matches Some(o) && o.id == ex.maker_id;
    let buy1 = if hit_buy {
        fill_order_after(buy->Some_0, ex, inc)
    } else {
        buy
    };
    let bal1 = if hit_buy {
        balance_after_buy(bal, ex.size as int, inc)
    } else {
        bal
    };
    let hit_sell = sell matches Some(o) && o.id == ex.maker_id;
    let sell1 = if hit_sell {
        fill_order_after(sell->Some_0, ex, inc)
    } else {
        sell
    };
    let bal2 = if hit_sell {
        balance_after_sell(bal1, ex.size as int, inc)
    } else {
        bal1
    };
    (buy1, sell1, bal2)
}

/// A whole batch of executions applied in reported order.
pub open spec fn spec_apply_fills(
    buy: Option<RestingOrder>,
    sell: Option<RestingOrder>,
    bal: int,
    execs: Seq<Execution>,
    inc: int,
) -> (Option<RestingOrder>, Option<RestingOrder>, int)
    decreases execs.len(),
{
    if execs.len() == 0 {
        (buy, sell, bal)
    } else {
        let (b1, s1, l1) = spec_apply_fills(buy, sell, bal, execs.drop_last(), inc);
        spec_apply_fill(b1, s1, l1, execs.last(), inc)
    }
}

impl State {
    /// Bounded amounts, each slot on its own side, a well-formed book.
    pub open spec fn wf(self) -> bool {
        &&& self.btc_balance <= AMOUNT_MAX
        &&& (self.buy_order matches Some(o) ==> o.wf() && o.side == Side::Buy)
        &&& (self.sell_order matches Some(o) ==> o.wf() && o.side == Side::Sell)
        &&& (self.order_book matches Some(b) ==> b.wf())
    }

    /// The empty state the process starts from.
    pub fn new(symbols: &str) -> (r: State)
        ensures
            r.wf(),
            r.symbol@ == symbols@,
            r.btc_balance == 0,
            r.buy_order is None,
            r.sell_order is None,
            r.order_book is None,
    {
        State {
            symbol: String::from_str(symbols),
            btc_balance: 0,
            buy_order: None,
            sell_order: None,
            order_book: None,
        }
    }

    /// Starts the book mirror empty; the initial full snapshot is then
    /// applied to it as a delta.
    pub fn init_order_book(&mut self)
        requires
            old(self).wf(),
        ensures
            final(self).wf(),
            final(self).order_book matches Some(b) && b.bids@.len() == 0 && b.asks@.len() == 0,
            final(self).symbol == old(self).symbol,
            final(self).btc_balance == old(self).btc_balance,
            final(self).buy_order == old(self).buy_order,
            final(self).sell_order == old(self).sell_order,
    {
        self.order_book = Some(MarketSnapshot::new());
    }

    /// The best bid the mirrored book knows, if any.
    pub fn best_bid_price(&self) -> (r: Option<u64>)
        ensures
            r == (match self.order_book {
                Some(b) => b.spec_best_bid(),
                None => None::<u64>,
            }),
    {
        match &self.order_book {
            Some(b) => b.best_bid(),
            None => None,
        }
    }

    /// The best ask the mirrored book knows, if any.
    pub fn best_ask_price(&self) -> (r: Option<u64>)
        ensures
            r == (match self.order_book {
                Some(b) => b.spec_best_ask(),
                None => None::<u64>,
            }),
    {
        match &self.order_book {
            Some(b) => b.best_ask(),
            None => None,
        }
    }

    /// Absorbs the balance the exchange reports: held plus reserved,
    /// rounded to the size grid.  A report with either part missing
    /// changes nothing.
    pub fn set_btc_balance(&mut self, btc: Option<u64>, btc_reserved: Option<u64>, config: &Config)
        requires
            old(self).wf(),
            config.wf(),
            btc matches Some(v) ==> v <= AMOUNT_MAX,
            btc_reserved matches Some(v) ==> v <= AMOUNT_MAX,
        ensures
            final(self).wf(),
            (match (btc, btc_reserved) {
                (Some(b), Some(rv)) => final(self).btc_balance == clamp_amount(
                    spec_round_to_increment((b + rv) as int, config.size_increment as int),
                ),
                _ => final(self).btc_balance == old(self).btc_balance,
            }),
            final(self).symbol == old(self).symbol,
            final(self).buy_order == old(self).buy_order,
            final(self).sell_order == old(self).sell_order,
            final(self).order_book == old(self).order_book,
    {
        if let (Some(b), Some(rv)) = (btc, btc_reserved) {
            let rounded = round_to_increment(b + rv, config.size_increment);
            self.btc_balance = if rounded <= AMOUNT_MAX {
                rounded
            } else {
                AMOUNT_MAX
            };
        }
    }

    /// Applies one feed delta to the mirrored book; before the initial
    /// snapshot arrives there is no book and the delta is dropped.
    pub fn update_order_book(&mut self, delta_data: &BookDelta)
        requires
            old(self).wf(),
        ensures
            final(self).wf(),
            old(self).order_book is None ==> final(self).order_book is None,
            (old(self).order_book matches Some(b0) ==> final(self).order_book matches Some(b1)
                && (forall|p: int|
                level_size(b1.bids@, p) == updated_size(b0.bids@, delta_data.bids@, p)) && (
            forall|p: int|
                level_size(b1.asks@, p) == updated_size(b0.asks@, delta_data.asks@, p)) && (
            delta_data.bids@.len() == 0 ==> b1.bids@ == b0.bids@) && (delta_data.asks@.len() == 0
                ==> b1.asks@ == b0.asks@)),
            final(self).symbol == old(self).symbol,
            final(self).btc_balance == old(self).btc_balance,
            final(self).buy_order == old(self).buy_order,
            final(self).sell_order == old(self).sell_order,
    {
        if let Some(book) = &mut self.order_book {
            book.apply_delta(delta_data);
        }
    }

    /// Replaces the believed orders with what the exchange reports.
    /// Each side keeps at most the last reported order; the ids of every
    /// other reported order come back for cancellation, buy side first,
    /// in reported sequence order.
    pub fn reconcile(&mut self, reported: &Vec<RestingOrder>) -> (cancels: Vec<u64>)
        requires
            old(self).wf(),
            forall|i: int| 0 <= i < reported@.len() ==> (#[trigger] reported@[i]).wf(),
        ensures
            final(self).wf(),
            final(self).buy_order == kept_order(side_orders(reported@, Side::Buy)),
            final(self).sell_order == kept_order(side_orders(reported@, Side::Sell)),
            cancels@ == stale_ids(side_orders(reported@, Side::Buy)) + stale_ids(
                side_orders(reported@, Side::Sell),
            ),
            cancels@.len() == (if side_orders(reported@, Side::Buy).len() > 1 {
                side_orders(reported@, Side::Buy).len() - 1
            } else {
                0
            }) + (if side_orders(reported@, Side::Sell).len() > 1 {
                side_orders(reported@, Side::Sell).len() - 1
            } else {
                0
            }),
            final(self).symbol == old(self).symbol,
            final(self).btc_balance == old(self).btc_balance,
            final(self).order_book == old(self).order_book,
    {
        let ghost bseq = side_orders(reported@, Side::Buy);
        let ghost sseq = side_orders(reported@, Side::Sell);
        let mut buys: Vec<RestingOrder> = Vec::new();
        let mut sells: Vec<RestingOrder> = Vec::new();
        let n = reported.len();
        let mut k: usize = 0;
        while k < n
            invariant
                n == reported@.len(),
                k <= n,
                buys@ == side_orders(reported@.take(k as int), Side::Buy),
                sells@ == side_orders(reported@.take(k as int), Side::Sell),
            decreases n - k,
        {
            let o = reported[k];
            proof {
                assert(reported@.take(k as int + 1).drop_last() =~= reported@.take(k as int));
                assert(reported@.take(k as int + 1).last() == reported@[k as int]);
            }
            match o.side {
                Side::Buy => buys.push(o),
                Side::Sell => sells.push(o),
            }
            k = k + 1;
        }
        proof {
            assert(reported@.take(n as int) =~= reported@);
            lemma_side_orders_wf(reported@, Side::Buy);
            lemma_side_orders_wf(reported@, Side::Sell);
        }
        let mut cancels: Vec<u64> = Vec::new();
        if buys.len() == 0 {
            self.buy_order = None;
        } else {
            self.buy_order = Some(buys[buys.len() - 1]);
            let mut m: usize = 0;
            while m < buys.len() - 1
                invariant
                    buys@ == bseq,
                    buys@.len() >= 1,
                    m <= buys@.len() - 1,
                    cancels@.len() == m,
                    forall|i: int| 0 <= i < m ==> cancels@[i] == bseq[i].id,
                decreases buys@.len() - 1 - m,
            {
                cancels.push(buys[m].id);
                m = m + 1;
            }
        }
        proof {
            assert(cancels@ =~= stale_ids(bseq));
        }
        let ghost base = cancels@;
        if sells.len() == 0 {
            self.sell_order = None;
        } else {
            self.sell_order = Some(sells[sells.len() - 1]);
            let mut m: usize = 0;
            while m < sells.len() - 1
                invariant
                    sells@ == sseq,
                    sells@.len() >= 1,
                    m <= sells@.len() - 1,
                    cancels@.len() == base.len() + m,
                    forall|i: int| 0 <= i < base.len() ==> cancels@[i] == base[i],
                    forall|i: int|
                        base.len() <= i < cancels@.len() ==> cancels@[i] == sseq[i - base.len()].id,
                decreases sells@.len() - 1 - m,
            {
                cancels.push(sells[m].id);
                m = m + 1;
            }
        }
        proof {
            assert(cancels@ =~= base + stale_ids(sseq));
        }
        cancels
    }

    /// Applies one execution to the ledger and the balance, exactly as
    /// [`spec_apply_fill`] states: a fill on the believed buy order
    /// acquires its size, one on the believed sell order gives it up,
    /// and an execution naming neither order changes nothing.
    pub fn apply_fill(&mut self, exec: Execution, config: &Config)
        requires
            old(self).wf(),
            config.wf(),
            exec.size <= AMOUNT_MAX,
        ensures
            final(self).wf(),
            (final(self).buy_order, final(self).sell_order, final(self).btc_balance as int)
                == spec_apply_fill(
                old(self).buy_order,
                old(self).sell_order,
                old(self).btc_balance as int,
                exec,
                config.size_increment as int,
            ),
            final(self).symbol == old(self).symbol,
            final(self).order_book == old(self).order_book,
    {
        let inc = config.size_increment;
        if let Some(o) = self.buy_order {
            if o.id == exec.maker_id {
                if exec.size >= o.size {
                    self.buy_order = None;
                } else {
                    let reduced = round_to_increment(o.size - exec.size, inc);
                    let capped = if reduced <= AMOUNT_MAX {
                        reduced
                    } else {
                        AMOUNT_MAX
                    };
                    self.buy_order = Some(
                        RestingOrder { id: o.id, side: o.side, price: o.price, size: capped },
                    );
                }
                let bal = round_to_increment(self.btc_balance + exec.size, inc);
                self.btc_balance = if bal <= AMOUNT_MAX {
                    bal
                } else {
                    AMOUNT_MAX
                };
            }
        }
        if let Some(o) = self.sell_order {
            if o.id == exec.maker_id {
                if exec.size >= o.size {
                    self.sell_order = None;
                } else {
                    let reduced = round_to_increment(o.size - exec.size, inc);
                    let capped = if reduced <= AMOUNT_MAX {
                        reduced
                    } else {
                        AMOUNT_MAX
                    };
                    self.sell_order = Some(
                        RestingOrder { id: o.id, side: o.side, price: o.price, size: capped },
                    );
                }
                let left = if self.btc_balance >= exec.size {
                    self.btc_balance - exec.size
                } else {
                    0
                };
                let bal = round_to_increment(left, inc);
                self.btc_balance = if bal <= AMOUNT_MAX {
                    bal
                } else {
                    AMOUNT_MAX
                };
            }
        }
    }

    /// Decodes a batch of trade executions and applies every fill, in
    /// reported order.  A malformed batch is reported whole and applies
    /// nothing.
    pub fn handle_execution_events(
        &mut self,
        execution_response: &Vec<Vec<String>>,
        config: &Config,
    ) -> (r: Result<(), DecodeError>)
        requires
            old(self).wf(),
            config.wf(),
        ensures
            final(self).wf(),
            final(self).symbol == old(self).symbol,
            final(self).order_book == old(self).order_book,
            (match r {
                Ok(u) => {
                    &&& forall|k: int|
                        0 <= k < execution_response@.len() ==> exec_shape_ok(
                            (#[trigger] execution_response@[k])@,
                        ) && exec_nums_ok(execution_response@[k]@, config.size_scale as nat)
                    &&& (
                    final(self).buy_order,
                    final(self).sell_order,
                    final(self).btc_balance as int,
                    ) == spec_apply_fills(
                        old(self).buy_order,
                        old(self).sell_order,
                        old(self).btc_balance as int,
                        decoded_execs(execution_response@, config.size_scale as nat),
                        config.size_increment as int,
                    )
                },
                Err(e) => {
                    &&& final(self).btc_balance == old(self).btc_balance
                    &&& final(self).buy_order == old(self).buy_order
                    &&& final(self).sell_order == old(self).sell_order
                    &&& {
                        ||| (e == DecodeError::BadShape && exists|k: int|
                            0 <= k < execution_response@.len() && !exec_shape_ok(
                                (#[trigger] execution_response@[k])@,
                            ))
                        ||| (e == DecodeError::BadNumber && exists|k: int|
                            0 <= k < execution_response@.len() && !exec_nums_ok(
                                (#[trigger] execution_response@[k])@,
                                config.size_scale as nat,
                            ))
                    }
                },
            }),
    {
        let execs = match decode_executions(execution_response, config.size_scale) {
            Ok(v) => v,
            Err(e) => {
                return Err(e);
            },
        };
        let ghost dseq = decoded_execs(execution_response@, config.size_scale as nat);
        proof {
            assert(execs@ =~= dseq);
            assert forall|k: int| 0 <= k < execs@.len() implies (#[trigger] execs@[k]).size
                <= AMOUNT_MAX by {
                assert(exec_nums_ok(execution_response@[k]@, config.size_scale as nat));
            }
        }
        let n = execs.len();
        let mut i: usize = 0;
        while i < n
            invariant
                n == execs@.len(),
                i <= n,
                execs@ == dseq,
                config.wf(),
                forall|k: int| 0 <= k < n ==> (#[trigger] execs@[k]).size <= AMOUNT_MAX,
                self.wf(),
                (self.buy_order, self.sell_order, self.btc_balance as int) == spec_apply_fills(
                    old(self).buy_order,
                    old(self).sell_order,
                    old(self).btc_balance as int,
                    dseq.take(i as int),
                    config.size_increment as int,
                ),
                self.symbol == old(self).symbol,
                self.order_book == old(self).order_book,
            decreases n - i,
        {
            let ex = execs[i];
            proof {
                assert(dseq.take(i as int + 1).drop_last() =~= dseq.take(i as int));
                assert(dseq.take(i as int + 1).last() == dseq[i as int]);
            }
            self.apply_fill(ex, config);
            i = i + 1;
        }
        proof {
            assert(dseq.take(n as int) =~= dseq);
        }
        Ok(())
    }

    /// One decision pass over the synchronized state, as
    /// [`spec_decide`] states: cancel a resting order that has drifted
    /// off the best price, place a buy when short of the minimum
    /// balance, place a sell of the whole balance when at or above it.
    /// Before both best prices are known, no action.
    pub fn decide(&self, config: &Config) -> (cmds: Vec<OrderCommand>)
        requires
            self.wf(),
            config.wf(),
        ensures
            cmds@ == spec_decide(*self, *config),
    {
        let mut cmds: Vec<OrderCommand> = Vec::new();
        let bb = match self.best_bid_price() {
            Some(p) => p,
            None => {
                return cmds;
            },
        };
        let ba = match self.best_ask_price() {
            Some(p) => p,
            None => {
                return cmds;
            },
        };
        match &self.buy_order {
            Some(o) => {
                if o.price != bb {
                    cmds.push(OrderCommand::CancelBuy { id: o.id });
                }
            },
            None => {
                if self.btc_balance < config.min_order_size {
                    cmds.push(OrderCommand::PlaceBuy { price: bb, size: config.size });
                }
            },
        }
        match &self.sell_order {
            Some(o) => {
                if o.price != ba {
                    cmds.push(OrderCommand::CancelSell { id: o.id });
                }
            },
            None => {
                if self.btc_balance >= config.min_order_size {
                    cmds.push(OrderCommand::PlaceSell { price: ba, size: self.btc_balance });
                }
            },
        }
        proof {
            assert(cmds@ =~= spec_decide(*self, *config));
        }
        cmds
    }

    /// Absorbs the outcome of a cancel request: a successful cancel
    /// clears that side's slot, a declined one leaves the ledger as it
    /// was so the next pass retries.
    pub fn apply_cancel_outcome(&mut self, side: Side, success: bool)
        requires
            old(self).wf(),
        ensures
            final(self).wf(),
            success ==> (match side {
                Side::Buy => final(self).buy_order is None && final(self).sell_order == old(
                    self,
                ).sell_order,
                Side::Sell => final(self).sell_order is None && final(self).buy_order == old(
                    self,
                ).buy_order,
            }),
            !success ==> final(self).buy_order == old(self).buy_order && final(self).sell_order
                == old(self).sell_order,
            final(self).btc_balance == old(self).btc_balance,
            final(self).symbol == old(self).symbol,
            final(self).order_book == old(self).order_book,
    {
        if success {
            match side {
                Side::Buy => {
                    self.buy_order = None;
                },
                Side::Sell => {
                    self.sell_order = None;
                },
            }
        }
    }

    /// Absorbs the outcome of a placement request: the accepted order
    /// takes that side's slot; a declined placement leaves the slot
    /// empty so the next pass re-evaluates.
    pub fn apply_place_outcome(&mut self, side: Side, placed: Option<RestingOrder>)
        requires
            old(self).wf(),
            placed matches Some(o) ==> o.wf() && o.side == side,
        ensures
            final(self).wf(),
            (match side {
                Side::Buy => final(self).buy_order == placed && final(self).sell_order == old(
                    self,
                ).sell_order,
                Side::Sell => final(self).sell_order == placed && final(self).buy_order == old(
                    self,
                ).buy_order,
            }),
            final(self).btc_balance == old(self).btc_balance,
            final(self).symbol == old(self).symbol,
            final(self).order_book == old(self).order_book,
    {
        match side {
            Side::Buy => {
                self.buy_order = placed;
            },
            Side::Sell => {
                self.sell_order = placed;
            },
        }
    }

    /// Routes one decoded feed message to the state it concerns: a
    /// delta to the mirrored book, an execution batch to the ledger and
    /// the balance.  Only a malformed execution batch is an error, and
    /// it changes nothing.
    pub fn apply_event(&mut self, event: &CoincheckWebsocketEvent, config: &Config) -> (r: Result<
        (),
        DecodeError,
    >)
        requires
            old(self).wf(),
            config.wf(),
        ensures
            final(self).wf(),
            final(self).symbol == old(self).symbol,
            (match event {
                CoincheckWebsocketEvent::OrderBookUpdateEvent(delta) => {
                    &&& r is Ok
                    &&& final(self).btc_balance == old(self).btc_balance
                    &&& final(self).buy_order == old(self).buy_order
                    &&& final(self).sell_order == old(self).sell_order
                    &&& (old(self).order_book is None ==> final(self).order_book is None)
                    &&& (old(self).order_book matches Some(b0) ==> final(self).order_book matches
                        Some(b1) && (forall|p: int|
                        level_size(b1.bids@, p) == updated_size(b0.bids@, delta.bids@, p)) && (
                    forall|p: int|
                        level_size(b1.asks@, p) == updated_size(b0.asks@, delta.asks@, p)))
                },
                CoincheckWebsocketEvent::ExecutionEvent(raw) => {
                    &&& final(self).order_book == old(self).order_book
                    &&& (r is Ok ==> (
                    final(self).buy_order,
                    final(self).sell_order,
                    final(self).btc_balance as int,
                    ) == spec_apply_fills(
                        old(self).buy_order,
                        old(self).sell_order,
                        old(self).btc_balance as int,
                        decoded_execs(raw@, config.size_scale as nat),
                        config.size_increment as int,
                    ))
                    &&& (r is Err ==> {
                        &&& final(self).btc_balance == old(self).btc_balance
                        &&& final(self).buy_order == old(self).buy_order
                        &&& final(self).sell_order == old(self).sell_order
                    })
                },
            }),
    {
        match event {
            CoincheckWebsocketEvent::OrderBookUpdateEvent(delta) => {
                self.update_order_book(delta);
                Ok(())
            },
            CoincheckWebsocketEvent::ExecutionEvent(raw) => {
                self.handle_execution_events(raw, config)
            },
        }
    }

    /// The ids of every order still believed resting, buy side first:
    /// what a graceful shutdown cancels best-effort before exiting.
    pub fn shutdown_cancel_ids(&self) -> (ids: Vec<u64>)
        ensures
            ids@ == (match self.buy_order {
                Some(o) => seq![o.id],
                None => Seq::<u64>::empty(),
            }) + (match self.sell_order {
                Some(o) => seq![o.id],
                None => Seq::<u64>::empty(),
            }),
    {
        let mut ids: Vec<u64> = Vec::new();
        if let Some(o) = &self.buy_order {
            ids.push(o.id);
        }
        if let Some(o) = &self.sell_order {
            ids.push(o.id);
        }
        proof {
            assert(ids@ =~= (match self.buy_order {
                Some(o) => seq![o.id],
                None => Seq::<u64>::empty(),
            }) + (match self.sell_order {
                Some(o) => seq![o.id],
                None => Seq::<u64>::empty(),
            }));
        }
        ids
    }
}

/// One decoded message of the streaming feed, already validated by
/// shape at the boundary: either an order-book delta or a batch of
/// trade executions whose numeric texts are still to be decoded.
pub enum CoincheckWebsocketEvent {
    OrderBookUpdateEvent(BookDelta),
    ExecutionEvent(Vec<Vec<String>>),
}

/// The commands one decision pass issues for the given state.
pub open spec fn spec_decide(s: State, c: Config) -> Seq<OrderCommand> {
    match s.order_book {
        None => Seq::empty(),
        Some(book) => {
            if book.bids@.len() == 0 || book.asks@.len() == 0 {
                Seq::empty()
            } else {
                let bb = book.bids@[0].price;
                let ba = book.asks@[0].price;
                let buy_cmds = match s.buy_order {
                    Some(o) => if o.price != bb {
                        seq![(OrderCommand::CancelBuy { id: o.id })]
                    } else {
                        Seq::empty()
                    },
                    None => if s.btc_balance < c.min_order_size {
                        seq![(OrderCommand::PlaceBuy { price: bb, size: c.size })]
                    } else {
                        Seq::empty()
                    },
                };
                let sell_cmds = match s.sell_order {
                    Some(o) => if o.price != ba {
                        seq![(OrderCommand::CancelSell { id: o.id })]
                    } else {
                        Seq::empty()
                    },
                    None => if s.btc_balance >= c.min_order_size {
                        seq![(OrderCommand::PlaceSell { price: ba, size: s.btc_balance })]
                    } else {
                        Seq::empty()
                    },
                };
                buy_cmds + sell_cmds
            }
        },
    }
}

/// Every order `side_orders` selects comes from the reported sequence
/// and rests on the named side.
proof fn lemma_side_orders_wf(s: Seq<RestingOrder>, side: Side)
    requires
        forall|i: int| 0 <= i < s.len() ==> (#[trigger] s[i]).wf(),
    ensures
        forall|i: int|
            0 <= i < side_orders(s, side).len() ==> (#[trigger] side_orders(s, side)[i]).wf()
                && side_orders(s, side)[i].side == side,
    decreases s.len(),
{
    if s.len() == 0 {
    } else {
        lemma_side_orders_wf(s.drop_last(), side);
    }
}

} // verus!
