use coincheck_rust::account::{Config, ConfigError, OrderCommand, State};
use coincheck_rust::book::{BookDelta, PriceLevel};
use coincheck_rust::decode::{decode_executions, decode_levels, DecodeError};
use coincheck_rust::orders::{Execution, RestingOrder, Side};
use coincheck_rust::util::{get_timestamp, sign};

/// Prices in whole units, sizes in thousandths: a balance of 5 units
/// stands for 0.005 of the base asset, the configured minimum.
fn config() -> Config {
    Config::new("btc_jpy", 20, 1, 1, 5, 0, 3).unwrap()
}

fn warm_state(balance: u64) -> State {
    let mut state = State::new("btc_jpy");
    state.init_order_book();
    state.update_order_book(&BookDelta {
        bids: vec![PriceLevel { price: 100, size: 50 }],
        asks: vec![PriceLevel { price: 105, size: 40 }],
    });
    state.set_btc_balance(Some(balance), Some(0), &config());
    state
}

fn resting(id: u64, side: Side, price: u64, size: u64) -> RestingOrder {
    RestingOrder { id, side, price, size }
}

#[test]
fn config_rejects_zero_increments() {
    assert_eq!(Config::new("btc_jpy", 20, 0, 1, 5, 0, 3).unwrap_err(), ConfigError::BadParameter);
    assert_eq!(Config::new("btc_jpy", 20, 1, 0, 5, 0, 3).unwrap_err(), ConfigError::BadParameter);
    assert!(Config::new("btc_jpy", 20, 1, 1, 5, 0, 3).is_ok());
}

#[test]
fn new_state_is_empty() {
    let state = State::new("btc_jpy");
    assert_eq!(state.btc_balance, 0);
    assert!(state.buy_order.is_none());
    assert!(state.sell_order.is_none());
    assert!(state.order_book.is_none());
    assert_eq!(state.best_bid_price(), None);
    assert_eq!(state.best_ask_price(), None);
}

#[test]
fn balance_report_sums_held_and_reserved() {
    let mut state = State::new("btc_jpy");
    state.set_btc_balance(Some(3), Some(2), &config());
    assert_eq!(state.btc_balance, 5);
    state.set_btc_balance(None, Some(7), &config());
    assert_eq!(state.btc_balance, 5);
    state.set_btc_balance(Some(7), None, &config());
    assert_eq!(state.btc_balance, 5);
}

#[test]
fn reconcile_keeps_the_last_reported_order_per_side() {
    let mut state = warm_state(0);
    let reported = vec![
        resting(1, Side::Buy, 100, 20),
        resting(2, Side::Sell, 105, 10),
        resting(3, Side::Buy, 99, 20),
        resting(4, Side::Buy, 98, 20),
        resting(5, Side::Sell, 106, 10),
    ];
    let cancels = state.reconcile(&reported);
    assert_eq!(state.buy_order, Some(resting(4, Side::Buy, 98, 20)));
    assert_eq!(state.sell_order, Some(resting(5, Side::Sell, 106, 10)));
    // Three buys and two sells reported: two plus one cancels.
    assert_eq!(cancels, vec![1, 3, 2]);
}

#[test]
fn reconcile_with_one_or_zero_orders_cancels_nothing() {
    let mut state = warm_state(0);
    let cancels = state.reconcile(&vec![resting(9, Side::Buy, 100, 20)]);
    assert_eq!(state.buy_order, Some(resting(9, Side::Buy, 100, 20)));
    assert_eq!(state.sell_order, None);
    assert_eq!(cancels, Vec::<u64>::new());

    let cancels = state.reconcile(&Vec::new());
    assert_eq!(state.buy_order, None);
    assert_eq!(state.sell_order, None);
    assert_eq!(cancels, Vec::<u64>::new());
}

#[test]
fn full_fill_removes_the_order_and_acquires_its_size() {
    let mut state = warm_state(0);
    state.apply_place_outcome(Side::Buy, Some(resting(7, Side::Buy, 100, 20)));
    state.apply_fill(Execution { size: 20, maker_id: 7 }, &config());
    assert_eq!(state.buy_order, None);
    assert_eq!(state.btc_balance, 20);
}

#[test]
fn partial_fill_reduces_the_order_and_adjusts_the_balance() {
    let mut state = warm_state(10);
    state.apply_place_outcome(Side::Sell, Some(resting(8, Side::Sell, 105, 10)));
    state.apply_fill(Execution { size: 4, maker_id: 8 }, &config());
    assert_eq!(state.sell_order, Some(resting(8, Side::Sell, 105, 6)));
    assert_eq!(state.btc_balance, 6);
}

#[test]
fn overreported_fill_still_clears_the_order() {
    // The exchange reports more than the believed remainder: the order
    // is gone either way, and the balance moves by the reported size.
    let mut state = warm_state(0);
    state.apply_place_outcome(Side::Buy, Some(resting(7, Side::Buy, 100, 20)));
    state.apply_fill(Execution { size: 25, maker_id: 7 }, &config());
    assert_eq!(state.buy_order, None);
    assert_eq!(state.btc_balance, 25);
}

#[test]
fn balances_clip_at_the_largest_representable_amount() {
    let mut state = State::new("btc_jpy");
    state.set_btc_balance(Some(coincheck_rust::AMOUNT_MAX), Some(coincheck_rust::AMOUNT_MAX), &config());
    assert_eq!(state.btc_balance, coincheck_rust::AMOUNT_MAX);
}

#[test]
fn selling_more_than_held_empties_the_balance() {
    let mut state = warm_state(3);
    state.apply_place_outcome(Side::Sell, Some(resting(8, Side::Sell, 105, 10)));
    state.apply_fill(Execution { size: 5, maker_id: 8 }, &config());
    assert_eq!(state.sell_order, Some(resting(8, Side::Sell, 105, 5)));
    assert_eq!(state.btc_balance, 0);
}

#[test]
fn unmatched_execution_changes_nothing() {
    let mut state = warm_state(10);
    state.apply_place_outcome(Side::Buy, Some(resting(7, Side::Buy, 100, 20)));
    state.apply_place_outcome(Side::Sell, Some(resting(8, Side::Sell, 105, 10)));
    state.apply_fill(Execution { size: 4, maker_id: 999 }, &config());
    assert_eq!(state.buy_order, Some(resting(7, Side::Buy, 100, 20)));
    assert_eq!(state.sell_order, Some(resting(8, Side::Sell, 105, 10)));
    assert_eq!(state.btc_balance, 10);
}

fn exec_entry(size: &str, maker_id: &str) -> Vec<String> {
    let mut entry: Vec<String> = Vec::new();
    for _ in 0..4 {
        entry.push(String::from("x"));
    }
    entry.push(String::from(size));
    entry.push(String::from("x"));
    entry.push(String::from("x"));
    entry.push(String::from(maker_id));
    entry
}

#[test]
fn execution_batches_decode_and_apply() {
    let mut state = warm_state(0);
    state.apply_place_outcome(Side::Buy, Some(resting(7, Side::Buy, 100, 20)));
    let batch = vec![exec_entry("0.004", "7"), exec_entry("0.016", "7")];
    assert_eq!(state.handle_execution_events(&batch, &config()), Ok(()));
    assert_eq!(state.buy_order, None);
    assert_eq!(state.btc_balance, 20);
}

#[test]
fn malformed_execution_batches_apply_nothing() {
    let mut state = warm_state(0);
    state.apply_place_outcome(Side::Buy, Some(resting(7, Side::Buy, 100, 20)));
    let short = vec![vec![String::from("x")]];
    assert_eq!(state.handle_execution_events(&short, &config()), Err(DecodeError::BadShape));
    let bad = vec![exec_entry("zero", "7")];
    assert_eq!(state.handle_execution_events(&bad, &config()), Err(DecodeError::BadNumber));
    assert_eq!(state.buy_order, Some(resting(7, Side::Buy, 100, 20)));
    assert_eq!(state.btc_balance, 0);
}

#[test]
fn decode_levels_checks_shape_and_numbers() {
    let good = vec![vec![String::from("100"), String::from("0.5")]];
    assert_eq!(
        decode_levels(&good, 0, 1),
        Ok(vec![PriceLevel { price: 100, size: 5 }])
    );
    let short = vec![vec![String::from("100")]];
    assert_eq!(decode_levels(&short, 0, 1), Err(DecodeError::BadShape));
    let bad = vec![vec![String::from("100"), String::from("?")]];
    assert_eq!(decode_levels(&bad, 0, 1), Err(DecodeError::BadNumber));
}

#[test]
fn decode_executions_reads_positions_four_and_seven() {
    let batch = vec![exec_entry("0.004", "42")];
    assert_eq!(
        decode_executions(&batch, 3),
        Ok(vec![Execution { size: 4, maker_id: 42 }])
    );
    assert_eq!(decode_executions(&vec![Vec::new()], 3), Err(DecodeError::BadShape));
}

#[test]
fn drifted_buy_order_is_cancelled_then_replaced() {
    // Best bid 100, best ask 105; the resting buy sits stale at 99.
    let mut state = warm_state(0);
    state.apply_place_outcome(Side::Buy, Some(resting(7, Side::Buy, 99, 20)));
    let cmds = state.decide(&config());
    assert_eq!(cmds, vec![OrderCommand::CancelBuy { id: 7 }]);
    // The cancel succeeds; the next pass re-places at the best bid.
    state.apply_cancel_outcome(Side::Buy, true);
    assert_eq!(state.buy_order, None);
    let cmds = state.decide(&config());
    assert_eq!(cmds, vec![OrderCommand::PlaceBuy { price: 100, size: 20 }]);
}

#[test]
fn short_balance_quotes_only_a_buy() {
    // 0.003 of the base asset: under the 0.005 minimum.
    let state = warm_state(3);
    let cmds = state.decide(&config());
    assert_eq!(cmds, vec![OrderCommand::PlaceBuy { price: 100, size: 20 }]);
}

#[test]
fn sufficient_balance_quotes_a_sell_of_the_whole_balance() {
    // 0.01 of the base asset: at or above the 0.005 minimum.
    let state = warm_state(10);
    let cmds = state.decide(&config());
    assert_eq!(cmds, vec![OrderCommand::PlaceSell { price: 105, size: 10 }]);
}

#[test]
fn matching_orders_leave_nothing_to_do() {
    let mut state = warm_state(3);
    state.apply_place_outcome(Side::Buy, Some(resting(7, Side::Buy, 100, 20)));
    assert_eq!(state.decide(&config()), Vec::<OrderCommand>::new());
}

#[test]
fn cold_snapshot_decides_nothing() {
    let mut state = State::new("btc_jpy");
    assert_eq!(state.decide(&config()), Vec::<OrderCommand>::new());
    state.init_order_book();
    // A book with an empty side is still not warm.
    state.update_order_book(&BookDelta {
        bids: vec![PriceLevel { price: 100, size: 50 }],
        asks: vec![],
    });
    assert_eq!(state.decide(&config()), Vec::<OrderCommand>::new());
}

#[test]
fn failed_cancel_keeps_the_stale_order() {
    let mut state = warm_state(0);
    state.apply_place_outcome(Side::Buy, Some(resting(7, Side::Buy, 99, 20)));
    state.apply_cancel_outcome(Side::Buy, false);
    assert_eq!(state.buy_order, Some(resting(7, Side::Buy, 99, 20)));
}

#[test]
fn shutdown_names_every_resting_order() {
    let mut state = warm_state(0);
    assert_eq!(state.shutdown_cancel_ids(), Vec::<u64>::new());
    state.apply_place_outcome(Side::Buy, Some(resting(7, Side::Buy, 100, 20)));
    state.apply_place_outcome(Side::Sell, Some(resting(8, Side::Sell, 105, 10)));
    assert_eq!(state.shutdown_cancel_ids(), vec![7, 8]);
}

#[test]
fn signing_matches_the_published_hmac_sha256_vector() {
    // RFC 4231, test case 2.
    let tag = sign("what do ya want for nothing?", "Jefe");
    assert_eq!(
        tag,
        "5bdcc146bf60754e6a042426089575c75a003f089d2739839dec58b964ec3843"
    );
}

#[test]
fn timestamps_count_milliseconds_since_the_epoch() {
    let t = get_timestamp().unwrap();
    // Well after 2020-01-01 and within u64 range.
    assert!(t > 1_577_836_800_000);
}
