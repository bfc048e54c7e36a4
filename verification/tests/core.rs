use coincheck_rust::book::{BookDelta, MarketSnapshot, PriceLevel};
use coincheck_rust::decode::{parse_scaled, side_from_text, DecodeError};
use coincheck_rust::orders::Side;
use coincheck_rust::quantize::round_to_increment;

fn level(price: u64, size: u64) -> PriceLevel {
    PriceLevel { price, size }
}

fn delta(bids: Vec<PriceLevel>, asks: Vec<PriceLevel>) -> BookDelta {
    BookDelta { bids, asks }
}

#[test]
fn rounding_hits_the_nearest_multiple() {
    assert_eq!(round_to_increment(103, 5), 105);
    assert_eq!(round_to_increment(102, 5), 100);
    assert_eq!(round_to_increment(7, 1), 7);
    assert_eq!(round_to_increment(0, 10), 0);
    assert_eq!(round_to_increment(25, 10), 30);
}

#[test]
fn rounding_twice_changes_nothing() {
    for v in [0u64, 1, 7, 99, 103, 2_000_000, 123_456_789] {
        for inc in [1u64, 2, 5, 8, 100, 1_000_000] {
            let once = round_to_increment(v, inc);
            assert_eq!(round_to_increment(once, inc), once);
        }
    }
}

#[test]
fn parse_scaled_accepts_plain_decimals() {
    assert_eq!(parse_scaled("0.02", 8), Ok(2_000_000));
    assert_eq!(parse_scaled("4100000.0", 0), Ok(4_100_000));
    assert_eq!(parse_scaled("123.45", 2), Ok(12345));
    assert_eq!(parse_scaled("123", 2), Ok(12300));
    assert_eq!(parse_scaled("0.020000000", 8), Ok(2_000_000));
    assert_eq!(parse_scaled("007", 0), Ok(7));
    assert_eq!(parse_scaled("0", 15), Ok(0));
}

#[test]
fn parse_scaled_rejects_malformed_texts() {
    assert_eq!(parse_scaled("", 8), Err(DecodeError::BadNumber));
    assert_eq!(parse_scaled("abc", 8), Err(DecodeError::BadNumber));
    assert_eq!(parse_scaled("5.", 8), Err(DecodeError::BadNumber));
    assert_eq!(parse_scaled(".5", 8), Err(DecodeError::BadNumber));
    assert_eq!(parse_scaled("1.2.3", 8), Err(DecodeError::BadNumber));
    assert_eq!(parse_scaled("-1", 8), Err(DecodeError::BadNumber));
    assert_eq!(parse_scaled("123.456", 2), Err(DecodeError::BadNumber));
    assert_eq!(parse_scaled("1.00000001", 2), Err(DecodeError::BadNumber));
    assert_eq!(parse_scaled("99999999999999999999", 0), Err(DecodeError::BadNumber));
}

#[test]
fn side_texts_decode_and_unknown_sides_are_ignored() {
    assert_eq!(side_from_text("buy"), Some(Side::Buy));
    assert_eq!(side_from_text("sell"), Some(Side::Sell));
    assert_eq!(side_from_text("BUY"), None);
    assert_eq!(side_from_text(""), None);
    assert_eq!(side_from_text("buys"), None);
}

#[test]
fn empty_delta_leaves_snapshot_unchanged() {
    let mut book = MarketSnapshot::new();
    book.apply_delta(&delta(
        vec![level(100, 5), level(99, 2)],
        vec![level(105, 1), level(106, 4)],
    ));
    let bids_before = book.bids.clone();
    let asks_before = book.asks.clone();
    book.apply_delta(&delta(vec![], vec![]));
    assert_eq!(book.bids, bids_before);
    assert_eq!(book.asks, asks_before);
}

#[test]
fn delta_application_sorts_and_drops_zero_levels() {
    let mut book = MarketSnapshot::new();
    // A full snapshot is a delta applied to the empty book.
    book.apply_delta(&delta(
        vec![level(99, 2), level(101, 1), level(100, 5)],
        vec![level(106, 4), level(105, 1)],
    ));
    assert_eq!(book.bids, vec![level(101, 1), level(100, 5), level(99, 2)]);
    assert_eq!(book.asks, vec![level(105, 1), level(106, 4)]);
    assert_eq!(book.best_bid(), Some(101));
    assert_eq!(book.best_ask(), Some(105));

    // Replace one size, remove one level, add one level.
    book.apply_delta(&delta(
        vec![level(100, 7), level(101, 0), level(98, 3)],
        vec![level(105, 0)],
    ));
    assert_eq!(book.bids, vec![level(100, 7), level(99, 2), level(98, 3)]);
    assert_eq!(book.asks, vec![level(106, 4)]);
    assert_eq!(book.best_bid(), Some(100));
    assert_eq!(book.best_ask(), Some(106));
}

#[test]
fn delta_last_entry_for_a_price_wins() {
    let mut book = MarketSnapshot::new();
    book.apply_delta(&delta(vec![level(100, 5), level(100, 9)], vec![]));
    assert_eq!(book.bids, vec![level(100, 9)]);
    book.apply_delta(&delta(vec![level(100, 4), level(100, 0)], vec![]));
    assert_eq!(book.bids, vec![]);
    assert_eq!(book.best_bid(), None);
}

#[test]
fn delta_sides_are_independent() {
    let mut book = MarketSnapshot::new();
    book.apply_delta(&delta(vec![level(100, 5)], vec![level(100, 3)]));
    // The same price may rest on both sides; each side is its own ladder.
    assert_eq!(book.bids, vec![level(100, 5)]);
    assert_eq!(book.asks, vec![level(100, 3)]);
}
