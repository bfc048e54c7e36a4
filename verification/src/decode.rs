//! Decoding of the exchange's numeric wire texts into fixed-point units.
//!
//! The wire carries prices and sizes as decimal strings such as
//! `"4100000.0"` or `"0.02"`.  [`parse_scaled`] turns such a text into an
//! integer count of atomic units, where one unit is `10^-scale` of the
//! quoted asset; everything past the boundary works on those integers.
//! A malformed or unrepresentable text is a reported error, never a
//! partial value.

use vstd::prelude::*;
use vstd::arithmetic::mul::{
    lemma_mul_inequality, lemma_mul_is_commutative, lemma_mul_nonnegative, lemma_mul_upper_bound,
};
use vstd::string::StringSliceAdditionalSpecFns;
use crate::AMOUNT_MAX;
use crate::book::PriceLevel;
use crate::orders::{Execution, Side};

verus! {

/// How a wire text failed to decode.
#[derive(Clone, Copy, Debug, PartialEq, Eq, Structural)]
pub enum DecodeError {
    /// An event or level did not have the expected number of fields.
    BadShape,
    /// A numeric field was not a representable decimal number.
    BadNumber,
}

pub open spec fn is_digit(b: u8) -> bool {
    0x30 <= b && b <= 0x39
}

pub open spec fn digit_val(b: u8) -> int {
    b as int - 0x30
}

pub open spec fn spec_pow10(e: nat) -> int
    decreases e,
{
    if e == 0 {
        1
    } else {
        10 * spec_pow10((e - 1) as nat)
    }
}

/// The value of the digits behind the decimal point, in units of
/// `10^-scale`: digits beyond the scale must be zero, anything that is
/// not a digit makes the text invalid, missing digits count as zero.
pub open spec fn frac_units(s: Seq<u8>, scale: nat) -> Option<int>
    decreases s.len(),
{
    if s.len() == 0 {
        Some(0)
    } else if !is_digit(s[0]) {
        None
    } else if scale == 0 {
        if s[0] == 0x30 {
            frac_units(s.skip(1), 0)
        } else {
            None
        }
    } else {
        match frac_units(s.skip(1), (scale - 1) as nat) {
            Some(v) => Some(digit_val(s[0]) * spec_pow10((scale - 1) as nat) + v),
            None => None,
        }
    }
}

/// The value of the rest of a number text whose integer digits so far
/// amount to `acc`: more integer digits extend `acc`, one dot starts a
/// fractional part that must not be empty.
pub open spec fn scaled_rest(s: Seq<u8>, scale: nat, acc: int) -> Option<int>
    decreases s.len(),
{
    if s.len() == 0 {
        Some(acc * spec_pow10(scale))
    } else if is_digit(s[0]) {
        scaled_rest(s.skip(1), scale, acc * 10 + digit_val(s[0]))
    } else if s[0] == 0x2e {
        if s.len() >= 2 {
            match frac_units(s.skip(1), scale) {
                Some(v) => Some(acc * spec_pow10(scale) + v),
                None => None,
            }
        } else {
            None
        }
    } else {
        None
    }
}

/// The value of a decimal number text in units of `10^-scale`, or
/// nothing when the text is not of the shape `digits` or
/// `digits.digits`, or carries a nonzero digit finer than one unit.
pub open spec fn scaled_of(s: Seq<u8>, scale: nat) -> Option<int> {
    if s.len() == 0 || !is_digit(s[0]) {
        None
    } else {
        scaled_rest(s.skip(1), scale, digit_val(s[0]))
    }
}

proof fn lemma_pow10_pos(e: nat)
    ensures
        spec_pow10(e) >= 1,
    decreases e,
{
    if e > 0 {
        lemma_pow10_pos((e - 1) as nat);
    }
}

proof fn lemma_pow10_bound(e: nat)
    requires
        e <= 15,
    ensures
        spec_pow10(e) <= 1000000000000000,
    decreases e,
{
    assert(spec_pow10(0) == 1);
    assert(spec_pow10(1) == 10);
    assert(spec_pow10(2) == 100);
    assert(spec_pow10(3) == 1000);
    assert(spec_pow10(4) == 10000);
    assert(spec_pow10(5) == 100000);
    assert(spec_pow10(6) == 1000000);
    assert(spec_pow10(7) == 10000000);
    assert(spec_pow10(8) == 100000000);
    assert(spec_pow10(9) == 1000000000);
    assert(spec_pow10(10) == 10000000000);
    assert(spec_pow10(11) == 100000000000);
    assert(spec_pow10(12) == 1000000000000);
    assert(spec_pow10(13) == 10000000000000);
    assert(spec_pow10(14) == 100000000000000);
    assert(spec_pow10(15) == 1000000000000000);
}

proof fn lemma_frac_units_nonneg(s: Seq<u8>, scale: nat)
    ensures
        frac_units(s, scale) matches Some(v) ==> v >= 0,
    decreases s.len(),
{
    if s.len() == 0 {
    } else if !is_digit(s[0]) {
    } else if scale == 0 {
        lemma_frac_units_nonneg(s.skip(1), 0);
    } else {
        lemma_frac_units_nonneg(s.skip(1), (scale - 1) as nat);
        lemma_pow10_pos((scale - 1) as nat);
        lemma_mul_nonnegative(digit_val(s[0]), spec_pow10((scale - 1) as nat));
    }
}

/// Whatever digits follow, the value of the whole number is at least the
/// value accumulated so far.
proof fn lemma_scaled_rest_lower(s: Seq<u8>, scale: nat, acc: int)
    requires
        acc >= 0,
    ensures
        scaled_rest(s, scale, acc) matches Some(v) ==> v >= acc,
    decreases s.len(),
{
    lemma_pow10_pos(scale);
    lemma_mul_inequality(1, spec_pow10(scale), acc);
    lemma_mul_is_commutative(acc, spec_pow10(scale));
    assert(acc * spec_pow10(scale) >= acc);
    if s.len() == 0 {
    } else if is_digit(s[0]) {
        lemma_scaled_rest_lower(s.skip(1), scale, acc * 10 + digit_val(s[0]));
    } else if s[0] == 0x2e && s.len() >= 2 {
        lemma_frac_units_nonneg(s.skip(1), scale);
    }
}

/// Combines the units already accumulated with the value of the digits
/// still to come.
pub open spec fn combined(units: int, rest: Option<int>) -> Option<int> {
    match rest {
        Some(v) => Some(units + v),
        None => None,
    }
}

/// `10^e` as a machine word.
pub fn pow10(e: u32) -> (r: u64)
    requires
        e <= 15,
    ensures
        r == spec_pow10(e as nat),
        r >= 1,
{
    proof {
        lemma_pow10_bound(e as nat);
    }
    let mut r: u64 = 1;
    let mut k: u32 = 0;
    while k < e
        invariant
            k <= e,
            e <= 15,
            r == spec_pow10(k as nat),
        decreases e - k,
    {
        proof {
            lemma_pow10_bound(k as nat);
            lemma_pow10_pos(k as nat);
        }
        r = r * 10;
        k = k + 1;
    }
    proof {
        lemma_pow10_pos(e as nat);
    }
    r
}

/// Decodes a decimal number text into atomic units of `10^-scale`.
///
/// Returns the exact count of units when the text is well formed and the
/// value is at most [`AMOUNT_MAX`]; every other text is rejected whole.
pub fn parse_scaled(s: &str, scale: u32) -> (r: Result<u64, DecodeError>)
    requires
        scale <= 15,
    ensures
        (match r {
            Ok(u) => u <= AMOUNT_MAX && scaled_of(s.spec_bytes(), scale as nat) == Some(u as int),
            Err(e) => e == DecodeError::BadNumber && (scaled_of(s.spec_bytes(), scale as nat)
                matches Some(v) ==> v > AMOUNT_MAX),
        }),
{
    let b: &[u8] = s.as_bytes();
    let ghost sb = s.spec_bytes();
    let n: usize = b.len();
    if n == 0 {
        return Err(DecodeError::BadNumber);
    }
    let b0 = b[0];
    if !(0x30 <= b0 && b0 <= 0x39) {
        return Err(DecodeError::BadNumber);
    }
    let mut acc: u64 = (b0 - 0x30) as u64;
    let mut i: usize = 1;
    while i < n && 0x30 <= b[i] && b[i] <= 0x39
        invariant
            sb == s.spec_bytes(),
            b@ == sb,
            n == sb.len(),
            1 <= i <= n,
            acc <= AMOUNT_MAX,
            scale <= 15,
            scaled_of(sb, scale as nat) == scaled_rest(sb.skip(i as int), scale as nat, acc as int),
        decreases n - i,
    {
        let d = (b[i] - 0x30) as u64;
        let acc2 = acc * 10 + d;
        proof {
            assert(sb.skip(i as int).skip(1) =~= sb.skip(i as int + 1));
            assert(sb.skip(i as int)[0] == sb[i as int]);
            assert(scaled_rest(sb.skip(i as int), scale as nat, acc as int) == scaled_rest(
                sb.skip(i as int + 1),
                scale as nat,
                acc2 as int,
            ));
        }
        if acc2 > AMOUNT_MAX {
            proof {
                lemma_scaled_rest_lower(sb.skip(i as int + 1), scale as nat, acc2 as int);
            }
            return Err(DecodeError::BadNumber);
        }
        acc = acc2;
        i = i + 1;
    }
    let p = pow10(scale);
    proof {
        lemma_pow10_bound(scale as nat);
        lemma_mul_nonnegative(acc as int, p as int);
    }
    if i == n {
        // The text was integer digits only.
        let base = match acc.checked_mul(p) {
            Some(v) => v,
            None => {
                proof {
                    lemma_mul_upper_bound(acc as int, AMOUNT_MAX as int, p as int, 0x10000000000000000);
                }
                return Err(DecodeError::BadNumber);
            },
        };
        if base > AMOUNT_MAX {
            return Err(DecodeError::BadNumber);
        }
        return Ok(base);
    }
    if b[i] != 0x2e {
        return Err(DecodeError::BadNumber);
    }
    if i + 1 == n {
        // A trailing dot with no fractional digits.
        return Err(DecodeError::BadNumber);
    }
    // `scaled_of` is now the integer part in units plus the value of the
    // fractional digits.
    proof {
        assert(sb.skip(i as int).len() >= 2);
        assert(sb.skip(i as int).skip(1) =~= sb.skip(i as int + 1));
        lemma_frac_units_nonneg(sb.skip(i as int + 1), scale as nat);
    }
    let base = match acc.checked_mul(p) {
        Some(v) => v,
        None => {
            return Err(DecodeError::BadNumber);
        },
    };
    if base > AMOUNT_MAX {
        return Err(DecodeError::BadNumber);
    }
    let mut units: u64 = base;
    let mut rem: u32 = scale;
    let mut j: usize = i + 1;
    while j < n
        invariant
            sb == s.spec_bytes(),
            b@ == sb,
            n == sb.len(),
            i + 1 <= j <= n,
            units <= AMOUNT_MAX,
            rem <= 15,
            scaled_of(sb, scale as nat) == combined(
                units as int,
                frac_units(sb.skip(j as int), rem as nat),
            ),
        decreases n - j,
    {
        let c = b[j];
        proof {
            assert(sb.skip(j as int).skip(1) =~= sb.skip(j as int + 1));
            assert(sb.skip(j as int)[0] == sb[j as int]);
        }
        if !(0x30 <= c && c <= 0x39) {
            proof {
                assert(frac_units(sb.skip(j as int), rem as nat) == None::<int>);
            }
            return Err(DecodeError::BadNumber);
        }
        if rem == 0 {
            if c != 0x30 {
                proof {
                    assert(frac_units(sb.skip(j as int), rem as nat) == None::<int>);
                }
                return Err(DecodeError::BadNumber);
            }
            j = j + 1;
        } else {
            let d = (c - 0x30) as u64;
            let pw = pow10(rem - 1);
            proof {
                lemma_pow10_bound((rem - 1) as nat);
                lemma_mul_upper_bound(d as int, 9, pw as int, 1000000000000000);
                lemma_mul_nonnegative(d as int, pw as int);
            }
            let add = d * pw;
            let units2 = units + add;
            proof {
                lemma_frac_units_nonneg(sb.skip(j as int + 1), (rem - 1) as nat);
                assert(frac_units(sb.skip(j as int), rem as nat) == (match frac_units(
                    sb.skip(j as int + 1),
                    (rem - 1) as nat,
                ) {
                    Some(v) => Some(digit_val(sb[j as int]) * spec_pow10((rem - 1) as nat) + v),
                    None => None,
                }));
            }
            if units2 > AMOUNT_MAX {
                return Err(DecodeError::BadNumber);
            }
            units = units2;
            rem = rem - 1;
            j = j + 1;
        }
    }
    proof {
        assert(sb.skip(j as int).len() == 0);
    }
    Ok(units)
}

/// The unit count a wire text stands for, at the character level.
pub open spec fn text_units(s: Seq<char>, scale: nat) -> Option<int> {
    scaled_of(vstd::utf8::encode_utf8(s), scale)
}

/// A decoded amount the library can hold: present and within bounds.
pub open spec fn ok_amount(o: Option<int>) -> bool {
    o matches Some(v) && 0 <= v && v <= AMOUNT_MAX
}

/// The side named by a wire text: the ASCII texts `buy` and `sell`,
/// anything else names no side.
pub open spec fn spec_side_of(s: Seq<u8>) -> Option<Side> {
    if s == seq![0x62u8, 0x75u8, 0x79u8] {
        Some(Side::Buy)
    } else if s == seq![0x73u8, 0x65u8, 0x6cu8, 0x6cu8] {
        Some(Side::Sell)
    } else {
        None
    }
}

/// Decodes an order's side text; an unknown side is no error, it marks
/// the order as one this agent ignores.
pub fn side_from_text(s: &str) -> (r: Option<Side>)
    ensures
        r == spec_side_of(s.spec_bytes()),
{
    let b = s.as_bytes();
    if b.len() == 3 && b[0] == 0x62 && b[1] == 0x75 && b[2] == 0x79 {
        proof {
            assert(b@ =~= seq![0x62u8, 0x75u8, 0x79u8]);
        }
        Some(Side::Buy)
    } else if b.len() == 4 && b[0] == 0x73 && b[1] == 0x65 && b[2] == 0x6c && b[3] == 0x6c {
        proof {
            assert(b@ =~= seq![0x73u8, 0x65u8, 0x6cu8, 0x6cu8]);
        }
        Some(Side::Sell)
    } else {
        proof {
            assert(b@ != seq![0x62u8, 0x75u8, 0x79u8] && b@ != seq![0x73u8, 0x65u8, 0x6cu8, 0x6cu8])
                by {
                if b@ == seq![0x62u8, 0x75u8, 0x79u8] {
                    assert(b@.len() == 3 && b@[0] == 0x62 && b@[1] == 0x75 && b@[2] == 0x79);
                }
                if b@ == seq![0x73u8, 0x65u8, 0x6cu8, 0x6cu8] {
                    assert(b@.len() == 4 && b@[0] == 0x73 && b@[1] == 0x65 && b@[2] == 0x6c
                        && b@[3] == 0x6c);
                }
            }
        }
        None
    }
}

/// A price-level entry of the feed has exactly a price text and a size
/// text.
pub open spec fn level_shape_ok(e: Seq<String>) -> bool {
    e.len() == 2
}

/// Both texts of a price-level entry decode to amounts the library can
/// hold.
pub open spec fn level_nums_ok(e: Seq<String>, price_scale: nat, size_scale: nat) -> bool {
    ok_amount(text_units(e[0]@, price_scale)) && ok_amount(text_units(e[1]@, size_scale))
}

/// The level a well-formed entry stands for.
pub open spec fn level_val(e: Seq<String>, price_scale: nat, size_scale: nat) -> PriceLevel {
    PriceLevel {
        price: text_units(e[0]@, price_scale)->Some_0 as u64,
        size: text_units(e[1]@, size_scale)->Some_0 as u64,
    }
}

/// Decodes one side of a feed delta: each entry is `[price, size]` as
/// decimal texts.  A wrong arity or a bad number rejects the whole
/// message; nothing is partially applied.
pub fn decode_levels(raw: &Vec<Vec<String>>, price_scale: u32, size_scale: u32) -> (r: Result<
    Vec<PriceLevel>,
    DecodeError,
>)
    requires
        price_scale <= 15,
        size_scale <= 15,
    ensures
        (match r {
            Ok(v) => {
                &&& v@.len() == raw@.len()
                &&& forall|k: int|
                    0 <= k < raw@.len() ==> level_shape_ok((#[trigger] raw@[k])@)
                        && level_nums_ok(raw@[k]@, price_scale as nat, size_scale as nat)
                        && v@[k] == level_val(raw@[k]@, price_scale as nat, size_scale as nat)
            },
            Err(e) => {
                ||| (e == DecodeError::BadShape && exists|k: int|
                    0 <= k < raw@.len() && !level_shape_ok((#[trigger] raw@[k])@))
                ||| (e == DecodeError::BadNumber && (forall|k: int|
                    0 <= k < raw@.len() ==> level_shape_ok((#[trigger] raw@[k])@)) && exists|k: int|
                    0 <= k < raw@.len() && !level_nums_ok(
                        (#[trigger] raw@[k])@,
                        price_scale as nat,
                        size_scale as nat,
                    ))
            },
        }),
{
    let n = raw.len();
    let mut k: usize = 0;
    while k < n
        invariant
            n == raw@.len(),
            k <= n,
            forall|m: int| 0 <= m < k ==> level_shape_ok((#[trigger] raw@[m])@),
        decreases n - k,
    {
        if raw[k].len() != 2 {
            return Err(DecodeError::BadShape);
        }
        k = k + 1;
    }
    let mut out: Vec<PriceLevel> = Vec::new();
    let mut k: usize = 0;
    while k < n
        invariant
            n == raw@.len(),
            k <= n,
            price_scale <= 15,
            size_scale <= 15,
            out@.len() == k,
            forall|m: int| 0 <= m < n ==> level_shape_ok((#[trigger] raw@[m])@),
            forall|m: int|
                0 <= m < k ==> level_nums_ok((#[trigger] raw@[m])@, price_scale as nat, size_scale as nat)
                    && out@[m] == level_val(raw@[m]@, price_scale as nat, size_scale as nat),
        decreases n - k,
    {
        let entry = &raw[k];
        let price = match parse_scaled(entry[0].as_str(), price_scale) {
            Ok(u) => u,
            Err(_) => {
                return Err(DecodeError::BadNumber);
            },
        };
        let size = match parse_scaled(entry[1].as_str(), size_scale) {
            Ok(u) => u,
            Err(_) => {
                return Err(DecodeError::BadNumber);
            },
        };
        out.push(PriceLevel { price, size });
        k = k + 1;
    }
    Ok(out)
}

/// An execution entry of the feed has exactly eight positional texts.
pub open spec fn exec_shape_ok(e: Seq<String>) -> bool {
    e.len() == 8
}

/// The two numeric fields the ledger reads decode to amounts the
/// library can hold: the filled size at position 4 and the maker order
/// id at position 7.
pub open spec fn exec_nums_ok(e: Seq<String>, size_scale: nat) -> bool {
    ok_amount(text_units(e[4]@, size_scale)) && ok_amount(text_units(e[7]@, 0))
}

/// The execution a well-formed entry stands for.
pub open spec fn exec_val(e: Seq<String>, size_scale: nat) -> Execution {
    Execution {
        size: text_units(e[4]@, size_scale)->Some_0 as u64,
        maker_id: text_units(e[7]@, 0)->Some_0 as u64,
    }
}

/// The executions a whole well-formed batch stands for.
pub open spec fn decoded_execs(raw: Seq<Vec<String>>, size_scale: nat) -> Seq<Execution> {
    Seq::new(raw.len(), |k: int| exec_val(raw[k]@, size_scale))
}

/// Decodes a batch of trade executions from the feed.  A wrong arity or
/// a bad numeric field rejects the whole batch; nothing is partially
/// applied.
pub fn decode_executions(raw: &Vec<Vec<String>>, size_scale: u32) -> (r: Result<
    Vec<Execution>,
    DecodeError,
>)
    requires
        size_scale <= 15,
    ensures
        (match r {
            Ok(v) => {
                &&& v@.len() == raw@.len()
                &&& forall|k: int|
                    0 <= k < raw@.len() ==> exec_shape_ok((#[trigger] raw@[k])@)
                        && exec_nums_ok(raw@[k]@, size_scale as nat)
                        && v@[k] == exec_val(raw@[k]@, size_scale as nat)
            },
            Err(e) => {
                ||| (e == DecodeError::BadShape && exists|k: int|
                    0 <= k < raw@.len() && !exec_shape_ok((#[trigger] raw@[k])@))
                ||| (e == DecodeError::BadNumber && (forall|k: int|
                    0 <= k < raw@.len() ==> exec_shape_ok((#[trigger] raw@[k])@)) && exists|k: int|
                    0 <= k < raw@.len() && !exec_nums_ok((#[trigger] raw@[k])@, size_scale as nat))
            },
        }),
{
    let n = raw.len();
    let mut k: usize = 0;
    while k < n
        invariant
            n == raw@.len(),
            k <= n,
            forall|m: int| 0 <= m < k ==> exec_shape_ok((#[trigger] raw@[m])@),
        decreases n - k,
    {
        if raw[k].len() != 8 {
            return Err(DecodeError::BadShape);
        }
        k = k + 1;
    }
    let mut out: Vec<Execution> = Vec::new();
    let mut k: usize = 0;
    while k < n
        invariant
            n == raw@.len(),
            k <= n,
            size_scale <= 15,
            out@.len() == k,
            forall|m: int| 0 <= m < n ==> exec_shape_ok((#[trigger] raw@[m])@),
            forall|m: int|
                0 <= m < k ==> exec_nums_ok((#[trigger] raw@[m])@, size_scale as nat)
                    && out@[m] == exec_val(raw@[m]@, size_scale as nat),
        decreases n - k,
    {
        let entry = &raw[k];
        let size = match parse_scaled(entry[4].as_str(), size_scale) {
            Ok(u) => u,
            Err(_) => {
                return Err(DecodeError::BadNumber);
            },
        };
        let maker_id = match parse_scaled(entry[7].as_str(), 0) {
            Ok(u) => u,
            Err(_) => {
                return Err(DecodeError::BadNumber);
            },
        };
        out.push(Execution { size, maker_id });
        k = k + 1;
    }
    Ok(out)
}

} // verus!
