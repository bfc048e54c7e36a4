//! Request signing and timestamps for the exchange's private REST API.

use vstd::prelude::*;
use vstd::string::StringSliceAdditionalSpecFns;

verus! {

/// The HMAC-SHA256 tag of `msg` under `key`: a fixed function of its
/// two arguments, computed by an outside crate and named here so that
/// contracts can speak of it.
pub uninterp spec fn hmac_sha256_of(key: Seq<u8>, msg: Seq<u8>) -> Seq<u8>;

/// The lowercase hexadecimal character of the nibble `d`.
pub open spec fn hex_char(d: int) -> char {
    if d < 10 {
        ((0x30 + d) as u8) as char
    } else {
        ((0x57 + d) as u8) as char
    }
}

/// The lowercase hexadecimal text of `b`: two characters per byte, high
/// nibble first.
pub open spec fn hex_of(b: Seq<u8>) -> Seq<char> {
    Seq::new(
        b.len() * 2,
        |i: int|
            if i % 2 == 0 {
                hex_char(b[i / 2] as int / 16)
            } else {
                hex_char(b[i / 2] as int % 16)
            },
    )
}

/// Relies on ring's `hmac::sign` with `HMAC_SHA256`, via a key made by
/// `hmac::Key::new`: the tag is a function of the key and message bytes
/// alone, and is the full 32-byte SHA-256 digest.  ring rejects only
/// messages longer than SHA-256 admits, far beyond the bound required
/// here.
#[verifier::external_body]
fn hmac_sha256(secret: &str, msg: &str) -> (r: Vec<u8>)
    requires
        msg.spec_bytes().len() < 0x1000000000000000,
    ensures
        r@ == hmac_sha256_of(secret.spec_bytes(), msg.spec_bytes()),
        r@.len() == 32,
{
    let key = ring::hmac::Key::new(ring::hmac::HMAC_SHA256, secret.as_bytes());
    let tag = ring::hmac::sign(&key, msg.as_bytes());
    tag.as_ref().to_vec()
}

/// Relies on hex's `encode`: the lowercase hexadecimal string of the
/// bytes, two digits per byte.
#[verifier::external_body]
fn to_hex(bytes: &Vec<u8>) -> (r: String)
    ensures
        r@ == hex_of(bytes@),
{
    hex::encode(bytes.as_slice())
}

/// Signs a request text with the account's secret key: the lowercase
/// hexadecimal form of the HMAC-SHA256 tag.
pub fn sign(text: &str, secret_key: &str) -> (r: String)
    requires
        text.spec_bytes().len() < 0x1000000000000000,
    ensures
        r@ == hex_of(hmac_sha256_of(secret_key.spec_bytes(), text.spec_bytes())),
        r@.len() == 64,
{
    let tag = hmac_sha256(secret_key, text);
    to_hex(&tag)
}

/// The reason a timestamp could not be produced.
#[derive(Clone, Copy, Debug, PartialEq, Eq, Structural)]
pub enum TimeError {
    /// The system clock reads earlier than the Unix epoch.
    BeforeEpoch,
}

#[verifier::external_type_specification]
#[verifier::external_body]
pub struct ExSystemTime(std::time::SystemTime);

#[verifier::external_type_specification]
#[verifier::external_body]
pub struct ExSystemTimeError(std::time::SystemTimeError);

/// Relies on std's `SystemTime::now`: the clock's reading, about which
/// nothing can be promised.
pub assume_specification[ std::time::SystemTime::now ]() -> std::time::SystemTime;

/// Relies on std's `UNIX_EPOCH` constant.
#[verifier::external_body]
fn unix_epoch() -> std::time::SystemTime {
    std::time::UNIX_EPOCH
}

/// Relies on std's `SystemTime::duration_since`, which fails when the
/// clock reads earlier than the reference point.
pub assume_specification[ std::time::SystemTime::duration_since ](
    t: &std::time::SystemTime,
    earlier: std::time::SystemTime,
) -> Result<core::time::Duration, std::time::SystemTimeError>;

/// Relies on std's `Duration::as_millis`.
pub assume_specification[ core::time::Duration::as_millis ](
    d: &core::time::Duration,
) -> u128;

/// The milliseconds since the Unix epoch by the system clock, used to
/// nonce and sign each private request.  Fails only when the clock
/// reads earlier than the epoch.
pub fn get_timestamp() -> (r: Result<u64, TimeError>) {
    let now = std::time::SystemTime::now();
    match now.duration_since(unix_epoch()) {
        Ok(since_epoch) => {
            let millis = since_epoch.as_millis();
            Ok(#[verifier::truncate] (millis as u64))
        },
        Err(_) => Err(TimeError::BeforeEpoch),
    }
}

} // verus!
