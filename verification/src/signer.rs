//! Webhook request signing.
//!
//! A request carries a tuple `(timestamp, token, signature)`: the current
//! Unix time in seconds, a 32-character random alphanumeric token, and the
//! lowercase-hex HMAC-SHA256 of `timestamp || token` (no separator) under
//! the webhook entry's API key.

use vstd::prelude::*;
use vstd::string::StrSliceExecFns;
use vstd::string::StringSliceAdditionalSpecFns;
use vstd::utf8::encode_utf8;
use rand::distr::SampleString;
use crate::text::{dec_int, is_lower_alpha, is_upper_alpha, i64_to_string};

verus! {

pub open spec fn is_digit_char(c: char) -> bool {
    48 <= c as int && c as int <= 57
}

pub open spec fn is_alnum_char(c: char) -> bool {
    is_upper_alpha(c) || is_lower_alpha(c) || is_digit_char(c)
}

pub open spec fn hex_digit_char(d: nat) -> char {
    if d == 0 { '0' }
    else if d == 1 { '1' }
    else if d == 2 { '2' }
    else if d == 3 { '3' }
    else if d == 4 { '4' }
    else if d == 5 { '5' }
    else if d == 6 { '6' }
    else if d == 7 { '7' }
    else if d == 8 { '8' }
    else if d == 9 { '9' }
    else if d == 10 { 'a' }
    else if d == 11 { 'b' }
    else if d == 12 { 'c' }
    else if d == 13 { 'd' }
    else if d == 14 { 'e' }
    else { 'f' }
}

/// Lowercase hexadecimal rendering of a byte string: two digits per byte,
/// high nibble first.
pub open spec fn hex_of(bs: Seq<u8>) -> Seq<char> {
    Seq::new(
        bs.len() * 2,
        |i: int| if i % 2 == 0 {
            hex_digit_char((bs[i / 2] / 16) as nat)
        } else {
            hex_digit_char((bs[i / 2] % 16) as nat)
        },
    )
}

/// What HMAC-SHA256 returns: a function of the key and message alone.
pub uninterp spec fn hmac_sha256_of(key: Seq<u8>, msg: Seq<u8>) -> Seq<u8>;

/// Relies on `hmac::Hmac<sha2::Sha256>` (`new_from_slice`, `Mac::update`,
/// `Mac::finalize`): the HMAC-SHA256 digest of `msg` under `key`, a
/// 32-byte value determined by key and message alone. HMAC accepts keys
/// of any length, so `new_from_slice` cannot fail here.
#[verifier::external_body]
fn hmac_sha256(key: &[u8], msg: &[u8]) -> (r: Vec<u8>)
    ensures
        r@ == hmac_sha256_of(key@, msg@),
        r@.len() == 32,
{
    let mut mac = <hmac::Hmac<sha2::Sha256> as hmac::KeyInit>::new_from_slice(key)
        .expect("HMAC accepts keys of any length");
    hmac::Mac::update(&mut mac, msg);
    hmac::Mac::finalize(mac).into_bytes().to_vec()
}

/// Relies on `hex::encode`: lowercase hexadecimal, two digits per byte,
/// high nibble first.
#[verifier::external_body]
fn hex_encode(bytes: &[u8]) -> (r: String)
    ensures
        r@ == hex_of(bytes@),
{
    hex::encode(bytes)
}

/// Relies on `chrono::Utc::now().timestamp()`: the clock's value cannot be
/// promised, so nothing is stated of the result.
#[verifier::external_body]
fn now_unix_seconds() -> i64 {
    chrono::Utc::now().timestamp()
}

/// Relies on `rand::distr::Alphanumeric` sampled through `rand::rng()`:
/// every outcome is a string of exactly `len` characters drawn from
/// a-z, A-Z and 0-9.
#[verifier::external_body]
fn random_alnum(len: usize) -> (r: String)
    ensures
        r@.len() == len,
        forall|i: int| 0 <= i < r@.len() ==> is_alnum_char(#[trigger] r@[i]),
{
    rand::distr::Alphanumeric.sample_string(&mut rand::rng(), len)
}

/// The signature for one webhook call: lowercase-hex HMAC-SHA256 of the
/// byte concatenation `timestamp || token` under `api_key`.
pub fn generate_signature(api_key: &str, timestamp: &str, token: &str) -> (r: String)
    ensures
        r@ == hex_of(hmac_sha256_of(
            api_key.spec_bytes(),
            timestamp.spec_bytes() + token.spec_bytes(),
        )),
{
    let mut payload = timestamp.as_bytes_vec();
    let mut tail = token.as_bytes_vec();
    payload.append(&mut tail);
    let digest = hmac_sha256(api_key.as_bytes(), payload.as_slice());
    hex_encode(digest.as_slice())
}

/// The authentication tuple sent with one webhook call.
pub struct AuthTriple {
    pub timestamp: String,
    pub token: String,
    pub signature: String,
}

/// Fresh signing material for one call: the current time rendered in
/// decimal, a 32-character random alphanumeric token, and the signature
/// binding the two under `api_key`.
pub fn generate_auth(api_key: &str) -> (a: AuthTriple)
    ensures
        a.signature@ == hex_of(hmac_sha256_of(
            api_key.spec_bytes(),
            encode_utf8(a.timestamp@) + encode_utf8(a.token@),
        )),
        exists|t: i64| a.timestamp@ == dec_int(t as int),
        a.token@.len() == 32,
        forall|i: int| 0 <= i < a.token@.len() ==> is_alnum_char(#[trigger] a.token@[i]),
{
    let now = now_unix_seconds();
    let timestamp = i64_to_string(now);
    let token = random_alnum(32);
    let signature = generate_signature(api_key, timestamp.as_str(), token.as_str());
    proof {
        assert(timestamp@ == dec_int(now as int));
    }
    AuthTriple { timestamp, token, signature }
}

} // verus!
