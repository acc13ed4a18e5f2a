//! Calls into other crates and into parts of `std` that `vstd` does not
//! specify. Verus takes every contract in this module on trust.

use sha2::{Digest, Sha256};
use vstd::prelude::*;

verus! {

/// The SHA-256 digest of a byte string.
pub uninterp spec fn sha256_digest(data: Seq<u8>) -> Seq<u8>;

/// The JSON string literal that `serde_json` writes for a piece of text:
/// the text between double quotes, with the characters that JSON reserves
/// escaped.
pub uninterp spec fn json_string(text: Seq<char>) -> Seq<char>;

/// `String::push` appends the given character to the end of the string.
pub assume_specification[ String::push ](s: &mut String, ch: char)
    ensures
        final(s)@ == old(s)@.push(ch),
;

/// Hashes `data` with `sha2::Sha256::digest`, which feeds the whole input to
/// a fresh hasher and finalizes it. The digest depends on the bytes alone and
/// is 32 bytes long, the output size that `sha2` declares for `Sha256`.
#[verifier::external_body]
pub(crate) fn sha256(data: &[u8]) -> (digest: Vec<u8>)
    ensures
        digest@ == sha256_digest(data@),
        digest@.len() == 32,
{
    Sha256::digest(data).to_vec()
}

/// Serializes `text` with `serde_json::to_string`. The result depends on the
/// characters alone. `serde_json` reports an error only when a `Serialize`
/// impl chooses to fail or a map has a key that is not a string; a plain
/// string is neither, so the default is never taken.
#[verifier::external_body]
pub(crate) fn json_quote(text: &str) -> (quoted: String)
    ensures
        quoted@ == json_string(text@),
{
    serde_json::to_string(text).unwrap_or_default()
}

/// Reads the system clock with `std::time::SystemTime::now` and converts
/// the reading with chrono's `From<SystemTime>` for `DateTime<Utc>`, whose
/// `timestamp` is the whole seconds since the Unix epoch, negative for a
/// clock set before it. The conversion covers every time that chrono can
/// represent, about 262,000 years on either side of the epoch, which is more
/// than a system clock reports. Nothing is promised of the value: two calls
/// may differ.
///
/// A target without a system clock cannot make this call; there the caller
/// reads the time itself and uses the functions that take a timestamp.
#[verifier::external_body]
pub(crate) fn unix_time_now() -> i64 {
    chrono::DateTime::<chrono::Utc>::from(std::time::SystemTime::now()).timestamp()
}

} // verus!
