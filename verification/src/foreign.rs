//! Trusted boundary to the outside crates.
//!
//! Every function here is `external_body`: its contract is believed, not
//! proved. Each one makes a single call into an outside crate (or into a part
//! of std that vstd does not specify) and converts the result into plain
//! values. Results that are pure functions of the arguments but have no short
//! mathematical statement are given uninterpreted names, which the rest of
//! the library's contracts are phrased over.

use vstd::prelude::*;

verus! {

/// What crc32c::crc32c returns for a byte string: the CRC32C (Castagnoli)
/// checksum of the bytes, a function of the bytes alone.
pub uninterp spec fn crc32c_of(data: Seq<u8>) -> u32;

/// Relies on crc32c::crc32c: the checksum is deterministic in the bytes.
#[verifier::external_body]
pub(crate) fn crc32c_hash(data: &Vec<u8>) -> (r: u32)
    ensures
        r == crc32c_of(data@),
{
    crc32c::crc32c(data.as_slice())
}

/// Relies on String::from_iter: collecting chars yields the string of
/// exactly those chars.
#[verifier::external_body]
pub(crate) fn chars_to_string(chars: &Vec<char>) -> (r: String)
    ensures
        r@ == chars@,
{
    chars.iter().collect()
}

/// What snap's raw decoder yields for a compressed byte string: the
/// decompressed bytes, or nothing when the input is not a well-formed
/// Snappy block. A pure function of the bytes alone.
pub uninterp spec fn snappy_decompressed(compressed: Seq<u8>) -> Option<Seq<u8>>;

/// Relies on snap::raw::Decoder::decompress_vec (with a fresh
/// snap::raw::Decoder): the result is deterministic in the input bytes.
#[verifier::external_body]
pub(crate) fn snappy_decompress(data: &[u8]) -> (r: Option<Vec<u8>>)
    ensures
        match r {
            Some(v) => snappy_decompressed(data@) == Some(v@),
            None => snappy_decompressed(data@) is None,
        },
{
    match snap::raw::Decoder::new().decompress_vec(data) {
        Ok(v) => Some(v),
        Err(_) => None,
    }
}

/// What zstd's one-shot decoder yields for a compressed byte string: the
/// decompressed bytes, or nothing when the input is not a well-formed
/// zstd stream. A pure function of the bytes alone.
pub uninterp spec fn zstd_decompressed(compressed: Seq<u8>) -> Option<Seq<u8>>;

/// Relies on zstd::decode_all: the result is deterministic in the input
/// bytes.
#[verifier::external_body]
pub(crate) fn zstd_decompress(data: &[u8]) -> (r: Option<Vec<u8>>)
    ensures
        match r {
            Some(v) => zstd_decompressed(data@) == Some(v@),
            None => zstd_decompressed(data@) is None,
        },
{
    match zstd::decode_all(data) {
        Ok(v) => Some(v),
        Err(_) => None,
    }
}

/// What std's lossy UTF-8 decoding yields for a byte string: its chars,
/// with ill-formed sequences replaced. A function of the bytes alone; all
/// ASCII bytes decode to themselves, and no bytes decode to no chars.
pub uninterp spec fn utf8_lossy_of(bytes: Seq<u8>) -> Seq<char>;

/// Relies on String::from_utf8_lossy: deterministic in the bytes, identity
/// on ASCII, empty only for empty input.
#[verifier::external_body]
pub(crate) fn utf8_lossy_chars(bytes: &[u8]) -> (r: Vec<char>)
    ensures
        r@ == utf8_lossy_of(bytes@),
        (forall|i: int| 0 <= i < bytes@.len() ==> bytes@[i] < 0x80) ==> r@ == bytes@.map_values(
            |b: u8| b as char,
        ),
        bytes@.len() == 0 ==> r@.len() == 0,
{
    String::from_utf8_lossy(bytes).chars().collect()
}

/// What std's UTF-16 decoding yields for a sequence of code units: its
/// chars, or nothing when the units contain an unpaired surrogate. A
/// function of the units alone.
pub uninterp spec fn utf16_decoded(units: Seq<u16>) -> Option<Seq<char>>;

/// Relies on String::from_utf16: deterministic in the code units.
#[verifier::external_body]
pub(crate) fn utf16_chars(units: &Vec<u16>) -> (r: Option<Vec<char>>)
    ensures
        match r {
            Some(v) => utf16_decoded(units@) == Some(v@),
            None => utf16_decoded(units@) is None,
        },
{
    match String::from_utf16(units.as_slice()) {
        Ok(s) => Some(s.chars().collect()),
        Err(_) => None,
    }
}

/// Relies on str::chars: a string's chars are exactly its view.
#[verifier::external_body]
pub fn str_chars(s: &str) -> (r: Vec<char>)
    ensures
        r@ == s@,
{
    s.chars().collect()
}

/// What chrono renders for a Unix timestamp: the RFC 3339 text with
/// millisecond precision and a `Z` suffix, or nothing when the timestamp
/// lies outside chrono's representable range. A function of the arguments
/// alone.
pub uninterp spec fn rfc3339_millis_of(secs: i64, nanos: u32) -> Option<Seq<char>>;

/// Relies on chrono's DateTime::from_timestamp and
/// DateTime::to_rfc3339_opts (SecondsFormat::Millis, use_z = true):
/// deterministic in the timestamp, independent of clock and environment.
#[verifier::external_body]
pub(crate) fn format_timestamp_rfc3339(secs: i64, nanos: u32) -> (r: Option<String>)
    ensures
        match r {
            Some(s) => rfc3339_millis_of(secs, nanos) == Some(s@),
            None => rfc3339_millis_of(secs, nanos) is None,
        },
{
    match chrono::DateTime::from_timestamp(secs, nanos) {
        Some(dt) => Some(dt.to_rfc3339_opts(chrono::SecondsFormat::Millis, true)),
        None => None,
    }
}

} // verus!
