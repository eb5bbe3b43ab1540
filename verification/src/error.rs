use vstd::prelude::*;

verus! {

/// Recoverable structural faults found while decoding a file.
///
/// Checksum mismatches and a bad footer magic are not listed here: they are
/// recorded on the decoded structures (`crc_valid`, `is_valid`) so that
/// damaged blocks are still shown. A `FormatError` is returned only where no
/// further progress through the surrounding structure is possible.
#[derive(Clone, Copy, Debug, PartialEq, Eq, Structural)]
pub enum FormatError {
    /// A variable-length integer ran for ten bytes without a terminating byte.
    MalformedVarint,
    /// A length field or fixed-width field reaches past the end of the input.
    TruncatedEntry,
    /// A record key lacks the mandatory eight-byte sequence/state suffix.
    KeyTooShort,
    /// A compressed block failed to decompress.
    DecompressionFailed,
}

} // verus!
