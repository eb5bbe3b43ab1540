//! Storage-aware decoding: which higher-level storage layer produced a file,
//! and how its raw key/value bytes turn into readable text.

use vstd::prelude::*;
use vstd::string::StringSliceAdditionalSpecFns;

use crate::foreign;
use crate::foreign::rfc3339_millis_of;
use crate::foreign::utf16_decoded;
use crate::foreign::utf8_lossy_of;
use crate::utils;

verus! {

/// The higher-level storage layer that produced a file, detected once per
/// file from its path.
#[derive(Clone, Copy, Debug, PartialEq, Eq, Structural)]
pub enum StorageKind {
    SessionStorage,
    LocalStorage,
    IndexedDb,
    Generic,
}

/// `b` with an ASCII upper-case letter lowered.
pub open spec fn spec_lower_byte(b: u8) -> u8 {
    if 0x41 <= b <= 0x5a {
        (b + 0x20) as u8
    } else {
        b
    }
}

/// `s` with every ASCII upper-case letter lowered.
pub open spec fn spec_lower_bytes(s: Seq<u8>) -> Seq<u8> {
    s.map_values(|b: u8| spec_lower_byte(b))
}

/// Whether `needle` occurs as a contiguous run inside `hay`.
pub open spec fn spec_contains_sub(hay: Seq<u8>, needle: Seq<u8>) -> bool {
    exists|k: int|
        0 <= k <= hay.len() - needle.len() && #[trigger] hay.subrange(k, k + needle.len())
            == needle
}

/// The path marker of the simple key-string store.
pub open spec fn spec_local_storage_marker() -> Seq<u8> {
    seq![
        0x6cu8, 0x6fu8, 0x63u8, 0x61u8, 0x6cu8, 0x20u8, 0x73u8, 0x74u8, 0x6fu8, 0x72u8, 0x61u8, 0x67u8, 0x65u8,
    ]
}

/// The path marker of the session-scoped map store.
pub open spec fn spec_session_storage_marker() -> Seq<u8> {
    seq![
        0x73u8, 0x65u8, 0x73u8, 0x73u8, 0x69u8, 0x6fu8, 0x6eu8, 0x20u8, 0x73u8, 0x74u8, 0x6fu8, 0x72u8, 0x61u8, 0x67u8, 0x65u8,
    ]
}

/// The path marker of the object-database store.
pub open spec fn spec_indexeddb_marker() -> Seq<u8> {
    seq![0x69u8, 0x6eu8, 0x64u8, 0x65u8, 0x78u8, 0x65u8, 0x64u8, 0x64u8, 0x62u8]
}

/// The storage layer indicated by a path's bytes: the first marker found in
/// the case-lowered path wins, and a path with no marker is generic.
pub open spec fn spec_storage_kind_of(path_bytes: Seq<u8>) -> StorageKind {
    let lower = spec_lower_bytes(path_bytes);
    if spec_contains_sub(lower, spec_local_storage_marker()) {
        StorageKind::LocalStorage
    } else if spec_contains_sub(lower, spec_session_storage_marker()) {
        StorageKind::SessionStorage
    } else if spec_contains_sub(lower, spec_indexeddb_marker()) {
        StorageKind::IndexedDb
    } else {
        StorageKind::Generic
    }
}

/// Whether the bytes at `at` in `hay` are exactly `needle`.
#[verifier::loop_isolation(false)]
fn matches_at(hay: &[u8], at: usize, needle: &[u8]) -> (r: bool)
    requires
        at + needle@.len() <= hay@.len(),
    ensures
        r == (hay@.subrange(at as int, at + needle@.len()) == needle@),
{
    let hay_len = hay.len();
    let mut j: usize = 0;
    loop
        invariant
            j <= needle@.len(),
            at + needle@.len() <= hay@.len(),
            hay@.len() == hay_len,
            forall|t: int| 0 <= t < j ==> hay@[at + t] == needle@[t],
        decreases needle@.len() - j,
    {
        if j >= needle.len() {
            assert(hay@.subrange(at as int, at + needle@.len()) =~= needle@);
            return true;
        }
        if hay[at + j] != needle[j] {
            assert(hay@.subrange(at as int, at + needle@.len())[j as int] == hay@[at + j]);
            return false;
        }
        j = j + 1;
    }
}

/// Whether `needle` occurs anywhere in `hay`.
#[verifier::loop_isolation(false)]
fn contains_subslice(hay: &[u8], needle: &[u8]) -> (r: bool)
    ensures
        r == spec_contains_sub(hay@, needle@),
{
    if needle.len() > hay.len() {
        assert(!spec_contains_sub(hay@, needle@));
        return false;
    }
    let last = hay.len() - needle.len();
    let mut k: usize = 0;
    loop
        invariant
            k <= last,
            last == hay@.len() - needle@.len(),
            forall|t: int|
                0 <= t < k ==> #[trigger] hay@.subrange(t, t + needle@.len()) != needle@,
        decreases last - k,
    {
        if matches_at(hay, k, needle) {
            assert(spec_contains_sub(hay@, needle@));
            return true;
        }
        if k == last {
            assert(!spec_contains_sub(hay@, needle@));
            return false;
        }
        k = k + 1;
    }
}

/// Lower-case every ASCII letter of `s`.
#[verifier::loop_isolation(false)]
fn lower_ascii(s: &[u8]) -> (r: Vec<u8>)
    ensures
        r@ == spec_lower_bytes(s@),
{
    let mut out: Vec<u8> = Vec::new();
    let mut i: usize = 0;
    loop
        invariant
            i <= s@.len(),
            out@.len() == i,
            forall|t: int| 0 <= t < i ==> out@[t] == spec_lower_byte(s@[t]),
        decreases s@.len() - i,
    {
        if i >= s.len() {
            assert(out@ =~= spec_lower_bytes(s@));
            return out;
        }
        let b = s[i];
        if 0x41 <= b && b <= 0x5a {
            out.push(b + 0x20);
        } else {
            out.push(b);
        }
        i = i + 1;
    }
}

/// Detect which storage layer produced the file at `path`: a case-blind
/// substring match on the path, first marker wins (see
/// `spec_storage_kind_of`).
pub fn detect_storage_kind(path: &str) -> (r: StorageKind)
    ensures
        r == spec_storage_kind_of(path.spec_bytes()),
{
    let bytes = path.as_bytes();
    let lower = lower_ascii(bytes);

    let local_marker: [u8; 13] = [
        0x6cu8, 0x6fu8, 0x63u8, 0x61u8, 0x6cu8, 0x20u8, 0x73u8, 0x74u8, 0x6fu8, 0x72u8, 0x61u8, 0x67u8, 0x65u8,
    ];
    let session_marker: [u8; 15] = [
        0x73u8, 0x65u8, 0x73u8, 0x73u8, 0x69u8, 0x6fu8, 0x6eu8, 0x20u8, 0x73u8, 0x74u8, 0x6fu8, 0x72u8, 0x61u8, 0x67u8, 0x65u8,
    ];
    let indexeddb_marker: [u8; 9] = [0x69u8, 0x6eu8, 0x64u8, 0x65u8, 0x78u8, 0x65u8, 0x64u8, 0x64u8, 0x62u8];
    proof {
        assert(local_marker@ =~= spec_local_storage_marker());
        assert(session_marker@ =~= spec_session_storage_marker());
        assert(indexeddb_marker@ =~= spec_indexeddb_marker());
    }

    if contains_subslice(lower.as_slice(), local_marker.as_slice()) {
        StorageKind::LocalStorage
    } else if contains_subslice(lower.as_slice(), session_marker.as_slice()) {
        StorageKind::SessionStorage
    } else if contains_subslice(lower.as_slice(), indexeddb_marker.as_slice()) {
        StorageKind::IndexedDb
    } else {
        StorageKind::Generic
    }
}

/// The hexadecimal digit char for `n` (upper case), for `n < 16`.
pub open spec fn spec_hex_digit(n: u8) -> char {
    if n < 10 {
        ((0x30 + n) as u8) as char
    } else {
        ((0x41 + (n - 10)) as u8) as char
    }
}

/// The four-character escape `\xNN` of one byte.
pub open spec fn spec_escape_hex(b: u8) -> Seq<char> {
    seq!['\\', 'x', spec_hex_digit(b >> 4), spec_hex_digit(b & 0x0f)]
}

/// Whether a byte is a printable ASCII char (a graphic char or the space).
pub open spec fn spec_printable(b: u8) -> bool {
    0x20 <= b <= 0x7e
}

/// One byte rendered as itself when printable and as `.` otherwise.
pub open spec fn spec_ascii_dot(b: u8) -> Seq<char> {
    if spec_printable(b) {
        seq![b as char]
    } else {
        seq!['.']
    }
}

/// One byte rendered as itself when printable and hex-escaped otherwise.
pub open spec fn spec_ascii_or_hex(b: u8) -> Seq<char> {
    if spec_printable(b) {
        seq![b as char]
    } else {
        spec_escape_hex(b)
    }
}

/// One byte rendered as its Latin-1 char when printable in that repertoire
/// (printable ASCII, or 0xa0 and above) and hex-escaped otherwise.
pub open spec fn spec_latin1_or_hex(b: u8) -> Seq<char> {
    if spec_printable(b) || b >= 0xa0 {
        seq![b as char]
    } else {
        spec_escape_hex(b)
    }
}

/// The text of `s` from index `i` on, rendering each byte with `f`.
pub open spec fn spec_render_bytes_from(s: Seq<u8>, i: int, f: spec_fn(u8) -> Seq<char>) -> Seq<
    char,
>
    decreases s.len() - i,
{
    if i < 0 || i >= s.len() {
        Seq::empty()
    } else {
        f(s[i]) + spec_render_bytes_from(s, i + 1, f)
    }
}

/// The text of `s`, rendering each byte with `f`.
pub open spec fn spec_render_bytes(s: Seq<u8>, f: spec_fn(u8) -> Seq<char>) -> Seq<char> {
    spec_render_bytes_from(s, 0, f)
}

/// Push the hex escape of one byte.
fn push_escape_hex(out: &mut Vec<char>, b: u8)
    ensures
        final(out)@ == old(out)@ + spec_escape_hex(b),
{
    out.push('\\');
    out.push('x');
    let hi = b >> 4;
    let lo = b & 0x0f;
    proof {
        assert((b >> 4) < 16 && (b & 0x0f) < 16) by (bit_vector);
    }
    if hi < 10 {
        out.push((0x30 + hi) as char);
    } else {
        out.push((0x41 + (hi - 10)) as char);
    }
    if lo < 10 {
        out.push((0x30 + lo) as char);
    } else {
        out.push((0x41 + (lo - 10)) as char);
    }
    assert(final(out)@ =~= old(out)@ + spec_escape_hex(b));
}

/// Render every byte of `s` with the printable-ASCII rule selected by
/// `mode`: 0 renders non-printables as `.`, 1 hex-escapes them, 2 also
/// passes upper Latin-1 bytes through.
#[verifier::loop_isolation(false)]
fn render_bytes_mode(s: &[u8], mode: u8) -> (r: Vec<char>)
    requires
        mode == 0 || mode == 1 || mode == 2,
    ensures
        mode == 0 ==> r@ == spec_render_bytes(s@, |b: u8| spec_ascii_dot(b)),
        mode == 1 ==> r@ == spec_render_bytes(s@, |b: u8| spec_ascii_or_hex(b)),
        mode == 2 ==> r@ == spec_render_bytes(s@, |b: u8| spec_latin1_or_hex(b)),
{
    let ghost f: spec_fn(u8) -> Seq<char> = if mode == 0 {
        |b: u8| spec_ascii_dot(b)
    } else if mode == 1 {
        |b: u8| spec_ascii_or_hex(b)
    } else {
        |b: u8| spec_latin1_or_hex(b)
    };
    let mut out: Vec<char> = Vec::new();
    let mut i: usize = 0;
    loop
        invariant
            i <= s@.len(),
            spec_render_bytes(s@, f) == out@ + spec_render_bytes_from(s@, i as int, f),
        decreases s@.len() - i,
    {
        let ghost out0 = out@;
        if i >= s.len() {
            proof {
                crate::utils::lemma_seq_concat_empty(out@);
            }
            return out;
        }
        let b = s[i];
        let printable = 0x20 <= b && b <= 0x7e;
        if mode == 0 {
            if printable {
                out.push(b as char);
            } else {
                out.push('.');
            }
        } else if printable || (mode == 2 && b >= 0xa0) {
            out.push(b as char);
        } else {
            push_escape_hex(&mut out, b);
        }
        proof {
            assert(out@ =~= out0 + f(s@[i as int]));
            crate::utils::lemma_seq_concat_assoc(
                out0,
                f(s@[i as int]),
                spec_render_bytes_from(s@, i + 1, f),
            );
        }
        i = i + 1;
    }
}

/// The text shown for raw bytes in hex view: every byte hex-escaped.
pub open spec fn spec_bytes_to_hex(s: Seq<u8>) -> Seq<char> {
    spec_render_bytes(s, |b: u8| spec_escape_hex(b))
}

/// Hex-escape every byte of `bytes`.
#[verifier::loop_isolation(false)]
pub fn bytes_to_hex(bytes: &[u8]) -> (r: String)
    ensures
        r@ == spec_bytes_to_hex(bytes@),
{
    let ghost f: spec_fn(u8) -> Seq<char> = |b: u8| spec_escape_hex(b);
    let mut out: Vec<char> = Vec::new();
    let mut i: usize = 0;
    loop
        invariant
            i <= bytes@.len(),
            spec_bytes_to_hex(bytes@) == out@ + spec_render_bytes_from(bytes@, i as int, f),
        decreases bytes@.len() - i,
    {
        let ghost out0 = out@;
        if i >= bytes.len() {
            proof {
                crate::utils::lemma_seq_concat_empty(out@);
            }
            return crate::foreign::chars_to_string(&out);
        }
        push_escape_hex(&mut out, bytes[i]);
        proof {
            assert(out@ =~= out0 + f(bytes@[i as int]));
            crate::utils::lemma_seq_concat_assoc(
                out0,
                f(bytes@[i as int]),
                spec_render_bytes_from(bytes@, i + 1, f),
            );
        }
        i = i + 1;
    }
}

/// The text shown for bytes in ASCII view: printable bytes as themselves,
/// the rest as dots.
pub open spec fn spec_bytes_to_ascii(s: Seq<u8>) -> Seq<char> {
    spec_render_bytes(s, |b: u8| spec_ascii_dot(b))
}

/// Render `bytes` as ASCII, replacing non-printable bytes with `.`.
pub fn bytes_to_ascii(bytes: &[u8]) -> (r: String)
    ensures
        r@ == spec_bytes_to_ascii(bytes@),
{
    let chars = render_bytes_mode(bytes, 0);
    crate::foreign::chars_to_string(&chars)
}

/// The text shown for bytes in ASCII-with-escapes view: printable bytes as
/// themselves, the rest hex-escaped.
pub open spec fn spec_bytes_to_ascii_with_hex(s: Seq<u8>) -> Seq<char> {
    spec_render_bytes(s, |b: u8| spec_ascii_or_hex(b))
}

/// Render `bytes` as ASCII, hex-escaping non-printable bytes.
pub fn bytes_to_ascii_with_hex(bytes: &[u8]) -> (r: String)
    ensures
        r@ == spec_bytes_to_ascii_with_hex(bytes@),
{
    let chars = render_bytes_mode(bytes, 1);
    crate::foreign::chars_to_string(&chars)
}

/// The text shown for Latin-1 bytes: printable ASCII and upper Latin-1
/// bytes as themselves, the rest hex-escaped.
pub open spec fn spec_bytes_to_latin1_hex_escaped(s: Seq<u8>) -> Seq<char> {
    spec_render_bytes(s, |b: u8| spec_latin1_or_hex(b))
}

/// Render `bytes` as Latin-1 text, hex-escaping control bytes.
pub fn bytes_to_latin1_hex_escaped(bytes: &[u8]) -> (r: String)
    ensures
        r@ == spec_bytes_to_latin1_hex_escaped(bytes@),
{
    let chars = render_bytes_mode(bytes, 2);
    crate::foreign::chars_to_string(&chars)
}

/// The decimal digit char for `n < 10`.
pub open spec fn spec_dec_digit(n: int) -> char {
    ((0x30 + n) as u8) as char
}

/// The decimal digits of `n`, most significant first.
pub open spec fn spec_dec_digits(n: int) -> Seq<char>
    decreases n,
{
    if n < 10 {
        seq![spec_dec_digit(if n < 0 {
            0
        } else {
            n % 10
        })]
    } else {
        spec_dec_digits(n / 10) + seq![spec_dec_digit(n % 10)]
    }
}

/// The decimal text of an integer, with a leading minus for negatives.
pub open spec fn spec_int_text(i: int) -> Seq<char> {
    if i < 0 {
        seq!['-'] + spec_dec_digits(-i)
    } else {
        spec_dec_digits(i)
    }
}

/// Append the decimal digits of `n`.
pub fn push_dec_u64(out: &mut Vec<char>, n: u64)
    ensures
        final(out)@ == old(out)@ + spec_dec_digits(n as int),
    decreases n,
{
    if n < 10 {
        out.push((0x30 + (n as u8)) as char);
        assert(final(out)@ =~= old(out)@ + spec_dec_digits(n as int));
    } else {
        push_dec_u64(out, n / 10);
        let d = (n % 10) as u8;
        out.push((0x30 + d) as char);
        proof {
            crate::utils::lemma_seq_concat_assoc(
                old(out)@,
                spec_dec_digits(n as int / 10),
                seq![spec_dec_digit(n as int % 10)],
            );
            assert(final(out)@ =~= old(out)@ + (spec_dec_digits(n as int / 10) + seq![
                spec_dec_digit(n as int % 10),
            ]));
        }
    }
}

/// The decimal text of a 64-bit number.
pub fn u64_to_dec(n: u64) -> (r: Vec<char>)
    ensures
        r@ == spec_dec_digits(n as int),
{
    let mut out: Vec<char> = Vec::new();
    push_dec_u64(&mut out, n);
    proof {
        crate::utils::lemma_seq_empty_concat(spec_dec_digits(n as int));
    }
    out
}

/// Append the decimal text of a signed 64-bit number.
pub fn push_dec_i64(out: &mut Vec<char>, i: i64)
    ensures
        final(out)@ == old(out)@ + spec_int_text(i as int),
{
    if i >= 0 {
        push_dec_u64(out, i as u64);
    } else {
        out.push('-');
        let mag: u64 = ((-(i + 1)) as u64) + 1;
        assert(mag as int == -(i as int));
        push_dec_u64(out, mag);
        proof {
            crate::utils::lemma_seq_concat_assoc(
                old(out)@,
                seq!['-'],
                spec_dec_digits(mag as int),
            );
            assert(old(out)@ + (seq!['-'] + spec_dec_digits(mag as int)) =~= old(out)@
                + spec_int_text(i as int));
        }
    }
}

/// Position just past the permissive varint at `pos`: the byte after its
/// terminating byte, or the input's end when no terminator follows. This
/// reader has no ten-byte cap; it is used for already-extracted value
/// payloads.
pub open spec fn spec_loose_varint_end(data: Seq<u8>, pos: int) -> int
    decreases data.len() - pos,
{
    if pos < 0 || pos >= data.len() {
        pos
    } else if data[pos] & 0x80 == 0 {
        pos + 1
    } else {
        spec_loose_varint_end(data, pos + 1)
    }
}

/// The permissive varint's end lies between `pos` and the input's end.
pub proof fn lemma_loose_varint_end_bounds(data: Seq<u8>, pos: int)
    requires
        0 <= pos <= data.len(),
    ensures
        pos <= spec_loose_varint_end(data, pos) <= data.len(),
        pos < data.len() ==> pos < spec_loose_varint_end(data, pos),
    decreases data.len() - pos,
{
    if pos < data.len() && data[pos] & 0x80 != 0 {
        lemma_loose_varint_end_bounds(data, pos + 1);
    }
}

/// Value of the permissive varint at `pos`: its first ten groups,
/// little-endian, bits beyond the 64th discarded; groups past the tenth do
/// not contribute.
pub open spec fn spec_loose_varint_value(data: Seq<u8>, pos: int) -> u64 {
    let end = spec_loose_varint_end(data, pos);
    let count = if end - pos > 10 {
        10
    } else {
        end - pos
    };
    utils::spec_varint_value(data, pos, count)
}

/// Read a permissive varint at the front of `bytes`: its value and the
/// number of bytes consumed (zero only on empty input).
#[verifier::loop_isolation(false)]
pub fn parse_varint(bytes: &[u8]) -> (r: (u64, usize))
    ensures
        r.0 == spec_loose_varint_value(bytes@, 0),
        r.1 == spec_loose_varint_end(bytes@, 0),
{
    let mut i: usize = 0;
    let mut result: u64 = 0;
    let mut shift: u64 = 0;

    loop
        invariant
            i <= bytes@.len(),
            i <= 10 ==> shift == 7 * i,
            result == utils::spec_varint_value(bytes@, 0, if i > 10 {
                10int
            } else {
                i as int
            }),
            spec_loose_varint_end(bytes@, 0) == spec_loose_varint_end(bytes@, i as int),
            forall|j: int| 0 <= j < i ==> (bytes@[j] & 0x80) != 0,
        decreases bytes@.len() - i,
    {
        if i >= bytes.len() {
            return (result, i);
        }
        let b = bytes[i];
        if i < 10 {
            let g = b & 0x7f;
            let add_in: u64 = (g as u64) << shift;
            proof {
                utils::lemma_varint_value_snoc(bytes@, 0, i as int + 1);
            }
            result = result | add_in;
            shift = shift + 7;
        }
        i = i + 1;
        if b & 0x80 == 0 {
            return (result, i);
        }
    }
}

/// Read a permissive varint at the cursor, advancing past it; `None` only
/// when the cursor is already at the input's end.
pub fn read_varint_len(bytes: &[u8], i: &mut usize) -> (r: Option<u64>)
    requires
        *old(i) <= bytes@.len(),
    ensures
        match r {
            Some(v) => {
                &&& v == spec_loose_varint_value(bytes@, *old(i) as int)
                &&& *final(i) == spec_loose_varint_end(bytes@, *old(i) as int)
                &&& *old(i) < *final(i) <= bytes@.len()
            },
            None => {
                &&& *old(i) == bytes@.len()
                &&& *final(i) == *old(i)
            },
        },
{
    if *i >= bytes.len() {
        return None;
    }
    let rest = vstd::slice::slice_subrange(bytes, *i, bytes.len());
    let (val, consumed) = parse_varint(rest);
    proof {
        lemma_loose_shift(bytes@, *i as int);
        lemma_loose_varint_end_bounds(bytes@, *i as int);
    }
    *i = *i + consumed;
    Some(val)
}

/// A permissive varint reads the same from a suffix as from the whole
/// input.
pub proof fn lemma_loose_shift(data: Seq<u8>, pos: int)
    requires
        0 <= pos <= data.len(),
    ensures
        spec_loose_varint_end(data.subrange(pos, data.len() as int), 0) == spec_loose_varint_end(
            data,
            pos,
        ) - pos,
        spec_loose_varint_value(data.subrange(pos, data.len() as int), 0)
            == spec_loose_varint_value(data, pos),
{
    let tail = data.subrange(pos, data.len() as int);
    lemma_loose_end_shift(data, pos, 0);
    lemma_loose_varint_end_bounds(data, pos);
    let end = spec_loose_varint_end(data, pos);
    let count = if end - pos > 10 {
        10int
    } else {
        end - pos
    };
    lemma_varint_value_shift(data, pos, 0, count);
}

/// Shift lemma for the permissive varint's end position.
proof fn lemma_loose_end_shift(data: Seq<u8>, base: int, off: int)
    requires
        0 <= base,
        0 <= off,
        base + off <= data.len(),
    ensures
        spec_loose_varint_end(data.subrange(base, data.len() as int), off) == spec_loose_varint_end(
            data,
            base + off,
        ) - base,
    decreases data.len() - base - off,
{
    let tail = data.subrange(base, data.len() as int);
    if base + off < data.len() {
        assert(tail[off] == data[base + off]);
        if data[base + off] & 0x80 != 0 {
            lemma_loose_end_shift(data, base, off + 1);
        }
    }
}

/// Shift lemma for varint group values.
proof fn lemma_varint_value_shift(data: Seq<u8>, base: int, off: int, count: int)
    requires
        0 <= base,
        0 <= off,
        base + off + count <= data.len() || count <= 0,
    ensures
        utils::spec_varint_value(data.subrange(base, data.len() as int), off, count)
            == utils::spec_varint_value(data, base + off, count),
    decreases count,
{
    let tail = data.subrange(base, data.len() as int);
    if count > 0 {
        assert(tail[off] == data[base + off]);
        lemma_varint_value_shift(data, base, off + 1, count - 1);
    }
}

/// Whether a char is a control char (the ranges U+0000..U+001F and
/// U+007F..U+009F).
pub open spec fn spec_is_control(c: char) -> bool {
    (c as u32) < 0x20 || (0x7f <= (c as u32) && (c as u32) <= 0x9f)
}

/// `s` with its control chars removed, from index `i` on.
pub open spec fn spec_strip_controls_from(s: Seq<char>, i: int) -> Seq<char>
    decreases s.len() - i,
{
    if i < 0 || i >= s.len() {
        Seq::empty()
    } else if spec_is_control(s[i]) {
        spec_strip_controls_from(s, i + 1)
    } else {
        seq![s[i]] + spec_strip_controls_from(s, i + 1)
    }
}

/// `s` with its control chars removed.
pub open spec fn spec_strip_controls(s: Seq<char>) -> Seq<char> {
    spec_strip_controls_from(s, 0)
}

/// Remove control chars from `chars`.
#[verifier::loop_isolation(false)]
fn strip_controls(chars: &Vec<char>) -> (r: Vec<char>)
    ensures
        r@ == spec_strip_controls(chars@),
{
    let mut out: Vec<char> = Vec::new();
    let mut i: usize = 0;
    loop
        invariant
            i <= chars@.len(),
            spec_strip_controls(chars@) == out@ + spec_strip_controls_from(chars@, i as int),
        decreases chars@.len() - i,
    {
        let ghost out0 = out@;
        if i >= chars.len() {
            proof {
                utils::lemma_seq_concat_empty(out@);
            }
            return out;
        }
        let c = chars[i];
        let cv = c as u32;
        if !(cv < 0x20 || (0x7f <= cv && cv <= 0x9f)) {
            out.push(c);
            proof {
                utils::lemma_seq_push_concat(out0, c);
                utils::lemma_seq_concat_assoc(
                    out0,
                    seq![chars@[i as int]],
                    spec_strip_controls_from(chars@, i + 1),
                );
            }
        }
        i = i + 1;
    }
}

/// Lossy UTF-8 text of raw bytes, control chars removed.
pub open spec fn spec_bytes_to_utf8_lossy(bytes: Seq<u8>) -> Seq<char> {
    spec_strip_controls(utf8_lossy_of(bytes))
}

/// Decode `bytes` as lossy UTF-8 and strip control chars.
pub fn bytes_to_utf8_lossy(bytes: &[u8]) -> (r: String)
    ensures
        r@ == spec_bytes_to_utf8_lossy(bytes@),
{
    let chars = foreign::utf8_lossy_chars(bytes);
    let kept = strip_controls(&chars);
    foreign::chars_to_string(&kept)
}

/// The UTF-16 code units of `bytes` read two bytes at a time, little- or
/// big-endian; a trailing odd byte never arises (callers check).
pub open spec fn spec_utf16_units(bytes: Seq<u8>, little_endian: bool) -> Seq<u16> {
    Seq::new(
        (bytes.len() / 2) as nat,
        |i: int|
            if little_endian {
                (bytes[2 * i] as u16) | ((bytes[2 * i + 1] as u16) << 8)
            } else {
                (bytes[2 * i + 1] as u16) | ((bytes[2 * i] as u16) << 8)
            },
    )
}

/// Text decoded from UTF-16 bytes: at least two bytes, an even count, a
/// valid decode, and at least one non-control char; the control chars are
/// stripped from the result.
pub open spec fn spec_try_utf16(bytes: Seq<u8>, little_endian: bool) -> Option<Seq<char>> {
    if bytes.len() >= 2 && bytes.len() % 2 == 0 {
        match utf16_decoded(spec_utf16_units(bytes, little_endian)) {
            Some(cs) => {
                let kept = spec_strip_controls(cs);
                if kept.len() > 0 {
                    Some(kept)
                } else {
                    None
                }
            },
            None => None,
        }
    } else {
        None
    }
}

/// Decode UTF-16 bytes into chars, stripping control chars (see
/// `spec_try_utf16`).
#[verifier::loop_isolation(false)]
fn try_utf16_chars(bytes: &[u8], little_endian: bool) -> (r: Option<Vec<char>>)
    ensures
        match r {
            Some(v) => spec_try_utf16(bytes@, little_endian) == Some(v@),
            None => spec_try_utf16(bytes@, little_endian) is None,
        },
{
    if bytes.len() < 2 || bytes.len() % 2 != 0 {
        return None;
    }
    let mut units: Vec<u16> = Vec::new();
    let mut i: usize = 0;
    let count = bytes.len() / 2;
    loop
        invariant
            i <= count,
            count == bytes@.len() / 2,
            bytes@.len() % 2 == 0,
            units@.len() == i,
            forall|t: int|
                0 <= t < i ==> units@[t] == spec_utf16_units(bytes@, little_endian)[t],
        decreases count - i,
    {
        if i >= count {
            break ;
        }
        let unit: u16 = if little_endian {
            (bytes[2 * i] as u16) | ((bytes[2 * i + 1] as u16) << 8)
        } else {
            (bytes[2 * i + 1] as u16) | ((bytes[2 * i] as u16) << 8)
        };
        units.push(unit);
        i = i + 1;
    }
    assert(units@ =~= spec_utf16_units(bytes@, little_endian));

    match foreign::utf16_chars(&units) {
        Some(cs) => {
            let kept = strip_controls(&cs);
            if kept.len() > 0 {
                Some(kept)
            } else {
                None
            }
        },
        None => None,
    }
}

/// Decode UTF-16LE bytes as text (see `spec_try_utf16`).
pub fn try_utf16le(bytes: &[u8]) -> (r: Option<String>)
    ensures
        match r {
            Some(s) => spec_try_utf16(bytes@, true) == Some(s@),
            None => spec_try_utf16(bytes@, true) is None,
        },
{
    match try_utf16_chars(bytes, true) {
        Some(v) => Some(foreign::chars_to_string(&v)),
        None => None,
    }
}

/// Decode UTF-16BE bytes as text (see `spec_try_utf16`).
pub fn try_utf16be(bytes: &[u8]) -> (r: Option<String>)
    ensures
        match r {
            Some(s) => spec_try_utf16(bytes@, false) == Some(s@),
            None => spec_try_utf16(bytes@, false) is None,
        },
{
    match try_utf16_chars(bytes, false) {
        Some(v) => Some(foreign::chars_to_string(&v)),
        None => None,
    }
}

/// Index of the first occurrence of `b` in `s` at or after `i`.
pub open spec fn spec_find_byte_from(s: Seq<u8>, i: int, b: u8) -> Option<int>
    decreases s.len() - i,
{
    if i < 0 || i >= s.len() {
        None
    } else if s[i] == b {
        Some(i)
    } else {
        spec_find_byte_from(s, i + 1, b)
    }
}

/// Find the first occurrence of `b` in `s`.
#[verifier::loop_isolation(false)]
fn find_byte(s: &[u8], b: u8) -> (r: Option<usize>)
    ensures
        match r {
            Some(i) => spec_find_byte_from(s@, 0, b) == Some(i as int) && i < s@.len(),
            None => spec_find_byte_from(s@, 0, b) is None,
        },
{
    let mut i: usize = 0;
    loop
        invariant
            i <= s@.len(),
            spec_find_byte_from(s@, 0, b) == spec_find_byte_from(s@, i as int, b),
        decreases s@.len() - i,
    {
        if i >= s.len() {
            return None;
        }
        if s[i] == b {
            return Some(i);
        }
        i = i + 1;
    }
}

/// Text of an item key of the simple key-string store: the key splits at
/// its first NUL into a prefix, an encoding flag, and the key text — flag 0
/// means UTF-16LE, flag 1 Latin-1 — joined as `prefix text`. A key with no
/// NUL, nothing after the NUL, an unknown flag, or undecodable UTF-16 falls
/// back to the Latin-1 rendering of the whole key.
pub open spec fn spec_decode_local_storage_key(bytes: Seq<u8>) -> Seq<char> {
    match spec_find_byte_from(bytes, 0, 0) {
        None => spec_bytes_to_latin1_hex_escaped(bytes),
        Some(d) => {
            if d + 1 >= bytes.len() {
                spec_bytes_to_latin1_hex_escaped(bytes)
            } else {
                let prefix = bytes.subrange(0, d);
                let flag = bytes[d + 1];
                let entry = bytes.subrange(d + 2, bytes.len() as int);
                if flag == 0 {
                    match spec_try_utf16(entry, true) {
                        Some(txt) => spec_bytes_to_latin1_hex_escaped(prefix) + seq![' '] + txt,
                        None => spec_bytes_to_latin1_hex_escaped(bytes),
                    }
                } else if flag == 1 {
                    spec_bytes_to_latin1_hex_escaped(prefix) + seq![' ']
                        + spec_bytes_to_latin1_hex_escaped(entry)
                } else {
                    spec_bytes_to_latin1_hex_escaped(bytes)
                }
            }
        },
    }
}

/// Decode an item key of the simple key-string store (see
/// `spec_decode_local_storage_key`).
#[verifier::loop_isolation(false)]
pub fn decode_local_storage_key(bytes: &[u8]) -> (r: String)
    ensures
        r@ == spec_decode_local_storage_key(bytes@),
{
    let delim_pos = match find_byte(bytes, 0) {
        Some(p) => p,
        None => {
            return bytes_to_latin1_hex_escaped(bytes);
        },
    };
    if bytes.len() - delim_pos < 2 {
        return bytes_to_latin1_hex_escaped(bytes);
    }

    let key_prefix = vstd::slice::slice_subrange(bytes, 0, delim_pos);
    let encoding_flag = bytes[delim_pos + 1];
    let key_entry = vstd::slice::slice_subrange(bytes, delim_pos + 2, bytes.len());

    if encoding_flag == 0 {
        match try_utf16_chars(key_entry, true) {
            Some(entry_chars) => {
                let mut out = render_bytes_mode(key_prefix, 2);
                out.push(' ');
                let mut k: usize = 0;
                proof {
                    utils::lemma_seq_push_concat(
                        spec_bytes_to_latin1_hex_escaped(key_prefix@),
                        ' ',
                    );
                }
                loop
                    invariant
                        k <= entry_chars@.len(),
                        out@ == spec_bytes_to_latin1_hex_escaped(key_prefix@) + seq![' ']
                            + entry_chars@.subrange(0, k as int),
                    decreases entry_chars@.len() - k,
                {
                    if k >= entry_chars.len() {
                        assert(entry_chars@.subrange(0, k as int) =~= entry_chars@);
                        break ;
                    }
                    out.push(entry_chars[k]);
                    assert(out@ =~= spec_bytes_to_latin1_hex_escaped(key_prefix@) + seq![' ']
                        + entry_chars@.subrange(0, k + 1));
                    k = k + 1;
                }
                foreign::chars_to_string(&out)
            },
            None => bytes_to_latin1_hex_escaped(bytes),
        }
    } else if encoding_flag == 1 {
        let mut out = render_bytes_mode(key_prefix, 2);
        out.push(' ');
        let mut entry_part = render_bytes_mode(key_entry, 2);
        proof {
            utils::lemma_seq_push_concat(spec_bytes_to_latin1_hex_escaped(key_prefix@), ' ');
        }
        let ghost out_before = out@;
        let mut k: usize = 0;
        loop
            invariant
                k <= entry_part@.len(),
                entry_part@ == spec_bytes_to_latin1_hex_escaped(key_entry@),
                out@ == out_before + entry_part@.subrange(0, k as int),
            decreases entry_part@.len() - k,
        {
            if k >= entry_part.len() {
                assert(entry_part@.subrange(0, k as int) =~= entry_part@);
                break ;
            }
            out.push(entry_part[k]);
            assert(out@ =~= out_before + entry_part@.subrange(0, k + 1));
            k = k + 1;
        }
        foreign::chars_to_string(&out)
    } else {
        bytes_to_latin1_hex_escaped(bytes)
    }
}

/// Text of an item value of the simple key-string store: the first byte is
/// the encoding flag — 0 means UTF-16LE, 1 Latin-1 — applied to the rest;
/// undecodable UTF-16 falls back to Latin-1 of the rest, and a value not
/// starting with a known flag is hex-escaped whole.
pub open spec fn spec_decode_local_storage_value(bytes: Seq<u8>) -> Seq<char> {
    if bytes.len() >= 1 && (bytes[0] == 0 || bytes[0] == 1) {
        let rest = bytes.subrange(1, bytes.len() as int);
        if bytes[0] == 0 {
            match spec_try_utf16(rest, true) {
                Some(txt) => txt,
                None => spec_bytes_to_latin1_hex_escaped(rest),
            }
        } else {
            spec_bytes_to_latin1_hex_escaped(rest)
        }
    } else {
        spec_bytes_to_hex(bytes)
    }
}

/// Decode an item value of the simple key-string store (see
/// `spec_decode_local_storage_value`).
pub fn decode_local_storage_value(bytes: &[u8]) -> (r: String)
    ensures
        r@ == spec_decode_local_storage_value(bytes@),
{
    if bytes.len() >= 1 && (bytes[0] == 0 || bytes[0] == 1) {
        let rest = vstd::slice::slice_subrange(bytes, 1, bytes.len());
        if bytes[0] == 0 {
            match try_utf16le(rest) {
                Some(s) => s,
                None => bytes_to_latin1_hex_escaped(rest),
            }
        } else {
            bytes_to_latin1_hex_escaped(rest)
        }
    } else {
        bytes_to_hex(bytes)
    }
}

/// The creation-time and size fields of a metadata value, read as a minimal
/// tag/varint stream from `i` on: field 1 (varint) is the creation time,
/// field 2 (varint) the size; any other field ends the stream.
pub open spec fn spec_meta_fields(s: Seq<u8>, i: int, creation: Option<u64>, size: Option<u64>) -> (
    Option<u64>,
    Option<u64>,
)
    decreases s.len() - i,
        when 0 <= i
        via spec_meta_fields_dec
{
    if i >= s.len() {
        (creation, size)
    } else {
        let key = s[i];
        if key >> 3 == 1 && key & 7 == 0 {
            let v = spec_loose_varint_value(s, i + 1);
            spec_meta_fields(s, spec_loose_varint_end(s, i + 1), Some(v), size)
        } else if key >> 3 == 2 && key & 7 == 0 {
            let v = spec_loose_varint_value(s, i + 1);
            spec_meta_fields(s, spec_loose_varint_end(s, i + 1), creation, Some(v))
        } else {
            (creation, size)
        }
    }
}

#[via_fn]
proof fn spec_meta_fields_dec(s: Seq<u8>, i: int, creation: Option<u64>, size: Option<u64>) {
    if i < s.len() {
        lemma_loose_varint_end_bounds(s, i + 1);
    }
}

/// The number of microseconds between the metadata epoch (1601-01-01) and
/// the Unix epoch (1970-01-01).
pub const EPOCH_OFFSET_MICROS: i64 = 11644473600000000;

/// Truncating (round-toward-zero) division by one million.
pub open spec fn spec_trunc_div_million(us: int) -> int {
    if us >= 0 {
        us / 1000000
    } else {
        -((-us) / 1000000)
    }
}

/// The Unix seconds and (wrapped) nanosecond fraction a metadata timestamp
/// converts to: microseconds since 1601 shifted to the Unix epoch (wrapping
/// 64-bit arithmetic), divided toward zero into seconds, with the remainder
/// scaled to nanoseconds and truncated to 32 bits.
pub open spec fn spec_chrome_unix_parts(ts: u64) -> (i64, u32) {
    let us = vstd::wrapping::i64_specs::wrapping_sub(
        #[verifier::truncate] (ts as i64),
        EPOCH_OFFSET_MICROS,
    );
    let secs = spec_trunc_div_million(us as int);
    let rem = us - secs * 1000000;
    (secs as i64, #[verifier::truncate] ((rem * 1000) as u32))
}

/// The Unix seconds and nanosecond fraction of a metadata timestamp (see
/// `spec_chrome_unix_parts`).
fn chrome_unix_parts(ts: u64) -> (r: (i64, u32))
    ensures
        r == spec_chrome_unix_parts(ts),
{
    let t = #[verifier::truncate] (ts as i64);
    let us = t.wrapping_sub(EPOCH_OFFSET_MICROS);

    let (secs, rem): (i64, i64) = if us >= 0 {
        let q = (us as u64) / 1000000;
        let r = (us as u64) % 1000000;
        (q as i64, r as i64)
    } else {
        let mag: u64 = ((-(us + 1)) as u64) + 1;
        let q = mag / 1000000;
        let r = mag % 1000000;
        assert(mag as int == -(us as int));
        (-(q as i64), -(r as i64))
    };
    assert(secs as int == spec_trunc_div_million(us as int));
    assert(rem as int == us - (secs as int) * 1000000);

    let ns = #[verifier::truncate] ((rem * 1000) as u32);
    (secs, ns)
}

/// Text of a metadata value: the creation time rendered as an RFC 3339
/// millisecond timestamp (or as raw Unix seconds when out of chrono's
/// range), then the size as ` (N)`; a value with neither field is
/// hex-escaped whole.
pub open spec fn spec_decode_local_storage_meta(bytes: Seq<u8>) -> Seq<char> {
    let fields = spec_meta_fields(bytes, 0, None, None);
    let time_text: Seq<char> = match fields.0 {
        Some(ts) => {
            let parts = spec_chrome_unix_parts(ts);
            match rfc3339_millis_of(parts.0, parts.1) {
                Some(txt) => txt,
                None => spec_int_text(parts.0 as int),
            }
        },
        None => Seq::empty(),
    };
    let size_text: Seq<char> = match fields.1 {
        Some(sz) => seq![' ', '('] + spec_dec_digits(sz as int) + seq![')'],
        None => Seq::empty(),
    };
    let out = time_text + size_text;
    if out.len() == 0 {
        spec_bytes_to_hex(bytes)
    } else {
        out
    }
}

/// Decode a metadata value (see `spec_decode_local_storage_meta`).
#[verifier::loop_isolation(false)]
pub fn decode_local_storage_meta(bytes: &[u8]) -> (r: String)
    ensures
        r@ == spec_decode_local_storage_meta(bytes@),
{
    let mut i: usize = 0;
    let mut creation: Option<u64> = None;
    let mut size: Option<u64> = None;

    loop
        invariant
            i <= bytes@.len(),
            spec_meta_fields(bytes@, 0, None, None) == spec_meta_fields(
                bytes@,
                i as int,
                creation,
                size,
            ),
        decreases bytes@.len() - i,
    {
        if i >= bytes.len() {
            break ;
        }
        let key = bytes[i];
        let field_number = key >> 3;
        let wire_type = key & 7;
        if field_number == 1 && wire_type == 0 {
            let mut j = i + 1;
            let val = match read_varint_len(bytes, &mut j) {
                Some(v) => v,
                None => 0,
            };
            proof {
                if i + 1 == bytes@.len() {
                    assert(spec_loose_varint_end(bytes@, i + 1) == i + 1);
                    assert(utils::spec_varint_value(bytes@, i + 1, 0) == 0);
                }
            }
            creation = Some(val);
            i = j;
        } else if field_number == 2 && wire_type == 0 {
            let mut j = i + 1;
            let val = match read_varint_len(bytes, &mut j) {
                Some(v) => v,
                None => 0,
            };
            proof {
                if i + 1 == bytes@.len() {
                    assert(spec_loose_varint_end(bytes@, i + 1) == i + 1);
                    assert(utils::spec_varint_value(bytes@, i + 1, 0) == 0);
                }
            }
            size = Some(val);
            i = j;
        } else {
            break ;
        }
    }

    let mut out: Vec<char> = Vec::new();
    let ghost fields = spec_meta_fields(bytes@, 0, None, None);
    assert(fields == (creation, size));

    match creation {
        Some(ts) => {
            let (secs, ns) = chrome_unix_parts(ts);
            match foreign::format_timestamp_rfc3339(secs, ns) {
                Some(txt) => {
                    out = foreign::str_chars(txt.as_str());
                },
                None => {
                    push_dec_i64(&mut out, secs);
                },
            }
        },
        None => {},
    }

    match size {
        Some(sz) => {
            let ghost out0 = out@;
            out.push(' ');
            out.push('(');
            push_dec_u64(&mut out, sz);
            out.push(')');
            proof {
                assert(out@ =~= out0 + (seq![' ', '('] + spec_dec_digits(sz as int) + seq![')']));
            }
        },
        None => {},
    }

    if out.len() == 0 {
        bytes_to_hex(bytes)
    } else {
        foreign::chars_to_string(&out)
    }
}

/// Text of an object-database record key: entry type 1 is a
/// varint-length-prefixed UTF-16BE string; any other type is hex-escaped.
/// (Type 3 is an eight-byte binary64 scalar; floating point stays outside
/// verified code, so its bytes are shown hex-escaped like the other types.)
pub open spec fn spec_decode_indexeddb_key(entry_type: u8, payload: Seq<u8>) -> Seq<char> {
    if entry_type == 0x01 {
        spec_decode_varint_utf16be(payload)
    } else {
        spec_bytes_to_hex(payload)
    }
}

/// Decode an object-database record key (see `spec_decode_indexeddb_key`).
pub fn decode_indexeddb_key(entry_type: u8, payload: &[u8]) -> (r: String)
    ensures
        r@ == spec_decode_indexeddb_key(entry_type, payload@),
{
    if entry_type == 0x01 {
        decode_varint_utf16be(payload)
    } else {
        bytes_to_hex(payload)
    }
}

/// Text of a varint-length-prefixed UTF-16BE string: the varint counts code
/// units; the units (clipped to the input's end) are decoded as UTF-16BE,
/// falling back to lossy UTF-8 of the same bytes.
pub open spec fn spec_decode_varint_utf16be(bytes: Seq<u8>) -> Seq<char> {
    let consumed = spec_loose_varint_end(bytes, 0);
    let val = spec_loose_varint_value(bytes, 0);
    let end = if consumed + 2 * val <= bytes.len() {
        consumed + 2 * val
    } else {
        bytes.len() as int
    };
    let payload = bytes.subrange(consumed, end);
    match spec_try_utf16(payload, false) {
        Some(txt) => txt,
        None => spec_bytes_to_utf8_lossy(payload),
    }
}

/// Decode a varint-length-prefixed UTF-16BE string (see
/// `spec_decode_varint_utf16be`).
pub fn decode_varint_utf16be(bytes: &[u8]) -> (r: String)
    ensures
        r@ == spec_decode_varint_utf16be(bytes@),
{
    let (val, consumed) = parse_varint(bytes);
    proof {
        lemma_loose_varint_end_bounds(bytes@, 0);
    }
    let avail = (bytes.len() - consumed) as u64;
    let take: usize = if val <= avail / 2 {
        (2 * val) as usize
    } else {
        bytes.len() - consumed
    };
    let payload = vstd::slice::slice_subrange(bytes, consumed, consumed + take);

    match try_utf16be(payload) {
        Some(s) => s,
        None => bytes_to_utf8_lossy(payload),
    }
}

/// One open container of the nested tagged-value format: an object
/// alternating keys and values, or an array.
#[derive(Clone, Copy, Debug, PartialEq, Eq, Structural)]
pub enum V8Ctx {
    Object { expect_key: bool, first: bool },
    Array { first: bool },
}

/// Emit one token into the textual rendering: inside an array, a comma
/// precedes every element but the first; inside an object, tokens alternate
/// keys and values with `:` after each key and a comma before every key but
/// the first; outside any container, tokens are joined by single spaces.
pub open spec fn spec_v8_emit(out: Seq<char>, stack: Seq<V8Ctx>, s: Seq<char>) -> (
    Seq<char>,
    Seq<V8Ctx>,
) {
    if stack.len() > 0 {
        match stack.last() {
            V8Ctx::Array { first } => {
                let out2 = if !first {
                    out + seq![','] + s
                } else {
                    out + s
                };
                (out2, stack.update(stack.len() - 1, V8Ctx::Array { first: false }))
            },
            V8Ctx::Object { expect_key, first } => {
                if expect_key {
                    let out2 = (if !first {
                        out + seq![',']
                    } else {
                        out
                    }) + s + seq![':'];
                    (
                        out2,
                        stack.update(
                            stack.len() - 1,
                            V8Ctx::Object { expect_key: false, first: false },
                        ),
                    )
                } else {
                    (
                        out + s,
                        stack.update(stack.len() - 1, V8Ctx::Object { expect_key: true, first }),
                    )
                }
            },
        }
    } else {
        (
            if out.len() > 0 {
                out + seq![' '] + s
            } else {
                out + s
            },
            stack,
        )
    }
}

/// Append the chars of `s`.
#[verifier::loop_isolation(false)]
fn append_chars(out: &mut Vec<char>, s: &[char])
    ensures
        final(out)@ == old(out)@ + s@,
{
    let mut k: usize = 0;
    loop
        invariant
            k <= s@.len(),
            out@ == old(out)@ + s@.subrange(0, k as int),
        decreases s@.len() - k,
    {
        if k >= s.len() {
            assert(s@.subrange(0, k as int) =~= s@);
            return ;
        }
        out.push(s[k]);
        assert(out@ =~= old(out)@ + s@.subrange(0, k + 1));
        k = k + 1;
    }
}

/// Emit one token (see `spec_v8_emit`).
fn v8_emit(out: &mut Vec<char>, stack: &mut Vec<V8Ctx>, s: &Vec<char>)
    ensures
        (final(out)@, final(stack)@) == spec_v8_emit(old(out)@, old(stack)@, s@),
{
    let ghost stack0 = stack@;
    if stack.len() > 0 {
        let li = stack.len() - 1;
        let top = stack[li];
        match top {
            V8Ctx::Array { first } => {
                if !first {
                    out.push(',');
                }
                append_chars(out, s.as_slice());
                let _ = stack.pop();
                stack.push(V8Ctx::Array { first: false });
                assert(stack@ =~= stack0.update(stack0.len() - 1, V8Ctx::Array { first: false }));
                assert(out@ =~= spec_v8_emit(old(out)@, stack0, s@).0);
            },
            V8Ctx::Object { expect_key, first } => {
                if expect_key {
                    if !first {
                        out.push(',');
                    }
                    append_chars(out, s.as_slice());
                    out.push(':');
                    let _ = stack.pop();
                    stack.push(V8Ctx::Object { expect_key: false, first: false });
                    assert(stack@ =~= stack0.update(
                        stack0.len() - 1,
                        V8Ctx::Object { expect_key: false, first: false },
                    ));
                    assert(out@ =~= spec_v8_emit(old(out)@, stack0, s@).0);
                } else {
                    append_chars(out, s.as_slice());
                    let _ = stack.pop();
                    stack.push(V8Ctx::Object { expect_key: true, first });
                    assert(stack@ =~= stack0.update(
                        stack0.len() - 1,
                        V8Ctx::Object { expect_key: true, first },
                    ));
                    assert(out@ =~= spec_v8_emit(old(out)@, stack0, s@).0);
                }
            },
        }
    } else {
        if out.len() > 0 {
            out.push(' ');
        }
        append_chars(out, s.as_slice());
        assert(out@ =~= spec_v8_emit(old(out)@, stack0, s@).0);
    }
}

/// The fixed text of the `undefined` token.
pub open spec fn spec_lit_undefined() -> Seq<char> {
    seq!['"', 'u', 'n', 'd', 'e', 'f', 'i', 'n', 'e', 'd', '"']
}

/// The fixed text of the `null` token.
pub open spec fn spec_lit_null() -> Seq<char> {
    seq!['n', 'u', 'l', 'l']
}

/// The fixed text of the `true` token.
pub open spec fn spec_lit_true() -> Seq<char> {
    seq!['t', 'r', 'u', 'e']
}

/// The fixed text of the `false` token.
pub open spec fn spec_lit_false() -> Seq<char> {
    seq!['f', 'a', 'l', 's', 'e']
}

/// The decimal text of a ZigZag-encoded 32-bit integer: the low 32 bits of
/// the varint value, unfolded as `(raw >> 1) ^ -(raw & 1)`.
pub open spec fn spec_zigzag_text(v: u64) -> Seq<char> {
    let raw = #[verifier::truncate] (v as u32);
    let val: int = if raw % 2 == 0 {
        (raw / 2) as int
    } else {
        -((raw / 2) as int) - 1
    };
    spec_int_text(val)
}

/// The text of the ZigZag-encoded integer `v` (see `spec_zigzag_text`).
fn zigzag_text(v: u64) -> (r: Vec<char>)
    ensures
        r@ == spec_zigzag_text(v),
{
    let raw = #[verifier::truncate] (v as u32);
    let mut out: Vec<char> = Vec::new();
    proof {
        assert((raw >> 1) == raw / 2 && (raw & 1) == raw % 2 && raw / 2 < 0x8000_0000u32)
            by (bit_vector);
    }
    if raw & 1 == 0 {
        push_dec_u64(&mut out, (raw >> 1) as u64);
        proof {
            utils::lemma_seq_empty_concat(spec_dec_digits((raw / 2) as int));
        }
    } else {
        out.push('-');
        push_dec_u64(&mut out, (raw >> 1) as u64 + 1);
        proof {
            assert(Seq::<char>::empty().push('-') =~= seq!['-']);
            assert(seq!['-'] + spec_dec_digits(raw / 2 + 1) =~= spec_zigzag_text(v));
        }
    }
    out
}

/// One step of the tagged-value reader at `i` (which must be inside the
/// input): the next position, container stack, and text. Primitive tags
/// emit fixed literals; integer, binary64 and string tags consume a
/// length-prefixed or fixed-size payload, falling back to a hex-escaped tag
/// literal (and resuming right after the tag byte) when the payload does
/// not fit; container tags open and close objects and arrays; an
/// unrecognized tag is emitted hex-escaped. Binary64 scalars are emitted as
/// their eight raw bytes hex-escaped, since floating point stays outside
/// verified code.
pub open spec fn spec_v8_step(bytes: Seq<u8>, i: int, stack: Seq<V8Ctx>, out: Seq<char>) -> (
    int,
    Seq<V8Ctx>,
    Seq<char>,
)
    recommends
        0 <= i < bytes.len(),
{
    let tag = bytes[i];
    let j = i + 1;
    if tag == 0x00 || tag == 0x2d {
        // padding and array gaps
        (j, stack, out)
    } else if tag == 0x5f {
        let e = spec_v8_emit(out, stack, spec_lit_undefined());
        (j, e.1, e.0)
    } else if tag == 0x30 {
        let e = spec_v8_emit(out, stack, spec_lit_null());
        (j, e.1, e.0)
    } else if tag == 0x54 {
        let e = spec_v8_emit(out, stack, spec_lit_true());
        (j, e.1, e.0)
    } else if tag == 0x46 {
        let e = spec_v8_emit(out, stack, spec_lit_false());
        (j, e.1, e.0)
    } else if tag == 0x49 {
        // ZigZag-encoded integer
        if j >= bytes.len() {
            let e = spec_v8_emit(out, stack, spec_escape_hex(tag));
            (j, e.1, e.0)
        } else {
            let v = spec_loose_varint_value(bytes, j);
            let end = spec_loose_varint_end(bytes, j);
            let e = spec_v8_emit(out, stack, spec_zigzag_text(v));
            (end, e.1, e.0)
        }
    } else if tag == 0x4e {
        // binary64 scalar: eight little-endian bytes
        if j + 8 > bytes.len() {
            let e = spec_v8_emit(out, stack, spec_escape_hex(tag));
            (j, e.1, e.0)
        } else {
            let e = spec_v8_emit(out, stack, spec_bytes_to_hex(bytes.subrange(j, j + 8)));
            (j + 8, e.1, e.0)
        }
    } else if tag == 0x22 {
        // one-byte-per-char string
        if j >= bytes.len() {
            let e = spec_v8_emit(out, stack, spec_escape_hex(tag));
            (j, e.1, e.0)
        } else {
            let len = spec_loose_varint_value(bytes, j);
            let end = spec_loose_varint_end(bytes, j);
            if len > bytes.len() - end {
                let e = spec_v8_emit(out, stack, spec_escape_hex(tag));
                (j, e.1, e.0)
            } else {
                let payload = bytes.subrange(end, end + len);
                let e = spec_v8_emit(
                    out,
                    stack,
                    seq!['"'] + spec_bytes_to_latin1_hex_escaped(payload) + seq!['"'],
                );
                (end + len, e.1, e.0)
            }
        }
    } else if tag == 0x63 {
        // two-bytes-per-char string
        if j >= bytes.len() {
            let e = spec_v8_emit(out, stack, spec_escape_hex(tag));
            (j, e.1, e.0)
        } else {
            let len = spec_loose_varint_value(bytes, j);
            let end = spec_loose_varint_end(bytes, j);
            if len > bytes.len() - end {
                let e = spec_v8_emit(out, stack, spec_escape_hex(tag));
                (j, e.1, e.0)
            } else {
                let payload = bytes.subrange(end, end + len);
                if len % 2 == 0 {
                    match spec_try_utf16(payload, true) {
                        Some(txt) => {
                            let e = spec_v8_emit(out, stack, seq!['"'] + txt + seq!['"']);
                            (end + len, e.1, e.0)
                        },
                        None => {
                            let e = spec_v8_emit(out, stack, spec_escape_hex(tag));
                            (j, e.1, e.0)
                        },
                    }
                } else {
                    let e = spec_v8_emit(out, stack, spec_escape_hex(tag));
                    (j, e.1, e.0)
                }
            }
        }
    } else if tag == 0x6f {
        // object start
        let e = spec_v8_emit(out, stack, seq!['{']);
        (j, e.1.push(V8Ctx::Object { expect_key: true, first: true }), e.0)
    } else if tag == 0x7b {
        // object end: a trailing property count, then close and pop
        let end = spec_loose_varint_end(bytes, j);
        let stack2 = if stack.len() > 0 {
            stack.drop_last()
        } else {
            stack
        };
        (end, stack2, out + seq!['}'])
    } else if tag == 0x61 || tag == 0x41 {
        // sparse or dense array start: a length, then open and push
        let end = spec_loose_varint_end(bytes, j);
        let e = spec_v8_emit(out, stack, seq!['[']);
        (end, e.1.push(V8Ctx::Array { first: true }), e.0)
    } else if tag == 0x40 || tag == 0x24 {
        // sparse or dense array end: a property count and a length, then
        // close and pop
        let end1 = spec_loose_varint_end(bytes, j);
        let end2 = spec_loose_varint_end(bytes, end1);
        let stack2 = if stack.len() > 0 {
            stack.drop_last()
        } else {
            stack
        };
        (end2, stack2, out + seq![']'])
    } else {
        let e = spec_v8_emit(out, stack, spec_escape_hex(tag));
        (j, e.1, e.0)
    }
}

/// Every step of the tagged-value reader advances, staying within bounds.
pub proof fn lemma_v8_step_advances(bytes: Seq<u8>, i: int, stack: Seq<V8Ctx>, out: Seq<char>)
    requires
        0 <= i < bytes.len(),
    ensures
        i < spec_v8_step(bytes, i, stack, out).0 <= bytes.len(),
{
    let j = i + 1;
    lemma_loose_varint_end_bounds(bytes, if j <= bytes.len() {
        j
    } else {
        bytes.len() as int
    });
    if j <= bytes.len() {
        lemma_loose_varint_end_bounds(bytes, j);
        let end1 = spec_loose_varint_end(bytes, j);
        lemma_loose_varint_end_bounds(bytes, end1);
    }
}

/// The text produced by running the tagged-value reader from `i` to the end
/// of the input.
pub open spec fn spec_v8_run(bytes: Seq<u8>, i: int, stack: Seq<V8Ctx>, out: Seq<char>) -> Seq<
    char,
>
    decreases bytes.len() - i,
        when 0 <= i
        via spec_v8_run_dec
{
    if i >= bytes.len() {
        out
    } else {
        let step = spec_v8_step(bytes, i, stack, out);
        spec_v8_run(bytes, step.0, step.1, step.2)
    }
}

#[via_fn]
proof fn spec_v8_run_dec(bytes: Seq<u8>, i: int, stack: Seq<V8Ctx>, out: Seq<char>) {
    if i < bytes.len() {
        lemma_v8_step_advances(bytes, i, stack, out);
    }
}

/// Perform one step of the tagged-value reader (see `spec_v8_step`).
#[verifier::loop_isolation(false)]
#[verifier::rlimit(100)]
fn v8_step(bytes: &[u8], i: &mut usize, stack: &mut Vec<V8Ctx>, out: &mut Vec<char>)
    requires
        *old(i) < bytes@.len(),
    ensures
        (*final(i) as int, final(stack)@, final(out)@) == spec_v8_step(
            bytes@,
            *old(i) as int,
            old(stack)@,
            old(out)@,
        ),
        *old(i) < *final(i) <= bytes@.len(),
{
    proof {
        lemma_v8_step_advances(bytes@, *i as int, stack@, out@);
    }
    let tag = bytes[*i];
    *i = *i + 1;

    if tag == 0x00 || tag == 0x2d {
        // padding and array gaps
    } else if tag == 0x5f {
        let mut lit: Vec<char> = Vec::new();
        lit.push('"');
        lit.push('u');
        lit.push('n');
        lit.push('d');
        lit.push('e');
        lit.push('f');
        lit.push('i');
        lit.push('n');
        lit.push('e');
        lit.push('d');
        lit.push('"');
        assert(lit@ =~= spec_lit_undefined());
        v8_emit(out, stack, &lit);
    } else if tag == 0x30 {
        let mut lit: Vec<char> = Vec::new();
        lit.push('n');
        lit.push('u');
        lit.push('l');
        lit.push('l');
        assert(lit@ =~= spec_lit_null());
        v8_emit(out, stack, &lit);
    } else if tag == 0x54 {
        let mut lit: Vec<char> = Vec::new();
        lit.push('t');
        lit.push('r');
        lit.push('u');
        lit.push('e');
        assert(lit@ =~= spec_lit_true());
        v8_emit(out, stack, &lit);
    } else if tag == 0x46 {
        let mut lit: Vec<char> = Vec::new();
        lit.push('f');
        lit.push('a');
        lit.push('l');
        lit.push('s');
        lit.push('e');
        assert(lit@ =~= spec_lit_false());
        v8_emit(out, stack, &lit);
    } else if tag == 0x49 {
        if *i >= bytes.len() {
            let mut esc: Vec<char> = Vec::new();
            push_escape_hex(&mut esc, tag);
            proof {
                utils::lemma_seq_empty_concat(spec_escape_hex(tag));
            }
            v8_emit(out, stack, &esc);
        } else {
            let v = match read_varint_len(bytes, i) {
                Some(v) => v,
                None => 0,
            };
            let txt = zigzag_text(v);
            v8_emit(out, stack, &txt);
        }
    } else if tag == 0x4e {
        if bytes.len() - *i < 8 {
            let mut esc: Vec<char> = Vec::new();
            push_escape_hex(&mut esc, tag);
            proof {
                utils::lemma_seq_empty_concat(spec_escape_hex(tag));
            }
            v8_emit(out, stack, &esc);
        } else {
            let payload = vstd::slice::slice_subrange(bytes, *i, *i + 8);
            let txt = render_hex_chars(payload);
            *i = *i + 8;
            v8_emit(out, stack, &txt);
        }
    } else if tag == 0x22 {
        if *i >= bytes.len() {
            let mut esc: Vec<char> = Vec::new();
            push_escape_hex(&mut esc, tag);
            proof {
                utils::lemma_seq_empty_concat(spec_escape_hex(tag));
            }
            v8_emit(out, stack, &esc);
        } else {
            let before = *i;
            let len64 = match read_varint_len(bytes, i) {
                Some(v) => v,
                None => 0,
            };
            if len64 > (bytes.len() - *i) as u64 {
                *i = before;
                let mut esc: Vec<char> = Vec::new();
                push_escape_hex(&mut esc, tag);
                proof {
                    utils::lemma_seq_empty_concat(spec_escape_hex(tag));
                }
                v8_emit(out, stack, &esc);
            } else {
                let len = len64 as usize;
                let payload = vstd::slice::slice_subrange(bytes, *i, *i + len);
                let mut txt: Vec<char> = Vec::new();
                txt.push('"');
                let body = render_bytes_mode(payload, 2);
                append_chars(&mut txt, body.as_slice());
                txt.push('"');
                proof {
                    assert(txt@ =~= seq!['"'] + spec_bytes_to_latin1_hex_escaped(payload@) + seq![
                        '"',
                    ]);
                }
                *i = *i + len;
                v8_emit(out, stack, &txt);
            }
        }
    } else if tag == 0x63 {
        if *i >= bytes.len() {
            let mut esc: Vec<char> = Vec::new();
            push_escape_hex(&mut esc, tag);
            proof {
                utils::lemma_seq_empty_concat(spec_escape_hex(tag));
            }
            v8_emit(out, stack, &esc);
        } else {
            let before = *i;
            let len64 = match read_varint_len(bytes, i) {
                Some(v) => v,
                None => 0,
            };
            if len64 > (bytes.len() - *i) as u64 {
                *i = before;
                let mut esc: Vec<char> = Vec::new();
                push_escape_hex(&mut esc, tag);
                proof {
                    utils::lemma_seq_empty_concat(spec_escape_hex(tag));
                }
                v8_emit(out, stack, &esc);
            } else {
                let len = len64 as usize;
                let payload = vstd::slice::slice_subrange(bytes, *i, *i + len);
                let decoded: Option<Vec<char>> = if len % 2 == 0 {
                    try_utf16_chars(payload, true)
                } else {
                    None
                };
                match decoded {
                    Some(body) => {
                        let mut txt: Vec<char> = Vec::new();
                        txt.push('"');
                        append_chars(&mut txt, body.as_slice());
                        txt.push('"');
                        proof {
                            assert(txt@ =~= seq!['"'] + body@ + seq!['"']);
                        }
                        *i = *i + len;
                        v8_emit(out, stack, &txt);
                    },
                    None => {
                        *i = before;
                        let mut esc: Vec<char> = Vec::new();
                        push_escape_hex(&mut esc, tag);
                        proof {
                            utils::lemma_seq_empty_concat(spec_escape_hex(tag));
                        }
                        v8_emit(out, stack, &esc);
                    },
                }
            }
        }
    } else if tag == 0x6f {
        let mut lit: Vec<char> = Vec::new();
        lit.push('{');
        assert(lit@ =~= seq!['{']);
        v8_emit(out, stack, &lit);
        stack.push(V8Ctx::Object { expect_key: true, first: true });
    } else if tag == 0x7b {
        let _ = read_varint_len(bytes, i);
        out.push('}');
        if stack.len() > 0 {
            let _ = stack.pop();
            assert(stack@ =~= old(stack)@.drop_last());
        }
        assert(out@ =~= old(out)@ + seq!['}']);
    } else if tag == 0x61 || tag == 0x41 {
        let _ = read_varint_len(bytes, i);
        let mut lit: Vec<char> = Vec::new();
        lit.push('[');
        assert(lit@ =~= seq!['[']);
        v8_emit(out, stack, &lit);
        stack.push(V8Ctx::Array { first: true });
    } else if tag == 0x40 || tag == 0x24 {
        let _ = read_varint_len(bytes, i);
        let _ = read_varint_len(bytes, i);
        out.push(']');
        if stack.len() > 0 {
            let _ = stack.pop();
            assert(stack@ =~= old(stack)@.drop_last());
        }
        assert(out@ =~= old(out)@ + seq![']']);
    } else {
        let mut esc: Vec<char> = Vec::new();
        push_escape_hex(&mut esc, tag);
        proof {
            utils::lemma_seq_empty_concat(spec_escape_hex(tag));
        }
        v8_emit(out, stack, &esc);
    }
}

/// The hex-escape chars of a byte string.
#[verifier::loop_isolation(false)]
fn render_hex_chars(bytes: &[u8]) -> (r: Vec<char>)
    ensures
        r@ == spec_bytes_to_hex(bytes@),
{
    let ghost f: spec_fn(u8) -> Seq<char> = |b: u8| spec_escape_hex(b);
    let mut out: Vec<char> = Vec::new();
    let mut i: usize = 0;
    loop
        invariant
            i <= bytes@.len(),
            spec_bytes_to_hex(bytes@) == out@ + spec_render_bytes_from(bytes@, i as int, f),
        decreases bytes@.len() - i,
    {
        let ghost out0 = out@;
        if i >= bytes.len() {
            proof {
                utils::lemma_seq_concat_empty(out@);
            }
            return out;
        }
        push_escape_hex(&mut out, bytes[i]);
        proof {
            assert(out@ =~= out0 + f(bytes@[i as int]));
            utils::lemma_seq_concat_assoc(
                out0,
                f(bytes@[i as int]),
                spec_render_bytes_from(bytes@, i + 1, f),
            );
        }
        i = i + 1;
    }
}

/// Index just past the second 0xFF sentinel at or after `i`, given that
/// `seen` sentinels were already seen.
pub open spec fn spec_find_second_ff(s: Seq<u8>, i: int, seen: int) -> Option<int>
    decreases s.len() - i,
{
    if i < 0 || i >= s.len() {
        None
    } else if s[i] == 0xff {
        if seen >= 1 {
            Some(i + 1)
        } else {
            spec_find_second_ff(s, i + 1, 1)
        }
    } else {
        spec_find_second_ff(s, i + 1, seen)
    }
}

/// Position of the first byte at or after `i` that is not zero.
pub open spec fn spec_skip_zeros(s: Seq<u8>, i: int) -> int
    decreases s.len() - i,
{
    if i < 0 || i >= s.len() {
        i
    } else if s[i] == 0 {
        spec_skip_zeros(s, i + 1)
    } else {
        i
    }
}

/// Text of an object-database value: after the two 0xFF sentinels of the
/// format-version header, a version tag and any zero padding, the tagged
/// values are rendered with an explicit container stack (see
/// `spec_v8_step`); a value without the header falls back to lossy UTF-8 of
/// its raw bytes.
pub open spec fn spec_decode_indexeddb_entry(bytes: Seq<u8>) -> Seq<char> {
    match spec_find_second_ff(bytes, 0, 0) {
        None => spec_bytes_to_utf8_lossy(bytes),
        Some(h) => {
            if h >= bytes.len() {
                spec_bytes_to_utf8_lossy(bytes)
            } else {
                let after_version = spec_loose_varint_end(bytes, h);
                let start = spec_skip_zeros(bytes, after_version);
                if start >= bytes.len() {
                    spec_bytes_to_utf8_lossy(bytes)
                } else {
                    spec_v8_run(bytes, start, Seq::empty(), Seq::empty())
                }
            }
        },
    }
}

/// Decode an object-database value (see `spec_decode_indexeddb_entry`).
#[verifier::loop_isolation(false)]
pub fn decode_indexeddb_entry(bytes: &[u8]) -> (r: String)
    ensures
        r@ == spec_decode_indexeddb_entry(bytes@),
{
    // find the two 0xFF sentinels of the format-version header
    let mut i: usize = 0;
    let mut seen: u8 = 0;
    loop
        invariant
            i <= bytes@.len(),
            seen == 0 || seen == 1,
            spec_find_second_ff(bytes@, 0, 0) == spec_find_second_ff(bytes@, i as int, seen as int),
        decreases bytes@.len() - i,
    {
        if i >= bytes.len() {
            return bytes_to_utf8_lossy(bytes);
        }
        if bytes[i] == 0xff {
            if seen == 1 {
                i = i + 1;
                break ;
            }
            seen = 1;
        }
        i = i + 1;
    }
    assert(spec_find_second_ff(bytes@, 0, 0) == Some(i as int));

    if i >= bytes.len() {
        return bytes_to_utf8_lossy(bytes);
    }

    // skip the format-version tag
    let _ = read_varint_len(bytes, &mut i);

    // skip zero padding
    loop
        invariant
            i <= bytes@.len(),
            spec_skip_zeros(bytes@, spec_loose_varint_end(bytes@, spec_find_second_ff(bytes@, 0, 0)->0))
                == spec_skip_zeros(bytes@, i as int),
        decreases bytes@.len() - i,
    {
        if i >= bytes.len() {
            return bytes_to_utf8_lossy(bytes);
        }
        if bytes[i] != 0 {
            break ;
        }
        i = i + 1;
    }
    assert(spec_skip_zeros(bytes@, spec_loose_varint_end(bytes@, spec_find_second_ff(bytes@, 0, 0)->0))
        == i as int);

    // run the tagged-value reader
    let ghost start = i as int;
    let mut stack: Vec<V8Ctx> = Vec::new();
    let mut out: Vec<char> = Vec::new();

    loop
        invariant
            i <= bytes@.len(),
            spec_v8_run(bytes@, start, Seq::empty(), Seq::empty()) == spec_v8_run(
                bytes@,
                i as int,
                stack@,
                out@,
            ),
        decreases bytes@.len() - i,
    {
        if i >= bytes.len() {
            break ;
        }
        v8_step(bytes, &mut i, &mut stack, &mut out);
    }

    foreign::chars_to_string(&out)
}

/// The decoded-key prefix that marks a session-scoped map entry.
pub open spec fn spec_map_prefix() -> Seq<char> {
    seq!['m', 'a', 'p', '-']
}

/// The key prefix (a single underscore) that marks an item entry of the
/// simple key-string store.
pub open spec fn spec_item_prefix() -> Seq<u8> {
    seq![0x5fu8]
}

/// The `META:` key prefix of the simple key-string store.
pub open spec fn spec_meta_prefix() -> Seq<u8> {
    seq![0x4du8, 0x45u8, 0x54u8, 0x41u8, 0x3au8]
}

/// The `METAACCESS:` key prefix of the simple key-string store.
pub open spec fn spec_metaaccess_prefix() -> Seq<u8> {
    seq![0x4du8, 0x45u8, 0x54u8, 0x41u8, 0x41u8, 0x43u8, 0x43u8, 0x45u8, 0x53u8, 0x53u8, 0x3au8]
}

/// The lowered bytes of the version key of the simple key-string store.
pub open spec fn spec_version_key_lower() -> Seq<u8> {
    seq![0x76u8, 0x65u8, 0x72u8, 0x73u8, 0x69u8, 0x6fu8, 0x6eu8]
}

/// Whether `s` starts with `p`.
pub open spec fn spec_has_prefix(s: Seq<u8>, p: Seq<u8>) -> bool {
    s.len() >= p.len() && s.subrange(0, p.len() as int) == p
}

/// Whether `s` starts with `p`.
fn has_prefix(s: &[u8], p: &[u8]) -> (r: bool)
    ensures
        r == spec_has_prefix(s@, p@),
{
    if p.len() > s.len() {
        return false;
    }
    matches_at(s, 0, p)
}

/// The readable key and value texts of one record, according to the storage
/// layer that produced the file.
///
/// - Session storage: the key is lossy UTF-8; a value under a `map-` key is
///   tried as UTF-16LE first, falling back to lossy UTF-8.
/// - The simple key-string store: item keys (prefix `_`) and their values
///   follow the NUL-and-flag scheme; metadata values are decoded as a
///   creation time and size; the version value is Latin-1; other values are
///   hex-escaped.
/// - The object database: a record key (a type tag 0 through 6 after a
///   fixed byte at position 3) selects the key rule, and the value runs
///   through the tagged-value reader; other keys and values are
///   hex-escaped.
/// - Anything else is lossy UTF-8.
///
/// A missing value (a deletion) always decodes to empty text.
#[verifier::opaque]
pub open spec fn spec_decode_kv(kind: StorageKind, key: Seq<u8>, value: Option<Seq<u8>>) -> (
    Seq<char>,
    Seq<char>,
) {
    match kind {
        StorageKind::SessionStorage => {
            let k = spec_bytes_to_utf8_lossy(key);
            let v = match value {
                Some(vb) => {
                    if k.len() >= 4 && k.subrange(0, 4) == spec_map_prefix() {
                        match spec_try_utf16(vb, true) {
                            Some(txt) => txt,
                            None => spec_bytes_to_utf8_lossy(vb),
                        }
                    } else {
                        spec_bytes_to_utf8_lossy(vb)
                    }
                },
                None => Seq::empty(),
            };
            (k, v)
        },
        StorageKind::LocalStorage => {
            let is_entry = spec_has_prefix(key, spec_item_prefix());
            let is_meta = spec_has_prefix(key, spec_meta_prefix()) || spec_has_prefix(
                key,
                spec_metaaccess_prefix(),
            );
            let k = if is_entry {
                spec_decode_local_storage_key(key)
            } else {
                spec_bytes_to_latin1_hex_escaped(key)
            };
            let v = match value {
                Some(vb) => {
                    if is_entry {
                        spec_decode_local_storage_value(vb)
                    } else if is_meta {
                        spec_decode_local_storage_meta(vb)
                    } else if spec_lower_bytes(key) == spec_version_key_lower() {
                        spec_bytes_to_latin1_hex_escaped(vb)
                    } else {
                        spec_bytes_to_hex(vb)
                    }
                },
                None => Seq::empty(),
            };
            (k, v)
        },
        StorageKind::IndexedDb => {
            if key.len() >= 5 && key[3] == 0x01 && key[4] <= 0x06 {
                let k = spec_decode_indexeddb_key(key[4], key.subrange(5, key.len() as int));
                let v = match value {
                    Some(vb) => spec_decode_indexeddb_entry(vb),
                    None => Seq::empty(),
                };
                (k, v)
            } else {
                let v = match value {
                    Some(vb) => spec_bytes_to_hex(vb),
                    None => Seq::empty(),
                };
                (spec_bytes_to_hex(key), v)
            }
        },
        StorageKind::Generic => {
            let v = match value {
                Some(vb) => spec_bytes_to_utf8_lossy(vb),
                None => Seq::empty(),
            };
            (spec_bytes_to_utf8_lossy(key), v)
        },
    }
}

/// Decode one record's key and value into readable text (see
/// `spec_decode_kv`).
#[verifier::rlimit(50)]
pub fn decode_kv(kind: StorageKind, key: &[u8], value: Option<&[u8]>) -> (r: (String, String))
    ensures
        ({
            let vm = match value {
                Some(v) => Some(v@),
                None => None,
            };
            (r.0@, r.1@) == spec_decode_kv(kind, key@, vm)
        }),
{
    proof {
        reveal(spec_decode_kv);
    }
    match kind {
        StorageKind::SessionStorage => {
            let k_chars = strip_controls(&foreign::utf8_lossy_chars(key));
            let is_map = k_chars.len() >= 4 && {
                let m = k_chars[0] == 'm' && k_chars[1] == 'a' && k_chars[2] == 'p' && k_chars[3]
                    == '-';
                proof {
                    if m {
                        assert(k_chars@.subrange(0, 4) =~= spec_map_prefix());
                    } else {
                        assert(k_chars@.subrange(0, 4) != spec_map_prefix()) by {
                            if k_chars@.subrange(0, 4) == spec_map_prefix() {
                                assert(k_chars@.subrange(0, 4)[0] == 'm');
                                assert(k_chars@.subrange(0, 4)[1] == 'a');
                                assert(k_chars@.subrange(0, 4)[2] == 'p');
                                assert(k_chars@.subrange(0, 4)[3] == '-');
                            }
                        }
                    }
                }
                m
            };
            let k = foreign::chars_to_string(&k_chars);
            let v = match value {
                Some(v_bytes) => {
                    if is_map {
                        match try_utf16le(v_bytes) {
                            Some(s) => s,
                            None => bytes_to_utf8_lossy(v_bytes),
                        }
                    } else {
                        bytes_to_utf8_lossy(v_bytes)
                    }
                },
                None => foreign::chars_to_string(&Vec::new()),
            };
            (k, v)
        },
        StorageKind::LocalStorage => {
            let item_prefix: [u8; 1] = [0x5fu8];
            let meta_prefix: [u8; 5] = [0x4du8, 0x45u8, 0x54u8, 0x41u8, 0x3au8];
            let metaaccess_prefix: [u8; 11] = [
                0x4du8, 0x45u8, 0x54u8, 0x41u8, 0x41u8, 0x43u8, 0x43u8, 0x45u8, 0x53u8, 0x53u8,
                0x3au8,
            ];
            let version_lower: [u8; 7] = [0x76u8, 0x65u8, 0x72u8, 0x73u8, 0x69u8, 0x6fu8, 0x6eu8];
            proof {
                assert(item_prefix@ =~= spec_item_prefix());
                assert(meta_prefix@ =~= spec_meta_prefix());
                assert(metaaccess_prefix@ =~= spec_metaaccess_prefix());
                assert(version_lower@ =~= spec_version_key_lower());
            }

            let is_entry = has_prefix(key, item_prefix.as_slice());
            let is_meta = has_prefix(key, meta_prefix.as_slice()) || has_prefix(
                key,
                metaaccess_prefix.as_slice(),
            );

            let k = if is_entry {
                decode_local_storage_key(key)
            } else {
                bytes_to_latin1_hex_escaped(key)
            };
            let v = match value {
                Some(v_bytes) => {
                    if is_entry {
                        decode_local_storage_value(v_bytes)
                    } else if is_meta {
                        decode_local_storage_meta(v_bytes)
                    } else {
                        let lowered = lower_ascii(key);
                        if utils::bytes_equal(lowered.as_slice(), version_lower.as_slice()) {
                            bytes_to_latin1_hex_escaped(v_bytes)
                        } else {
                            bytes_to_hex(v_bytes)
                        }
                    }
                },
                None => foreign::chars_to_string(&Vec::new()),
            };
            (k, v)
        },
        StorageKind::IndexedDb => {
            if key.len() >= 5 && key[3] == 0x01 && key[4] <= 0x06 {
                let payload = vstd::slice::slice_subrange(key, 5, key.len());
                let k = decode_indexeddb_key(key[4], payload);
                let v = match value {
                    Some(v_bytes) => decode_indexeddb_entry(v_bytes),
                    None => foreign::chars_to_string(&Vec::new()),
                };
                (k, v)
            } else {
                let k = bytes_to_hex(key);
                let v = match value {
                    Some(v_bytes) => bytes_to_hex(v_bytes),
                    None => foreign::chars_to_string(&Vec::new()),
                };
                (k, v)
            }
        },
        StorageKind::Generic => {
            let k = bytes_to_utf8_lossy(key);
            let v = match value {
                Some(v_bytes) => bytes_to_utf8_lossy(v_bytes),
                None => foreign::chars_to_string(&Vec::new()),
            };
            (k, v)
        },
    }
}

} // verus!
