//! Shared binary primitives: variable-length integers, little-endian fields,
//! checksum masking and verification, and the internal-key suffix split.

use vstd::prelude::*;

use crate::error::FormatError;
use crate::foreign::crc32c_of;
use crate::foreign::crc32c_hash;

verus! {

/// The low seven payload bits of one varint byte, widened to 64 bits.
pub open spec fn spec_varint_group(b: u8) -> u64 {
    (b & 0x7f) as u64
}

/// Number of bytes a varint starting at `pos` occupies, given that `depth`
/// bytes of it have already been consumed: the terminating byte (high bit
/// clear) must appear among the first ten bytes, and before the input ends.
pub open spec fn spec_varint_size_from(data: Seq<u8>, pos: int, depth: int) -> Option<int>
    decreases 10 - depth,
{
    if depth >= 10 {
        None
    } else if pos < 0 || pos >= data.len() {
        None
    } else if data[pos] & 0x80 == 0 {
        Some(depth + 1)
    } else {
        spec_varint_size_from(data, pos + 1, depth + 1)
    }
}

/// Number of bytes of the varint that starts at `pos`, if it is complete.
pub open spec fn spec_varint_size(data: Seq<u8>, pos: int) -> Option<int> {
    spec_varint_size_from(data, pos, 0)
}

/// Value of `count` base-128 groups starting at `pos`, least-significant
/// group first; bits beyond the 64th are discarded, as the decoder does.
pub open spec fn spec_varint_value(data: Seq<u8>, pos: int, count: int) -> u64
    decreases count,
{
    if count <= 0 {
        0u64
    } else {
        spec_varint_group(data[pos]) | (spec_varint_value(data, pos + 1, count - 1) << 7)
    }
}

/// The varint at `pos`: its value and the position just past it.
pub open spec fn spec_varint_at(data: Seq<u8>, pos: int) -> Option<(u64, int)> {
    match spec_varint_size(data, pos) {
        Some(n) => Some((spec_varint_value(data, pos, n), pos + n)),
        None => None,
    }
}

/// A complete varint occupies between one and ten bytes, all within the
/// input.
pub proof fn lemma_varint_size_from_bounds(data: Seq<u8>, pos: int, depth: int)
    requires
        0 <= pos,
        0 <= depth,
    ensures
        spec_varint_size_from(data, pos, depth) matches Some(n) ==> {
            &&& depth < n <= 10
            &&& pos + (n - depth) <= data.len()
        },
    decreases 10 - depth,
{
    if depth < 10 && 0 <= pos < data.len() && data[pos] & 0x80 != 0 {
        lemma_varint_size_from_bounds(data, pos + 1, depth + 1);
    }
}

/// A varint read advances the position by one to ten bytes, staying within
/// the input.
pub proof fn lemma_varint_at_advances(data: Seq<u8>, pos: int)
    requires
        0 <= pos,
    ensures
        spec_varint_at(data, pos) matches Some((v, next)) ==> pos < next <= data.len(),
{
    lemma_varint_size_from_bounds(data, pos, 0);
}

/// A length-prefixed read advances the position, staying within the input.
pub proof fn lemma_varint_slice_at_advances(data: Seq<u8>, pos: int)
    requires
        0 <= pos,
    ensures
        spec_varint_slice_at(data, pos) matches Some((v, next)) ==> pos < next <= data.len(),
{
    lemma_varint_at_advances(data, pos);
}

/// A varint at `pos` is malformed (as opposed to truncated) when ten bytes
/// are available and every one of them has the continuation bit set.
pub open spec fn spec_varint_malformed(data: Seq<u8>, pos: int) -> bool {
    &&& pos + 10 <= data.len()
    &&& forall|j: int| pos <= j < pos + 10 ==> (data[j] & 0x80) != 0
}

/// Appending one more group to a varint value ORs that group in at the next
/// seven-bit position.
pub proof fn lemma_varint_value_snoc(data: Seq<u8>, pos: int, count: int)
    requires
        1 <= count <= 10,
    ensures
        spec_varint_value(data, pos, count) == (spec_varint_value(data, pos, count - 1) | (
        spec_varint_group(data[pos + count - 1]) << (7 * (count - 1)))),
    decreases count,
{
    if count == 1 {
        let g = spec_varint_group(data[pos]);
        assert(spec_varint_value(data, pos + 1, 0) == 0);
        assert(spec_varint_value(data, pos, 1) == g | (0u64 << 7));
        assert(spec_varint_value(data, pos, 0) == 0);
        assert(g | (0u64 << 7) == 0u64 | (g << 0)) by (bit_vector);
    } else {
        lemma_varint_value_snoc(data, pos + 1, count - 1);
        let x = spec_varint_value(data, pos + 1, count - 2);
        let g0 = spec_varint_group(data[pos]);
        let gl = spec_varint_group(data[pos + count - 1]);
        let s: u64 = (7 * (count - 2)) as u64;
        assert(s <= 56 ==> (g0 | ((x | (gl << s)) << 7)) == ((g0 | (x << 7)) | (gl << (s + 7))))
            by (bit_vector);
    }
}

/// Read the varint that starts at `*pos`. On success the cursor moves just
/// past it; on failure the cursor is unchanged and the error tells a
/// ten-byte run of continuation bits from a truncated input apart.
#[verifier::loop_isolation(false)]
pub fn read_varint(data: &[u8], pos: &mut usize) -> (r: Result<u64, FormatError>)
    requires
        *old(pos) <= data@.len(),
    ensures
        match r {
            Ok(v) => {
                &&& spec_varint_at(data@, *old(pos) as int) == Some((v, *final(pos) as int))
                &&& *old(pos) < *final(pos) <= data@.len()
            },
            Err(e) => {
                &&& spec_varint_at(data@, *old(pos) as int) is None
                &&& *final(pos) == *old(pos)
                &&& e == (if spec_varint_malformed(data@, *old(pos) as int) {
                    FormatError::MalformedVarint
                } else {
                    FormatError::TruncatedEntry
                })
            },
        },
{
    let ghost p0 = *pos as int;
    let mut i: usize = *pos;
    let mut count: usize = 0;
    let mut result: u64 = 0;
    let mut shift: u64 = 0;

    loop
        invariant
            p0 == *pos as int,
            *pos <= data@.len(),
            i == *pos + count,
            count < 10,
            i <= data@.len(),
            shift == 7 * count,
            result == spec_varint_value(data@, p0, count as int),
            spec_varint_size_from(data@, p0, 0) == spec_varint_size_from(
                data@,
                i as int,
                count as int,
            ),
            forall|j: int| p0 <= j < i ==> (data@[j] & 0x80) != 0,
        decreases 10 - count,
    {
        if i >= data.len() {
            return Err(FormatError::TruncatedEntry);
        }
        let b = data[i];
        let g = b & 0x7f;
        let add_in: u64 = (g as u64) << shift;
        let new_result = result | add_in;
        proof {
            lemma_varint_value_snoc(data@, p0, count as int + 1);
        }
        result = new_result;
        i = i + 1;
        count = count + 1;
        if b & 0x80 == 0 {
            *pos = i;
            return Ok(result);
        }
        if count >= 10 {
            assert(spec_varint_malformed(data@, p0));
            return Err(FormatError::MalformedVarint);
        }
        shift = shift + 7;
    }
}

/// Decode a varint from the front of a whole byte string. This follows the
/// permissive rule used for already-extracted buffers: an input that ends
/// before a terminating byte yields the value of the groups present (so an
/// empty input yields zero); only a ten-byte run of continuation bits is an
/// error.
pub open spec fn spec_decode_varint(bytes: Seq<u8>) -> Option<u64> {
    match spec_varint_size(bytes, 0) {
        Some(n) => Some(spec_varint_value(bytes, 0, n)),
        None => {
            if bytes.len() < 10 {
                Some(spec_varint_value(bytes, 0, bytes.len() as int))
            } else {
                None
            }
        },
    }
}

/// Decode a varint from the front of `bytes`, permissively (see
/// `spec_decode_varint`).
#[verifier::loop_isolation(false)]
pub fn decode_varint(bytes: &[u8]) -> (r: Result<u64, FormatError>)
    ensures
        match r {
            Ok(v) => spec_decode_varint(bytes@) == Some(v),
            Err(e) => spec_decode_varint(bytes@) is None && e == FormatError::MalformedVarint,
        },
{
    let mut i: usize = 0;
    let mut result: u64 = 0;
    let mut shift: u64 = 0;

    loop
        invariant
            i < 10,
            i <= bytes@.len(),
            shift == 7 * i,
            result == spec_varint_value(bytes@, 0, i as int),
            spec_varint_size_from(bytes@, 0, 0) == spec_varint_size_from(bytes@, i as int, i as int),
            forall|j: int| 0 <= j < i ==> (bytes@[j] & 0x80) != 0,
        decreases 10 - i,
    {
        if i >= bytes.len() {
            return Ok(result);
        }
        let b = bytes[i];
        let g = b & 0x7f;
        let add_in: u64 = (g as u64) << shift;
        let new_result = result | add_in;
        proof {
            lemma_varint_value_snoc(bytes@, 0, i as int + 1);
        }
        result = new_result;
        i = i + 1;
        if b & 0x80 == 0 {
            return Ok(result);
        }
        if i >= 10 {
            assert(spec_varint_malformed(bytes@, 0));
            return Err(FormatError::MalformedVarint);
        }
        shift = shift + 7;
    }
}

/// Little-endian base-128 encoding of `v` with at most `fuel` groups: seven
/// bits per byte, continuation bit set on every byte but the last. Ten
/// groups always suffice for 64 bits, so `fuel` is only a termination bound.
pub open spec fn spec_encode_varint_rec(v: u64, fuel: int) -> Seq<u8>
    decreases fuel,
{
    if fuel <= 0 {
        Seq::empty()
    } else if v < 0x80 {
        seq![v as u8]
    } else {
        seq![((v & 0x7f) | 0x80) as u8] + spec_encode_varint_rec(v >> 7, fuel - 1)
    }
}

/// Little-endian base-128 encoding of `v`.
pub open spec fn spec_encode_varint(v: u64) -> Seq<u8> {
    spec_encode_varint_rec(v, 10)
}

/// Whether `v` is representable in at most `fuel` base-128 groups.
pub open spec fn spec_fits_groups(v: u64, fuel: int) -> bool
    decreases fuel,
{
    if fuel <= 0 {
        v == 0
    } else {
        spec_fits_groups(v >> 7, fuel - 1)
    }
}

/// Every 64-bit value fits in ten base-128 groups.
pub proof fn lemma_fits_groups_10(v: u64)
    ensures
        spec_fits_groups(v, 10),
{
    reveal_with_fuel(spec_fits_groups, 11);
    assert(((((((((((v >> 7) >> 7) >> 7) >> 7) >> 7) >> 7) >> 7) >> 7) >> 7) >> 7) == 0)
        by (bit_vector);
}

/// An encoded varint embedded anywhere in a larger byte string decodes, from
/// its start, back to the value it encodes.
pub proof fn lemma_varint_encode_at(v: u64, fuel: int, data: Seq<u8>, pos: int, depth: int)
    requires
        1 <= fuel,
        0 <= depth,
        depth + fuel <= 10,
        spec_fits_groups(v, fuel),
        0 <= pos,
        pos + spec_encode_varint_rec(v, fuel).len() <= data.len(),
        data.subrange(pos, pos + spec_encode_varint_rec(v, fuel).len() as int)
            == spec_encode_varint_rec(v, fuel),
    ensures
        ({
            let e = spec_encode_varint_rec(v, fuel);
            &&& 1 <= e.len() <= fuel
            &&& spec_varint_size_from(data, pos, depth) == Some(depth + e.len())
            &&& spec_varint_value(data, pos, e.len() as int) == v
        }),
    decreases fuel,
{
    let e = spec_encode_varint_rec(v, fuel);
    if v < 0x80 {
        assert(e == seq![v as u8]);
        assert(data.subrange(pos, pos + e.len() as int)[0] == data[pos]);
        assert(data[pos] == v as u8);
        assert(v < 0x80 ==> (((v as u8) & 0x80) == 0 && ((((v as u8) & 0x7f) as u64) | (0u64 << 7))
            == v)) by (bit_vector);
        assert(spec_varint_value(data, pos + 1, 0) == 0);
        assert(spec_varint_value(data, pos, 1) == spec_varint_group(data[pos]) | (0u64 << 7));
    } else {
        let b0: u8 = ((v & 0x7f) | 0x80) as u8;
        let rest = spec_encode_varint_rec(v >> 7, fuel - 1);
        assert(e == seq![b0] + rest);
        assert(data.subrange(pos, pos + e.len() as int)[0] == data[pos]);
        assert(e[0] == b0);
        assert(data[pos] == b0);
        if fuel == 1 {
            assert(spec_fits_groups(v >> 7, 0));
            assert(v >> 7 == 0 ==> v < 0x80) by (bit_vector);
        }
        assert(fuel >= 2);
        assert(spec_fits_groups(v >> 7, fuel - 1));
        assert forall|k: int| 0 <= k < rest.len() implies data[pos + 1 + k] == rest[k] by {
            assert(e[k + 1] == rest[k]);
            assert(data.subrange(pos, pos + e.len() as int)[k + 1] == data[pos + 1 + k]);
        }
        assert(data.subrange(pos + 1, pos + 1 + rest.len() as int) =~= rest);
        lemma_varint_encode_at(v >> 7, fuel - 1, data, pos + 1, depth + 1);
        assert((((v & 0x7f) | 0x80) as u8) & 0x80 != 0) by (bit_vector);
        assert(spec_varint_size_from(data, pos, depth) == spec_varint_size_from(
            data,
            pos + 1,
            depth + 1,
        ));
        assert(spec_varint_value(data, pos, e.len() as int) == spec_varint_group(data[pos]) | (
        spec_varint_value(data, pos + 1, rest.len() as int) << 7));
        assert(v >= 0x80 ==> ((((((v & 0x7f) | 0x80) as u8) & 0x7f) as u64) | ((v >> 7) << 7))
            == v) by (bit_vector);
    }
}

/// Varint round-trip: decoding an encoded 64-bit value gives the value back,
/// and the encoding never takes more than ten bytes.
pub proof fn lemma_varint_roundtrip(v: u64)
    ensures
        ({
            let e = spec_encode_varint(v);
            &&& 1 <= e.len() <= 10
            &&& spec_varint_at(e, 0) == Some((v, e.len() as int))
        }),
{
    let e = spec_encode_varint(v);
    lemma_fits_groups_10(v);
    assert(e.subrange(0, e.len() as int) =~= e);
    lemma_varint_encode_at(v, 10, e, 0, 0);
}

/// Encode `v` as a varint.
#[verifier::loop_isolation(false)]
pub fn encode_varint(v: u64) -> (r: Vec<u8>)
    ensures
        r@ == spec_encode_varint(v),
        1 <= r@.len() <= 10,
{
    let mut out: Vec<u8> = Vec::new();
    let mut cur: u64 = v;

    proof {
        lemma_fits_groups_10(v);
        assert(spec_encode_varint(v) =~= Seq::<u8>::empty() + spec_encode_varint_rec(v, 10));
    }
    loop
        invariant
            out@.len() <= 9,
            spec_encode_varint(v) == out@ + spec_encode_varint_rec(cur, 10 - out@.len()),
            spec_fits_groups(cur, 10 - out@.len()),
        decreases 10 - out@.len(),
    {
        let ghost fuel = 10 - out@.len();
        if cur < 0x80 {
            out.push(cur as u8);
            assert(spec_encode_varint(v) =~= out@);
            proof {
                lemma_varint_roundtrip(v);
            }
            return out;
        }
        let b0: u8 = ((cur & 0x7f) | 0x80) as u8;
        let next = cur >> 7;
        proof {
            if fuel == 1 {
                assert(spec_fits_groups(cur >> 7, 0));
                assert(cur >> 7 == 0 ==> cur < 0x80) by (bit_vector);
            }
            assert(spec_fits_groups(next, fuel - 1));
        }
        out.push(b0);
        assert(spec_encode_varint(v) =~= out@ + spec_encode_varint_rec(next, 10 - out@.len()));
        cur = next;
    }
}

/// The 16-bit little-endian value stored at `pos`.
pub open spec fn spec_u16_at(data: Seq<u8>, pos: int) -> u16 {
    (data[pos] as u16) | ((data[pos + 1] as u16) << 8)
}

/// The 32-bit little-endian value stored at `pos`.
pub open spec fn spec_u32_at(data: Seq<u8>, pos: int) -> u32 {
    (data[pos] as u32) | ((data[pos + 1] as u32) << 8) | ((data[pos + 2] as u32) << 16) | ((data[pos
        + 3] as u32) << 24)
}

/// The 64-bit little-endian value stored at `pos`.
pub open spec fn spec_u64_at(data: Seq<u8>, pos: int) -> u64 {
    (data[pos] as u64) | ((data[pos + 1] as u64) << 8) | ((data[pos + 2] as u64) << 16) | ((data[pos
        + 3] as u64) << 24) | ((data[pos + 4] as u64) << 32) | ((data[pos + 5] as u64) << 40) | ((
    data[pos + 6] as u64) << 48) | ((data[pos + 7] as u64) << 56)
}

/// Read a 16-bit little-endian field, advancing the cursor.
pub fn read_u16_le(data: &[u8], pos: &mut usize) -> (r: Result<u16, FormatError>)
    requires
        *old(pos) <= data@.len(),
    ensures
        match r {
            Ok(v) => {
                &&& *old(pos) + 2 <= data@.len()
                &&& v == spec_u16_at(data@, *old(pos) as int)
                &&& *final(pos) == *old(pos) + 2
            },
            Err(e) => {
                &&& e == FormatError::TruncatedEntry
                &&& *old(pos) + 2 > data@.len()
                &&& *final(pos) == *old(pos)
            },
        },
{
    if data.len() - *pos < 2 {
        return Err(FormatError::TruncatedEntry);
    }
    let p = *pos;
    let v = (data[p] as u16) | ((data[p + 1] as u16) << 8);
    *pos = p + 2;
    Ok(v)
}

/// Read a 32-bit little-endian field, advancing the cursor.
pub fn read_u32_le(data: &[u8], pos: &mut usize) -> (r: Result<u32, FormatError>)
    requires
        *old(pos) <= data@.len(),
    ensures
        match r {
            Ok(v) => {
                &&& *old(pos) + 4 <= data@.len()
                &&& v == spec_u32_at(data@, *old(pos) as int)
                &&& *final(pos) == *old(pos) + 4
            },
            Err(e) => {
                &&& e == FormatError::TruncatedEntry
                &&& *old(pos) + 4 > data@.len()
                &&& *final(pos) == *old(pos)
            },
        },
{
    if data.len() - *pos < 4 {
        return Err(FormatError::TruncatedEntry);
    }
    let p = *pos;
    let v = (data[p] as u32) | ((data[p + 1] as u32) << 8) | ((data[p + 2] as u32) << 16) | ((data[p
        + 3] as u32) << 24);
    *pos = p + 4;
    Ok(v)
}

/// Read a 64-bit little-endian field, advancing the cursor.
pub fn read_u64_le(data: &[u8], pos: &mut usize) -> (r: Result<u64, FormatError>)
    requires
        *old(pos) <= data@.len(),
    ensures
        match r {
            Ok(v) => {
                &&& *old(pos) + 8 <= data@.len()
                &&& v == spec_u64_at(data@, *old(pos) as int)
                &&& *final(pos) == *old(pos) + 8
            },
            Err(e) => {
                &&& e == FormatError::TruncatedEntry
                &&& *old(pos) + 8 > data@.len()
                &&& *final(pos) == *old(pos)
            },
        },
{
    if data.len() - *pos < 8 {
        return Err(FormatError::TruncatedEntry);
    }
    let p = *pos;
    let v = (data[p] as u64) | ((data[p + 1] as u64) << 8) | ((data[p + 2] as u64) << 16) | ((data[p
        + 3] as u64) << 24) | ((data[p + 4] as u64) << 32) | ((data[p + 5] as u64) << 40) | ((data[p
        + 6] as u64) << 48) | ((data[p + 7] as u64) << 56);
    *pos = p + 8;
    Ok(v)
}

/// End position of a read of `n` bytes at `pos`, clipped to the input's end.
pub open spec fn spec_clipped_end(data: Seq<u8>, pos: int, n: int) -> int {
    if pos + n <= data.len() {
        pos + n
    } else {
        data.len() as int
    }
}

/// Read up to `length` bytes at the cursor; a read that runs past the end of
/// the input is clipped, not an error.
pub fn read_slice(data: &[u8], pos: &mut usize, length: usize) -> (r: Vec<u8>)
    requires
        *old(pos) <= data@.len(),
    ensures
        *final(pos) == spec_clipped_end(data@, *old(pos) as int, length as int),
        r@ == data@.subrange(*old(pos) as int, *final(pos) as int),
{
    let avail = data.len() - *pos;
    let take = if length < avail {
        length
    } else {
        avail
    };
    let piece = vstd::slice::slice_subrange(data, *pos, *pos + take);
    let out = vstd::slice::slice_to_vec(piece);
    *pos = *pos + take;
    out
}

/// The byte string selected by a varint length prefix at `pos`: the bytes
/// after the prefix, clipped to the input's end, and the position after them.
pub open spec fn spec_varint_slice_at(data: Seq<u8>, pos: int) -> Option<(Seq<u8>, int)> {
    match spec_varint_at(data, pos) {
        Some((n, mid)) => {
            let end = spec_clipped_end(data, mid, n as int);
            Some((data.subrange(mid, end), end))
        },
        None => None,
    }
}

/// Read a varint length prefix, then that many bytes (clipped to the end of
/// the input), advancing the cursor past both.
pub fn read_varint_slice(data: &[u8], pos: &mut usize) -> (r: Result<Vec<u8>, FormatError>)
    requires
        *old(pos) <= data@.len(),
    ensures
        match r {
            Ok(v) => {
                &&& spec_varint_slice_at(data@, *old(pos) as int) == Some((v@, *final(pos) as int))
                &&& *old(pos) < *final(pos) <= data@.len()
            },
            Err(e) => {
                &&& spec_varint_slice_at(data@, *old(pos) as int) is None
                &&& *final(pos) == *old(pos)
                &&& e == (if spec_varint_malformed(data@, *old(pos) as int) {
                    FormatError::MalformedVarint
                } else {
                    FormatError::TruncatedEntry
                })
            },
        },
{
    let record_len = read_varint(data, pos)?;
    let want: usize = if record_len <= usize::MAX as u64 {
        record_len as usize
    } else {
        usize::MAX
    };
    let out = read_slice(data, pos, want);
    assert(spec_clipped_end(data@, *pos as int - out@.len() as int, want as int)
        == spec_clipped_end(data@, *pos as int - out@.len() as int, record_len as int));
    Ok(out)
}

/// The little-endian number held by a key's trailing eight bytes.
pub open spec fn spec_key_suffix_num(key: Seq<u8>) -> u64
    recommends
        key.len() >= 8,
{
    spec_u64_at(key, key.len() - 8)
}

/// A stored key split into its user key and the state and sequence number
/// packed into its trailing eight bytes: reading those bytes as a
/// little-endian number `n`, the state is `n & 0xff` and the sequence number
/// is `n >> 8`. A key shorter than eight bytes cannot be split.
pub open spec fn spec_split_key(key: Seq<u8>) -> Option<(Seq<u8>, u8, u64)> {
    if key.len() < 8 {
        None
    } else {
        Some(
            (
                key.subrange(0, key.len() - 8),
                (spec_key_suffix_num(key) & 0xff) as u8,
                spec_key_suffix_num(key) >> 8,
            ),
        )
    }
}

/// Split a stored key into its user key and the state and sequence number
/// packed into its trailing eight bytes (see `spec_split_key`).
pub fn decode_key(key: &[u8]) -> (r: Result<(Vec<u8>, u8, u64), FormatError>)
    ensures
        match r {
            Ok((user_key, state, seq)) => {
                &&& key@.len() >= 8
                &&& spec_split_key(key@) == Some((user_key@, state, seq))
                &&& user_key@ == key@.subrange(0, key@.len() - 8)
                &&& state as u64 == spec_key_suffix_num(key@) & 0xff
                &&& seq == spec_key_suffix_num(key@) >> 8
            },
            Err(e) => {
                &&& e == FormatError::KeyTooShort
                &&& key@.len() < 8
            },
        },
{
    if key.len() < 8 {
        return Err(FormatError::KeyTooShort);
    }

    let start = key.len() - 8;
    let user_key = vstd::slice::slice_to_vec(vstd::slice::slice_subrange(key, 0, start));

    let state = key[start];
    let seq = (key[start + 1] as u64) | ((key[start + 2] as u64) << 8) | ((key[start + 3] as u64)
        << 16) | ((key[start + 4] as u64) << 24) | ((key[start + 5] as u64) << 32) | ((key[start
        + 6] as u64) << 40) | ((key[start + 7] as u64) << 48);

    proof {
        let b0 = key@[start as int];
        let b1 = key@[start + 1];
        let b2 = key@[start + 2];
        let b3 = key@[start + 3];
        let b4 = key@[start + 4];
        let b5 = key@[start + 5];
        let b6 = key@[start + 6];
        let b7 = key@[start + 7];
        let n = spec_key_suffix_num(key@);
        assert(n == (b0 as u64) | ((b1 as u64) << 8) | ((b2 as u64) << 16) | ((b3 as u64) << 24) | (
        (b4 as u64) << 32) | ((b5 as u64) << 40) | ((b6 as u64) << 48) | ((b7 as u64) << 56));
        assert(({
            let m = (b0 as u64) | ((b1 as u64) << 8) | ((b2 as u64) << 16) | ((b3 as u64) << 24) | (
            (b4 as u64) << 32) | ((b5 as u64) << 40) | ((b6 as u64) << 48) | ((b7 as u64) << 56);
            &&& (b0 as u64) == m & 0xff
            &&& ((b1 as u64) | ((b2 as u64) << 8) | ((b3 as u64) << 16) | ((b4 as u64) << 24) | ((
            b5 as u64) << 32) | ((b6 as u64) << 40) | ((b7 as u64) << 48)) == m >> 8
        })) by (bit_vector);
        assert(state == (spec_key_suffix_num(key@) & 0xff) as u8);
    }

    Ok((user_key, state, seq))
}

/// Key-suffix split, stated over the bytes alone: for an eight-byte suffix
/// read as a little-endian number `n`, the split yields state `n & 0xff` and
/// sequence `n >> 8`, and the state is exactly the suffix's first byte while
/// the sequence is the number held by its remaining seven bytes.
pub proof fn lemma_key_suffix_split(suffix: Seq<u8>)
    requires
        suffix.len() == 8,
    ensures
        spec_key_suffix_num(suffix) & 0xff == suffix[0] as u64,
        spec_key_suffix_num(suffix) >> 8 == (suffix[1] as u64) | ((suffix[2] as u64) << 8) | ((
        suffix[3] as u64) << 16) | ((suffix[4] as u64) << 24) | ((suffix[5] as u64) << 32) | ((
        suffix[6] as u64) << 40) | ((suffix[7] as u64) << 48),
{
    let b0 = suffix[0];
    let b1 = suffix[1];
    let b2 = suffix[2];
    let b3 = suffix[3];
    let b4 = suffix[4];
    let b5 = suffix[5];
    let b6 = suffix[6];
    let b7 = suffix[7];
    assert(spec_key_suffix_num(suffix) == (b0 as u64) | ((b1 as u64) << 8) | ((b2 as u64) << 16) | (
    (b3 as u64) << 24) | ((b4 as u64) << 32) | ((b5 as u64) << 40) | ((b6 as u64) << 48) | ((
    b7 as u64) << 56));
    assert(({
        let m = (b0 as u64) | ((b1 as u64) << 8) | ((b2 as u64) << 16) | ((b3 as u64) << 24) | ((
        b4 as u64) << 32) | ((b5 as u64) << 40) | ((b6 as u64) << 48) | ((b7 as u64) << 56);
        &&& m & 0xff == (b0 as u64)
        &&& m >> 8 == ((b1 as u64) | ((b2 as u64) << 8) | ((b3 as u64) << 16) | ((b4 as u64) << 24)
            | ((b5 as u64) << 32) | ((b6 as u64) << 40) | ((b7 as u64) << 48))
    })) by (bit_vector);
}

/// Whether two byte strings hold the same bytes.
#[verifier::loop_isolation(false)]
pub fn bytes_equal(a: &[u8], b: &[u8]) -> (r: bool)
    ensures
        r == (a@ == b@),
{
    if a.len() != b.len() {
        assert(a@ != b@);
        return false;
    }
    let mut i: usize = 0;
    loop
        invariant
            i <= a@.len(),
            a@.len() == b@.len(),
            forall|t: int| 0 <= t < i ==> a@[t] == b@[t],
        decreases a@.len() - i,
    {
        if i >= a.len() {
            assert(a@ =~= b@);
            return true;
        }
        if a[i] != b[i] {
            return false;
        }
        i = i + 1;
    }
}

/// Concatenation of sequences is associative.
pub proof fn lemma_seq_concat_assoc<A>(a: Seq<A>, b: Seq<A>, c: Seq<A>)
    ensures
        (a + b) + c == a + (b + c),
{
    assert((a + b) + c =~= a + (b + c));
}

/// Pushing one element is concatenation with a singleton.
pub proof fn lemma_seq_push_concat<A>(a: Seq<A>, x: A)
    ensures
        a.push(x) == a + seq![x],
{
    assert(a.push(x) =~= a + seq![x]);
}

/// The empty sequence is a right identity of concatenation.
pub proof fn lemma_seq_concat_empty<A>(a: Seq<A>)
    ensures
        a + Seq::<A>::empty() == a,
{
    assert(a + Seq::<A>::empty() =~= a);
}

/// The empty sequence is a left identity of concatenation.
pub proof fn lemma_seq_empty_concat<A>(a: Seq<A>)
    ensures
        Seq::<A>::empty() + a == a,
{
    assert(Seq::<A>::empty() + a =~= a);
}

/// Mapping over a sequence distributes over push.
pub proof fn lemma_map_values_push<A, B>(v: Seq<A>, f: spec_fn(A) -> B, x: A)
    ensures
        v.push(x).map_values(f) == v.map_values(f).push(f(x)),
{
    assert(v.push(x).map_values(f) =~= v.map_values(f).push(f(x)));
}

/// Additive constant that distinguishes a stored (masked) checksum from a
/// plain CRC32C value.
pub const MASK_DELTA: u32 = 0xa282ead8;

/// `x` rotated right by 15 bit positions.
pub open spec fn spec_rotate_right_15(x: u32) -> u32 {
    (x >> 15) | (x << 17)
}

/// `x` rotated left by 15 bit positions.
pub open spec fn spec_rotate_left_15(x: u32) -> u32 {
    (x << 15) | (x >> 17)
}

/// The masked form under which a CRC32C value is stored on disk:
/// rotate right by 15, then add the fixed delta (mod 2^32).
pub open spec fn spec_mask_crc32c(crc: u32) -> u32 {
    vstd::wrapping::u32_specs::wrapping_add(spec_rotate_right_15(crc), MASK_DELTA)
}

/// Inverse of `spec_mask_crc32c`: subtract the fixed delta (mod 2^32), then
/// rotate left by 15.
pub open spec fn spec_unmask_crc32c(masked: u32) -> u32 {
    spec_rotate_left_15(vstd::wrapping::u32_specs::wrapping_sub(masked, MASK_DELTA))
}

/// Mask a CRC32C value for storage.
pub fn mask_crc32c(crc: u32) -> (r: u32)
    ensures
        r == spec_mask_crc32c(crc),
{
    let rot = (crc >> 15) | (crc << 17);
    rot.wrapping_add(MASK_DELTA)
}

/// Recover a CRC32C value from its stored masked form.
pub fn unmask_crc32c(masked_crc: u32) -> (r: u32)
    ensures
        r == spec_unmask_crc32c(masked_crc),
{
    let rot = masked_crc.wrapping_sub(MASK_DELTA);
    (rot << 15) | (rot >> 17)
}

/// Masking loses nothing: unmasking a masked value gives the value back.
pub proof fn lemma_mask_unmask_roundtrip(crc: u32)
    ensures
        spec_unmask_crc32c(spec_mask_crc32c(crc)) == crc,
{
    assert(spec_unmask_crc32c(spec_mask_crc32c(crc)) == crc) by (bit_vector);
}

/// The exact byte string a stored checksum covers. Sorted-table blocks
/// checksum the block bytes followed by the compression-type byte; log and
/// manifest physical blocks checksum the block-type byte followed by the
/// payload.
pub open spec fn spec_checksum_input(data: Seq<u8>, type_byte: u8, ldb_file_flag: bool) -> Seq<u8> {
    if ldb_file_flag {
        data.push(type_byte)
    } else {
        seq![type_byte] + data
    }
}

/// Checksum masking round-trip over an actual checksum: for every byte buffer
/// and type byte, unmasking the masked CRC32C of the covered bytes gives that
/// CRC32C back.
pub proof fn lemma_checksum_mask_roundtrip(data: Seq<u8>, type_byte: u8, ldb_file_flag: bool)
    ensures
        spec_unmask_crc32c(spec_mask_crc32c(crc32c_of(spec_checksum_input(data, type_byte, ldb_file_flag))))
            == crc32c_of(spec_checksum_input(data, type_byte, ldb_file_flag)),
{
    lemma_mask_unmask_roundtrip(crc32c_of(spec_checksum_input(data, type_byte, ldb_file_flag)));
}

/// Whether the stored (masked) checksum `crc` matches the checksum of
/// `data_slice` combined with `type_byte` in the byte order that the file
/// kind uses at write time.
pub fn crc_verified(crc: u32, data_slice: &[u8], type_byte: u8, ldb_file_flag: bool) -> (r: bool)
    ensures
        r == (crc32c_of(spec_checksum_input(data_slice@, type_byte, ldb_file_flag))
            == spec_unmask_crc32c(crc)),
{
    let mut buf: Vec<u8> = Vec::new();

    if ldb_file_flag {
        buf.extend_from_slice(data_slice);
        buf.push(type_byte);
    } else {
        // log / manifest file order
        buf.push(type_byte);
        buf.extend_from_slice(data_slice);
    }
    assert(buf@ =~= spec_checksum_input(data_slice@, type_byte, ldb_file_flag));

    let calculated_crc = crc32c_hash(&buf);
    let unmasked_crc = unmask_crc32c(crc);

    calculated_crc == unmasked_crc
}

} // verus!
