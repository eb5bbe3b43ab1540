//! Sorted-table file decoding: footer, meta-index and index structures,
//! prefix-compressed record blocks, and the probabilistic-filter block.

use vstd::prelude::*;

use crate::decoder::StorageKind;
use crate::error::FormatError;
use crate::foreign::crc32c_of;
use crate::foreign::snappy_decompressed;
use crate::foreign::snappy_decompress;
use crate::foreign::zstd_decompressed;
use crate::foreign::zstd_decompress;
use crate::utils;
use crate::utils::spec_checksum_input;
use crate::utils::spec_u32_at;
use crate::utils::spec_unmask_crc32c;
use crate::utils::spec_varint_at;
use crate::utils::spec_varint_malformed;

verus! {

/// Position and length of one block inside a table file, as stored in the
/// footer and in index entries.
#[derive(Clone, Copy, Debug, PartialEq, Eq, Structural)]
pub struct BlockHandle {
    pub offset: u64,
    pub size: u64,
}

/// The error a failed varint read at `pos` reports.
pub open spec fn spec_varint_err(data: Seq<u8>, pos: int) -> FormatError {
    if spec_varint_malformed(data, pos) {
        FormatError::MalformedVarint
    } else {
        FormatError::TruncatedEntry
    }
}

/// The block handle encoded as two consecutive varints at `pos`: offset,
/// then size, and the position just past them.
pub open spec fn spec_block_handle_at(data: Seq<u8>, pos: int) -> Option<(BlockHandle, int)> {
    match spec_varint_at(data, pos) {
        Some((offset, mid)) => match spec_varint_at(data, mid) {
            Some((size, next)) => Some((BlockHandle { offset, size }, next)),
            None => None,
        },
        None => None,
    }
}

/// Decode a block handle from the front of `data` (see
/// `spec_block_handle_at`).
pub fn parse_block_handle(data: &[u8]) -> (r: Result<BlockHandle, FormatError>)
    ensures
        match r {
            Ok(h) => spec_block_handle_at(data@, 0) matches Some((h2, next)) && h2 == h,
            Err(e) => {
                &&& spec_block_handle_at(data@, 0) is None
                &&& e == (match spec_varint_at(data@, 0) {
                    None => spec_varint_err(data@, 0),
                    Some((v, mid)) => spec_varint_err(data@, mid),
                })
            },
        },
{
    let mut pos: usize = 0;
    let offset = utils::read_varint(data, &mut pos)?;
    let size = utils::read_varint(data, &mut pos)?;
    Ok(BlockHandle { offset, size })
}

/// The fixed eight-byte magic sequence that ends a table file.
pub open spec fn spec_table_magic() -> Seq<u8> {
    seq![0x57u8, 0xfbu8, 0x80u8, 0x8bu8, 0x24u8, 0x75u8, 0x47u8, 0xdbu8]
}

/// The footer read from the trailing 48 bytes of a table file: two block
/// handles, and the trailing eight-byte magic checked independently.
pub struct Footer {
    pub offset: u64,
    pub meta_index_handle: BlockHandle,
    pub index_handle: BlockHandle,
    pub magic: [u8; 8],
    pub is_valid: bool,
}

/// Mathematical model of a `Footer`.
pub struct FooterModel {
    pub offset: u64,
    pub meta_index_handle: BlockHandle,
    pub index_handle: BlockHandle,
    pub magic: Seq<u8>,
    pub is_valid: bool,
}

impl View for Footer {
    type V = FooterModel;

    open spec fn view(&self) -> FooterModel {
        FooterModel {
            offset: self.offset,
            meta_index_handle: self.meta_index_handle,
            index_handle: self.index_handle,
            magic: self.magic@,
            is_valid: self.is_valid,
        }
    }
}

/// The footer of a table file: its two block handles read from the start of
/// the trailing 48 bytes, the trailing eight-byte magic, and whether that
/// magic is the fixed table magic. A file shorter than 48 bytes, or one
/// whose handle varints cannot be read, has no footer.
pub open spec fn spec_footer(data: Seq<u8>) -> Result<FooterModel, FormatError> {
    if data.len() < 48 {
        Err(FormatError::TruncatedEntry)
    } else {
        let base = data.len() - 48;
        match spec_block_handle_at(data, base) {
            Some((meta_index_handle, mid)) => match spec_block_handle_at(data, mid) {
                Some((index_handle, next)) => {
                    let magic = data.subrange(data.len() - 8, data.len() as int);
                    Ok(
                        FooterModel {
                            offset: base as u64,
                            meta_index_handle,
                            index_handle,
                            magic,
                            is_valid: magic == spec_table_magic(),
                        },
                    )
                },
                None => Err(
                    match spec_varint_at(data, mid) {
                        None => spec_varint_err(data, mid),
                        Some((v, m2)) => spec_varint_err(data, m2),
                    },
                ),
            },
            None => Err(
                match spec_varint_at(data, base) {
                    None => spec_varint_err(data, base),
                    Some((v, m2)) => spec_varint_err(data, m2),
                },
            ),
        }
    }
}

/// Read the footer from the trailing 48 bytes of a table file (see
/// `spec_footer`).
pub fn read_footer(data: &[u8]) -> (r: Result<Footer, FormatError>)
    ensures
        match r {
            Ok(f) => spec_footer(data@) == Ok::<FooterModel, FormatError>(f@),
            Err(e) => spec_footer(data@) == Err::<FooterModel, FormatError>(e),
        },
{
    if data.len() < 48 {
        return Err(FormatError::TruncatedEntry);
    }
    let base = data.len() - 48;
    let mut pos: usize = base;

    let m_offset = utils::read_varint(data, &mut pos)?;
    let m_size = utils::read_varint(data, &mut pos)?;
    let meta_index_handle = BlockHandle { offset: m_offset, size: m_size };

    let i_offset = utils::read_varint(data, &mut pos)?;
    let i_size = utils::read_varint(data, &mut pos)?;
    let index_handle = BlockHandle { offset: i_offset, size: i_size };

    let m = data.len() - 8;
    let magic: [u8; 8] = [
        data[m],
        data[m + 1],
        data[m + 2],
        data[m + 3],
        data[m + 4],
        data[m + 5],
        data[m + 6],
        data[m + 7],
    ];
    assert(magic@ =~= data@.subrange(data@.len() - 8, data@.len() as int));

    let is_valid = magic[0] == 0x57 && magic[1] == 0xfb && magic[2] == 0x80 && magic[3] == 0x8b
        && magic[4] == 0x24 && magic[5] == 0x75 && magic[6] == 0x47 && magic[7] == 0xdb;
    proof {
        if is_valid {
            assert(magic@ =~= spec_table_magic());
        } else {
            assert(magic@ != spec_table_magic());
        }
    }

    Ok(Footer { offset: base as u64, meta_index_handle, index_handle, magic, is_valid })
}

/// One block of a table file as stored, after checksum verification and
/// decompression.
pub struct RawBlock {
    pub data: Vec<u8>,
    pub compression_type: u8,
    pub crc: u32,
    pub crc_valid: bool,
}

/// Mathematical model of a `RawBlock`.
pub struct RawBlockModel {
    pub data: Seq<u8>,
    pub compression_type: u8,
    pub crc: u32,
    pub crc_valid: bool,
}

impl View for RawBlock {
    type V = RawBlockModel;

    open spec fn view(&self) -> RawBlockModel {
        RawBlockModel {
            data: self.data@,
            compression_type: self.compression_type,
            crc: self.crc,
            crc_valid: self.crc_valid,
        }
    }
}

/// The block stored at `offset` with `size` payload bytes: the payload is
/// followed by a one-byte compression type and a four-byte masked checksum,
/// which covers the compressed payload plus the type byte. Type 1 is the
/// fast block compressor, type 2 the streaming compressor; any other type
/// passes the bytes through unchanged. A failed decompression is a hard
/// error; a checksum mismatch is only recorded.
pub open spec fn spec_raw_block_at(data: Seq<u8>, offset: u64, size: u64) -> Result<
    RawBlockModel,
    FormatError,
> {
    if offset + size + 5 > data.len() {
        Err(FormatError::TruncatedEntry)
    } else {
        let raw = data.subrange(offset as int, offset + size);
        let ct = data[offset + size];
        let crc = spec_u32_at(data, offset + size + 1);
        let crc_valid = crc32c_of(spec_checksum_input(raw, ct, true)) == spec_unmask_crc32c(crc);
        let payload = if ct == 1 {
            snappy_decompressed(raw)
        } else if ct == 2 {
            zstd_decompressed(raw)
        } else {
            Some(raw)
        };
        match payload {
            Some(d) => Ok(RawBlockModel { data: d, compression_type: ct, crc, crc_valid }),
            None => Err(FormatError::DecompressionFailed),
        }
    }
}

/// Read, checksum and decompress the block stored at `offset` with `size`
/// payload bytes (see `spec_raw_block_at`).
pub fn read_raw_block(data: &[u8], offset: u64, size: u64) -> (r: Result<RawBlock, FormatError>)
    ensures
        match r {
            Ok(b) => spec_raw_block_at(data@, offset, size) == Ok::<RawBlockModel, FormatError>(
                b@,
            ),
            Err(e) => spec_raw_block_at(data@, offset, size) == Err::<RawBlockModel, FormatError>(
                e,
            ),
        },
{
    let len64 = data.len() as u64;
    if offset > len64 || size > len64 - offset || len64 - offset - size < 5 {
        return Err(FormatError::TruncatedEntry);
    }
    let off = offset as usize;
    let sz = size as usize;

    let raw = vstd::slice::slice_subrange(data, off, off + sz);
    let compression_type = data[off + sz];
    let crc = (data[off + sz + 1] as u32) | ((data[off + sz + 2] as u32) << 8) | ((data[off + sz
        + 3] as u32) << 16) | ((data[off + sz + 4] as u32) << 24);

    let crc_valid = utils::crc_verified(crc, raw, compression_type, true);

    let payload: Vec<u8> = if compression_type == 1 {
        match snappy_decompress(raw) {
            Some(d) => d,
            None => {
                return Err(FormatError::DecompressionFailed);
            },
        }
    } else if compression_type == 2 {
        match zstd_decompress(raw) {
            Some(d) => d,
            None => {
                return Err(FormatError::DecompressionFailed);
            },
        }
    } else {
        vstd::slice::slice_to_vec(raw)
    };

    Ok(RawBlock { data: payload, compression_type, crc, crc_valid })
}

/// One prefix-compressed entry of a block: the lengths read from its
/// header, the positions of its key and value bytes within the block, and
/// the reconstructed full key.
pub struct KeyValPair {
    pub shared_len: usize,
    pub inline_len: usize,
    pub value_len: usize,
    pub key_offset: u64,
    pub key: Vec<u8>,
    pub val_offset: u64,
    pub value: Vec<u8>,
}

/// Mathematical model of a `KeyValPair`.
pub struct KeyValPairModel {
    pub shared_len: usize,
    pub inline_len: usize,
    pub value_len: usize,
    pub key_offset: u64,
    pub key: Seq<u8>,
    pub val_offset: u64,
    pub value: Seq<u8>,
}

impl View for KeyValPair {
    type V = KeyValPairModel;

    open spec fn view(&self) -> KeyValPairModel {
        KeyValPairModel {
            shared_len: self.shared_len,
            inline_len: self.inline_len,
            value_len: self.value_len,
            key_offset: self.key_offset,
            key: self.key@,
            val_offset: self.val_offset,
            value: self.value@,
        }
    }
}

/// The key reconstructed for an entry: the first `shared` bytes of the
/// previous key — applied only when that many are available and `shared` is
/// nonzero — followed by the entry's inline bytes.
pub open spec fn spec_full_key(prev: Seq<u8>, shared: int, inline: Seq<u8>) -> Seq<u8> {
    if 0 < shared <= prev.len() {
        prev.subrange(0, shared) + inline
    } else {
        inline
    }
}

/// The prefix-compressed entry at `pos`, decoded against the previous
/// entry's key: three varint lengths (shared, inline, value), the inline key
/// bytes, and the value bytes. `None` when a varint fails, a length does not
/// fit in memory, or the byte runs reach past the block's end.
pub open spec fn spec_block_entry_at(data: Seq<u8>, pos: int, prev: Seq<u8>) -> Option<
    (KeyValPairModel, int),
> {
    match spec_varint_at(data, pos) {
        Some((shared64, p1)) => match spec_varint_at(data, p1) {
            Some((inline64, p2)) => match spec_varint_at(data, p2) {
                Some((value64, p3)) => {
                    if shared64 > usize::MAX || inline64 > data.len() - p3 || value64 > data.len()
                        - p3 - inline64 {
                        None
                    } else {
                        let inline = data.subrange(p3, p3 + inline64);
                        let val_start = p3 + inline64;
                        let value = data.subrange(val_start, val_start + value64);
                        Some(
                            (
                                KeyValPairModel {
                                    shared_len: shared64 as usize,
                                    inline_len: inline64 as usize,
                                    value_len: value64 as usize,
                                    key_offset: p3 as u64,
                                    key: spec_full_key(prev, shared64 as int, inline),
                                    val_offset: val_start as u64,
                                    value,
                                },
                                val_start + value64,
                            ),
                        )
                    }
                },
                None => None,
            },
            None => None,
        },
        None => None,
    }
}

/// A decoded entry advances the position, staying within the block.
pub proof fn lemma_block_entry_advances(data: Seq<u8>, pos: int, prev: Seq<u8>)
    requires
        0 <= pos,
    ensures
        spec_block_entry_at(data, pos, prev) matches Some((e, next)) ==> pos < next <= data.len(),
{
    utils::lemma_varint_at_advances(data, pos);
    match spec_varint_at(data, pos) {
        Some((v0, p1)) => {
            utils::lemma_varint_at_advances(data, p1);
            match spec_varint_at(data, p1) {
                Some((v1, p2)) => {
                    utils::lemma_varint_at_advances(data, p2);
                },
                None => {},
            }
        },
        None => {},
    }
}

/// Read the prefix-compressed entry at the cursor, reconstructing its full
/// key from the previous entry's key (see `spec_block_entry_at`).
#[verifier::loop_isolation(false)]
pub fn read_block_entry(data: &[u8], pos: &mut usize, prev_key: &Vec<u8>) -> (r: Option<
    KeyValPair,
>)
    requires
        *old(pos) <= data@.len(),
    ensures
        match r {
            Some(e) => {
                &&& spec_block_entry_at(data@, *old(pos) as int, prev_key@) == Some(
                    (e@, *final(pos) as int),
                )
                &&& *old(pos) < *final(pos) <= data@.len()
            },
            None => spec_block_entry_at(data@, *old(pos) as int, prev_key@) is None,
        },
{
    let shared64 = match utils::read_varint(data, pos) {
        Ok(v) => v,
        Err(_) => {
            return None;
        },
    };
    let inline64 = match utils::read_varint(data, pos) {
        Ok(v) => v,
        Err(_) => {
            return None;
        },
    };
    let value64 = match utils::read_varint(data, pos) {
        Ok(v) => v,
        Err(_) => {
            return None;
        },
    };

    if shared64 > usize::MAX as u64 || inline64 > (data.len() - *pos) as u64 || value64 > (
    data.len() - *pos) as u64 - inline64 {
        return None;
    }
    let shared_len = shared64 as usize;
    let inline_len = inline64 as usize;
    let value_len = value64 as usize;

    let key_offset = *pos as u64;
    let inline_key = vstd::slice::slice_subrange(data, *pos, *pos + inline_len);

    let mut key: Vec<u8> = Vec::new();
    if shared_len > 0 && shared_len <= prev_key.len() {
        let prefix = vstd::slice::slice_subrange(prev_key.as_slice(), 0, shared_len);
        key.extend_from_slice(prefix);
    }
    key.extend_from_slice(inline_key);
    proof {
        if 0 < shared_len <= prev_key@.len() {
            assert(key@ =~= prev_key@.subrange(0, shared_len as int) + data@.subrange(
                key_offset as int,
                key_offset + inline_len,
            ));
        } else {
            assert(key@ =~= data@.subrange(key_offset as int, key_offset + inline_len));
        }
    }

    *pos = *pos + inline_len;
    let val_offset = *pos as u64;
    let value = vstd::slice::slice_to_vec(
        vstd::slice::slice_subrange(data, *pos, *pos + value_len),
    );
    *pos = *pos + value_len;

    Some(
        KeyValPair { shared_len, inline_len, value_len, key_offset, key, val_offset, value },
    )
}

/// The entries of a block from `pos` on, each decoded against its
/// predecessor's key, reading only entry headers that start before `limit`
/// (the restart array); decoding stops at the first failed entry, keeping
/// those already decoded.
pub open spec fn spec_block_entries(data: Seq<u8>, pos: int, prev: Seq<u8>, limit: int) -> Seq<
    KeyValPairModel,
>
    decreases data.len() - pos,
        when 0 <= pos <= data.len()
        via spec_block_entries_dec
{
    if pos >= limit {
        Seq::empty()
    } else {
        match spec_block_entry_at(data, pos, prev) {
            None => Seq::empty(),
            Some((e, next)) => seq![e] + spec_block_entries(data, next, e.key, limit),
        }
    }
}

#[via_fn]
proof fn spec_block_entries_dec(data: Seq<u8>, pos: int, prev: Seq<u8>, limit: int) {
    lemma_block_entry_advances(data, pos, prev);
}

/// The entries of a whole block: its last four bytes count the restart
/// points, the restart array sits before them, and entries are read from
/// the block's start up to the restart array. A block too short for the
/// count, or whose restart array would not fit, has no entries.
pub open spec fn spec_block_kvs(data: Seq<u8>) -> Seq<KeyValPairModel> {
    if data.len() < 4 {
        Seq::empty()
    } else {
        let count = spec_u32_at(data, data.len() - 4);
        let limit = data.len() - 4 - 4 * count;
        if limit < 0 {
            Seq::empty()
        } else {
            spec_block_entries(data, 0, Seq::empty(), limit)
        }
    }
}

/// Decode the entries of a block (see `spec_block_kvs`).
#[verifier::loop_isolation(false)]
pub fn read_block_data_kvs(data: &[u8]) -> (r: Vec<KeyValPair>)
    ensures
        r@.map_values(|e: KeyValPair| e@) == spec_block_kvs(data@),
{
    let mut entries: Vec<KeyValPair> = Vec::new();

    if data.len() < 4 {
        assert(entries@.map_values(|e: KeyValPair| e@) =~= spec_block_kvs(data@));
        return entries;
    }
    let cp = data.len() - 4;
    let count = (data[cp] as u32) | ((data[cp + 1] as u32) << 8) | ((data[cp + 2] as u32) << 16) | (
    (data[cp + 3] as u32) << 24);

    if (count as u64) * 4 + 4 > data.len() as u64 {
        assert(entries@.map_values(|e: KeyValPair| e@) =~= spec_block_kvs(data@));
        return entries;
    }
    let limit = data.len() - 4 - (count as usize) * 4;

    let mut pos: usize = 0;
    let mut prev_key: Vec<u8> = Vec::new();

    loop
        invariant
            pos <= data@.len(),
            limit == data@.len() - 4 - 4 * spec_u32_at(data@, data@.len() - 4),
            spec_block_kvs(data@) == entries@.map_values(|e: KeyValPair| e@)
                + spec_block_entries(data@, pos as int, prev_key@, limit as int),
        decreases data@.len() - pos,
    {
        let ghost pos0 = pos as int;
        let ghost map0 = entries@.map_values(|e: KeyValPair| e@);

        if pos >= limit {
            proof {
                utils::lemma_seq_concat_empty(map0);
            }
            return entries;
        }

        match read_block_entry(data, &mut pos, &prev_key) {
            Some(entry) => {
                proof {
                    assert(spec_block_entries(data@, pos0, prev_key@, limit as int) == seq![entry@]
                        + spec_block_entries(data@, pos as int, entry@.key, limit as int));
                    utils::lemma_map_values_push(entries@, |e: KeyValPair| e@, entry);
                    utils::lemma_seq_push_concat(map0, entry@);
                    utils::lemma_seq_concat_assoc(
                        map0,
                        seq![entry@],
                        spec_block_entries(data@, pos as int, entry@.key, limit as int),
                    );
                }
                prev_key = vstd::slice::slice_to_vec(entry.key.as_slice());
                entries.push(entry);
            },
            None => {
                proof {
                    assert(spec_block_entries(data@, pos0, prev_key@, limit as int) =~= Seq::<
                        KeyValPairModel,
                    >::empty());
                    utils::lemma_seq_concat_empty(map0);
                }
                return entries;
            },
        }
    }
}

/// The inline key bytes an entry contributed, as recorded by its offsets.
pub open spec fn spec_inline_bytes(data: Seq<u8>, e: KeyValPairModel) -> Seq<u8> {
    data.subrange(e.key_offset as int, e.key_offset + e.inline_len)
}

/// Every decoded entry's key is its predecessor's shared prefix followed by
/// its inline bytes; the first entry's key starts from `prev`.
pub proof fn lemma_block_entries_chain(data: Seq<u8>, pos: int, prev: Seq<u8>, limit: int)
    requires
        0 <= pos <= data.len(),
        data.len() <= usize::MAX,
    ensures
        ({
            let es = spec_block_entries(data, pos, prev, limit);
            forall|i: int|
                0 <= i < es.len() ==> #[trigger] es[i].key == spec_full_key(
                    if i == 0 {
                        prev
                    } else {
                        es[i - 1].key
                    },
                    es[i].shared_len as int,
                    spec_inline_bytes(data, es[i]),
                )
        }),
    decreases data.len() - pos,
{
    let es = spec_block_entries(data, pos, prev, limit);
    if pos < limit {
        match spec_block_entry_at(data, pos, prev) {
            None => {},
            Some((e, next)) => {
                lemma_block_entry_advances(data, pos, prev);
                utils::lemma_varint_at_advances(data, pos);
                match spec_varint_at(data, pos) {
                    Some((sh, p1)) => {
                        utils::lemma_varint_at_advances(data, p1);
                        match spec_varint_at(data, p1) {
                            Some((il, p2)) => {
                                utils::lemma_varint_at_advances(data, p2);
                            },
                            None => {},
                        }
                    },
                    None => {},
                }
                lemma_block_entries_chain(data, next, e.key, limit);
                let rest = spec_block_entries(data, next, e.key, limit);
                assert(es == seq![e] + rest);
                assert(e.key == spec_full_key(
                    prev,
                    e.shared_len as int,
                    spec_inline_bytes(data, e),
                ));
                assert forall|i: int| 0 <= i < es.len() implies #[trigger] es[i].key
                    == spec_full_key(
                    if i == 0 {
                        prev
                    } else {
                        es[i - 1].key
                    },
                    es[i].shared_len as int,
                    spec_inline_bytes(data, es[i]),
                ) by {
                    if i == 0 {
                        assert(es[0] == e);
                    } else {
                        assert(es[i] == rest[i - 1]);
                        if i == 1 {
                            assert(es[0] == e);
                            assert(rest[0].key == spec_full_key(
                                e.key,
                                rest[0].shared_len as int,
                                spec_inline_bytes(data, rest[0]),
                            ));
                        } else {
                            assert(es[i - 1] == rest[i - 2]);
                        }
                    }
                }
            },
        }
    }
}

/// Prefix-compression reconstruction over a whole block: every entry's key
/// is the previous key's first `shared_len` bytes followed by the entry's
/// inline bytes (when that prefix is available), and the first entry's key,
/// which has no predecessor, is its inline bytes alone whenever its
/// `shared_len` is zero.
pub proof fn lemma_prefix_compression_reconstruction(data: Seq<u8>)
    requires
        data.len() <= usize::MAX,
    ensures
        ({
            let es = spec_block_kvs(data);
            &&& forall|i: int|
                0 < i < es.len() && 0 < #[trigger] es[i].shared_len <= es[i - 1].key.len()
                    ==> es[i].key == es[i - 1].key.subrange(0, es[i].shared_len as int)
                    + spec_inline_bytes(data, es[i])
            &&& forall|i: int|
                0 <= i < es.len() && #[trigger] es[i].shared_len == 0 ==> es[i].key
                    == spec_inline_bytes(data, es[i])
        }),
{
    if data.len() >= 4 {
        let count = spec_u32_at(data, data.len() - 4);
        let limit = data.len() - 4 - 4 * count;
        if limit >= 0 {
            lemma_block_entries_chain(data, 0, Seq::empty(), limit);
        }
    }
}

/// The meta-index key that names the probabilistic-filter block:
/// the ASCII bytes of `filter.leveldb.BuiltinBloomFilter2`. (The displayed
/// name is the ASCII-with-escapes rendering of the key; for this all-ASCII
/// name the rendered text matches exactly when the key bytes do.)
pub open spec fn spec_filter_block_name() -> Seq<u8> {
    seq![
        0x66u8, 0x69u8, 0x6cu8, 0x74u8, 0x65u8, 0x72u8, 0x2eu8, 0x6cu8, 0x65u8, 0x76u8, 0x65u8, 0x6cu8, 0x64u8, 0x62u8, 0x2eu8, 0x42u8, 0x75u8, 0x69u8, 0x6cu8, 0x74u8, 0x69u8, 0x6eu8, 0x42u8, 0x6cu8, 0x6fu8, 0x6fu8, 0x6du8, 0x46u8, 0x69u8, 0x6cu8, 0x74u8, 0x65u8, 0x72u8, 0x32u8,
    ]
}

/// The probabilistic filter stored in a meta block: its trailing five bytes
/// hold a four-byte little-endian offset and a one-byte base-two logarithm,
/// and the filter bytes are the block's first `array_offset` bytes. A block
/// too short for the trailer, or whose offset reaches past the block, holds
/// no filter.
pub struct BloomFilter {
    pub filter_data: Vec<u8>,
    pub array_offset: u32,
    pub base_log: u8,
}

/// Mathematical model of a `BloomFilter`.
pub struct BloomFilterModel {
    pub filter_data: Seq<u8>,
    pub array_offset: u32,
    pub base_log: u8,
}

impl View for BloomFilter {
    type V = BloomFilterModel;

    open spec fn view(&self) -> BloomFilterModel {
        BloomFilterModel {
            filter_data: self.filter_data@,
            array_offset: self.array_offset,
            base_log: self.base_log,
        }
    }
}

/// The filter parsed from a meta block's bytes (see `BloomFilter`).
pub open spec fn spec_bloom_filter(data: Seq<u8>) -> Option<BloomFilterModel> {
    if data.len() < 5 {
        None
    } else {
        let array_offset = spec_u32_at(data, data.len() - 5);
        let base_log = data[data.len() - 1];
        if array_offset > data.len() {
            None
        } else {
            Some(
                BloomFilterModel {
                    filter_data: data.subrange(0, array_offset as int),
                    array_offset,
                    base_log,
                },
            )
        }
    }
}

/// Parse a meta block's bytes as a probabilistic filter (see
/// `spec_bloom_filter`).
pub fn parse_bloom_filter_block(data: &[u8]) -> (r: Option<BloomFilter>)
    ensures
        match r {
            Some(f) => spec_bloom_filter(data@) == Some(f@),
            None => spec_bloom_filter(data@) is None,
        },
{
    if data.len() < 5 {
        return None;
    }
    let p = data.len() - 5;
    let array_offset = (data[p] as u32) | ((data[p + 1] as u32) << 8) | ((data[p + 2] as u32)
        << 16) | ((data[p + 3] as u32) << 24);
    let base_log = data[data.len() - 1];
    if array_offset as u64 > data.len() as u64 {
        return None;
    }
    let filter_data = vstd::slice::slice_to_vec(
        vstd::slice::slice_subrange(data, 0, array_offset as usize),
    );
    Some(BloomFilter { filter_data, array_offset, base_log })
}

/// One entry of the meta-index or primary index: its key, and the block
/// handle its value decodes to (a handle of zeroes when the value does not
/// decode).
pub struct IndexRecord {
    pub key: Vec<u8>,
    pub block_handle: BlockHandle,
    pub entry: KeyValPair,
}

/// Mathematical model of an `IndexRecord`.
pub struct IndexRecordModel {
    pub key: Seq<u8>,
    pub block_handle: BlockHandle,
    pub entry: KeyValPairModel,
}

impl View for IndexRecord {
    type V = IndexRecordModel;

    open spec fn view(&self) -> IndexRecordModel {
        IndexRecordModel { key: self.key@, block_handle: self.block_handle, entry: self.entry@ }
    }
}

/// The index record an index entry decodes to.
pub open spec fn spec_index_record_of(e: KeyValPairModel) -> IndexRecordModel {
    IndexRecordModel {
        key: e.key,
        block_handle: match spec_block_handle_at(e.value, 0) {
            Some((h, next)) => h,
            None => BlockHandle { offset: 0, size: 0 },
        },
        entry: e,
    }
}

/// An index-style block: its raw block, its decoded records, and the handle
/// it was read through.
pub struct IndexBlock {
    pub raw_block: RawBlock,
    pub records: Vec<IndexRecord>,
    pub block_handle: BlockHandle,
}

/// Mathematical model of an `IndexBlock`.
pub struct IndexBlockModel {
    pub raw_block: RawBlockModel,
    pub records: Seq<IndexRecordModel>,
    pub block_handle: BlockHandle,
}

impl View for IndexBlock {
    type V = IndexBlockModel;

    open spec fn view(&self) -> IndexBlockModel {
        IndexBlockModel {
            raw_block: self.raw_block@,
            records: self.records@.map_values(|r: IndexRecord| r@),
            block_handle: self.block_handle,
        }
    }
}

/// The index records of a block's entries.
pub open spec fn spec_index_records(kvs: Seq<KeyValPairModel>) -> Seq<IndexRecordModel> {
    kvs.map_values(|e: KeyValPairModel| spec_index_record_of(e))
}

/// Decode the records of an index-style block's bytes.
#[verifier::loop_isolation(false)]
fn build_index_records(kvs: Vec<KeyValPair>) -> (r: Vec<IndexRecord>)
    ensures
        r@.map_values(|x: IndexRecord| x@) == spec_index_records(
            kvs@.map_values(|e: KeyValPair| e@),
        ),
{
    let ghost kvsm = kvs@.map_values(|e: KeyValPair| e@);
    let mut records: Vec<IndexRecord> = Vec::new();
    let mut i: usize = 0;
    loop
        invariant
            i <= kvs@.len(),
            kvsm == kvs@.map_values(|e: KeyValPair| e@),
            records@.len() == i,
            forall|t: int|
                0 <= t < i ==> (#[trigger] records@[t])@ == spec_index_record_of(kvsm[t]),
        decreases kvs@.len() - i,
    {
        if i >= kvs.len() {
            assert(records@.map_values(|x: IndexRecord| x@) =~= spec_index_records(kvsm));
            return records;
        }
        let entry_key = vstd::slice::slice_to_vec(kvs[i].key.as_slice());
        let block_handle = match parse_block_handle(kvs[i].value.as_slice()) {
            Ok(h) => h,
            Err(_) => BlockHandle { offset: 0, size: 0 },
        };
        let entry = KeyValPair {
            shared_len: kvs[i].shared_len,
            inline_len: kvs[i].inline_len,
            value_len: kvs[i].value_len,
            key_offset: kvs[i].key_offset,
            key: vstd::slice::slice_to_vec(kvs[i].key.as_slice()),
            val_offset: kvs[i].val_offset,
            value: vstd::slice::slice_to_vec(kvs[i].value.as_slice()),
        };
        assert(entry@ == kvsm[i as int]);
        records.push(IndexRecord { key: entry_key, block_handle, entry });
        i = i + 1;
    }
}

/// A named meta block, with its filter when it is the filter block.
pub struct MetaBlock {
    pub name: String,
    pub raw_block: RawBlock,
    pub block_handle: BlockHandle,
    pub bloom_filter: Option<BloomFilter>,
}

/// Mathematical model of a `MetaBlock`.
pub struct MetaBlockModel {
    pub name: Seq<char>,
    pub raw_block: RawBlockModel,
    pub block_handle: BlockHandle,
    pub bloom_filter: Option<BloomFilterModel>,
}

impl View for MetaBlock {
    type V = MetaBlockModel;

    open spec fn view(&self) -> MetaBlockModel {
        MetaBlockModel {
            name: self.name@,
            raw_block: self.raw_block@,
            block_handle: self.block_handle,
            bloom_filter: match self.bloom_filter {
                Some(f) => Some(f@),
                None => None,
            },
        }
    }
}

/// The meta blocks read through the meta-index records from `i` on: each
/// record's handle is read as a raw block (a failed read is fatal), named by
/// the record's key rendered as ASCII with escapes, and the block whose key
/// is the filter-block name is additionally parsed as a filter.
pub open spec fn spec_meta_blocks(data: Seq<u8>, records: Seq<IndexRecordModel>, i: int) -> Result<
    Seq<MetaBlockModel>,
    FormatError,
>
    decreases records.len() - i,
{
    if i >= records.len() {
        Ok(Seq::empty())
    } else {
        let r = records[i];
        match spec_raw_block_at(data, r.block_handle.offset, r.block_handle.size) {
            Err(e) => Err(e),
            Ok(rb) => {
                let mb = MetaBlockModel {
                    name: crate::decoder::spec_bytes_to_ascii_with_hex(r.key),
                    raw_block: rb,
                    block_handle: r.block_handle,
                    bloom_filter: if r.key == spec_filter_block_name() {
                        spec_bloom_filter(rb.data)
                    } else {
                        None
                    },
                };
                match spec_meta_blocks(data, records, i + 1) {
                    Err(e) => Err(e),
                    Ok(rest) => Ok(seq![mb] + rest),
                }
            },
        }
    }
}

/// One record of a data block, with the state and sequence number split out
/// of its key's trailing eight bytes.
pub struct DataRecord {
    pub seq: u64,
    pub state: u8,
    pub key: Vec<u8>,
    pub value: Vec<u8>,
    pub entry: KeyValPair,
}

/// Mathematical model of a `DataRecord`.
pub struct DataRecordModel {
    pub seq: u64,
    pub state: u8,
    pub key: Seq<u8>,
    pub value: Seq<u8>,
    pub entry: KeyValPairModel,
}

impl View for DataRecord {
    type V = DataRecordModel;

    open spec fn view(&self) -> DataRecordModel {
        DataRecordModel {
            seq: self.seq,
            state: self.state,
            key: self.key@,
            value: self.value@,
            entry: self.entry@,
        }
    }
}

/// The data records of a block's entries from `i` on: each entry's key is
/// split into user key, state and sequence number; an entry whose key lacks
/// the eight-byte suffix is skipped.
pub open spec fn spec_data_records(kvs: Seq<KeyValPairModel>, i: int) -> Seq<DataRecordModel>
    decreases kvs.len() - i,
{
    if i >= kvs.len() || i < 0 {
        Seq::empty()
    } else {
        let e = kvs[i];
        match crate::utils::spec_split_key(e.key) {
            None => spec_data_records(kvs, i + 1),
            Some((user_key, state, seq)) => seq![
                DataRecordModel { seq, state, key: user_key, value: e.value, entry: e },
            ] + spec_data_records(kvs, i + 1),
        }
    }
}

/// A data block: its raw block, its decoded records, and the handle it was
/// read through.
pub struct DataBlock {
    pub raw_block: RawBlock,
    pub records: Vec<DataRecord>,
    pub block_handle: BlockHandle,
}

/// Mathematical model of a `DataBlock`.
pub struct DataBlockModel {
    pub raw_block: RawBlockModel,
    pub records: Seq<DataRecordModel>,
    pub block_handle: BlockHandle,
}

impl View for DataBlock {
    type V = DataBlockModel;

    open spec fn view(&self) -> DataBlockModel {
        DataBlockModel {
            raw_block: self.raw_block@,
            records: self.records@.map_values(|r: DataRecord| r@),
            block_handle: self.block_handle,
        }
    }
}

/// The data blocks read through the primary-index records from `i` on: each
/// record's handle is read as a raw block (a failed read is fatal) and its
/// entries decoded as data records.
pub open spec fn spec_data_blocks(data: Seq<u8>, records: Seq<IndexRecordModel>, i: int) -> Result<
    Seq<DataBlockModel>,
    FormatError,
>
    decreases records.len() - i,
{
    if i >= records.len() {
        Ok(Seq::empty())
    } else {
        let r = records[i];
        match spec_raw_block_at(data, r.block_handle.offset, r.block_handle.size) {
            Err(e) => Err(e),
            Ok(rb) => {
                let db = DataBlockModel {
                    raw_block: rb,
                    records: spec_data_records(spec_block_kvs(rb.data), 0),
                    block_handle: r.block_handle,
                };
                match spec_data_blocks(data, records, i + 1) {
                    Err(e) => Err(e),
                    Ok(rest) => Ok(seq![db] + rest),
                }
            },
        }
    }
}

/// A decoded table file.
pub struct LdbFile {
    pub footer: Footer,
    pub meta_index_block: IndexBlock,
    pub index_block: IndexBlock,
    pub meta_blocks: Vec<MetaBlock>,
    pub data_blocks: Vec<DataBlock>,
    pub storage_kind: StorageKind,
}

/// Mathematical model of an `LdbFile`.
pub struct LdbFileModel {
    pub footer: FooterModel,
    pub meta_index_block: IndexBlockModel,
    pub index_block: IndexBlockModel,
    pub meta_blocks: Seq<MetaBlockModel>,
    pub data_blocks: Seq<DataBlockModel>,
    pub storage_kind: StorageKind,
}

impl View for LdbFile {
    type V = LdbFileModel;

    open spec fn view(&self) -> LdbFileModel {
        LdbFileModel {
            footer: self.footer@,
            meta_index_block: self.meta_index_block@,
            index_block: self.index_block@,
            meta_blocks: self.meta_blocks@.map_values(|m: MetaBlock| m@),
            data_blocks: self.data_blocks@.map_values(|d: DataBlock| d@),
            storage_kind: self.storage_kind,
        }
    }
}

/// The whole table file: footer, meta-index block and the meta blocks it
/// points at, primary index block, and the data blocks it points at. A
/// footer that cannot be read, a block that cannot be read whole, or a
/// block that fails to decompress is fatal; everything else is recorded and
/// decoding goes on.
pub open spec fn spec_parse_table(data: Seq<u8>, storage_kind: StorageKind) -> Result<
    LdbFileModel,
    FormatError,
> {
    match spec_footer(data) {
        Err(e) => Err(e),
        Ok(footer) => match spec_raw_block_at(
            data,
            footer.meta_index_handle.offset,
            footer.meta_index_handle.size,
        ) {
            Err(e) => Err(e),
            Ok(mi_rb) => {
                let mi_records = spec_index_records(spec_block_kvs(mi_rb.data));
                match spec_meta_blocks(data, mi_records, 0) {
                    Err(e) => Err(e),
                    Ok(metas) => match spec_raw_block_at(
                        data,
                        footer.index_handle.offset,
                        footer.index_handle.size,
                    ) {
                        Err(e) => Err(e),
                        Ok(ix_rb) => {
                            let ix_records = spec_index_records(spec_block_kvs(ix_rb.data));
                            match spec_data_blocks(data, ix_records, 0) {
                                Err(e) => Err(e),
                                Ok(datas) => Ok(
                                    LdbFileModel {
                                        footer,
                                        meta_index_block: IndexBlockModel {
                                            raw_block: mi_rb,
                                            records: mi_records,
                                            block_handle: footer.meta_index_handle,
                                        },
                                        index_block: IndexBlockModel {
                                            raw_block: ix_rb,
                                            records: ix_records,
                                            block_handle: footer.index_handle,
                                        },
                                        meta_blocks: metas,
                                        data_blocks: datas,
                                        storage_kind,
                                    },
                                ),
                            }
                        },
                    },
                }
            },
        },
    }
}

/// Decode the meta blocks named by the meta-index records.
#[verifier::loop_isolation(false)]
fn build_meta_blocks(data: &[u8], records: &Vec<IndexRecord>) -> (r: Result<
    Vec<MetaBlock>,
    FormatError,
>)
    ensures
        ({
            let recm = records@.map_values(|x: IndexRecord| x@);
            match r {
                Ok(v) => spec_meta_blocks(data@, recm, 0) == Ok::<
                    Seq<MetaBlockModel>,
                    FormatError,
                >(v@.map_values(|m: MetaBlock| m@)),
                Err(e) => spec_meta_blocks(data@, recm, 0) == Err::<
                    Seq<MetaBlockModel>,
                    FormatError,
                >(e),
            }
        }),
{
    let ghost recm = records@.map_values(|x: IndexRecord| x@);
    let mut out: Vec<MetaBlock> = Vec::new();
    let mut i: usize = 0;

    let filter_name: [u8; 34] = [
        0x66u8, 0x69u8, 0x6cu8, 0x74u8, 0x65u8, 0x72u8, 0x2eu8, 0x6cu8, 0x65u8, 0x76u8, 0x65u8, 0x6cu8, 0x64u8, 0x62u8, 0x2eu8, 0x42u8, 0x75u8, 0x69u8, 0x6cu8, 0x74u8, 0x69u8, 0x6eu8, 0x42u8, 0x6cu8, 0x6fu8, 0x6fu8, 0x6du8, 0x46u8, 0x69u8, 0x6cu8, 0x74u8, 0x65u8, 0x72u8, 0x32u8,
    ];
    proof {
        assert(filter_name@ =~= spec_filter_block_name());
    }

    loop
        invariant
            i <= records@.len(),
            recm == records@.map_values(|x: IndexRecord| x@),
            filter_name@ == spec_filter_block_name(),
            spec_meta_blocks(data@, recm, 0) == (match spec_meta_blocks(data@, recm, i as int) {
                Ok(rest) => Ok::<Seq<MetaBlockModel>, FormatError>(
                    out@.map_values(|m: MetaBlock| m@) + rest,
                ),
                Err(e) => Err::<Seq<MetaBlockModel>, FormatError>(e),
            }),
        decreases records@.len() - i,
    {
        let ghost out_map0 = out@.map_values(|m: MetaBlock| m@);
        if i >= records.len() {
            proof {
                crate::utils::lemma_seq_concat_empty(out_map0);
            }
            return Ok(out);
        }

        let handle = records[i].block_handle;
        let raw_block = match read_raw_block(data, handle.offset, handle.size) {
            Ok(b) => b,
            Err(e) => {
                return Err(e);
            },
        };

        let is_filter = utils::bytes_equal(records[i].key.as_slice(), filter_name.as_slice());
        let bloom_filter = if is_filter {
            parse_bloom_filter_block(raw_block.data.as_slice())
        } else {
            None
        };
        let name = crate::decoder::bytes_to_ascii_with_hex(records[i].key.as_slice());

        let mb = MetaBlock { name, raw_block, block_handle: handle, bloom_filter };
        proof {
            assert(mb@ == (match spec_meta_blocks(data@, recm, i as int) {
                Ok(rest) => rest[0],
                Err(e) => mb@,
            }));
            crate::utils::lemma_map_values_push(out@, |m: MetaBlock| m@, mb);
            crate::utils::lemma_seq_push_concat(out_map0, mb@);
            match spec_meta_blocks(data@, recm, i as int + 1) {
                Ok(rest) => {
                    crate::utils::lemma_seq_concat_assoc(out_map0, seq![mb@], rest);
                },
                Err(e) => {},
            }
        }
        out.push(mb);
        i = i + 1;
    }
}

/// Decode the data records of one block's entries.
#[verifier::loop_isolation(false)]
fn build_data_records(kvs: Vec<KeyValPair>) -> (r: Vec<DataRecord>)
    ensures
        r@.map_values(|x: DataRecord| x@) == spec_data_records(
            kvs@.map_values(|e: KeyValPair| e@),
            0,
        ),
{
    let ghost kvsm = kvs@.map_values(|e: KeyValPair| e@);
    let mut out: Vec<DataRecord> = Vec::new();
    let mut i: usize = 0;
    loop
        invariant
            i <= kvs@.len(),
            kvsm == kvs@.map_values(|e: KeyValPair| e@),
            spec_data_records(kvsm, 0) == out@.map_values(|x: DataRecord| x@)
                + spec_data_records(kvsm, i as int),
        decreases kvs@.len() - i,
    {
        let ghost out_map0 = out@.map_values(|x: DataRecord| x@);
        if i >= kvs.len() {
            proof {
                crate::utils::lemma_seq_concat_empty(out_map0);
            }
            return out;
        }

        match crate::utils::decode_key(kvs[i].key.as_slice()) {
            Ok((user_key, state, seq)) => {
                let entry = KeyValPair {
                    shared_len: kvs[i].shared_len,
                    inline_len: kvs[i].inline_len,
                    value_len: kvs[i].value_len,
                    key_offset: kvs[i].key_offset,
                    key: vstd::slice::slice_to_vec(kvs[i].key.as_slice()),
                    val_offset: kvs[i].val_offset,
                    value: vstd::slice::slice_to_vec(kvs[i].value.as_slice()),
                };
                assert(entry@ == kvsm[i as int]);
                let value = vstd::slice::slice_to_vec(kvs[i].value.as_slice());
                let rec = DataRecord { seq, state, key: user_key, value, entry };
                proof {
                    crate::utils::lemma_map_values_push(out@, |x: DataRecord| x@, rec);
                    crate::utils::lemma_seq_push_concat(out_map0, rec@);
                    crate::utils::lemma_seq_concat_assoc(
                        out_map0,
                        seq![rec@],
                        spec_data_records(kvsm, i as int + 1),
                    );
                }
                out.push(rec);
            },
            Err(_) => {
                // key lacks the eight-byte suffix: skip this record
            },
        }
        i = i + 1;
    }
}

/// Decode the data blocks named by the primary-index records.
#[verifier::loop_isolation(false)]
fn build_data_blocks(data: &[u8], records: &Vec<IndexRecord>) -> (r: Result<
    Vec<DataBlock>,
    FormatError,
>)
    ensures
        ({
            let recm = records@.map_values(|x: IndexRecord| x@);
            match r {
                Ok(v) => spec_data_blocks(data@, recm, 0) == Ok::<
                    Seq<DataBlockModel>,
                    FormatError,
                >(v@.map_values(|d: DataBlock| d@)),
                Err(e) => spec_data_blocks(data@, recm, 0) == Err::<
                    Seq<DataBlockModel>,
                    FormatError,
                >(e),
            }
        }),
{
    let ghost recm = records@.map_values(|x: IndexRecord| x@);
    let mut out: Vec<DataBlock> = Vec::new();
    let mut i: usize = 0;

    loop
        invariant
            i <= records@.len(),
            recm == records@.map_values(|x: IndexRecord| x@),
            spec_data_blocks(data@, recm, 0) == (match spec_data_blocks(data@, recm, i as int) {
                Ok(rest) => Ok::<Seq<DataBlockModel>, FormatError>(
                    out@.map_values(|d: DataBlock| d@) + rest,
                ),
                Err(e) => Err::<Seq<DataBlockModel>, FormatError>(e),
            }),
        decreases records@.len() - i,
    {
        let ghost out_map0 = out@.map_values(|d: DataBlock| d@);
        if i >= records.len() {
            proof {
                crate::utils::lemma_seq_concat_empty(out_map0);
            }
            return Ok(out);
        }

        let handle = records[i].block_handle;
        let raw_block = match read_raw_block(data, handle.offset, handle.size) {
            Ok(b) => b,
            Err(e) => {
                return Err(e);
            },
        };

        let kvs = read_block_data_kvs(raw_block.data.as_slice());
        let recs = build_data_records(kvs);
        let db = DataBlock { raw_block, records: recs, block_handle: handle };
        proof {
            assert(db@ == (match spec_data_blocks(data@, recm, i as int) {
                Ok(rest) => rest[0],
                Err(e) => db@,
            }));
            crate::utils::lemma_map_values_push(out@, |d: DataBlock| d@, db);
            crate::utils::lemma_seq_push_concat(out_map0, db@);
            match spec_data_blocks(data@, recm, i as int + 1) {
                Ok(rest) => {
                    crate::utils::lemma_seq_concat_assoc(out_map0, seq![db@], rest);
                },
                Err(e) => {},
            }
        }
        out.push(db);
        i = i + 1;
    }
}

/// Decode a whole table file from its bytes (see `spec_parse_table`).
pub fn parse_table(data: &[u8], storage_kind: StorageKind) -> (r: Result<LdbFile, FormatError>)
    ensures
        match r {
            Ok(f) => spec_parse_table(data@, storage_kind) == Ok::<LdbFileModel, FormatError>(f@),
            Err(e) => spec_parse_table(data@, storage_kind) == Err::<LdbFileModel, FormatError>(
                e,
            ),
        },
{
    let footer = read_footer(data)?;

    let mi_rb = read_raw_block(
        data,
        footer.meta_index_handle.offset,
        footer.meta_index_handle.size,
    )?;
    let mi_kvs = read_block_data_kvs(mi_rb.data.as_slice());
    let mi_records = build_index_records(mi_kvs);

    let meta_blocks = build_meta_blocks(data, &mi_records)?;

    let ix_rb = read_raw_block(data, footer.index_handle.offset, footer.index_handle.size)?;
    let ix_kvs = read_block_data_kvs(ix_rb.data.as_slice());
    let ix_records = build_index_records(ix_kvs);

    let data_blocks = build_data_blocks(data, &ix_records)?;

    let meta_index_block = IndexBlock {
        raw_block: mi_rb,
        records: mi_records,
        block_handle: footer.meta_index_handle,
    };
    let index_block = IndexBlock {
        raw_block: ix_rb,
        records: ix_records,
        block_handle: footer.index_handle,
    };

    Ok(
        LdbFile {
            footer,
            meta_index_block,
            index_block,
            meta_blocks,
            data_blocks,
            storage_kind,
        },
    )
}

/// The text shown for a storage kind in the CSV's kind column.
pub open spec fn spec_kind_text(kind: StorageKind) -> Seq<char> {
    match kind {
        StorageKind::SessionStorage => ("SessionStorage")@,
        StorageKind::LocalStorage => ("LocalStorage")@,
        StorageKind::IndexedDb => ("IndexedDb")@,
        StorageKind::Generic => ("Generic")@,
    }
}

/// The text shown for a block's compression flag.
pub open spec fn spec_compressed_text(ct: u8) -> Seq<char> {
    if ct != 0 {
        ("true")@
    } else {
        ("false")@
    }
}

/// The text shown for a block's checksum state.
pub open spec fn spec_crc_text(valid: bool) -> Seq<char> {
    if valid {
        ("valid")@
    } else {
        ("failed")@
    }
}

/// The leading fields of a table record's CSV row: sequence number and the
/// decoded key and value (or their raw hex in hex view); a deletion's value
/// column is empty in decoded view.
pub open spec fn spec_ldb_row_head(
    kind: StorageKind,
    rec: DataRecordModel,
    crc_valid: bool,
    compression_type: u8,
    block_offset: u64,
    filename: Seq<char>,
    path: Seq<char>,
    hex_view: bool,
) -> Seq<char> {
    let key_txt = if hex_view {
        crate::decoder::spec_bytes_to_hex(rec.key)
    } else {
        crate::csv::spec_csv_escape(
            crate::decoder::spec_decode_kv(
                kind,
                rec.key,
                if rec.state != 0 {
                    Some(rec.value)
                } else {
                    None
                },
            ).0,
        )
    };
    let val_txt = if hex_view {
        crate::decoder::spec_bytes_to_hex(rec.value)
    } else {
        crate::csv::spec_csv_escape(
            crate::decoder::spec_decode_kv(
                kind,
                rec.key,
                if rec.state != 0 {
                    Some(rec.value)
                } else {
                    None
                },
            ).1,
        )
    };
    crate::csv::spec_quoted(crate::decoder::spec_dec_digits(rec.seq as int)) + seq![',']
        + crate::csv::spec_quoted(key_txt) + seq![','] + crate::csv::spec_quoted(val_txt) + seq![
        ',',
    ]
}

/// The trailing fields of a table record's CSV row.
pub open spec fn spec_ldb_row_tail(
    kind: StorageKind,
    rec: DataRecordModel,
    crc_valid: bool,
    compression_type: u8,
    block_offset: u64,
    filename: Seq<char>,
    path: Seq<char>,
    hex_view: bool,
) -> Seq<char> {
    let kind_txt = if hex_view {
        Seq::<char>::empty()
    } else {
        spec_kind_text(kind)
    };
    crate::csv::spec_quoted(spec_crc_text(crc_valid)) + seq![','] + crate::csv::spec_quoted(
        crate::log_parser::spec_state_text(rec.state),
    ) + seq![','] + crate::csv::spec_quoted(crate::decoder::spec_dec_digits(block_offset as int))
        + seq![','] + crate::csv::spec_quoted(spec_compressed_text(compression_type)) + seq![',']
        + crate::csv::spec_quoted(filename) + seq![','] + crate::csv::spec_quoted(path) + seq![',']
        + crate::csv::spec_quoted(kind_txt) + seq!['\n']
}

/// One CSV row of a table record: sequence number, decoded key and value
/// (or their raw hex in hex view), then checksum status, state, block
/// offset, compression flag, file name, path, and storage kind (empty in
/// hex view).
pub open spec fn spec_ldb_record_row(
    kind: StorageKind,
    rec: DataRecordModel,
    crc_valid: bool,
    compression_type: u8,
    block_offset: u64,
    filename: Seq<char>,
    path: Seq<char>,
    hex_view: bool,
) -> Seq<char> {
    spec_ldb_row_head(kind, rec, crc_valid, compression_type, block_offset, filename, path, hex_view)
        + spec_ldb_row_tail(kind, rec, crc_valid, compression_type, block_offset, filename, path, hex_view)
}

/// The CSV rows of one data block's records from `i` on.
pub open spec fn spec_ldb_block_rows(
    kind: StorageKind,
    recs: Seq<DataRecordModel>,
    i: int,
    crc_valid: bool,
    compression_type: u8,
    block_offset: u64,
    filename: Seq<char>,
    path: Seq<char>,
    hex_view: bool,
) -> Seq<char>
    decreases recs.len() - i,
{
    if i < 0 || i >= recs.len() {
        Seq::empty()
    } else {
        spec_ldb_record_row(
            kind,
            recs[i],
            crc_valid,
            compression_type,
            block_offset,
            filename,
            path,
            hex_view,
        ) + spec_ldb_block_rows(
            kind,
            recs,
            i + 1,
            crc_valid,
            compression_type,
            block_offset,
            filename,
            path,
            hex_view,
        )
    }
}

/// The CSV rows of the data blocks from `i` on.
pub open spec fn spec_ldb_rows(
    kind: StorageKind,
    blocks: Seq<DataBlockModel>,
    i: int,
    filename: Seq<char>,
    path: Seq<char>,
    hex_view: bool,
) -> Seq<char>
    decreases blocks.len() - i,
{
    if i < 0 || i >= blocks.len() {
        Seq::empty()
    } else {
        let b = blocks[i];
        spec_ldb_block_rows(
            kind,
            b.records,
            0,
            b.raw_block.crc_valid,
            b.raw_block.compression_type,
            b.block_handle.offset,
            filename,
            path,
            hex_view,
        ) + spec_ldb_rows(kind, blocks, i + 1, filename, path, hex_view)
    }
}

/// The CSV text of a table file: a fixed header, then one row per record of
/// every data block.
pub open spec fn spec_ldb_csv(
    kind: StorageKind,
    blocks: Seq<DataBlockModel>,
    filename: Seq<char>,
    path: Seq<char>,
    hex_view: bool,
) -> Seq<char> {
    ("\"Seq\",\"K\",\"V\",\"Cr\",\"St\",\"BO\",\"C\",\"F\",\"FP\",\"Kind\"\n")@ + spec_ldb_rows(
        kind,
        blocks,
        0,
        filename,
        path,
        hex_view,
    )
}

/// Append the text of a storage kind.
fn push_kind_text(out: &mut Vec<char>, kind: StorageKind)
    ensures
        final(out)@ == old(out)@ + spec_kind_text(kind),
{
    match kind {
        StorageKind::SessionStorage => crate::csv::push_lit(out, "SessionStorage"),
        StorageKind::LocalStorage => crate::csv::push_lit(out, "LocalStorage"),
        StorageKind::IndexedDb => crate::csv::push_lit(out, "IndexedDb"),
        StorageKind::Generic => crate::csv::push_lit(out, "Generic"),
    }
}

/// Append the leading fields of a table record's CSV row (see
/// `spec_ldb_row_head`).
#[verifier::rlimit(100)]
fn push_ldb_row_head(
    out: &mut Vec<char>,
    kind: StorageKind,
    rec: &DataRecord,
    crc_valid: bool,
    compression_type: u8,
    block_offset: u64,
    filename: &Vec<char>,
    path: &Vec<char>,
    hex_view: bool,
)
    ensures
        final(out)@ == old(out)@ + spec_ldb_row_head(
            kind,
            rec@,
            crc_valid,
            compression_type,
            block_offset,
            filename@,
            path@,
            hex_view,
        ),
{
    let ghost out0 = out@;
    crate::csv::push_quoted_u64(out, rec.seq);
    out.push(',');

    if hex_view {
        let key_txt = crate::decoder::bytes_to_hex(rec.key.as_slice());
        crate::csv::push_quoted_raw(out, crate::foreign::str_chars(key_txt.as_str()).as_slice());
        out.push(',');
        let val_txt = crate::decoder::bytes_to_hex(rec.value.as_slice());
        crate::csv::push_quoted_raw(out, crate::foreign::str_chars(val_txt.as_str()).as_slice());
        out.push(',');
    } else {
        let vopt: Option<&[u8]> = if rec.state != 0 {
            Some(rec.value.as_slice())
        } else {
            None
        };
        let (key_txt, val_txt) = crate::decoder::decode_kv(kind, rec.key.as_slice(), vopt);
        crate::csv::push_quoted_escaped(
            out,
            crate::foreign::str_chars(key_txt.as_str()).as_slice(),
        );
        out.push(',');
        crate::csv::push_quoted_escaped(
            out,
            crate::foreign::str_chars(val_txt.as_str()).as_slice(),
        );
        out.push(',');
    }

    proof {
        assert(out@ =~= out0 + spec_ldb_row_head(
            kind,
            rec@,
            crc_valid,
            compression_type,
            block_offset,
            filename@,
            path@,
            hex_view,
        ));
    }
}

/// Append the trailing fields of a table record's CSV row (see
/// `spec_ldb_row_tail`).
#[verifier::rlimit(100)]
fn push_ldb_row_tail(
    out: &mut Vec<char>,
    kind: StorageKind,
    rec: &DataRecord,
    crc_valid: bool,
    compression_type: u8,
    block_offset: u64,
    filename: &Vec<char>,
    path: &Vec<char>,
    hex_view: bool,
)
    ensures
        final(out)@ == old(out)@ + spec_ldb_row_tail(
            kind,
            rec@,
            crc_valid,
            compression_type,
            block_offset,
            filename@,
            path@,
            hex_view,
        ),
{
    let ghost out0 = out@;
    out.push('"');
    if crc_valid {
        crate::csv::push_lit(out, "valid");
    } else {
        crate::csv::push_lit(out, "failed");
    }
    out.push('"');
    out.push(',');

    out.push('"');
    crate::log_parser::push_state_text(out, rec.state);
    out.push('"');
    out.push(',');

    crate::csv::push_quoted_u64(out, block_offset);
    out.push(',');

    out.push('"');
    if compression_type != 0 {
        crate::csv::push_lit(out, "true");
    } else {
        crate::csv::push_lit(out, "false");
    }
    out.push('"');
    out.push(',');

    crate::csv::push_quoted_raw(out, filename.as_slice());
    out.push(',');
    crate::csv::push_quoted_raw(out, path.as_slice());
    out.push(',');

    out.push('"');
    if !hex_view {
        push_kind_text(out, kind);
    }
    out.push('"');
    out.push('\n');

    proof {
        assert(out@ =~= out0 + spec_ldb_row_tail(
            kind,
            rec@,
            crc_valid,
            compression_type,
            block_offset,
            filename@,
            path@,
            hex_view,
        ));
    }
}

/// Append one CSV row of a table record (see `spec_ldb_record_row`).
fn push_ldb_record_row(
    out: &mut Vec<char>,
    kind: StorageKind,
    rec: &DataRecord,
    crc_valid: bool,
    compression_type: u8,
    block_offset: u64,
    filename: &Vec<char>,
    path: &Vec<char>,
    hex_view: bool,
)
    ensures
        final(out)@ == old(out)@ + spec_ldb_record_row(
            kind,
            rec@,
            crc_valid,
            compression_type,
            block_offset,
            filename@,
            path@,
            hex_view,
        ),
{
    let ghost out0 = out@;
    push_ldb_row_head(
        out,
        kind,
        rec,
        crc_valid,
        compression_type,
        block_offset,
        filename,
        path,
        hex_view,
    );
    push_ldb_row_tail(
        out,
        kind,
        rec,
        crc_valid,
        compression_type,
        block_offset,
        filename,
        path,
        hex_view,
    );
    proof {
        utils::lemma_seq_concat_assoc(
            out0,
            spec_ldb_row_head(
                kind,
                rec@,
                crc_valid,
                compression_type,
                block_offset,
                filename@,
                path@,
                hex_view,
            ),
            spec_ldb_row_tail(
                kind,
                rec@,
                crc_valid,
                compression_type,
                block_offset,
                filename@,
                path@,
                hex_view,
            ),
        );
    }
}

/// Render a table file as CSV (see `spec_ldb_csv`).
#[verifier::loop_isolation(false)]
#[verifier::rlimit(100)]
pub fn csv_string(ldb: &LdbFile, filename: &str, file_path: &str, hex_view: bool) -> (r: String)
    ensures
        r@ == spec_ldb_csv(
            ldb.storage_kind,
            ldb.data_blocks@.map_values(|d: DataBlock| d@),
            filename@,
            file_path@,
            hex_view,
        ),
{
    let ghost dm = ldb.data_blocks@.map_values(|d: DataBlock| d@);
    let fname = crate::foreign::str_chars(filename);
    let fpath = crate::foreign::str_chars(file_path);
    let kind = ldb.storage_kind;

    let mut out: Vec<char> = Vec::new();
    crate::csv::push_lit(
        &mut out,
        "\"Seq\",\"K\",\"V\",\"Cr\",\"St\",\"BO\",\"C\",\"F\",\"FP\",\"Kind\"\n",
    );
    proof {
        utils::lemma_seq_empty_concat(
            ("\"Seq\",\"K\",\"V\",\"Cr\",\"St\",\"BO\",\"C\",\"F\",\"FP\",\"Kind\"\n")@,
        );
    }

    let mut i: usize = 0;
    loop
        invariant
            i <= ldb.data_blocks@.len(),
            dm == ldb.data_blocks@.map_values(|d: DataBlock| d@),
            fname@ == filename@,
            fpath@ == file_path@,
            kind == ldb.storage_kind,
            spec_ldb_csv(kind, dm, filename@, file_path@, hex_view) == out@ + spec_ldb_rows(
                kind,
                dm,
                i as int,
                filename@,
                file_path@,
                hex_view,
            ),
        decreases ldb.data_blocks@.len() - i,
    {
        let ghost out0 = out@;
        if i >= ldb.data_blocks.len() {
            proof {
                utils::lemma_seq_concat_empty(out@);
            }
            return crate::foreign::chars_to_string(&out);
        }

        let block = &ldb.data_blocks[i];
        let crc_valid = block.raw_block.crc_valid;
        let compression_type = block.raw_block.compression_type;
        let block_offset = block.block_handle.offset;
        let ghost recs = dm[i as int].records;
        assert(recs == block.records@.map_values(|r: DataRecord| r@));

        let mut j: usize = 0;
        loop
            invariant
                j <= block.records@.len(),
                i < ldb.data_blocks@.len(),
                block == &ldb.data_blocks[i as int],
                recs == block.records@.map_values(|r: DataRecord| r@),
                crc_valid == dm[i as int].raw_block.crc_valid,
                compression_type == dm[i as int].raw_block.compression_type,
                block_offset == dm[i as int].block_handle.offset,
                out0 + spec_ldb_block_rows(
                    kind,
                    recs,
                    0,
                    crc_valid,
                    compression_type,
                    block_offset,
                    filename@,
                    file_path@,
                    hex_view,
                ) == out@ + spec_ldb_block_rows(
                    kind,
                    recs,
                    j as int,
                    crc_valid,
                    compression_type,
                    block_offset,
                    filename@,
                    file_path@,
                    hex_view,
                ),
            decreases block.records@.len() - j,
        {
            if j >= block.records.len() {
                break ;
            }
            let ghost out_j = out@;
            push_ldb_record_row(
                &mut out,
                kind,
                &block.records[j],
                crc_valid,
                compression_type,
                block_offset,
                &fname,
                &fpath,
                hex_view,
            );
            proof {
                assert(block.records@[j as int]@ == recs[j as int]);
                utils::lemma_seq_concat_assoc(
                    out_j,
                    spec_ldb_record_row(
                        kind,
                        recs[j as int],
                        crc_valid,
                        compression_type,
                        block_offset,
                        filename@,
                        file_path@,
                        hex_view,
                    ),
                    spec_ldb_block_rows(
                        kind,
                        recs,
                        j as int + 1,
                        crc_valid,
                        compression_type,
                        block_offset,
                        filename@,
                        file_path@,
                        hex_view,
                    ),
                );
            }
            j = j + 1;
        }

        proof {
            let brows = spec_ldb_block_rows(
                kind,
                recs,
                0,
                crc_valid,
                compression_type,
                block_offset,
                filename@,
                file_path@,
                hex_view,
            );
            utils::lemma_seq_concat_empty(out@);
            assert(out@ == out0 + brows);
            utils::lemma_seq_concat_assoc(
                out0,
                brows,
                spec_ldb_rows(kind, dm, i as int + 1, filename@, file_path@, hex_view),
            );
        }
        i = i + 1;
    }
}

} // verus!
