//! Write-ahead-log file decoding: the fixed-size-chunk physical block
//! stream, and the reassembly of logical write batches from it.

use vstd::prelude::*;

use crate::foreign::crc32c_of;
use crate::utils;
use crate::utils::spec_u16_at;
use crate::utils::spec_u32_at;
use crate::utils::spec_unmask_crc32c;
use crate::utils::spec_checksum_input;

verus! {

/// Size of one physical chunk of a log or manifest file.
pub const BLOCK_SIZE: usize = 32768;

/// Size of the physical block header: 4-byte masked CRC, 2-byte payload
/// length, 1-byte block type.
pub const HEADER_SIZE: usize = 7;

/// One physical block as stored: a checksummed header plus payload, never
/// crossing a 32768-byte chunk boundary.
pub struct Block {
    pub offset: u64,
    pub crc: u32,
    pub crc_valid: bool,
    pub data_len: u16,
    pub block_type: u8,
    pub data: Vec<u8>,
}

/// Mathematical model of a physical block.
pub struct BlockModel {
    pub offset: int,
    pub crc: u32,
    pub crc_valid: bool,
    pub data_len: u16,
    pub block_type: u8,
    pub data: Seq<u8>,
}

impl View for Block {
    type V = BlockModel;

    open spec fn view(&self) -> BlockModel {
        BlockModel {
            offset: self.offset as int,
            crc: self.crc,
            crc_valid: self.crc_valid,
            data_len: self.data_len,
            block_type: self.block_type,
            data: self.data@,
        }
    }
}

/// Position of the chunk boundary that follows `pos`, clipped to the end of
/// the input.
pub open spec fn spec_next_boundary(data: Seq<u8>, pos: int) -> int {
    let remaining = 32768 - pos % 32768;
    if pos + remaining <= data.len() {
        pos + remaining
    } else {
        data.len() as int
    }
}

/// The first physical block found at or after `pos`, and the position just
/// past it. Chunk trailers too small for a header, zero padding, and headers
/// whose declared payload would cross the chunk boundary are skipped to the
/// next boundary; a header or payload cut off by the end of the input ends
/// the stream.
pub open spec fn spec_read_block_at(data: Seq<u8>, pos: int) -> Option<(BlockModel, int)>
    decreases data.len() - pos,
{
    if pos < 0 || pos >= data.len() {
        None
    } else {
        let remaining = 32768 - pos % 32768;
        let boundary = spec_next_boundary(data, pos);
        if remaining < 7 {
            spec_read_block_at(data, boundary)
        } else if pos + 7 > data.len() {
            None
        } else {
            let crc = spec_u32_at(data, pos);
            let len = spec_u16_at(data, pos + 4) as int;
            let typ = data[pos + 6];
            if len == 0 && typ == 0 {
                spec_read_block_at(data, boundary)
            } else if 7 + len > remaining {
                spec_read_block_at(data, boundary)
            } else if pos + 7 + len > data.len() {
                None
            } else {
                let payload = data.subrange(pos + 7, pos + 7 + len);
                Some(
                    (
                        BlockModel {
                            offset: pos,
                            crc: crc,
                            crc_valid: crc32c_of(spec_checksum_input(payload, typ, false))
                                == spec_unmask_crc32c(crc),
                            data_len: spec_u16_at(data, pos + 4),
                            block_type: typ,
                            data: payload,
                        },
                        pos + 7 + len,
                    ),
                )
            }
        }
    }
}

/// A block found at or after `pos` lies entirely between `pos` and the end
/// of the input, and the stream position strictly advances past it.
pub proof fn lemma_read_block_advances(data: Seq<u8>, pos: int)
    requires
        0 <= pos,
    ensures
        spec_read_block_at(data, pos) matches Some((b, next)) ==> {
            &&& pos <= b.offset
            &&& b.offset + 7 + b.data.len() == next
            &&& pos < next <= data.len()
            &&& b.data.len() < 32768
        },
    decreases data.len() - pos,
{
    if 0 <= pos < data.len() {
        let boundary = spec_next_boundary(data, pos);
        if pos < boundary <= data.len() {
            lemma_read_block_advances(data, boundary);
        }
    }
}

/// Boundary-crossing skip: a header whose declared payload does not fit in
/// the rest of its 32768-byte chunk is skipped entirely, and reading resumes
/// at the next chunk boundary.
pub proof fn lemma_boundary_crossing_skip(data: Seq<u8>, pos: int)
    requires
        0 <= pos < data.len(),
        32768 - pos % 32768 >= 7,
        pos + 7 <= data.len(),
        !(spec_u16_at(data, pos + 4) == 0 && data[pos + 6] == 0),
        7 + spec_u16_at(data, pos + 4) as int > 32768 - pos % 32768,
    ensures
        spec_read_block_at(data, pos) == spec_read_block_at(data, spec_next_boundary(data, pos)),
{
}

/// Read the next physical block at or after `*pos`, skipping trailers,
/// padding, and boundary-crossing headers; `None` once no complete block
/// remains. `crc_valid` records whether the stored checksum matches the
/// checksum of the type byte followed by the payload.
#[verifier::loop_isolation(false)]
pub fn read_block(data: &[u8], pos: &mut usize) -> (r: Option<Block>)
    requires
        *old(pos) <= data@.len(),
    ensures
        match r {
            Some(b) => {
                &&& spec_read_block_at(data@, *old(pos) as int) == Some((b@, *final(pos) as int))
                &&& *old(pos) < *final(pos) <= data@.len()
                &&& *old(pos) + 7 + b.data@.len() <= *final(pos)
            },
            None => {
                &&& spec_read_block_at(data@, *old(pos) as int) is None
                &&& *final(pos) == *old(pos)
            },
        },
{
    let ghost p0 = *pos as int;
    let mut cur: usize = *pos;

    loop
        invariant
            p0 == *pos as int,
            *pos <= cur <= data@.len(),
            spec_read_block_at(data@, p0) == spec_read_block_at(data@, cur as int),
        decreases data@.len() - cur,
    {
        if cur >= data.len() {
            return None;
        }
        let pos_in_chunk = cur % BLOCK_SIZE;
        let remaining = BLOCK_SIZE - pos_in_chunk;
        let boundary = if remaining <= data.len() - cur {
            cur + remaining
        } else {
            data.len()
        };
        assert(boundary == spec_next_boundary(data@, cur as int));

        if remaining < HEADER_SIZE {
            cur = boundary;
            continue ;
        }
        if data.len() - cur < HEADER_SIZE {
            return None;
        }

        let crc = (data[cur] as u32) | ((data[cur + 1] as u32) << 8) | ((data[cur + 2] as u32)
            << 16) | ((data[cur + 3] as u32) << 24);
        let data_len = (data[cur + 4] as u16) | ((data[cur + 5] as u16) << 8);
        let block_type = data[cur + 6];
        let len = data_len as usize;

        if data_len == 0 && block_type == 0 {
            cur = boundary;
            continue ;
        }
        if HEADER_SIZE + len > remaining {
            cur = boundary;
            continue ;
        }
        if data.len() - cur - HEADER_SIZE < len {
            return None;
        }

        let payload = vstd::slice::slice_to_vec(
            vstd::slice::slice_subrange(data, cur + HEADER_SIZE, cur + HEADER_SIZE + len),
        );
        let crc_valid = utils::crc_verified(crc, payload.as_slice(), block_type, false);
        *pos = cur + HEADER_SIZE + len;
        return Some(
            Block { offset: cur as u64, crc, crc_valid, data_len, block_type, data: payload },
        );
    }
}

/// Wrapping 64-bit addition, the overflow behaviour of the offset
/// bookkeeping below.
pub open spec fn spec_wadd(a: u64, b: u64) -> u64 {
    vstd::wrapping::u64_specs::wrapping_add(a, b)
}

/// Wrapping 64-bit multiplication.
pub open spec fn spec_wmul(a: u64, b: u64) -> u64 {
    vstd::wrapping::u64_specs::wrapping_mul(a, b)
}

/// Header of a logical write batch: starting sequence number and declared
/// record count.
pub struct BatchHeader {
    pub seq_no: u64,
    pub rec_count: u32,
}

/// One mutation inside a batch. `value` is present exactly when the state
/// byte is nonzero (a live write rather than a deletion).
pub struct Record {
    pub seq: u64,
    pub state: u8,
    pub key: Vec<u8>,
    pub key_offset: u64,
    pub value: Option<Vec<u8>>,
    pub value_offset: Option<u64>,
}

/// Mathematical model of a `Record`.
pub struct RecordModel {
    pub seq: u64,
    pub state: u8,
    pub key: Seq<u8>,
    pub key_offset: u64,
    pub value: Option<Seq<u8>>,
    pub value_offset: Option<u64>,
}

impl View for Record {
    type V = RecordModel;

    open spec fn view(&self) -> RecordModel {
        RecordModel {
            seq: self.seq,
            state: self.state,
            key: self.key@,
            key_offset: self.key_offset,
            value: match self.value {
                Some(v) => Some(v@),
                None => None,
            },
            value_offset: self.value_offset,
        }
    }
}

/// A logical write batch: its header, its records, and the file offset of
/// the first physical block that carried it.
pub struct Batch {
    pub header: BatchHeader,
    pub records: Vec<Record>,
    pub offset: u64,
}

/// Mathematical model of a `Batch`.
pub struct BatchModel {
    pub header: BatchHeader,
    pub records: Seq<RecordModel>,
    pub offset: u64,
}

impl View for Batch {
    type V = BatchModel;

    open spec fn view(&self) -> BatchModel {
        BatchModel { header: self.header, records: self.records@.map_values(|r: Record| r@), offset: self.offset }
    }
}

/// A length-prefixed entry read from a batch buffer at `pos`: its bytes
/// (clipped to the buffer's end), the absolute file offset attributed to it,
/// the number of 32768-byte boundaries its bytes cross in the file, and the
/// buffer position just past it. The file offset accounts for the seven-byte
/// physical header re-inserted at each chunk boundary, which is present in
/// the file but absent from the reassembled buffer; the arithmetic wraps on
/// overflow.
pub open spec fn spec_entry_with_offset(data: Seq<u8>, pos: int, block_offset: u64) -> Option<
    (Seq<u8>, u64, u64, int),
> {
    match utils::spec_varint_at(data, pos) {
        None => None,
        Some((len, mid)) => {
            let entry_end = utils::spec_clipped_end(data, mid, len as int);
            let entry = data.subrange(mid, entry_end);
            let cur = mid as u64;
            let start_block = cur / 32768;
            let off_field = spec_wadd(spec_wadd(spec_wadd(cur, block_offset), 7), spec_wmul(start_block, 7));
            let start_pos = vstd::wrapping::u64_specs::wrapping_sub(off_field, 7);
            let sb2 = start_pos / 32768;
            let end_pos = spec_wadd(start_pos, len);
            let eb = end_pos / 32768;
            let crossed: u64 = if eb - sb2 < 0 {
                0u64
            } else {
                (eb - sb2) as u64
            };
            Some((entry, off_field, crossed, entry_end))
        },
    }
}

/// Read a length-prefixed entry and compute its file offset and the number
/// of chunk boundaries it crosses (see `spec_entry_with_offset`).
pub fn read_entry_with_offset(data: &[u8], pos: &mut usize, block_offset: u64) -> (r: Option<
    (Vec<u8>, u64, u64),
>)
    requires
        *old(pos) <= data@.len(),
    ensures
        match r {
            Some((entry, off_field, crossed)) => {
                &&& spec_entry_with_offset(data@, *old(pos) as int, block_offset) == Some(
                    (entry@, off_field, crossed, *final(pos) as int),
                )
                &&& *old(pos) < *final(pos) <= data@.len()
            },
            None => {
                &&& spec_entry_with_offset(data@, *old(pos) as int, block_offset) is None
                &&& *final(pos) == *old(pos)
            },
        },
{
    let len = match utils::read_varint(data, pos) {
        Ok(v) => v,
        Err(_) => {
            return None;
        },
    };

    let cur = *pos as u64;
    let start_block = cur / 32768;
    let off_field = cur.wrapping_add(block_offset).wrapping_add(7).wrapping_add(
        start_block.wrapping_mul(7),
    );

    let want: usize = if len <= usize::MAX as u64 {
        len as usize
    } else {
        usize::MAX
    };
    let entry = utils::read_slice(data, pos, want);
    assert(utils::spec_clipped_end(data@, cur as int, want as int) == utils::spec_clipped_end(
        data@,
        cur as int,
        len as int,
    ));

    let start_pos = off_field.wrapping_sub(7);
    let sb2 = start_pos / 32768;
    let end_pos = start_pos.wrapping_add(len);
    let eb = end_pos / 32768;
    let crossed = eb.saturating_sub(sb2);

    assert(spec_wadd(spec_wadd(spec_wadd(cur, block_offset), 7), spec_wmul(start_block, 7))
        == off_field);

    Some((entry, off_field, crossed))
}

/// The record at `pos` in a batch buffer: a state byte, a length-prefixed
/// key, and — when the state is nonzero — a length-prefixed value. Yields
/// the record, the chunk boundaries it crosses, and the position past it.
pub open spec fn spec_parse_record(data: Seq<u8>, pos: int, block_offset: u64, seq: u64) -> Option<
    (RecordModel, u64, int),
> {
    if pos < 0 || pos >= data.len() {
        None
    } else {
        let state = data[pos];
        match spec_entry_with_offset(data, pos + 1, block_offset) {
            None => None,
            Some((key, key_off, kc, p2)) => {
                if state != 0 {
                    let adjusted = if kc > 0 {
                        spec_wadd(block_offset, spec_wmul(kc, 7))
                    } else {
                        block_offset
                    };
                    match spec_entry_with_offset(data, p2, adjusted) {
                        None => None,
                        Some((val, val_off, vc, p3)) => Some(
                            (
                                RecordModel {
                                    seq,
                                    state,
                                    key,
                                    key_offset: key_off,
                                    value: Some(val),
                                    value_offset: Some(val_off),
                                },
                                spec_wadd(kc, vc),
                                p3,
                            ),
                        ),
                    }
                } else {
                    Some(
                        (
                            RecordModel {
                                seq,
                                state,
                                key,
                                key_offset: key_off,
                                value: None,
                                value_offset: None,
                            },
                            kc,
                            p2,
                        ),
                    )
                }
            },
        }
    }
}

/// Parse one record at the cursor (see `spec_parse_record`).
pub fn parse_record(data: &[u8], pos: &mut usize, block_offset: u64, seq: u64) -> (r: Option<
    (Record, u64),
>)
    requires
        *old(pos) <= data@.len(),
    ensures
        match r {
            Some((rec, crossed)) => {
                &&& spec_parse_record(data@, *old(pos) as int, block_offset, seq) == Some(
                    (rec@, crossed, *final(pos) as int),
                )
                &&& *old(pos) < *final(pos) <= data@.len()
            },
            None => spec_parse_record(data@, *old(pos) as int, block_offset, seq) is None,
        },
{
    if *pos >= data.len() {
        return None;
    }
    let state = data[*pos];
    *pos = *pos + 1;

    let (key, key_offset, key_crossed) = match read_entry_with_offset(data, pos, block_offset) {
        Some(t) => t,
        None => {
            return None;
        },
    };

    if state != 0 {
        let adjusted = if key_crossed > 0 {
            block_offset.wrapping_add(key_crossed.wrapping_mul(7))
        } else {
            block_offset
        };
        let (value, value_offset, val_crossed) = match read_entry_with_offset(
            data,
            pos,
            adjusted,
        ) {
            Some(t) => t,
            None => {
                return None;
            },
        };
        Some(
            (
                Record {
                    seq,
                    state,
                    key,
                    key_offset,
                    value: Some(value),
                    value_offset: Some(value_offset),
                },
                key_crossed.wrapping_add(val_crossed),
            ),
        )
    } else {
        Some(
            (
                Record { seq, state, key, key_offset, value: None, value_offset: None },
                key_crossed,
            ),
        )
    }
}

/// The records of a batch from `pos` on: at most `rec_count - i` more, each
/// numbered `seq_no + i` (wrapping), stopping early at the buffer's end or
/// at the first record that cannot be read, and keeping what was decoded.
pub open spec fn spec_batch_records(
    data: Seq<u8>,
    pos: int,
    seq_no: u64,
    i: int,
    rec_count: int,
    offset_adjust: u64,
    offset: u64,
) -> Seq<RecordModel>
    decreases rec_count - i,
{
    if i >= rec_count || pos >= data.len() {
        Seq::empty()
    } else {
        let block_offset = spec_wadd(offset, spec_wmul(offset_adjust, 7));
        let seq = spec_wadd(seq_no, i as u64);
        match spec_parse_record(data, pos, block_offset, seq) {
            None => Seq::empty(),
            Some((rec, crossed, next)) => seq![rec] + spec_batch_records(
                data,
                next,
                seq_no,
                i + 1,
                rec_count,
                spec_wadd(offset_adjust, crossed),
                offset,
            ),
        }
    }
}

/// The batch held by a (reassembled) buffer: an 8-byte little-endian
/// sequence number, a 4-byte little-endian record count, then the records.
/// A buffer too short for the header carries no batch.
pub open spec fn spec_parse_batch(data: Seq<u8>, offset: u64) -> Option<BatchModel> {
    if data.len() < 12 {
        None
    } else {
        let seq_no = utils::spec_u64_at(data, 0);
        let rec_count = spec_u32_at(data, 8);
        Some(
            BatchModel {
                header: BatchHeader { seq_no, rec_count },
                records: spec_batch_records(data, 12, seq_no, 0, rec_count as int, 0, offset),
                offset,
            },
        )
    }
}

/// Parse a batch from a reassembled buffer (see `spec_parse_batch`).
#[verifier::loop_isolation(false)]
#[verifier::rlimit(100)]
pub fn parse_batch(data: &[u8], offset: u64) -> (r: Option<Batch>)
    ensures
        match r {
            Some(b) => spec_parse_batch(data@, offset) == Some(b@),
            None => spec_parse_batch(data@, offset) is None,
        },
{
    let mut pos: usize = 0;
    let seq_no = match utils::read_u64_le(data, &mut pos) {
        Ok(v) => v,
        Err(_) => {
            return None;
        },
    };
    let rec_count = match utils::read_u32_le(data, &mut pos) {
        Ok(v) => v,
        Err(_) => {
            return None;
        },
    };

    let mut records: Vec<Record> = Vec::new();
    let mut i: u32 = 0;
    let mut offset_adjust: u64 = 0;
    let ghost rc = rec_count as int;

    loop
        invariant
            12 <= pos <= data@.len(),
            0 <= i <= rec_count,
            records@.map_values(|r: Record| r@) + spec_batch_records(
                data@,
                pos as int,
                seq_no,
                i as int,
                rc,
                offset_adjust,
                offset,
            ) == spec_batch_records(data@, 12, seq_no, 0, rc, 0, offset),
        decreases rc - i,
    {
        if i >= rec_count {
            break ;
        }
        if pos >= data.len() {
            break ;
        }

        let block_offset = offset.wrapping_add(offset_adjust.wrapping_mul(7));
        let seq = seq_no.wrapping_add(i as u64);
        let ghost pos0 = pos as int;
        let ghost adj0 = offset_adjust;
        let ghost i0 = i as int;
        let ghost mapped0 = records@.map_values(|r: Record| r@);

        match parse_record(data, &mut pos, block_offset, seq) {
            Some((rec, crossed)) => {
                proof {
                    assert(spec_parse_record(data@, pos0, spec_wadd(offset, spec_wmul(adj0, 7)),
                        spec_wadd(seq_no, i0 as u64)) == Some((rec@, crossed, pos as int)));
                    assert(spec_batch_records(data@, pos0, seq_no, i0, rc, adj0, offset)
                        == seq![rec@] + spec_batch_records(data@, pos as int, seq_no, i0 + 1, rc,
                        spec_wadd(adj0, crossed), offset));
                }
                let ghost rec_view = rec@;
                records.push(rec);
                offset_adjust = offset_adjust.wrapping_add(crossed);
                i = i + 1;
                proof {
                    assert(records@.map_values(|r: Record| r@) =~= mapped0.push(rec_view));
                    assert(mapped0.push(rec_view) + spec_batch_records(data@, pos as int, seq_no,
                        i as int, rc, offset_adjust, offset) =~= mapped0 + (seq![rec_view]
                        + spec_batch_records(data@, pos as int, seq_no, i as int, rc,
                        offset_adjust, offset)));
                }
            },
            None => {
                proof {
                    assert(spec_batch_records(data@, pos0, seq_no, i0, rc, adj0, offset)
                        =~= Seq::<RecordModel>::empty());
                    assert(mapped0 + Seq::<RecordModel>::empty() =~= mapped0);
                }
                return Some(Batch { header: BatchHeader { seq_no, rec_count }, records, offset });
            },
        }
    }

    proof {
        assert(spec_batch_records(data@, pos as int, seq_no, i as int, rc, offset_adjust, offset)
            =~= Seq::<RecordModel>::empty());
        assert(records@.map_values(|r: Record| r@) + Seq::<RecordModel>::empty()
            =~= records@.map_values(|r: Record| r@));
    }

    Some(Batch { header: BatchHeader { seq_no, rec_count }, records, offset })
}

/// A decoded log file: every physical block, and every write batch that
/// could be reassembled from them.
pub struct LogFile {
    pub blocks: Vec<Block>,
    pub batches: Vec<Batch>,
}

/// Reassembly state across the physical block stream: whether a batch is in
/// progress (a First block was seen), the payload gathered so far, and the
/// file offset of the First block, which anchors the batch.
pub struct Assembly {
    pub started: bool,
    pub buf: Seq<u8>,
    pub first_offset: u64,
}

/// Reassembly state before any block is seen.
pub open spec fn spec_assembly_init() -> Assembly {
    Assembly { started: false, buf: Seq::empty(), first_offset: 0 }
}

/// One step of batch reassembly. A Full block (type 1) carries a complete
/// payload by itself; First (2) opens a batch, Middle (3) extends one in
/// progress, Last (4) completes it; orphan Middle and Last blocks, zero
/// blocks, and unknown types are ignored.
pub open spec fn spec_assembly_step(acc: Assembly, b: BlockModel) -> (Assembly, Option<
    (Seq<u8>, u64),
>) {
    if b.block_type == 1 {
        (acc, Some((b.data, b.offset as u64)))
    } else if b.block_type == 2 {
        (Assembly { started: true, buf: b.data, first_offset: b.offset as u64 }, None)
    } else if b.block_type == 3 {
        if acc.started {
            (Assembly { started: true, buf: acc.buf + b.data, first_offset: acc.first_offset }, None)
        } else {
            (acc, None)
        }
    } else if b.block_type == 4 {
        if acc.started {
            (
                Assembly { started: false, buf: Seq::empty(), first_offset: acc.first_offset },
                Some((acc.buf + b.data, acc.first_offset)),
            )
        } else {
            (acc, None)
        }
    } else {
        (acc, None)
    }
}

/// The batches contributed by one completed payload: one batch if it parses,
/// none otherwise.
pub open spec fn spec_emitted_batches(done: Option<(Seq<u8>, u64)>) -> Seq<BatchModel> {
    match done {
        Some((payload, off)) => match spec_parse_batch(payload, off) {
            Some(bt) => seq![bt],
            None => Seq::empty(),
        },
        None => Seq::empty(),
    }
}

/// The blocks and batches of the physical block stream from `pos` on, with
/// reassembly state `acc`.
pub open spec fn spec_log_fold(data: Seq<u8>, pos: int, acc: Assembly) -> (
    Seq<BlockModel>,
    Seq<BatchModel>,
)
    decreases data.len() - pos,
        when 0 <= pos
        via spec_log_fold_dec
{
    match spec_read_block_at(data, pos) {
        None => (Seq::empty(), Seq::empty()),
        Some((b, next)) => {
            let step = spec_assembly_step(acc, b);
            let rest = spec_log_fold(data, next, step.0);
            (seq![b] + rest.0, spec_emitted_batches(step.1) + rest.1)
        },
    }
}

#[via_fn]
proof fn spec_log_fold_dec(data: Seq<u8>, pos: int, acc: Assembly) {
    lemma_read_block_advances(data, pos);
}

/// The blocks and batches of a whole log file.
pub open spec fn spec_parse_log(data: Seq<u8>) -> (Seq<BlockModel>, Seq<BatchModel>) {
    spec_log_fold(data, 0, spec_assembly_init())
}

/// Apply one physical block to the reassembly state, emitting into
/// `batches` whatever batch it completes (see `spec_assembly_step`).
fn apply_block(
    block: &Block,
    batches: &mut Vec<Batch>,
    partial: &mut Vec<u8>,
    started: &mut bool,
    first_offset: &mut u64,
)
    ensures
        ({
            let acc0 = Assembly {
                started: *old(started),
                buf: old(partial)@,
                first_offset: *old(first_offset),
            };
            let step = spec_assembly_step(acc0, block@);
            &&& Assembly {
                started: *final(started),
                buf: final(partial)@,
                first_offset: *final(first_offset),
            } == step.0
            &&& final(batches)@.map_values(|b: Batch| b@) == old(batches)@.map_values(
                |b: Batch| b@,
            ) + spec_emitted_batches(step.1)
        }),
{
    let ghost batches_map0 = batches@.map_values(|b: Batch| b@);
    let ghost acc0 = Assembly { started: *started, buf: partial@, first_offset: *first_offset };
    let ghost step = spec_assembly_step(acc0, block@);

    if block.block_type == 1 {
        // Full block: a complete batch payload on its own.
        assert(step.1 == Some((block.data@, block.offset)));
        assert(partial@ == step.0.buf);
        if let Some(batch) = parse_batch(block.data.as_slice(), block.offset) {
            proof {
                assert(spec_emitted_batches(step.1) == seq![batch@]);
                utils::lemma_map_values_push(batches@, |b: Batch| b@, batch);
                utils::lemma_seq_push_concat(batches_map0, batch@);
            }
            batches.push(batch);
        } else {
            proof {
                assert(spec_emitted_batches(step.1) == Seq::<BatchModel>::empty());
                utils::lemma_seq_concat_empty(batches_map0);
            }
        }
    } else if block.block_type == 2 {
        // First block: open a batch anchored at this offset.
        *first_offset = block.offset;
        partial.clear();
        partial.extend_from_slice(block.data.as_slice());
        *started = true;
        proof {
            utils::lemma_seq_empty_concat(block.data@);
            utils::lemma_seq_concat_empty(batches_map0);
            assert(partial@ == block.data@);
            assert(step.0 == Assembly {
                started: true,
                buf: block.data@,
                first_offset: block.offset,
            });
        }
    } else if block.block_type == 3 {
        // Middle block: extend a batch in progress; orphans are ignored.
        if *started {
            partial.extend_from_slice(block.data.as_slice());
        }
        proof {
            utils::lemma_seq_concat_empty(batches_map0);
            assert(partial@ == step.0.buf);
        }
    } else if block.block_type == 4 {
        // Last block: complete the batch in progress; orphans are ignored.
        if *started {
            partial.extend_from_slice(block.data.as_slice());
            assert(step.1 == Some((acc0.buf + block.data@, acc0.first_offset)));
            assert(partial@ == acc0.buf + block.data@);
            if let Some(batch) = parse_batch(partial.as_slice(), *first_offset) {
                proof {
                    assert(spec_emitted_batches(step.1) == seq![batch@]);
                    utils::lemma_map_values_push(batches@, |b: Batch| b@, batch);
                    utils::lemma_seq_push_concat(batches_map0, batch@);
                }
                batches.push(batch);
            } else {
                proof {
                    assert(spec_emitted_batches(step.1) == Seq::<BatchModel>::empty());
                    utils::lemma_seq_concat_empty(batches_map0);
                }
            }
            partial.clear();
            *started = false;
            assert(partial@ == step.0.buf);
        } else {
            proof {
                utils::lemma_seq_concat_empty(batches_map0);
            }
        }
    } else {
        // Zero block or unknown type: padding, no payload.
        proof {
            utils::lemma_seq_concat_empty(batches_map0);
        }
    }
}

/// Decode a log file: collect every physical block and reassemble every
/// write batch (see `spec_parse_log`).
#[verifier::loop_isolation(false)]
#[verifier::rlimit(100)]
pub fn parse_log(data: &[u8]) -> (r: LogFile)
    ensures
        r.blocks@.map_values(|b: Block| b@) == spec_parse_log(data@).0,
        r.batches@.map_values(|b: Batch| b@) == spec_parse_log(data@).1,
{
    let mut blocks: Vec<Block> = Vec::new();
    let mut batches: Vec<Batch> = Vec::new();
    let mut pos: usize = 0;
    let mut partial: Vec<u8> = Vec::new();
    let mut started: bool = false;
    let mut first_offset: u64 = 0;

    loop
        invariant
            pos <= data@.len(),
            ({
                let acc = Assembly { started: started, buf: partial@, first_offset: first_offset };
                let rest = spec_log_fold(data@, pos as int, acc);
                &&& spec_parse_log(data@).0 == blocks@.map_values(|b: Block| b@) + rest.0
                &&& spec_parse_log(data@).1 == batches@.map_values(|b: Batch| b@) + rest.1
            }),
        decreases data@.len() - pos,
    {
        let ghost acc0 = Assembly { started: started, buf: partial@, first_offset: first_offset };
        let ghost pos0 = pos as int;
        let ghost blocks_map0 = blocks@.map_values(|b: Block| b@);
        let ghost batches_map0 = batches@.map_values(|b: Batch| b@);

        let block = match read_block(data, &mut pos) {
            Some(b) => b,
            None => {
                proof {
                    utils::lemma_seq_concat_empty(blocks_map0);
                    utils::lemma_seq_concat_empty(batches_map0);
                }
                return LogFile { blocks, batches };
            },
        };

        let ghost bm = block@;
        let ghost acc1 = spec_assembly_step(acc0, bm).0;
        let ghost emitted = spec_emitted_batches(spec_assembly_step(acc0, bm).1);

        apply_block(&block, &mut batches, &mut partial, &mut started, &mut first_offset);

        let ghost blocks_map1 = blocks@.map_values(|b: Block| b@);
        proof {
            utils::lemma_map_values_push(blocks@, |b: Block| b@, block);
            utils::lemma_seq_push_concat(blocks_map1, bm);
        }
        blocks.push(block);

        proof {
            let rest = spec_log_fold(data@, pos as int, acc1);
            assert(spec_log_fold(data@, pos0, acc0).0 == seq![bm] + rest.0);
            assert(spec_log_fold(data@, pos0, acc0).1 == emitted + rest.1);
            utils::lemma_seq_concat_assoc(blocks_map1, seq![bm], rest.0);
            utils::lemma_seq_concat_assoc(batches_map0, emitted, rest.1);
        }
    }
}

/// The text shown for a record's state byte.
pub open spec fn spec_state_text(state: u8) -> Seq<char> {
    if state == 0 {
        ("deleted")@
    } else if state == 1 {
        ("live")@
    } else {
        ("unknown")@
    }
}

/// Append the text of a record's state byte.
pub fn push_state_text(out: &mut Vec<char>, state: u8)
    ensures
        final(out)@ == old(out)@ + spec_state_text(state),
{
    if state == 0 {
        crate::csv::push_lit(out, "deleted");
    } else if state == 1 {
        crate::csv::push_lit(out, "live");
    } else {
        crate::csv::push_lit(out, "unknown");
    }
}

/// The checksum status shown for a batch: that of the first block at the
/// batch's offset, or `unknown` when no block sits there.
pub open spec fn spec_batch_crc_status(blocks: Seq<BlockModel>, off: u64, i: int) -> Seq<char>
    decreases blocks.len() - i,
{
    if i < 0 || i >= blocks.len() {
        ("unknown")@
    } else if blocks[i].offset == off as int {
        if blocks[i].crc_valid {
            ("valid")@
        } else {
            ("failed!")@
        }
    } else {
        spec_batch_crc_status(blocks, off, i + 1)
    }
}

/// The checksum status of the block at `off` (see `spec_batch_crc_status`).
#[verifier::loop_isolation(false)]
fn batch_crc_status(blocks: &Vec<Block>, off: u64) -> (r: Vec<char>)
    ensures
        r@ == spec_batch_crc_status(blocks@.map_values(|b: Block| b@), off, 0),
{
    let ghost bm = blocks@.map_values(|b: Block| b@);
    let mut i: usize = 0;
    loop
        invariant
            i <= blocks@.len(),
            bm == blocks@.map_values(|b: Block| b@),
            spec_batch_crc_status(bm, off, 0) == spec_batch_crc_status(bm, off, i as int),
        decreases blocks@.len() - i,
    {
        if i >= blocks.len() {
            return crate::foreign::str_chars("unknown");
        }
        if blocks[i].offset == off {
            if blocks[i].crc_valid {
                return crate::foreign::str_chars("valid");
            } else {
                return crate::foreign::str_chars("failed!");
            }
        }
        i = i + 1;
    }
}

/// The leading fields of a log record's CSV row: sequence number and the
/// decoded key and value, lossy UTF-8 with CSV escaping; a deletion's value
/// is empty.
pub open spec fn spec_log_row_head(rec: RecordModel) -> Seq<char> {
    let key_txt = crate::csv::spec_csv_escape(crate::decoder::spec_bytes_to_utf8_lossy(rec.key));
    let val_txt = match rec.value {
        Some(v) => crate::csv::spec_csv_escape(crate::decoder::spec_bytes_to_utf8_lossy(v)),
        None => Seq::empty(),
    };
    crate::csv::spec_quoted(crate::decoder::spec_dec_digits(rec.seq as int)) + seq![',']
        + crate::csv::spec_quoted(key_txt) + seq![','] + crate::csv::spec_quoted(val_txt) + seq![
        ',',
    ]
}

/// The trailing fields of a log record's CSV row.
pub open spec fn spec_log_row_tail(
    rec: RecordModel,
    crc_status: Seq<char>,
    batch_offset: u64,
    filename: Seq<char>,
    path: Seq<char>,
) -> Seq<char> {
    crate::csv::spec_quoted(crc_status) + seq![','] + crate::csv::spec_quoted(
        spec_state_text(rec.state),
    ) + seq![','] + crate::csv::spec_quoted(crate::decoder::spec_dec_digits(batch_offset as int))
        + seq![','] + crate::csv::spec_quoted(("false")@) + seq![','] + crate::csv::spec_quoted(
        filename,
    ) + seq![','] + crate::csv::spec_quoted(path) + seq!['\n']
}

/// One CSV row of a log record: sequence number, decoded key and value,
/// then checksum status, state, batch offset, a fixed `false` compression
/// flag, file name and path.
pub open spec fn spec_log_record_row(
    rec: RecordModel,
    crc_status: Seq<char>,
    batch_offset: u64,
    filename: Seq<char>,
    path: Seq<char>,
) -> Seq<char> {
    spec_log_row_head(rec) + spec_log_row_tail(rec, crc_status, batch_offset, filename, path)
}

/// Append one CSV row of a log record (see `spec_log_record_row`).
fn push_log_record_row(
    out: &mut Vec<char>,
    rec: &Record,
    crc_status: &Vec<char>,
    batch_offset: u64,
    filename: &Vec<char>,
    path: &Vec<char>,
)
    ensures
        final(out)@ == old(out)@ + spec_log_record_row(
            rec@,
            crc_status@,
            batch_offset,
            filename@,
            path@,
        ),
{
    let ghost out0 = out@;
    crate::csv::push_quoted_u64(out, rec.seq);
    out.push(',');

    let key_txt = crate::decoder::bytes_to_utf8_lossy(rec.key.as_slice());
    let key_chars = crate::foreign::str_chars(key_txt.as_str());
    crate::csv::push_quoted_escaped(out, key_chars.as_slice());
    out.push(',');

    out.push('"');
    match &rec.value {
        Some(v) => {
            let val_txt = crate::decoder::bytes_to_utf8_lossy(v.as_slice());
            let val_chars = crate::foreign::str_chars(val_txt.as_str());
            crate::csv::push_csv_escaped(out, val_chars.as_slice());
        },
        None => {},
    }
    out.push('"');
    out.push(',');

    proof {
        assert(out@ =~= out0 + spec_log_row_head(rec@));
    }
    let ghost out_mid = out@;

    crate::csv::push_quoted_raw(out, crc_status.as_slice());
    out.push(',');
    out.push('"');
    push_state_text(out, rec.state);
    out.push('"');
    out.push(',');
    crate::csv::push_quoted_u64(out, batch_offset);
    out.push(',');
    out.push('"');
    crate::csv::push_lit(out, "false");
    out.push('"');
    out.push(',');
    crate::csv::push_quoted_raw(out, filename.as_slice());
    out.push(',');
    crate::csv::push_quoted_raw(out, path.as_slice());
    out.push('\n');

    proof {
        assert(out@ =~= out_mid + spec_log_row_tail(
            rec@,
            crc_status@,
            batch_offset,
            filename@,
            path@,
        ));
        utils::lemma_seq_concat_assoc(
            out0,
            spec_log_row_head(rec@),
            spec_log_row_tail(rec@, crc_status@, batch_offset, filename@, path@),
        );
    }
}

/// The CSV rows of a batch's records from `i` on.
pub open spec fn spec_log_batch_rows(
    recs: Seq<RecordModel>,
    i: int,
    crc_status: Seq<char>,
    batch_offset: u64,
    filename: Seq<char>,
    path: Seq<char>,
) -> Seq<char>
    decreases recs.len() - i,
{
    if i < 0 || i >= recs.len() {
        Seq::empty()
    } else {
        spec_log_record_row(recs[i], crc_status, batch_offset, filename, path)
            + spec_log_batch_rows(recs, i + 1, crc_status, batch_offset, filename, path)
    }
}

/// The CSV rows of the batches from `i` on.
pub open spec fn spec_log_rows(
    batches: Seq<BatchModel>,
    i: int,
    blocks: Seq<BlockModel>,
    filename: Seq<char>,
    path: Seq<char>,
) -> Seq<char>
    decreases batches.len() - i,
{
    if i < 0 || i >= batches.len() {
        Seq::empty()
    } else {
        let b = batches[i];
        spec_log_batch_rows(
            b.records,
            0,
            spec_batch_crc_status(blocks, b.offset, 0),
            b.offset,
            filename,
            path,
        ) + spec_log_rows(batches, i + 1, blocks, filename, path)
    }
}

/// The CSV text of a log file: a fixed header, then one row per record of
/// every batch.
pub open spec fn spec_log_csv(
    blocks: Seq<BlockModel>,
    batches: Seq<BatchModel>,
    filename: Seq<char>,
    path: Seq<char>,
) -> Seq<char> {
    ("\"Seq\",\"K\",\"V\",\"Cr\",\"St\",\"BO\",\"C\",\"F\",\"FP\"\n")@ + spec_log_rows(
        batches,
        0,
        blocks,
        filename,
        path,
    )
}

/// Render a log file as CSV (see `spec_log_csv`).
#[verifier::loop_isolation(false)]
#[verifier::rlimit(100)]
pub fn csv_string(log: &LogFile, filename: &str, file_path: &str) -> (r: String)
    ensures
        r@ == spec_log_csv(
            log.blocks@.map_values(|b: Block| b@),
            log.batches@.map_values(|b: Batch| b@),
            filename@,
            file_path@,
        ),
{
    let ghost bm = log.blocks@.map_values(|b: Block| b@);
    let ghost tm = log.batches@.map_values(|b: Batch| b@);
    let fname = crate::foreign::str_chars(filename);
    let fpath = crate::foreign::str_chars(file_path);

    let mut out: Vec<char> = Vec::new();
    crate::csv::push_lit(&mut out, "\"Seq\",\"K\",\"V\",\"Cr\",\"St\",\"BO\",\"C\",\"F\",\"FP\"\n");
    proof {
        utils::lemma_seq_empty_concat(("\"Seq\",\"K\",\"V\",\"Cr\",\"St\",\"BO\",\"C\",\"F\",\"FP\"\n")@);
    }

    let mut i: usize = 0;
    loop
        invariant
            i <= log.batches@.len(),
            bm == log.blocks@.map_values(|b: Block| b@),
            tm == log.batches@.map_values(|b: Batch| b@),
            fname@ == filename@,
            fpath@ == file_path@,
            spec_log_csv(bm, tm, filename@, file_path@) == out@ + spec_log_rows(
                tm,
                i as int,
                bm,
                filename@,
                file_path@,
            ),
        decreases log.batches@.len() - i,
    {
        let ghost out0 = out@;
        if i >= log.batches.len() {
            proof {
                utils::lemma_seq_concat_empty(out@);
            }
            return crate::foreign::chars_to_string(&out);
        }

        let batch = &log.batches[i];
        let crc_status = batch_crc_status(&log.blocks, batch.offset);

        let ghost recs = tm[i as int].records;
        assert(recs == batch.records@.map_values(|r: Record| r@));

        let mut j: usize = 0;
        loop
            invariant
                j <= batch.records@.len(),
                i < log.batches@.len(),
                batch == &log.batches[i as int],
                recs == batch.records@.map_values(|r: Record| r@),
                crc_status@ == spec_batch_crc_status(bm, batch.offset, 0),
                out0 + spec_log_batch_rows(recs, 0, crc_status@, batch.offset, filename@, file_path@)
                    == out@ + spec_log_batch_rows(
                    recs,
                    j as int,
                    crc_status@,
                    batch.offset,
                    filename@,
                    file_path@,
                ),
            decreases batch.records@.len() - j,
        {
            if j >= batch.records.len() {
                break ;
            }
            let ghost out_j = out@;
            push_log_record_row(
                &mut out,
                &batch.records[j],
                &crc_status,
                batch.offset,
                &fname,
                &fpath,
            );
            proof {
                assert(batch.records@[j as int]@ == recs[j as int]);
                utils::lemma_seq_concat_assoc(
                    out_j,
                    spec_log_record_row(
                        recs[j as int],
                        crc_status@,
                        batch.offset,
                        filename@,
                        file_path@,
                    ),
                    spec_log_batch_rows(
                        recs,
                        j as int + 1,
                        crc_status@,
                        batch.offset,
                        filename@,
                        file_path@,
                    ),
                );
            }
            j = j + 1;
        }

        proof {
            let brows = spec_log_batch_rows(
                recs,
                0,
                crc_status@,
                batch.offset,
                filename@,
                file_path@,
            );
            utils::lemma_seq_concat_empty(out@);
            assert(out@ == out0 + brows);
            utils::lemma_seq_concat_assoc(
                out0,
                brows,
                spec_log_rows(tm, i as int + 1, bm, filename@, file_path@),
            );
        }
        i = i + 1;
    }
}

/// The batches contributed by a finite run of blocks, starting from
/// reassembly state `acc`.
pub open spec fn spec_assemble_batches(blocks: Seq<BlockModel>, acc: Assembly) -> Seq<BatchModel>
    decreases blocks.len(),
{
    if blocks.len() == 0 {
        Seq::empty()
    } else {
        let step = spec_assembly_step(acc, blocks[0]);
        spec_emitted_batches(step.1) + spec_assemble_batches(blocks.skip(1), step.0)
    }
}

/// Log batch reassembly: a batch payload split at arbitrary points into
/// First, Middle and Last blocks yields exactly the batches of the same
/// payload written as one Full block anchored at the First block's offset.
pub proof fn lemma_log_batch_reassembly(
    first: BlockModel,
    middle: BlockModel,
    last: BlockModel,
    full: BlockModel,
    acc: Assembly,
)
    requires
        first.block_type == 2,
        middle.block_type == 3,
        last.block_type == 4,
        full.block_type == 1,
        full.data == first.data + middle.data + last.data,
        full.offset == first.offset,
    ensures
        spec_assemble_batches(seq![first, middle, last], acc) == spec_assemble_batches(
            seq![full],
            acc,
        ),
{
    let a1 = spec_assembly_step(acc, first).0;
    let a2 = spec_assembly_step(a1, middle).0;
    let step3 = spec_assembly_step(a2, last);

    assert(seq![first, middle, last][0] == first);
    assert(seq![middle, last][0] == middle);
    assert(seq![last][0] == last);
    assert(seq![full][0] == full);
    assert(seq![first, middle, last].skip(1) =~= seq![middle, last]);
    assert(seq![middle, last].skip(1) =~= seq![last]);
    assert(seq![last].skip(1) =~= Seq::<BlockModel>::empty());
    assert(seq![full].skip(1) =~= Seq::<BlockModel>::empty());

    assert(a2.buf =~= first.data + middle.data);
    assert(a2.buf + last.data =~= full.data);

    assert(step3.1 == spec_assembly_step(acc, full).1);

    let emitted = spec_emitted_batches(step3.1);
    assert(spec_assemble_batches(Seq::<BlockModel>::empty(), step3.0) == Seq::<BatchModel>::empty());
    assert(spec_assemble_batches(Seq::<BlockModel>::empty(), spec_assembly_step(acc, full).0)
        == Seq::<BatchModel>::empty());
    assert(spec_assemble_batches(seq![last], a2) =~= emitted);
    assert(spec_assemble_batches(seq![middle, last], a1) =~= emitted);
    assert(spec_assemble_batches(seq![first, middle, last], acc) =~= emitted);
    assert(spec_assemble_batches(seq![full], acc) =~= spec_emitted_batches(
        spec_assembly_step(acc, full).1,
    ));
}

} // verus!
