//! Manifest (version-edit) file decoding: tagged fields carried in the same
//! physical block stream and batch reassembly that the log format uses.

use vstd::prelude::*;

use crate::log_parser;
use crate::log_parser::Assembly;
use crate::log_parser::Block;
use crate::log_parser::BlockModel;
use crate::log_parser::spec_assembly_step;
use crate::log_parser::spec_assembly_init;
use crate::log_parser::spec_read_block_at;
use crate::log_parser::lemma_read_block_advances;
use crate::utils;
use crate::utils::spec_split_key;
use crate::utils::spec_varint_at;
use crate::utils::spec_varint_slice_at;

verus! {

/// One tagged field of a version edit. `Unknown` records an unrecognized tag
/// byte, which is assumed to carry no payload.
pub enum ManifestEntry {
    Comparator(Vec<u8>),
    LogNumber(u64),
    NextFileNumber(u64),
    LastSeq(u64),
    CompactPointer { level: u64, key: Vec<u8>, seq: u64, state: u8 },
    RemoveFile { level: u64, file_no: u64 },
    AddFile {
        level: u64,
        file_no: u64,
        file_size: u64,
        sm_key: Vec<u8>,
        sm_seq: u64,
        sm_state: u8,
        lg_key: Vec<u8>,
        lg_seq: u64,
        lg_state: u8,
    },
    PrevLogNumber(u64),
    Unknown(u8),
}

/// Mathematical model of a `ManifestEntry`.
pub enum ManifestEntryModel {
    Comparator(Seq<u8>),
    LogNumber(u64),
    NextFileNumber(u64),
    LastSeq(u64),
    CompactPointer { level: u64, key: Seq<u8>, seq: u64, state: u8 },
    RemoveFile { level: u64, file_no: u64 },
    AddFile {
        level: u64,
        file_no: u64,
        file_size: u64,
        sm_key: Seq<u8>,
        sm_seq: u64,
        sm_state: u8,
        lg_key: Seq<u8>,
        lg_seq: u64,
        lg_state: u8,
    },
    PrevLogNumber(u64),
    Unknown(u8),
}

impl View for ManifestEntry {
    type V = ManifestEntryModel;

    open spec fn view(&self) -> ManifestEntryModel {
        match self {
            ManifestEntry::Comparator(v) => ManifestEntryModel::Comparator(v@),
            ManifestEntry::LogNumber(n) => ManifestEntryModel::LogNumber(*n),
            ManifestEntry::NextFileNumber(n) => ManifestEntryModel::NextFileNumber(*n),
            ManifestEntry::LastSeq(n) => ManifestEntryModel::LastSeq(*n),
            ManifestEntry::CompactPointer { level, key, seq, state } => {
                ManifestEntryModel::CompactPointer {
                    level: *level,
                    key: key@,
                    seq: *seq,
                    state: *state,
                }
            },
            ManifestEntry::RemoveFile { level, file_no } => {
                ManifestEntryModel::RemoveFile { level: *level, file_no: *file_no }
            },
            ManifestEntry::AddFile {
                level,
                file_no,
                file_size,
                sm_key,
                sm_seq,
                sm_state,
                lg_key,
                lg_seq,
                lg_state,
            } => {
                ManifestEntryModel::AddFile {
                    level: *level,
                    file_no: *file_no,
                    file_size: *file_size,
                    sm_key: sm_key@,
                    sm_seq: *sm_seq,
                    sm_state: *sm_state,
                    lg_key: lg_key@,
                    lg_seq: *lg_seq,
                    lg_state: *lg_state,
                }
            },
            ManifestEntry::PrevLogNumber(n) => ManifestEntryModel::PrevLogNumber(*n),
            ManifestEntry::Unknown(t) => ManifestEntryModel::Unknown(*t),
        }
    }
}

/// The tagged field at `pos`: a one-byte tag followed by the tag's payload,
/// and the position just past it. `None` when a payload read fails, which
/// ends the field stream. An unrecognized tag is recorded as `Unknown` and
/// consumes no payload bytes.
pub open spec fn spec_manifest_entry_at(data: Seq<u8>, pos: int) -> Option<
    (ManifestEntryModel, int),
> {
    if pos < 0 || pos >= data.len() {
        None
    } else {
        let tag = data[pos];
        let p1 = pos + 1;
        if tag == 0x01 {
            match spec_varint_slice_at(data, p1) {
                Some((v, next)) => Some((ManifestEntryModel::Comparator(v), next)),
                None => None,
            }
        } else if tag == 0x02 {
            match spec_varint_at(data, p1) {
                Some((n, next)) => Some((ManifestEntryModel::LogNumber(n), next)),
                None => None,
            }
        } else if tag == 0x03 {
            match spec_varint_at(data, p1) {
                Some((n, next)) => Some((ManifestEntryModel::NextFileNumber(n), next)),
                None => None,
            }
        } else if tag == 0x04 {
            match spec_varint_at(data, p1) {
                Some((n, next)) => Some((ManifestEntryModel::LastSeq(n), next)),
                None => None,
            }
        } else if tag == 0x05 {
            match spec_varint_at(data, p1) {
                Some((level, p2)) => match spec_varint_slice_at(data, p2) {
                    Some((pointer_key, p3)) => match spec_split_key(pointer_key) {
                        Some((key, state, seq)) => Some(
                            (ManifestEntryModel::CompactPointer { level, key, seq, state }, p3),
                        ),
                        None => None,
                    },
                    None => None,
                },
                None => None,
            }
        } else if tag == 0x06 {
            match spec_varint_at(data, p1) {
                Some((level, p2)) => match spec_varint_at(data, p2) {
                    Some((file_no, p3)) => Some(
                        (ManifestEntryModel::RemoveFile { level, file_no }, p3),
                    ),
                    None => None,
                },
                None => None,
            }
        } else if tag == 0x07 {
            match spec_varint_at(data, p1) {
                Some((level, p2)) => match spec_varint_at(data, p2) {
                    Some((file_no, p3)) => match spec_varint_at(data, p3) {
                        Some((file_size, p4)) => match spec_varint_slice_at(data, p4) {
                            Some((smallest, p5)) => match spec_split_key(smallest) {
                                Some((sm_key, sm_state, sm_seq)) => match spec_varint_slice_at(
                                    data,
                                    p5,
                                ) {
                                    Some((largest, p6)) => match spec_split_key(largest) {
                                        Some((lg_key, lg_state, lg_seq)) => Some(
                                            (
                                                ManifestEntryModel::AddFile {
                                                    level,
                                                    file_no,
                                                    file_size,
                                                    sm_key,
                                                    sm_seq,
                                                    sm_state,
                                                    lg_key,
                                                    lg_seq,
                                                    lg_state,
                                                },
                                                p6,
                                            ),
                                        ),
                                        None => None,
                                    },
                                    None => None,
                                },
                                None => None,
                            },
                            None => None,
                        },
                        None => None,
                    },
                    None => None,
                },
                None => None,
            }
        } else if tag == 0x09 {
            match spec_varint_at(data, p1) {
                Some((n, next)) => Some((ManifestEntryModel::PrevLogNumber(n), next)),
                None => None,
            }
        } else {
            Some((ManifestEntryModel::Unknown(tag), p1))
        }
    }
}

/// A decoded tagged field lies after `pos` and before the input's end.
pub proof fn lemma_manifest_entry_advances(data: Seq<u8>, pos: int)
    requires
        0 <= pos,
    ensures
        spec_manifest_entry_at(data, pos) matches Some((e, next)) ==> pos < next <= data.len(),
{
    if 0 <= pos < data.len() {
        let p1 = pos + 1;
        utils::lemma_varint_at_advances(data, p1);
        utils::lemma_varint_slice_at_advances(data, p1);
        match spec_varint_at(data, p1) {
            Some((v1, p2)) => {
                utils::lemma_varint_at_advances(data, p2);
                utils::lemma_varint_slice_at_advances(data, p2);
                match spec_varint_at(data, p2) {
                    Some((v2, p3)) => {
                        utils::lemma_varint_at_advances(data, p3);
                        match spec_varint_at(data, p3) {
                            Some((v3, p4)) => {
                                utils::lemma_varint_slice_at_advances(data, p4);
                                match spec_varint_slice_at(data, p4) {
                                    Some((v4, p5)) => {
                                        utils::lemma_varint_slice_at_advances(data, p5);
                                    },
                                    None => {},
                                }
                            },
                            None => {},
                        }
                    },
                    None => {},
                }
                match spec_varint_slice_at(data, p2) {
                    Some((v2, p3)) => {
                        utils::lemma_varint_slice_at_advances(data, p3);
                    },
                    None => {},
                }
            },
            None => {},
        }
    }
}

/// The tagged fields of one reassembled byte range, from `pos` on: fields
/// are read until the range ends or a payload read fails, keeping those
/// already decoded.
pub open spec fn spec_manifest_entries(data: Seq<u8>, pos: int) -> Seq<ManifestEntryModel>
    decreases data.len() - pos,
        when 0 <= pos
        via spec_manifest_entries_dec
{
    match spec_manifest_entry_at(data, pos) {
        None => Seq::empty(),
        Some((e, next)) => seq![e] + spec_manifest_entries(data, next),
    }
}

#[via_fn]
proof fn spec_manifest_entries_dec(data: Seq<u8>, pos: int) {
    lemma_manifest_entry_advances(data, pos);
}

/// Read the tagged field at the cursor (see `spec_manifest_entry_at`).
fn read_manifest_entry(data: &[u8], pos: &mut usize) -> (r: Option<ManifestEntry>)
    requires
        *old(pos) <= data@.len(),
    ensures
        match r {
            Some(e) => {
                &&& spec_manifest_entry_at(data@, *old(pos) as int) == Some(
                    (e@, *final(pos) as int),
                )
                &&& *old(pos) < *final(pos) <= data@.len()
            },
            None => spec_manifest_entry_at(data@, *old(pos) as int) is None,
        },
{
    if *pos >= data.len() {
        return None;
    }
    let tag = data[*pos];
    *pos = *pos + 1;

    if tag == 0x01 {
        let value = match utils::read_varint_slice(data, pos) {
            Ok(v) => v,
            Err(_) => {
                return None;
            },
        };
        Some(ManifestEntry::Comparator(value))
    } else if tag == 0x02 {
        let n = match utils::read_varint(data, pos) {
            Ok(v) => v,
            Err(_) => {
                return None;
            },
        };
        Some(ManifestEntry::LogNumber(n))
    } else if tag == 0x03 {
        let n = match utils::read_varint(data, pos) {
            Ok(v) => v,
            Err(_) => {
                return None;
            },
        };
        Some(ManifestEntry::NextFileNumber(n))
    } else if tag == 0x04 {
        let n = match utils::read_varint(data, pos) {
            Ok(v) => v,
            Err(_) => {
                return None;
            },
        };
        Some(ManifestEntry::LastSeq(n))
    } else if tag == 0x05 {
        let level = match utils::read_varint(data, pos) {
            Ok(v) => v,
            Err(_) => {
                return None;
            },
        };
        let pointer_key = match utils::read_varint_slice(data, pos) {
            Ok(v) => v,
            Err(_) => {
                return None;
            },
        };
        let (key, state, seq) = match utils::decode_key(pointer_key.as_slice()) {
            Ok(t) => t,
            Err(_) => {
                return None;
            },
        };
        Some(ManifestEntry::CompactPointer { level, key, seq, state })
    } else if tag == 0x06 {
        let level = match utils::read_varint(data, pos) {
            Ok(v) => v,
            Err(_) => {
                return None;
            },
        };
        let file_no = match utils::read_varint(data, pos) {
            Ok(v) => v,
            Err(_) => {
                return None;
            },
        };
        Some(ManifestEntry::RemoveFile { level, file_no })
    } else if tag == 0x07 {
        let level = match utils::read_varint(data, pos) {
            Ok(v) => v,
            Err(_) => {
                return None;
            },
        };
        let file_no = match utils::read_varint(data, pos) {
            Ok(v) => v,
            Err(_) => {
                return None;
            },
        };
        let file_size = match utils::read_varint(data, pos) {
            Ok(v) => v,
            Err(_) => {
                return None;
            },
        };
        let smallest = match utils::read_varint_slice(data, pos) {
            Ok(v) => v,
            Err(_) => {
                return None;
            },
        };
        let (sm_key, sm_state, sm_seq) = match utils::decode_key(smallest.as_slice()) {
            Ok(t) => t,
            Err(_) => {
                return None;
            },
        };
        let largest = match utils::read_varint_slice(data, pos) {
            Ok(v) => v,
            Err(_) => {
                return None;
            },
        };
        let (lg_key, lg_state, lg_seq) = match utils::decode_key(largest.as_slice()) {
            Ok(t) => t,
            Err(_) => {
                return None;
            },
        };
        Some(
            ManifestEntry::AddFile {
                level,
                file_no,
                file_size,
                sm_key,
                sm_seq,
                sm_state,
                lg_key,
                lg_seq,
                lg_state,
            },
        )
    } else if tag == 0x09 {
        let n = match utils::read_varint(data, pos) {
            Ok(v) => v,
            Err(_) => {
                return None;
            },
        };
        Some(ManifestEntry::PrevLogNumber(n))
    } else {
        Some(ManifestEntry::Unknown(tag))
    }
}

/// The tagged fields decoded from one reassembled byte range, and the file
/// offset of the first physical block that carried it.
pub struct ManifestEntrySet {
    pub entries: Vec<ManifestEntry>,
    pub offset: u64,
}

/// Mathematical model of a `ManifestEntrySet`.
pub struct ManifestEntrySetModel {
    pub entries: Seq<ManifestEntryModel>,
    pub offset: u64,
}

impl View for ManifestEntrySet {
    type V = ManifestEntrySetModel;

    open spec fn view(&self) -> ManifestEntrySetModel {
        ManifestEntrySetModel {
            entries: self.entries@.map_values(|e: ManifestEntry| e@),
            offset: self.offset,
        }
    }
}

/// Decode the tagged fields of one reassembled byte range (see
/// `spec_manifest_entries`).
#[verifier::loop_isolation(false)]
pub fn parse_entries(data: &[u8], offset: u64) -> (r: ManifestEntrySet)
    ensures
        r@.entries == spec_manifest_entries(data@, 0),
        r@.offset == offset,
{
    let mut entries: Vec<ManifestEntry> = Vec::new();
    let mut pos: usize = 0;

    loop
        invariant
            pos <= data@.len(),
            spec_manifest_entries(data@, 0) == entries@.map_values(|e: ManifestEntry| e@)
                + spec_manifest_entries(data@, pos as int),
        decreases data@.len() - pos,
    {
        let ghost pos0 = pos as int;
        let ghost map0 = entries@.map_values(|e: ManifestEntry| e@);

        if pos >= data.len() {
            proof {
                utils::lemma_seq_concat_empty(map0);
            }
            return ManifestEntrySet { entries, offset };
        }

        match read_manifest_entry(data, &mut pos) {
            Some(entry) => {
                proof {
                    assert(spec_manifest_entries(data@, pos0) == seq![entry@]
                        + spec_manifest_entries(data@, pos as int));
                    utils::lemma_map_values_push(entries@, |e: ManifestEntry| e@, entry);
                    utils::lemma_seq_push_concat(map0, entry@);
                    utils::lemma_seq_concat_assoc(
                        map0,
                        seq![entry@],
                        spec_manifest_entries(data@, pos as int),
                    );
                }
                entries.push(entry);
            },
            None => {
                proof {
                    assert(spec_manifest_entries(data@, pos0) =~= Seq::<
                        ManifestEntryModel,
                    >::empty());
                    utils::lemma_seq_concat_empty(map0);
                }
                return ManifestEntrySet { entries, offset };
            },
        }
    }
}

/// A decoded manifest file: every physical block, and the tagged fields of
/// every byte range that could be reassembled from them.
pub struct ManifestFile {
    pub blocks: Vec<Block>,
    pub entries: Vec<ManifestEntrySet>,
}

/// The entry sets contributed by one completed byte range.
pub open spec fn spec_emitted_sets(done: Option<(Seq<u8>, u64)>) -> Seq<ManifestEntrySetModel> {
    match done {
        Some((payload, off)) => seq![
            ManifestEntrySetModel { entries: spec_manifest_entries(payload, 0), offset: off },
        ],
        None => Seq::empty(),
    }
}

/// The blocks and entry sets of the physical block stream from `pos` on,
/// with reassembly state `acc`.
pub open spec fn spec_manifest_fold(data: Seq<u8>, pos: int, acc: Assembly) -> (
    Seq<BlockModel>,
    Seq<ManifestEntrySetModel>,
)
    decreases data.len() - pos,
        when 0 <= pos
        via spec_manifest_fold_dec
{
    match spec_read_block_at(data, pos) {
        None => (Seq::empty(), Seq::empty()),
        Some((b, next)) => {
            let step = spec_assembly_step(acc, b);
            let rest = spec_manifest_fold(data, next, step.0);
            (seq![b] + rest.0, spec_emitted_sets(step.1) + rest.1)
        },
    }
}

#[via_fn]
proof fn spec_manifest_fold_dec(data: Seq<u8>, pos: int, acc: Assembly) {
    lemma_read_block_advances(data, pos);
}

/// The blocks and entry sets of a whole manifest file.
pub open spec fn spec_parse_manifest(data: Seq<u8>) -> (
    Seq<BlockModel>,
    Seq<ManifestEntrySetModel>,
) {
    spec_manifest_fold(data, 0, spec_assembly_init())
}

/// Apply one physical block to the reassembly state, emitting into `sets`
/// the entry set of whatever byte range it completes.
fn apply_manifest_block(
    block: &Block,
    sets: &mut Vec<ManifestEntrySet>,
    partial: &mut Vec<u8>,
    started: &mut bool,
    first_offset: &mut u64,
)
    ensures
        ({
            let acc0 = Assembly {
                started: *old(started),
                buf: old(partial)@,
                first_offset: *old(first_offset),
            };
            let step = spec_assembly_step(acc0, block@);
            &&& Assembly {
                started: *final(started),
                buf: final(partial)@,
                first_offset: *final(first_offset),
            } == step.0
            &&& final(sets)@.map_values(|s: ManifestEntrySet| s@) == old(sets)@.map_values(
                |s: ManifestEntrySet| s@,
            ) + spec_emitted_sets(step.1)
        }),
{
    let ghost sets_map0 = sets@.map_values(|s: ManifestEntrySet| s@);
    let ghost acc0 = Assembly { started: *started, buf: partial@, first_offset: *first_offset };
    let ghost step = spec_assembly_step(acc0, block@);

    if block.block_type == 1 {
        // Full block: a complete byte range on its own.
        assert(step.1 == Some((block.data@, block.offset)));
        assert(partial@ == step.0.buf);
        let set = parse_entries(block.data.as_slice(), block.offset);
        proof {
            assert(spec_emitted_sets(step.1) == seq![set@]);
            utils::lemma_map_values_push(sets@, |s: ManifestEntrySet| s@, set);
            utils::lemma_seq_push_concat(sets_map0, set@);
        }
        sets.push(set);
    } else if block.block_type == 2 {
        // First block: open a byte range anchored at this offset.
        *first_offset = block.offset;
        partial.clear();
        partial.extend_from_slice(block.data.as_slice());
        *started = true;
        proof {
            utils::lemma_seq_empty_concat(block.data@);
            utils::lemma_seq_concat_empty(sets_map0);
            assert(partial@ == block.data@);
            assert(partial@ == step.0.buf);
        }
    } else if block.block_type == 3 {
        // Middle block: extend a byte range in progress; orphans are ignored.
        if *started {
            partial.extend_from_slice(block.data.as_slice());
        }
        proof {
            utils::lemma_seq_concat_empty(sets_map0);
            assert(partial@ == step.0.buf);
        }
    } else if block.block_type == 4 {
        // Last block: complete the byte range in progress; orphans are ignored.
        if *started {
            partial.extend_from_slice(block.data.as_slice());
            assert(step.1 == Some((acc0.buf + block.data@, acc0.first_offset)));
            assert(partial@ == acc0.buf + block.data@);
            let set = parse_entries(partial.as_slice(), *first_offset);
            proof {
                assert(spec_emitted_sets(step.1) == seq![set@]);
                utils::lemma_map_values_push(sets@, |s: ManifestEntrySet| s@, set);
                utils::lemma_seq_push_concat(sets_map0, set@);
            }
            sets.push(set);
            partial.clear();
            *started = false;
            assert(partial@ == step.0.buf);
        } else {
            proof {
                utils::lemma_seq_concat_empty(sets_map0);
                assert(partial@ == step.0.buf);
            }
        }
    } else {
        // Zero block or unknown type: padding, no payload.
        proof {
            utils::lemma_seq_concat_empty(sets_map0);
            assert(partial@ == step.0.buf);
        }
    }
}

/// Decode a manifest file: collect every physical block and the tagged
/// fields of every reassembled byte range (see `spec_parse_manifest`).
#[verifier::loop_isolation(false)]
#[verifier::rlimit(100)]
pub fn parse_manifest(data: &[u8]) -> (r: ManifestFile)
    ensures
        r.blocks@.map_values(|b: Block| b@) == spec_parse_manifest(data@).0,
        r.entries@.map_values(|s: ManifestEntrySet| s@) == spec_parse_manifest(data@).1,
{
    let mut blocks: Vec<Block> = Vec::new();
    let mut sets: Vec<ManifestEntrySet> = Vec::new();
    let mut pos: usize = 0;
    let mut partial: Vec<u8> = Vec::new();
    let mut started: bool = false;
    let mut first_offset: u64 = 0;

    loop
        invariant
            pos <= data@.len(),
            ({
                let acc = Assembly { started: started, buf: partial@, first_offset: first_offset };
                let rest = spec_manifest_fold(data@, pos as int, acc);
                &&& spec_parse_manifest(data@).0 == blocks@.map_values(|b: Block| b@) + rest.0
                &&& spec_parse_manifest(data@).1 == sets@.map_values(|s: ManifestEntrySet| s@)
                    + rest.1
            }),
        decreases data@.len() - pos,
    {
        let ghost acc0 = Assembly { started: started, buf: partial@, first_offset: first_offset };
        let ghost pos0 = pos as int;
        let ghost blocks_map0 = blocks@.map_values(|b: Block| b@);
        let ghost sets_map0 = sets@.map_values(|s: ManifestEntrySet| s@);

        let block = match log_parser::read_block(data, &mut pos) {
            Some(b) => b,
            None => {
                proof {
                    utils::lemma_seq_concat_empty(blocks_map0);
                    utils::lemma_seq_concat_empty(sets_map0);
                }
                return ManifestFile { blocks, entries: sets };
            },
        };

        let ghost bm = block@;
        let ghost acc1 = spec_assembly_step(acc0, bm).0;
        let ghost emitted = spec_emitted_sets(spec_assembly_step(acc0, bm).1);

        apply_manifest_block(&block, &mut sets, &mut partial, &mut started, &mut first_offset);

        let ghost blocks_map1 = blocks@.map_values(|b: Block| b@);
        proof {
            utils::lemma_map_values_push(blocks@, |b: Block| b@, block);
            utils::lemma_seq_push_concat(blocks_map1, bm);
        }
        blocks.push(block);

        proof {
            let rest = spec_manifest_fold(data@, pos as int, acc1);
            assert(spec_manifest_fold(data@, pos0, acc0).0 == seq![bm] + rest.0);
            assert(spec_manifest_fold(data@, pos0, acc0).1 == emitted + rest.1);
            utils::lemma_seq_concat_assoc(blocks_map1, seq![bm], rest.0);
            utils::lemma_seq_concat_assoc(sets_map0, emitted, rest.1);
        }
    }
}

/// The tag column shown for a version-edit field.
pub open spec fn spec_manifest_tag_text(e: ManifestEntryModel) -> Seq<char> {
    match e {
        ManifestEntryModel::Comparator(v) => ("Comparator")@,
        ManifestEntryModel::LogNumber(n) => ("LogNumber")@,
        ManifestEntryModel::NextFileNumber(n) => ("NextFileNumber")@,
        ManifestEntryModel::LastSeq(n) => ("LastSeq")@,
        ManifestEntryModel::CompactPointer { .. } => ("CompactPointer")@,
        ManifestEntryModel::RemoveFile { .. } => ("RemoveFile")@,
        ManifestEntryModel::AddFile { .. } => ("AddFile")@,
        ManifestEntryModel::PrevLogNumber(n) => ("PrevLogNumber")@,
        ManifestEntryModel::Unknown(t) => ("Unknown")@,
    }
}

/// The value column shown for a version-edit field: byte strings are
/// rendered as Latin-1 with escapes, numbers in decimal, and the compound
/// fields with their levels, file numbers, sizes and key ranges spelled
/// out; an unknown tag shows its tag byte as two hex digits.
pub open spec fn spec_manifest_value_text(e: ManifestEntryModel) -> Seq<char> {
    match e {
        ManifestEntryModel::Comparator(v) => crate::decoder::spec_bytes_to_latin1_hex_escaped(v),
        ManifestEntryModel::LogNumber(n) => crate::decoder::spec_dec_digits(n as int),
        ManifestEntryModel::NextFileNumber(n) => crate::decoder::spec_dec_digits(n as int),
        ManifestEntryModel::LastSeq(n) => crate::decoder::spec_dec_digits(n as int),
        ManifestEntryModel::CompactPointer { level, key, seq, state } => {
            ("Level: ")@ + crate::decoder::spec_dec_digits(level as int) + (", Key: ")@
                + crate::decoder::spec_bytes_to_latin1_hex_escaped(key) + (" @ ")@
                + crate::decoder::spec_dec_digits(seq as int) + (" : ")@
                + crate::decoder::spec_dec_digits(state as int)
        },
        ManifestEntryModel::RemoveFile { level, file_no } => {
            ("Level: ")@ + crate::decoder::spec_dec_digits(level as int) + (", No.: ")@
                + crate::decoder::spec_dec_digits(file_no as int)
        },
        ManifestEntryModel::AddFile {
            level,
            file_no,
            file_size,
            sm_key,
            sm_seq,
            sm_state,
            lg_key,
            lg_seq,
            lg_state,
        } => {
            ("Level: ")@ + crate::decoder::spec_dec_digits(level as int) + (", No.: ")@
                + crate::decoder::spec_dec_digits(file_no as int) + (", Size: ")@
                + crate::decoder::spec_dec_digits(file_size as int) + (" Bytes, Key-Range: '")@
                + crate::decoder::spec_bytes_to_latin1_hex_escaped(sm_key) + ("' @ ")@
                + crate::decoder::spec_dec_digits(sm_seq as int) + (" : ")@
                + crate::decoder::spec_dec_digits(sm_state as int) + (" .. '")@
                + crate::decoder::spec_bytes_to_latin1_hex_escaped(lg_key) + ("' @ ")@
                + crate::decoder::spec_dec_digits(lg_seq as int) + (" : ")@
                + crate::decoder::spec_dec_digits(lg_state as int)
        },
        ManifestEntryModel::PrevLogNumber(n) => crate::decoder::spec_dec_digits(n as int),
        ManifestEntryModel::Unknown(t) => seq![
            crate::decoder::spec_hex_digit(t >> 4),
            crate::decoder::spec_hex_digit(t & 0x0f),
        ],
    }
}

/// Render one version-edit field as its tag and value columns (see
/// `spec_manifest_tag_text` and `spec_manifest_value_text`).
pub fn manifest_entry_text(e: &ManifestEntry) -> (r: (String, String))
    ensures
        r.0@ == spec_manifest_tag_text(e@),
        r.1@ == spec_manifest_value_text(e@),
{
    match e {
        ManifestEntry::Comparator(v) => {
            let tag = foreign_string("Comparator");
            (tag, crate::decoder::bytes_to_latin1_hex_escaped(v.as_slice()))
        },
        ManifestEntry::LogNumber(n) => {
            (foreign_string("LogNumber"), dec_string(*n))
        },
        ManifestEntry::NextFileNumber(n) => {
            (foreign_string("NextFileNumber"), dec_string(*n))
        },
        ManifestEntry::LastSeq(n) => {
            (foreign_string("LastSeq"), dec_string(*n))
        },
        ManifestEntry::CompactPointer { level, key, seq, state } => {
            let mut out: Vec<char> = Vec::new();
            crate::csv::push_lit(&mut out, "Level: ");
            crate::decoder::push_dec_u64(&mut out, *level);
            crate::csv::push_lit(&mut out, ", Key: ");
            let ktxt = crate::decoder::bytes_to_latin1_hex_escaped(key.as_slice());
            crate::csv::push_chars(&mut out, crate::foreign::str_chars(ktxt.as_str()).as_slice());
            crate::csv::push_lit(&mut out, " @ ");
            crate::decoder::push_dec_u64(&mut out, *seq);
            crate::csv::push_lit(&mut out, " : ");
            crate::decoder::push_dec_u64(&mut out, *state as u64);
            (foreign_string("CompactPointer"), crate::foreign::chars_to_string(&out))
        },
        ManifestEntry::RemoveFile { level, file_no } => {
            let mut out: Vec<char> = Vec::new();
            crate::csv::push_lit(&mut out, "Level: ");
            crate::decoder::push_dec_u64(&mut out, *level);
            crate::csv::push_lit(&mut out, ", No.: ");
            crate::decoder::push_dec_u64(&mut out, *file_no);
            (foreign_string("RemoveFile"), crate::foreign::chars_to_string(&out))
        },
        ManifestEntry::AddFile {
            level,
            file_no,
            file_size,
            sm_key,
            sm_seq,
            sm_state,
            lg_key,
            lg_seq,
            lg_state,
        } => {
            let mut out: Vec<char> = Vec::new();
            crate::csv::push_lit(&mut out, "Level: ");
            crate::decoder::push_dec_u64(&mut out, *level);
            crate::csv::push_lit(&mut out, ", No.: ");
            crate::decoder::push_dec_u64(&mut out, *file_no);
            crate::csv::push_lit(&mut out, ", Size: ");
            crate::decoder::push_dec_u64(&mut out, *file_size);
            crate::csv::push_lit(&mut out, " Bytes, Key-Range: '");
            let sm_txt = crate::decoder::bytes_to_latin1_hex_escaped(sm_key.as_slice());
            crate::csv::push_chars(&mut out, crate::foreign::str_chars(sm_txt.as_str()).as_slice());
            crate::csv::push_lit(&mut out, "' @ ");
            crate::decoder::push_dec_u64(&mut out, *sm_seq);
            crate::csv::push_lit(&mut out, " : ");
            crate::decoder::push_dec_u64(&mut out, *sm_state as u64);
            crate::csv::push_lit(&mut out, " .. '");
            let lg_txt = crate::decoder::bytes_to_latin1_hex_escaped(lg_key.as_slice());
            crate::csv::push_chars(&mut out, crate::foreign::str_chars(lg_txt.as_str()).as_slice());
            crate::csv::push_lit(&mut out, "' @ ");
            crate::decoder::push_dec_u64(&mut out, *lg_seq);
            crate::csv::push_lit(&mut out, " : ");
            crate::decoder::push_dec_u64(&mut out, *lg_state as u64);
            (foreign_string("AddFile"), crate::foreign::chars_to_string(&out))
        },
        ManifestEntry::PrevLogNumber(n) => {
            (foreign_string("PrevLogNumber"), dec_string(*n))
        },
        ManifestEntry::Unknown(t) => {
            let mut out: Vec<char> = Vec::new();
            let tv: u8 = *t;
            let hi = tv >> 4;
            let lo = tv & 0x0f;
            proof {
                assert((tv >> 4) < 16 && (tv & 0x0f) < 16) by (bit_vector);
            }
            if hi < 10 {
                out.push((0x30 + hi) as char);
            } else {
                out.push((0x41 + (hi - 10)) as char);
            }
            if lo < 10 {
                out.push((0x30 + lo) as char);
            } else {
                out.push((0x41 + (lo - 10)) as char);
            }
            assert(out@ =~= spec_manifest_value_text(e@));
            (foreign_string("Unknown"), crate::foreign::chars_to_string(&out))
        },
    }
}

/// A literal as an owned string.
fn foreign_string(s: &str) -> (r: String)
    ensures
        r@ == s@,
{
    let chars = crate::foreign::str_chars(s);
    crate::foreign::chars_to_string(&chars)
}

/// A number's decimal text as an owned string.
fn dec_string(n: u64) -> (r: String)
    ensures
        r@ == crate::decoder::spec_dec_digits(n as int),
{
    let chars = crate::decoder::u64_to_dec(n);
    crate::foreign::chars_to_string(&chars)
}

/// The checksum status shown for an entry set: that of the first block at
/// the set's offset, or `failed!` when no block sits there.
pub open spec fn spec_set_crc_status(blocks: Seq<BlockModel>, off: u64, i: int) -> Seq<char>
    decreases blocks.len() - i,
{
    if i < 0 || i >= blocks.len() {
        ("failed!")@
    } else if blocks[i].offset == off as int {
        if blocks[i].crc_valid {
            ("valid")@
        } else {
            ("failed!")@
        }
    } else {
        spec_set_crc_status(blocks, off, i + 1)
    }
}

/// The checksum status of the block at `off` (see `spec_set_crc_status`).
#[verifier::loop_isolation(false)]
fn set_crc_status(blocks: &Vec<Block>, off: u64) -> (r: Vec<char>)
    ensures
        r@ == spec_set_crc_status(blocks@.map_values(|b: Block| b@), off, 0),
{
    let ghost bm = blocks@.map_values(|b: Block| b@);
    let mut i: usize = 0;
    loop
        invariant
            i <= blocks@.len(),
            bm == blocks@.map_values(|b: Block| b@),
            spec_set_crc_status(bm, off, 0) == spec_set_crc_status(bm, off, i as int),
        decreases blocks@.len() - i,
    {
        if i >= blocks.len() {
            return crate::foreign::str_chars("failed!");
        }
        if blocks[i].offset == off {
            if blocks[i].crc_valid {
                return crate::foreign::str_chars("valid");
            } else {
                return crate::foreign::str_chars("failed!");
            }
        }
        i = i + 1;
    }
}

/// One CSV row of a version-edit field: tag, value (escaped), checksum
/// status, block offset, and file name.
pub open spec fn spec_manifest_row(
    e: ManifestEntryModel,
    crc_status: Seq<char>,
    offset: u64,
    filename: Seq<char>,
) -> Seq<char> {
    crate::csv::spec_quoted(spec_manifest_tag_text(e)) + seq![','] + crate::csv::spec_quoted(
        crate::csv::spec_csv_escape(spec_manifest_value_text(e)),
    ) + seq![','] + crate::csv::spec_quoted(crc_status) + seq![','] + crate::csv::spec_quoted(
        crate::decoder::spec_dec_digits(offset as int),
    ) + seq![','] + crate::csv::spec_quoted(filename) + seq!['\n']
}

/// The CSV rows of one entry set's fields from `i` on.
pub open spec fn spec_manifest_set_rows(
    entries: Seq<ManifestEntryModel>,
    i: int,
    crc_status: Seq<char>,
    offset: u64,
    filename: Seq<char>,
) -> Seq<char>
    decreases entries.len() - i,
{
    if i < 0 || i >= entries.len() {
        Seq::empty()
    } else {
        spec_manifest_row(entries[i], crc_status, offset, filename) + spec_manifest_set_rows(
            entries,
            i + 1,
            crc_status,
            offset,
            filename,
        )
    }
}

/// The CSV rows of the entry sets from `i` on.
pub open spec fn spec_manifest_rows(
    sets: Seq<ManifestEntrySetModel>,
    i: int,
    blocks: Seq<BlockModel>,
    filename: Seq<char>,
) -> Seq<char>
    decreases sets.len() - i,
{
    if i < 0 || i >= sets.len() {
        Seq::empty()
    } else {
        let s = sets[i];
        spec_manifest_set_rows(
            s.entries,
            0,
            spec_set_crc_status(blocks, s.offset, 0),
            s.offset,
            filename,
        ) + spec_manifest_rows(sets, i + 1, blocks, filename)
    }
}

/// The CSV text of a manifest file: a fixed header, then one row per
/// decoded field.
pub open spec fn spec_manifest_csv(
    blocks: Seq<BlockModel>,
    sets: Seq<ManifestEntrySetModel>,
    filename: Seq<char>,
) -> Seq<char> {
    ("\"Tag\",\"TagValue\",\"CRC\",\"BlockOffset\",\"File\"\n")@ + spec_manifest_rows(
        sets,
        0,
        blocks,
        filename,
    )
}

/// Append one CSV row of a version-edit field (see `spec_manifest_row`).
fn push_manifest_row(
    out: &mut Vec<char>,
    e: &ManifestEntry,
    crc_status: &Vec<char>,
    offset: u64,
    filename: &Vec<char>,
)
    ensures
        final(out)@ == old(out)@ + spec_manifest_row(e@, crc_status@, offset, filename@),
{
    let ghost out0 = out@;
    let (tag, value) = manifest_entry_text(e);

    crate::csv::push_quoted_raw(out, crate::foreign::str_chars(tag.as_str()).as_slice());
    out.push(',');
    crate::csv::push_quoted_escaped(out, crate::foreign::str_chars(value.as_str()).as_slice());
    out.push(',');
    crate::csv::push_quoted_raw(out, crc_status.as_slice());
    out.push(',');
    crate::csv::push_quoted_u64(out, offset);
    out.push(',');
    crate::csv::push_quoted_raw(out, filename.as_slice());
    out.push('\n');

    proof {
        assert(out@ =~= out0 + spec_manifest_row(e@, crc_status@, offset, filename@));
    }
}

/// Render a manifest file as CSV (see `spec_manifest_csv`).
#[verifier::loop_isolation(false)]
#[verifier::rlimit(100)]
pub fn csv_string(manifest: &ManifestFile, filename: &str) -> (r: String)
    ensures
        r@ == spec_manifest_csv(
            manifest.blocks@.map_values(|b: Block| b@),
            manifest.entries@.map_values(|s: ManifestEntrySet| s@),
            filename@,
        ),
{
    let ghost bm = manifest.blocks@.map_values(|b: Block| b@);
    let ghost sm = manifest.entries@.map_values(|s: ManifestEntrySet| s@);
    let fname = crate::foreign::str_chars(filename);

    let mut out: Vec<char> = Vec::new();
    crate::csv::push_lit(&mut out, "\"Tag\",\"TagValue\",\"CRC\",\"BlockOffset\",\"File\"\n");
    proof {
        utils::lemma_seq_empty_concat(("\"Tag\",\"TagValue\",\"CRC\",\"BlockOffset\",\"File\"\n")@);
    }

    let mut i: usize = 0;
    loop
        invariant
            i <= manifest.entries@.len(),
            bm == manifest.blocks@.map_values(|b: Block| b@),
            sm == manifest.entries@.map_values(|s: ManifestEntrySet| s@),
            fname@ == filename@,
            spec_manifest_csv(bm, sm, filename@) == out@ + spec_manifest_rows(
                sm,
                i as int,
                bm,
                filename@,
            ),
        decreases manifest.entries@.len() - i,
    {
        let ghost out0 = out@;
        if i >= manifest.entries.len() {
            proof {
                utils::lemma_seq_concat_empty(out@);
            }
            return crate::foreign::chars_to_string(&out);
        }

        let set = &manifest.entries[i];
        let crc_status = set_crc_status(&manifest.blocks, set.offset);
        let ghost ents = sm[i as int].entries;
        assert(ents == set.entries@.map_values(|e: ManifestEntry| e@));

        let mut j: usize = 0;
        loop
            invariant
                j <= set.entries@.len(),
                i < manifest.entries@.len(),
                set == &manifest.entries[i as int],
                ents == set.entries@.map_values(|e: ManifestEntry| e@),
                crc_status@ == spec_set_crc_status(bm, set.offset, 0),
                out0 + spec_manifest_set_rows(ents, 0, crc_status@, set.offset, filename@) == out@
                    + spec_manifest_set_rows(ents, j as int, crc_status@, set.offset, filename@),
            decreases set.entries@.len() - j,
        {
            if j >= set.entries.len() {
                break ;
            }
            let ghost out_j = out@;
            push_manifest_row(&mut out, &set.entries[j], &crc_status, set.offset, &fname);
            proof {
                assert(set.entries@[j as int]@ == ents[j as int]);
                utils::lemma_seq_concat_assoc(
                    out_j,
                    spec_manifest_row(ents[j as int], crc_status@, set.offset, filename@),
                    spec_manifest_set_rows(
                        ents,
                        j as int + 1,
                        crc_status@,
                        set.offset,
                        filename@,
                    ),
                );
            }
            j = j + 1;
        }

        proof {
            let srows = spec_manifest_set_rows(ents, 0, crc_status@, set.offset, filename@);
            utils::lemma_seq_concat_empty(out@);
            assert(out@ == out0 + srows);
            utils::lemma_seq_concat_assoc(
                out0,
                srows,
                spec_manifest_rows(sm, i as int + 1, bm, filename@),
            );
        }
        i = i + 1;
    }
}

} // verus!
