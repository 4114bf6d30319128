//! The byte-level reader of a coverage-notes file: a fixed header, then
//! records of `tag(u32) length(u32) payload[length]`, all little-endian.

use crate::gcno::{
    spec_str_trim, str_trim, Arc, Arcs, ArcsV, Blocks, BlocksV, Function, FunctionV, Gcno, GcnoV,
    Lines, LinesV, Source, SourceV,
};
use crate::packet::TraceError;
use crate::tag::{
    ARCS_TAG, BLOCKS_TAG, COUNTER_BASE_TAG, FUNCTION_TAG, LINES_TAG, OBJECT_SUMMARY_TAG,
    PROGRAM_SUMMARY_TAG,
};
use vstd::prelude::*;

verus! {

/// The magic word that opens a notes file.
pub const GCNO_MAGIC: u32 = 0x67636e6f;

/// The little-endian 32-bit value at `pos`. Meaningful only when all four
/// bytes are inside the sequence.
pub open spec fn le32(bs: Seq<u8>, pos: int) -> u32 {
    (bs[pos] + bs[pos + 1] * 0x100 + bs[pos + 2] * 0x10000 + bs[pos + 3] * 0x1000000) as u32
}

/// Read a little-endian u32, advancing `pos` past it.
pub fn read_u32_from_slice(bytes: &Vec<u8>, pos: &mut usize) -> (r: Result<u32, TraceError>)
    requires
        *old(pos) <= bytes@.len(),
    ensures
        if *old(pos) + 4 <= bytes@.len() {
            r == Ok::<u32, TraceError>(le32(bytes@, *old(pos) as int)) && *final(pos) == *old(pos)
                + 4
        } else {
            r == Err::<u32, TraceError>(TraceError::EndOfStream) && *final(pos) == *old(pos)
        },
{
    if bytes.len() - *pos < 4 {
        return Err(TraceError::EndOfStream);
    }
    let b0 = bytes[*pos] as u32;
    let b1 = bytes[*pos + 1] as u32;
    let b2 = bytes[*pos + 2] as u32;
    let b3 = bytes[*pos + 3] as u32;
    *pos = *pos + 4;
    Ok(b0 + b1 * 0x100 + b2 * 0x10000 + b3 * 0x1000000)
}

/// Copy `bytes[start..end]` into a fresh vector.
#[verifier::loop_isolation(false)]
pub fn copy_range(bytes: &Vec<u8>, start: usize, end: usize) -> (r: Vec<u8>)
    requires
        start <= end <= bytes@.len(),
    ensures
        r@ == bytes@.subrange(start as int, end as int),
{
    let mut out: Vec<u8> = Vec::new();
    let mut i = start;
    while i < end
        invariant
            start <= i <= end,
            out@ =~= bytes@.subrange(start as int, i as int),
        decreases end - i,
    {
        out.push(bytes[i]);
        i = i + 1;
        proof {
            assert(out@ =~= bytes@.subrange(start as int, i as int));
        }
    }
    out
}

/// Relies on std's `String::from_utf8`: it succeeds exactly on valid
/// UTF-8 and returns the decoded characters.
#[verifier::external_body]
fn string_from_utf8(bytes: Vec<u8>) -> (r: Option<String>)
    ensures
        match r {
            Some(s) => vstd::utf8::valid_utf8(bytes@) && s@ == vstd::utf8::decode_utf8(bytes@),
            None => !vstd::utf8::valid_utf8(bytes@),
        },
{
    String::from_utf8(bytes).ok()
}

/// Parse a record string at `pos`: a byte length, then that many bytes of
/// UTF-8, trimmed at the first NUL.
pub open spec fn spec_read_string(bs: Seq<u8>, pos: int) -> Result<(Seq<char>, int), TraceError> {
    if pos + 4 > bs.len() {
        Err(TraceError::EndOfStream)
    } else {
        let l = le32(bs, pos) as int;
        if pos + 4 + l > bs.len() {
            Err(TraceError::EndOfStream)
        } else if !vstd::utf8::valid_utf8(bs.subrange(pos + 4, pos + 4 + l)) {
            Err(TraceError::Format)
        } else {
            Ok(
                (
                    spec_str_trim(vstd::utf8::decode_utf8(bs.subrange(pos + 4, pos + 4 + l))),
                    pos + 4 + l,
                ),
            )
        }
    }
}

/// Read a length-prefixed string, advancing `pos` past it.
pub fn read_string_from_slice(bytes: &Vec<u8>, pos: &mut usize) -> (r: Result<String, TraceError>)
    requires
        *old(pos) <= bytes@.len(),
    ensures
        match spec_read_string(bytes@, *old(pos) as int) {
            Ok((s, end)) => r is Ok && r->Ok_0@ == s && *final(pos) == end && *old(pos) < end
                <= bytes@.len(),
            Err(e) => r is Err && r->Err_0 == e,
        },
{
    let length = match read_u32_from_slice(bytes, pos) {
        Ok(v) => v,
        Err(e) => { return Err(e) },
    };
    if ((bytes.len() - *pos) as u64) < (length as u64) {
        return Err(TraceError::EndOfStream);
    }
    let l = length as usize;
    let buf = copy_range(bytes, *pos, *pos + l);
    *pos = *pos + l;
    match string_from_utf8(buf) {
        Some(s) => Ok(str_trim(s)),
        None => Err(TraceError::Format),
    }
}

/// Is the tag one the format knows?
pub open spec fn spec_known_tag(tag: u32) -> bool {
    ||| tag == FUNCTION_TAG
    ||| tag == BLOCKS_TAG
    ||| tag == ARCS_TAG
    ||| tag == LINES_TAG
    ||| tag == COUNTER_BASE_TAG
    ||| tag == OBJECT_SUMMARY_TAG
    ||| tag == PROGRAM_SUMMARY_TAG
}

/// Parse one record at `pos`: tag, payload length, payload bytes. An
/// unknown tag is a format error; a truncated record is end-of-stream.
pub open spec fn spec_read_record(bs: Seq<u8>, pos: int) -> Result<
    (u32, u32, Seq<u8>, int),
    TraceError,
> {
    if pos + 8 > bs.len() {
        Err(TraceError::EndOfStream)
    } else {
        let tag = le32(bs, pos);
        let length = le32(bs, pos + 4);
        if !spec_known_tag(tag) {
            Err(TraceError::Format)
        } else if pos + 8 + length > bs.len() {
            Err(TraceError::EndOfStream)
        } else {
            Ok((tag, length, bs.subrange(pos + 8, pos + 8 + length), pos + 8 + length))
        }
    }
}

/// Read one record, advancing `pos` past it on success.
pub fn read_record(bytes: &Vec<u8>, pos: &mut usize) -> (r: Result<(u32, u32, Vec<u8>), TraceError>)
    requires
        *old(pos) <= bytes@.len(),
    ensures
        match spec_read_record(bytes@, *old(pos) as int) {
            Ok((tag, length, data, end)) => r is Ok && r->Ok_0.0 == tag && r->Ok_0.1 == length
                && r->Ok_0.2@ == data && *final(pos) == end && *old(pos) < end <= bytes@.len(),
            Err(e) => r is Err && r->Err_0 == e && *final(pos) == *old(pos),
        },
{
    let start = *pos;
    let tag = match read_u32_from_slice(bytes, pos) {
        Ok(v) => v,
        Err(e) => { return Err(e) },
    };
    let length = match read_u32_from_slice(bytes, pos) {
        Ok(v) => v,
        Err(e) => {
            *pos = start;
            return Err(e);
        },
    };
    let known = tag == FUNCTION_TAG || tag == BLOCKS_TAG || tag == ARCS_TAG || tag == LINES_TAG
        || tag == COUNTER_BASE_TAG || tag == OBJECT_SUMMARY_TAG || tag == PROGRAM_SUMMARY_TAG;
    if !known {
        *pos = start;
        return Err(TraceError::Format);
    }
    if ((bytes.len() - *pos) as u64) < (length as u64) {
        *pos = start;
        return Err(TraceError::EndOfStream);
    }
    let l = length as usize;
    let data = copy_range(bytes, *pos, *pos + l);
    *pos = *pos + l;
    Ok((tag, length, data))
}

/// Parse a function record: three checksum words, the name, a skipped
/// word, the source file, and the four corners of the source span.
pub open spec fn spec_parse_function(d: Seq<u8>) -> Result<FunctionV, TraceError> {
    if 12 > d.len() {
        Err(TraceError::EndOfStream)
    } else {
        match spec_read_string(d, 12) {
            Err(e) => Err(e),
            Ok((name, p1)) => {
                if p1 + 4 > d.len() {
                    Err(TraceError::EndOfStream)
                } else {
                    match spec_read_string(d, p1 + 4) {
                        Err(e) => Err(e),
                        Ok((source, p2)) => {
                            if p2 + 16 > d.len() {
                                Err(TraceError::EndOfStream)
                            } else {
                                Ok(
                                    FunctionV {
                                        identifier: le32(d, 0),
                                        lineno_checksum: le32(d, 4),
                                        cfg_checksum: le32(d, 8),
                                        name,
                                        source,
                                        start_lineno: le32(d, p2),
                                        start_colno: le32(d, p2 + 4),
                                        end_lineno: le32(d, p2 + 8),
                                        end_colno: le32(d, p2 + 12),
                                        blocks: None,
                                    },
                                )
                            }
                        },
                    }
                }
            },
        }
    }
}

/// Parse a function record from its payload.
pub fn parse_function(data: &Vec<u8>) -> (r: Result<Function, TraceError>)
    ensures
        match spec_parse_function(data@) {
            Ok(fv) => r is Ok && r->Ok_0@ == fv,
            Err(e) => r is Err && r->Err_0 == e,
        },
{
    let mut pos: usize = 0;
    let identifier = match read_u32_from_slice(data, &mut pos) {
        Ok(v) => v,
        Err(e) => { return Err(e) },
    };
    let lineno_checksum = match read_u32_from_slice(data, &mut pos) {
        Ok(v) => v,
        Err(e) => { return Err(e) },
    };
    let cfg_checksum = match read_u32_from_slice(data, &mut pos) {
        Ok(v) => v,
        Err(e) => { return Err(e) },
    };
    let name = match read_string_from_slice(data, &mut pos) {
        Ok(v) => v,
        Err(e) => { return Err(e) },
    };
    match read_u32_from_slice(data, &mut pos) {
        Ok(_) => (),
        Err(e) => { return Err(e) },
    };
    let source = match read_string_from_slice(data, &mut pos) {
        Ok(v) => v,
        Err(e) => { return Err(e) },
    };
    let start_lineno = match read_u32_from_slice(data, &mut pos) {
        Ok(v) => v,
        Err(e) => { return Err(e) },
    };
    let start_colno = match read_u32_from_slice(data, &mut pos) {
        Ok(v) => v,
        Err(e) => { return Err(e) },
    };
    let end_lineno = match read_u32_from_slice(data, &mut pos) {
        Ok(v) => v,
        Err(e) => { return Err(e) },
    };
    let end_colno = match read_u32_from_slice(data, &mut pos) {
        Ok(v) => v,
        Err(e) => { return Err(e) },
    };
    Ok(
        Function::new(
            identifier,
            lineno_checksum,
            cfg_checksum,
            name,
            source,
            start_lineno,
            start_colno,
            end_lineno,
            end_colno,
        ),
    )
}

/// Parse a blocks record: exactly one word, the number of blocks.
pub open spec fn spec_parse_blocks(d: Seq<u8>) -> Result<u32, TraceError> {
    if d.len() != 4 {
        Err(TraceError::Format)
    } else {
        Ok(le32(d, 0))
    }
}

/// Parse a blocks record from its payload.
pub fn parse_blocks(data: &Vec<u8>) -> (r: Result<Blocks, TraceError>)
    ensures
        match spec_parse_blocks(data@) {
            Ok(n) => r is Ok && r->Ok_0@ == (BlocksV {
                num_blocks: n,
                arcs: Seq::empty(),
                lines: Seq::empty(),
            }),
            Err(e) => r is Err && r->Err_0 == e,
        },
{
    if data.len() != 4 {
        return Err(TraceError::Format);
    }
    let mut pos: usize = 0;
    let num_blocks = match read_u32_from_slice(data, &mut pos) {
        Ok(v) => v,
        Err(e) => { return Err(e) },
    };
    Ok(Blocks::new(num_blocks))
}

/// Parse an arcs record: the source block, then `(length - 4) / 8` pairs
/// of destination block and flags.
pub open spec fn spec_parse_arcs(d: Seq<u8>) -> Result<ArcsV, TraceError> {
    if d.len() % 8 != 4 {
        Err(TraceError::Format)
    } else {
        let n = (d.len() - 4) / 8;
        Ok(
            ArcsV {
                num_arcs: n as u32,
                src_block: le32(d, 0),
                arcs: Seq::new(
                    n as nat,
                    |i: int|
                        Arc {
                            src_block: le32(d, 0),
                            dst_block: le32(d, 4 + 8 * i),
                            flags: le32(d, 8 + 8 * i),
                        },
                ),
            },
        )
    }
}

/// Parse an arcs record from its payload.
#[verifier::loop_isolation(false)]
pub fn parse_arcs(data: &Vec<u8>) -> (r: Result<Arcs, TraceError>)
    requires
        data@.len() < 0x100000000,
    ensures
        match spec_parse_arcs(data@) {
            Ok(av) => r is Ok && r->Ok_0@ == av,
            Err(e) => r is Err && r->Err_0 == e,
        },
{
    if data.len() % 8 != 4 {
        return Err(TraceError::Format);
    }
    let mut pos: usize = 0;
    let src_block = match read_u32_from_slice(data, &mut pos) {
        Ok(v) => v,
        Err(e) => { return Err(e) },
    };
    let num_arcs = ((data.len() - 4) / 8) as u32;
    let ghost av = spec_parse_arcs(data@)->Ok_0;
    let mut arcs: Vec<Arc> = Vec::new();
    let mut k: usize = 0;
    while k < num_arcs as usize
        invariant
            0 <= k <= av.arcs.len(),
            pos == 4 + 8 * k,
            arcs@.len() == k,
            forall|j: int| 0 <= j < k ==> arcs@[j] == av.arcs[j],
        decreases num_arcs as usize - k,
    {
        let dst_block = match read_u32_from_slice(data, &mut pos) {
            Ok(v) => v,
            Err(e) => { return Err(e) },
        };
        let flags = match read_u32_from_slice(data, &mut pos) {
            Ok(v) => v,
            Err(e) => { return Err(e) },
        };
        arcs.push(Arc { src_block, dst_block, flags });
        k = k + 1;
    }
    proof {
        assert(arcs@ =~= av.arcs);
    }
    Ok(Arcs::new(num_arcs, src_block, arcs))
}

/// One step of the lines-record scan: a zero word switches the current
/// source file and flushes the lines gathered so far; any other word is a
/// line number; running out of words ends the record.
pub open spec fn spec_lines_loop(
    d: Seq<u8>,
    pos: int,
    cur_file: Seq<char>,
    cur: Seq<u32>,
    acc: Seq<SourceV>,
) -> Result<Seq<SourceV>, TraceError>
    decreases d.len() - pos,
{
    if pos < 0 || pos + 4 > d.len() {
        Ok(acc)
    } else {
        let v = le32(d, pos);
        if v != 0 {
            spec_lines_loop(d, pos + 4, cur_file, cur.push(v), acc)
        } else {
            match spec_read_string(d, pos + 4) {
                Err(e) => Err(e),
                Ok((nf, p2)) => {
                    let acc2 = if cur.len() > 0 {
                        acc.push(SourceV { file_name: cur_file, lineno: cur })
                    } else {
                        acc
                    };
                    spec_lines_loop(d, p2, nf, Seq::empty(), acc2)
                },
            }
        }
    }
}

/// Parse a lines record: the block it belongs to, then the scan above.
pub open spec fn spec_parse_lines(d: Seq<u8>) -> Result<(u32, Seq<SourceV>), TraceError> {
    if 4 > d.len() {
        Err(TraceError::EndOfStream)
    } else {
        match spec_lines_loop(d, 4, Seq::empty(), Seq::empty(), Seq::empty()) {
            Err(e) => Err(e),
            Ok(sources) => Ok((le32(d, 0), sources)),
        }
    }
}

/// Parse a lines record from its payload.
#[verifier::loop_isolation(false)]
pub fn parse_lines(data: &Vec<u8>) -> (r: Result<Lines, TraceError>)
    ensures
        match spec_parse_lines(data@) {
            Ok((block_id, sources)) => r is Ok && r->Ok_0@ == (LinesV { block_id, sources }),
            Err(e) => r is Err && r->Err_0 == e,
        },
{
    let mut pos: usize = 0;
    let block_id = match read_u32_from_slice(data, &mut pos) {
        Ok(v) => v,
        Err(e) => { return Err(e) },
    };
    let mut sources: Vec<Source> = Vec::new();
    let mut current_source_file = String::new();
    let mut source_lineno: Vec<u32> = Vec::new();
    proof {
        assert(current_source_file@ =~= Seq::<char>::empty());
        assert(sources@.map_values(|s: Source| s@) =~= Seq::<SourceV>::empty());
        assert(source_lineno@ =~= Seq::<u32>::empty());
    }
    while pos <= data.len() - 4
        invariant
            4 <= pos <= data@.len(),
            spec_lines_loop(
                data@,
                pos as int,
                current_source_file@,
                source_lineno@,
                sources@.map_values(|s: Source| s@),
            ) == spec_lines_loop(data@, 4, Seq::<char>::empty(), Seq::<u32>::empty(), Seq::<
                SourceV,
            >::empty()),
        decreases data@.len() - pos,
    {
        let lineno = match read_u32_from_slice(data, &mut pos) {
            Ok(v) => v,
            Err(e) => { return Err(e) },
        };
        if lineno == 0 {
            let new_source_file = match read_string_from_slice(data, &mut pos) {
                Ok(v) => v,
                Err(e) => { return Err(e) },
            };
            let ghost pre = sources@.map_values(|s: Source| s@);
            let ghost cf = current_source_file@;
            let ghost cl = source_lineno@;
            if source_lineno.len() > 0 {
                let done = Source { file_name: current_source_file, lineno: source_lineno };
                sources.push(done);
                proof {
                    assert(sources@.map_values(|s: Source| s@) =~= pre.push(
                        SourceV { file_name: cf, lineno: cl },
                    ));
                }
            }
            current_source_file = new_source_file;
            source_lineno = Vec::new();
        } else {
            source_lineno.push(lineno);
        }
    }
    Ok(Lines { block_id, sources })
}

/// Parse the file header: the magic word, version, stamp, and the
/// working-directory string, which is wrapped in a zero word before and
/// one extra word after its bytes.
pub open spec fn spec_read_header(bs: Seq<u8>) -> Result<(u32, u32, Seq<char>, int), TraceError> {
    if 4 > bs.len() {
        Err(TraceError::EndOfStream)
    } else if le32(bs, 0) != GCNO_MAGIC {
        Err(TraceError::Format)
    } else if 16 > bs.len() {
        Err(TraceError::EndOfStream)
    } else if le32(bs, 12) != 0 {
        Err(TraceError::Format)
    } else if 20 > bs.len() {
        Err(TraceError::EndOfStream)
    } else {
        let l = le32(bs, 16) as int;
        if 20 + l + 4 > bs.len() {
            Err(TraceError::EndOfStream)
        } else if !vstd::utf8::valid_utf8(bs.subrange(20, 20 + l)) {
            Err(TraceError::Format)
        } else {
            Ok(
                (
                    le32(bs, 4),
                    le32(bs, 8),
                    spec_str_trim(vstd::utf8::decode_utf8(bs.subrange(20, 20 + l))),
                    24 + l,
                ),
            )
        }
    }
}

/// A notes-file reader: the raw bytes, the read position, and the header
/// fields.
pub struct GCNOReader {
    pub data: Vec<u8>,
    pub pos: usize,
    pub version: u32,
    pub stamp: u32,
    pub cwd: String,
}

/// The view of `Some` is the view of its content.
pub open spec fn opt_function_view(o: Option<Function>) -> Option<FunctionV> {
    match o {
        Some(f) => Some(f@),
        None => None,
    }
}

/// Append the function under construction, if any.
pub open spec fn spec_flush(cur: Option<FunctionV>, acc: Seq<FunctionV>) -> Seq<FunctionV> {
    match cur {
        Some(c) => acc.push(c),
        None => acc,
    }
}

/// Parse records from `pos` on. A function record flushes the previous
/// function; blocks, arcs and lines records extend the function under
/// construction and are format errors without one; counter and summary
/// records are skipped; the end of the input flushes the last function.
pub open spec fn spec_parse_records(
    bs: Seq<u8>,
    pos: int,
    cur: Option<FunctionV>,
    acc: Seq<FunctionV>,
) -> Result<Seq<FunctionV>, TraceError>
    decreases bs.len() - pos,
{
    match spec_read_record(bs, pos) {
        Err(TraceError::EndOfStream) => Ok(spec_flush(cur, acc)),
        Err(e) => Err(e),
        Ok((tag, length, data, p2)) => {
            if tag == FUNCTION_TAG {
                match spec_parse_function(data) {
                    Err(e) => Err(e),
                    Ok(fv) => spec_parse_records(bs, p2, Some(fv), spec_flush(cur, acc)),
                }
            } else if tag == BLOCKS_TAG {
                match spec_parse_blocks(data) {
                    Err(e) => Err(e),
                    Ok(n) => match cur {
                        None => Err(TraceError::Format),
                        Some(c) => spec_parse_records(
                            bs,
                            p2,
                            Some(
                                FunctionV {
                                    blocks: Some(
                                        BlocksV {
                                            num_blocks: n,
                                            arcs: Seq::empty(),
                                            lines: Seq::empty(),
                                        },
                                    ),
                                    ..c
                                },
                            ),
                            acc,
                        ),
                    },
                }
            } else if tag == ARCS_TAG {
                match spec_parse_arcs(data) {
                    Err(e) => Err(e),
                    Ok(av) => match cur {
                        None => Err(TraceError::Format),
                        Some(c) => match c.blocks {
                            None => Err(TraceError::Format),
                            Some(b) => spec_parse_records(
                                bs,
                                p2,
                                Some(
                                    FunctionV {
                                        blocks: Some(BlocksV { arcs: b.arcs.push(av), ..b }),
                                        ..c
                                    },
                                ),
                                acc,
                            ),
                        },
                    },
                }
            } else if tag == LINES_TAG {
                match spec_parse_lines(data) {
                    Err(e) => Err(e),
                    Ok((block_id, sources)) => match cur {
                        None => Err(TraceError::Format),
                        Some(c) => match c.blocks {
                            None => Err(TraceError::Format),
                            Some(b) => spec_parse_records(
                                bs,
                                p2,
                                Some(
                                    FunctionV {
                                        blocks: Some(
                                            BlocksV {
                                                lines: b.lines.push(LinesV { block_id, sources }),
                                                ..b
                                            },
                                        ),
                                        ..c
                                    },
                                ),
                                acc,
                            ),
                        },
                    },
                }
            } else {
                spec_parse_records(bs, p2, cur, acc)
            }
        },
    }
}

impl GCNOReader {
    /// Open a notes buffer: parse the header and stand ready to parse the
    /// records after it.
    pub fn new(data: Vec<u8>) -> (r: Result<GCNOReader, TraceError>)
        ensures
            match spec_read_header(data@) {
                Ok((version, stamp, cwd, p)) => r is Ok && r->Ok_0.version == version
                    && r->Ok_0.stamp == stamp && r->Ok_0.cwd@ == cwd && r->Ok_0.pos == p
                    && r->Ok_0.data@ == data@ && p <= data@.len(),
                Err(e) => r is Err && r->Err_0 == e,
            },
    {
        let mut pos: usize = 0;
        let magic = match read_u32_from_slice(&data, &mut pos) {
            Ok(v) => v,
            Err(e) => { return Err(e) },
        };
        if magic != GCNO_MAGIC {
            return Err(TraceError::Format);
        }
        let version = match read_u32_from_slice(&data, &mut pos) {
            Ok(v) => v,
            Err(e) => { return Err(e) },
        };
        let stamp = match read_u32_from_slice(&data, &mut pos) {
            Ok(v) => v,
            Err(e) => { return Err(e) },
        };
        let string_magic = match read_u32_from_slice(&data, &mut pos) {
            Ok(v) => v,
            Err(e) => { return Err(e) },
        };
        if string_magic != 0 {
            return Err(TraceError::Format);
        }
        let length = match read_u32_from_slice(&data, &mut pos) {
            Ok(v) => v,
            Err(e) => { return Err(e) },
        };
        if ((data.len() - pos) as u64) < (length as u64) + 4 {
            return Err(TraceError::EndOfStream);
        }
        let l = length as usize;
        let buf = copy_range(&data, pos, pos + l);
        pos = pos + l;
        let cwd = match string_from_utf8(buf) {
            Some(s) => str_trim(s),
            None => { return Err(TraceError::Format) },
        };
        pos = pos + 4;
        Ok(GCNOReader { data, pos, version, stamp, cwd })
    }

    /// The version word of the header.
    pub fn version(&self) -> (r: u32)
        ensures
            r == self.version,
    {
        self.version
    }

    /// The stamp word of the header.
    pub fn stamp(&self) -> (r: u32)
        ensures
            r == self.stamp,
    {
        self.stamp
    }

    /// The working directory recorded in the header.
    pub fn cwd(&self) -> (r: &str)
        ensures
            r@ == self.cwd@,
    {
        self.cwd.as_str()
    }

    /// Parse every record after the header into a [`Gcno`].
    pub fn parse(&mut self) -> (r: Result<Gcno, TraceError>)
        requires
            old(self).pos <= old(self).data@.len(),
        ensures
            match spec_parse_records(
                old(self).data@,
                old(self).pos as int,
                None,
                Seq::empty(),
            ) {
                Ok(fs) => r is Ok && r->Ok_0@ == (GcnoV {
                    version: old(self).version,
                    stamp: old(self).stamp,
                    cwd: old(self).cwd@,
                    functions: fs,
                }),
                Err(e) => r is Err && r->Err_0 == e,
            },
    {
        let mut gcno = Gcno::new(self.version, self.stamp, self.cwd.clone());
        let mut current_function: Option<Function> = None;
        proof {
            assert(gcno@.functions =~= Seq::<FunctionV>::empty());
        }
        loop
            invariant
                self.pos <= self.data@.len(),
                self.data@ == old(self).data@,
                self.version == old(self).version,
                self.stamp == old(self).stamp,
                self.cwd@ == old(self).cwd@,
                gcno.version == old(self).version,
                gcno.stamp == old(self).stamp,
                gcno.cwd@ == old(self).cwd@,
                spec_parse_records(
                    self.data@,
                    self.pos as int,
                    opt_function_view(current_function),
                    gcno@.functions,
                ) == spec_parse_records(old(self).data@, old(self).pos as int, None, Seq::empty()),
            decreases self.data@.len() - self.pos,
        {
            match read_record(&self.data, &mut self.pos) {
                Err(e) => {
                    if matches!(e, TraceError::EndOfStream) {
                        match current_function {
                            Some(cf) => {
                                gcno.add_function(cf);
                            },
                            None => {},
                        }
                        return Ok(gcno);
                    }
                    return Err(e);
                },
                Ok((tag, _length, data)) => {
                    if tag == FUNCTION_TAG {
                        let function = match parse_function(&data) {
                            Ok(f) => f,
                            Err(e) => { return Err(e) },
                        };
                        match current_function {
                            Some(cf) => {
                                gcno.add_function(cf);
                            },
                            None => {},
                        }
                        current_function = Some(function);
                    } else if tag == BLOCKS_TAG {
                        let blocks = match parse_blocks(&data) {
                            Ok(b) => b,
                            Err(e) => { return Err(e) },
                        };
                        let mut cf = match current_function {
                            Some(c) => c,
                            None => { return Err(TraceError::Format) },
                        };
                        cf.set_blocks(blocks);
                        current_function = Some(cf);
                    } else if tag == ARCS_TAG {
                        let arcs = match parse_arcs(&data) {
                            Ok(a) => a,
                            Err(e) => { return Err(e) },
                        };
                        let mut cf = match current_function {
                            Some(c) => c,
                            None => { return Err(TraceError::Format) },
                        };
                        let mut bl = match cf.blocks {
                            Some(b) => b,
                            None => { return Err(TraceError::Format) },
                        };
                        bl.add_arcs(arcs);
                        cf.blocks = Some(bl);
                        current_function = Some(cf);
                    } else if tag == LINES_TAG {
                        let lines = match parse_lines(&data) {
                            Ok(l) => l,
                            Err(e) => { return Err(e) },
                        };
                        let mut cf = match current_function {
                            Some(c) => c,
                            None => { return Err(TraceError::Format) },
                        };
                        let mut bl = match cf.blocks {
                            Some(b) => b,
                            None => { return Err(TraceError::Format) },
                        };
                        bl.add_line(lines);
                        cf.blocks = Some(bl);
                        current_function = Some(cf);
                    }
                },
            }
        }
    }
}

} // verus!
