//! The JSON dump sink: one object per non-instruction event, written
//! back to back.

use crate::event::{spec_event_name, Entry, EntryV, Event};
use crate::render::{lit, push_dec_u64, push_json_string, push_str_bytes, push_string_bytes,
    spec_dec_bytes, spec_json_escape};
use vstd::prelude::*;

verus! {

/// The JSON fragment of a byte list: decimal values joined by commas.
pub open spec fn spec_bytes_array(bs: Seq<u8>) -> Seq<u8>
    decreases bs.len(),
{
    if bs.len() == 0 {
        Seq::empty()
    } else if bs.len() == 1 {
        spec_dec_bytes(bs[0] as nat)
    } else {
        spec_bytes_array(bs.drop_last()) + lit(","@) + spec_dec_bytes(bs.last() as nat)
    }
}

/// The JSON value of an optional string.
pub open spec fn spec_opt_string_json(s: Option<Seq<char>>) -> Seq<u8> {
    match s {
        Some(x) => seq![34u8] + spec_json_escape(lit(x)) + seq![34u8],
        None => lit("null"@),
    }
}

/// The opening of the JSON object of one event: kind, arc, bytes.
pub open spec fn spec_json_head(e: EntryV) -> Seq<u8> {
    lit("{\"event\":\""@) + lit(spec_event_name(e.event)) + lit("\",\"arc\":["@)
        + spec_dec_bytes(e.arc.0 as nat) + lit(","@) + spec_dec_bytes(e.arc.1 as nat) + lit(
        "],\"insn_bytes\":["@,
    ) + spec_bytes_array(e.insn_bytes) + lit("],\"insn_mnemonic\":"@)
}

/// The rest of the JSON object: strings, length, timestamp.
pub open spec fn spec_json_tail(e: EntryV) -> Seq<u8> {
    spec_opt_string_json(e.insn_mnemonic) + lit(",\"insn_op_str\":"@) + spec_opt_string_json(
        e.insn_op_str,
    ) + lit(",\"insn_len\":"@) + spec_dec_bytes(e.insn_len as nat) + lit(",\"timestamp\":"@)
        + (match e.timestamp {
        Some(t) => spec_dec_bytes(t as nat),
        None => lit("null"@),
    }) + lit("}"@)
}

/// The JSON object of one event.
pub open spec fn spec_json_entry(e: EntryV) -> Seq<u8> {
    if e.event == Event::NoneEv {
        Seq::empty()
    } else {
        spec_json_head(e) + spec_json_tail(e)
    }
}

/// Append the opening of the object.
#[verifier::loop_isolation(false)]
#[verifier::rlimit(60)]
fn push_json_head(out: &mut Vec<u8>, entry: &Entry)
    ensures
        final(out)@ == old(out)@ + spec_json_head(entry@),
{
    push_str_bytes(out, "{\"event\":\"");
    let name = entry.event.to_string();
    push_string_bytes(out, &name);
    push_str_bytes(out, "\",\"arc\":[");
    push_dec_u64(out, entry.arc.0);
    push_str_bytes(out, ",");
    push_dec_u64(out, entry.arc.1);
    push_str_bytes(out, "],\"insn_bytes\":[");
    let ghost pre = out@;
    let ghost bv = entry.insn_bytes@;
    let mut k: usize = 0;
    while k < entry.insn_bytes.len()
        invariant
            0 <= k <= bv.len(),
            out@ == pre + spec_bytes_array(bv.subrange(0, k as int)),
        decreases bv.len() - k,
    {
        if k > 0 {
            push_str_bytes(out, ",");
        }
        push_dec_u64(out, entry.insn_bytes[k] as u64);
        k = k + 1;
        proof {
            let cur = bv.subrange(0, k as int);
            assert(cur.drop_last() =~= bv.subrange(0, k - 1));
            assert(cur.last() == bv[k - 1]);
            assert(out@ =~= pre + spec_bytes_array(cur));
        }
    }
    proof {
        assert(bv.subrange(0, bv.len() as int) =~= bv);
    }
    push_str_bytes(out, "],\"insn_mnemonic\":");
    proof {
        assert(out@ =~= old(out)@ + spec_json_head(entry@));
    }
}

/// Append the rest of the object.
#[verifier::rlimit(60)]
fn push_json_tail(out: &mut Vec<u8>, entry: &Entry)
    ensures
        final(out)@ == old(out)@ + spec_json_tail(entry@),
{
    match &entry.insn_mnemonic {
        Some(m) => push_json_string(out, m),
        None => push_str_bytes(out, "null"),
    }
    push_str_bytes(out, ",\"insn_op_str\":");
    match &entry.insn_op_str {
        Some(o) => push_json_string(out, o),
        None => push_str_bytes(out, "null"),
    }
    push_str_bytes(out, ",\"insn_len\":");
    push_dec_u64(out, entry.insn_len as u64);
    push_str_bytes(out, ",\"timestamp\":");
    match entry.timestamp {
        Some(t) => push_dec_u64(out, t),
        None => push_str_bytes(out, "null"),
    }
    push_str_bytes(out, "}");
    proof {
        assert(out@ =~= old(out)@ + spec_json_tail(entry@));
    }
}

/// The JSON dump sink.
pub struct JsonReceiver {
    pub out: Vec<u8>,
    pub checksum: u64,
}

impl JsonReceiver {
    /// An empty dump.
    pub fn new() -> (r: JsonReceiver)
        ensures
            r.out@ == Seq::<u8>::empty(),
            r.checksum == 0,
    {
        JsonReceiver { out: Vec::new(), checksum: 0 }
    }

    /// Count one delivered event.
    pub fn _bump_checksum(&mut self)
        requires
            old(self).checksum < u64::MAX,
        ensures
            final(self).checksum == old(self).checksum + 1,
            final(self).out == old(self).out,
    {
        self.checksum = self.checksum + 1;
    }

    /// Append the object of one event.
    pub fn _receive_entry(&mut self, entry: &Entry)
        ensures
            final(self).out@ == old(self).out@ + spec_json_entry(entry@),
            final(self).checksum == old(self).checksum,
    {
        if matches!(entry.event, Event::NoneEv) {
            proof {
                assert(self.out@ =~= old(self).out@ + spec_json_entry(entry@));
            }
            return ;
        }
        push_json_head(&mut self.out, entry);
        push_json_tail(&mut self.out, entry);
        proof {
            assert(self.out@ =~= old(self).out@ + spec_json_entry(entry@));
        }
    }

    /// Nothing is buffered beyond `out`; flushing is the caller's write.
    pub fn _flush(&mut self)
        ensures
            *final(self) == *old(self),
    {
    }

    /// The dump so far.
    pub fn output(&self) -> (r: &Vec<u8>)
        ensures
            r == &self.out,
    {
        &self.out
    }
}

} // verus!
