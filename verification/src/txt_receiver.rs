//! The textual dump sink: one line per event.

use crate::event::{spec_event_name, Entry, EntryV, Event};
use crate::render::{lit, push_dec_u64, push_hex_u64, push_str_bytes, push_string_bytes,
    spec_dec_bytes, spec_hex_bytes};
use vstd::prelude::*;

verus! {

/// The line one event prints: instruction events show the address and
/// the disassembly; timed events show the timestamp and the kind; an
/// untimed non-instruction event prints nothing.
pub open spec fn spec_txt_entry(e: EntryV) -> Seq<u8> {
    if e.event == Event::NoneEv {
        lit("0x"@) + spec_hex_bytes(e.arc.0 as nat) + lit(":"@) + (match e.insn_mnemonic {
            Some(m) => lit(" "@) + lit(m) + (match e.insn_op_str {
                Some(o) => lit(" "@) + lit(o),
                None => Seq::empty(),
            }),
            None => Seq::empty(),
        }) + lit("\n"@)
    } else {
        match e.timestamp {
            Some(t) => lit("[timestamp: "@) + spec_dec_bytes(t as nat) + lit("] "@) + lit(
                spec_event_name(e.event),
            ) + lit("\n"@),
            None => Seq::empty(),
        }
    }
}

/// The dump of a whole event sequence, line by line in order.
pub open spec fn spec_txt_output(es: Seq<EntryV>, i: int) -> Seq<u8>
    decreases es.len() - i,
{
    if i < 0 || i >= es.len() {
        Seq::empty()
    } else {
        spec_txt_entry(es[i]) + spec_txt_output(es, i + 1)
    }
}

/// The textual dump sink.
pub struct TxtReceiver {
    pub out: Vec<u8>,
    pub checksum: u64,
}

impl TxtReceiver {
    /// An empty dump.
    pub fn new() -> (r: TxtReceiver)
        ensures
            r.out@ == Seq::<u8>::empty(),
            r.checksum == 0,
    {
        TxtReceiver { out: Vec::new(), checksum: 0 }
    }

    /// Count one delivered event.
    pub fn _bump_checksum(&mut self)
        requires
            old(self).checksum < u64::MAX,
        ensures
            final(self).checksum == old(self).checksum + 1,
            final(self).out == old(self).out,
    {
        self.checksum = self.checksum + 1;
    }

    /// Append the line of one event.
    pub fn _receive_entry(&mut self, entry: &Entry)
        ensures
            final(self).out@ == old(self).out@ + spec_txt_entry(entry@),
            final(self).checksum == old(self).checksum,
    {
        if matches!(entry.event, Event::NoneEv) {
            push_str_bytes(&mut self.out, "0x");
            push_hex_u64(&mut self.out, entry.arc.0);
            push_str_bytes(&mut self.out, ":");
            match &entry.insn_mnemonic {
                Some(m) => {
                    push_str_bytes(&mut self.out, " ");
                    push_string_bytes(&mut self.out, m);
                    match &entry.insn_op_str {
                        Some(o) => {
                            push_str_bytes(&mut self.out, " ");
                            push_string_bytes(&mut self.out, o);
                        },
                        None => {},
                    }
                },
                None => {},
            }
            push_str_bytes(&mut self.out, "\n");
        } else {
            match entry.timestamp {
                Some(t) => {
                    push_str_bytes(&mut self.out, "[timestamp: ");
                    push_dec_u64(&mut self.out, t);
                    push_str_bytes(&mut self.out, "] ");
                    let name = entry.event.to_string();
                    push_string_bytes(&mut self.out, &name);
                    push_str_bytes(&mut self.out, "\n");
                },
                None => {},
            }
        }
        proof {
            assert(self.out@ =~= old(self).out@ + spec_txt_entry(entry@));
        }
    }

    /// Nothing is buffered beyond `out`; flushing is the caller's write.
    pub fn _flush(&mut self)
        ensures
            *final(self) == *old(self),
    {
    }

    /// Law: handing a sink the events one at a time, in the producer's
    /// order, yields the dump of exactly that ordered sequence; the
    /// artifact is a function of the delivery order alone.
    #[verifier::loop_isolation(false)]
    pub fn receive_all(&mut self, entries: &Vec<Entry>)
        ensures
            final(self).out@ == old(self).out@ + spec_txt_output(
                crate::event::entries_view(entries@),
                0,
            ),
            final(self).checksum == old(self).checksum,
    {
        let ghost ev = crate::event::entries_view(entries@);
        let mut i: usize = 0;
        while i < entries.len()
            invariant
                0 <= i <= ev.len(),
                self.out@ + spec_txt_output(ev, i as int) == old(self).out@ + spec_txt_output(
                    ev,
                    0,
                ),
                self.checksum == old(self).checksum,
            decreases ev.len() - i,
        {
            self._receive_entry(&entries[i]);
            i = i + 1;
            proof {
                assert(self.out@ + spec_txt_output(ev, i as int) =~= old(self).out@
                    + spec_txt_output(ev, 0));
            }
        }
    }

    /// The dump so far.
    pub fn output(&self) -> (r: &Vec<u8>)
        ensures
            r == &self.out,
    {
        &self.out
    }
}

} // verus!
