//! The events delivered to the sinks: a kind, the arc of program-counter
//! endpoints, optional instruction details, and an optional timestamp.

use crate::insn::{InsnInfo, InsnInfoV};
use crate::packet::TrapType;
use vstd::prelude::*;

verus! {

/// The kind of a delivered event.
#[derive(Debug, Clone, Copy, PartialEq, Eq, Structural)]
pub enum Event {
    /// No control flow: a plain executed instruction. Its display name
    /// stays `"None"`.
    NoneEv,
    Start,
    TakenBranch,
    NonTakenBranch,
    UninferableJump,
    InferrableJump,
    End,
    TrapException,
    TrapInterrupt,
    TrapReturn,
}

/// The event kind a trap kind maps to; `Event::None` stands in for the
/// unused no-trap case.
pub open spec fn spec_from_trap_type(trap_type: TrapType) -> Event {
    match trap_type {
        TrapType::TException => Event::TrapException,
        TrapType::TInterrupt => Event::TrapInterrupt,
        TrapType::TReturn => Event::TrapReturn,
        TrapType::TNone => Event::NoneEv,
    }
}

/// The display name of an event kind.
pub open spec fn spec_event_name(e: Event) -> Seq<char> {
    match e {
        Event::NoneEv => "None"@,
        Event::Start => "Start"@,
        Event::TakenBranch => "TakenBranch"@,
        Event::NonTakenBranch => "NonTakenBranch"@,
        Event::UninferableJump => "UninferableJump"@,
        Event::InferrableJump => "InferrableJump"@,
        Event::End => "End"@,
        Event::TrapException => "TrapException"@,
        Event::TrapInterrupt => "TrapInterrupt"@,
        Event::TrapReturn => "TrapReturn"@,
    }
}

impl Event {
    /// The event a trap packet announces.
    pub fn from_trap_type(trap_type: TrapType) -> (r: Event)
        requires
            trap_type != TrapType::TNone,
        ensures
            r == spec_from_trap_type(trap_type),
    {
        match trap_type {
            TrapType::TException => Event::TrapException,
            TrapType::TInterrupt => Event::TrapInterrupt,
            TrapType::TReturn => Event::TrapReturn,
            TrapType::TNone => Event::NoneEv,
        }
    }

    /// The display name of this event kind.
    pub fn to_string(&self) -> (r: String)
        ensures
            r@ == spec_event_name(*self),
    {
        match self {
            Event::NoneEv => String::from_str("None"),
            Event::Start => String::from_str("Start"),
            Event::TakenBranch => String::from_str("TakenBranch"),
            Event::NonTakenBranch => String::from_str("NonTakenBranch"),
            Event::UninferableJump => String::from_str("UninferableJump"),
            Event::InferrableJump => String::from_str("InferrableJump"),
            Event::End => String::from_str("End"),
            Event::TrapException => String::from_str("TrapException"),
            Event::TrapInterrupt => String::from_str("TrapInterrupt"),
            Event::TrapReturn => String::from_str("TrapReturn"),
        }
    }
}

/// One delivered event.
#[derive(Debug)]
pub struct Entry {
    pub event: Event,
    /// The (from, to) program counters; instruction events use only the
    /// first.
    pub arc: (u64, u64),
    pub insn_bytes: Vec<u8>,
    pub insn_mnemonic: Option<String>,
    pub insn_op_str: Option<String>,
    pub insn_len: usize,
    pub timestamp: Option<u64>,
}

/// The view of an [`Entry`].
pub struct EntryV {
    pub event: Event,
    pub arc: (u64, u64),
    pub insn_bytes: Seq<u8>,
    pub insn_mnemonic: Option<Seq<char>>,
    pub insn_op_str: Option<Seq<char>>,
    pub insn_len: usize,
    pub timestamp: Option<u64>,
}

impl View for Entry {
    type V = EntryV;

    open spec fn view(&self) -> EntryV {
        EntryV {
            event: self.event,
            arc: self.arc,
            insn_bytes: self.insn_bytes@,
            insn_mnemonic: match self.insn_mnemonic {
                Some(ref m) => Some(m@),
                None => None,
            },
            insn_op_str: match self.insn_op_str {
                Some(ref o) => Some(o@),
                None => None,
            },
            insn_len: self.insn_len,
            timestamp: self.timestamp,
        }
    }
}

impl Clone for Entry {
    /// An entry equal to this one under the view.
    fn clone(&self) -> (r: Entry)
        ensures
            r@ == self@,
    {
        Entry {
            event: self.event,
            arc: (self.arc.0, self.arc.1),
            insn_bytes: crate::insn::clone_bytes(&self.insn_bytes),
            insn_mnemonic: match &self.insn_mnemonic {
                Some(m) => Some(m.clone()),
                None => None,
            },
            insn_op_str: match &self.insn_op_str {
                Some(o) => Some(o.clone()),
                None => None,
            },
            insn_len: self.insn_len,
            timestamp: self.timestamp,
        }
    }
}

/// The views of a list of entries.
pub open spec fn entries_view(l: Seq<Entry>) -> Seq<EntryV> {
    l.map_values(|x: Entry| x@)
}

/// Pushing an entry pushes its view.
pub proof fn lemma_entries_view_push(t0: Seq<Entry>, e: Entry)
    ensures
        entries_view(t0.push(e)) =~= entries_view(t0).push(e@),
{
}

/// A timed event with both arc endpoints and no instruction details.
pub open spec fn spec_timed_entry(event: Event, timestamp: u64, from: u64, to: u64) -> EntryV {
    EntryV {
        event,
        arc: (from, to),
        insn_bytes: Seq::empty(),
        insn_mnemonic: None,
        insn_op_str: None,
        insn_len: 0,
        timestamp: Some(timestamp),
    }
}

/// The untimed event a single instruction turns into.
pub open spec fn spec_insn_entry(i: InsnInfoV) -> EntryV {
    EntryV {
        event: Event::NoneEv,
        arc: (i.address, 0),
        insn_bytes: i.bytes,
        insn_mnemonic: Some(i.mnemonic),
        insn_op_str: Some(i.op_str),
        insn_len: i.len,
        timestamp: None,
    }
}

impl Entry {
    /// A timed event with both arc endpoints.
    pub fn new_timed_event(event: Event, timestamp: u64, from: u64, to: u64) -> (r: Entry)
        ensures
            r@ == spec_timed_entry(event, timestamp, from, to),
    {
        let r = Entry {
            event,
            arc: (from, to),
            insn_bytes: Vec::new(),
            insn_mnemonic: None,
            insn_op_str: None,
            insn_len: 0,
            timestamp: Some(timestamp),
        };
        proof {
            assert(r@.insn_bytes =~= Seq::<u8>::empty());
        }
        r
    }

    /// The event one executed instruction turns into.
    pub fn new_insn(insn: &InsnInfo) -> (r: Entry)
        ensures
            r@ == spec_insn_entry(insn@),
    {
        Entry {
            event: Event::NoneEv,
            arc: (insn.address, 0),
            insn_bytes: crate::insn::clone_bytes(&insn.bytes),
            insn_mnemonic: Some(insn.mnemonic.clone()),
            insn_op_str: Some(insn.op_str.clone()),
            insn_len: insn.len,
            timestamp: None,
        }
    }

    /// The timed event a trap packet turns into.
    pub fn new_timed_trap(trap_type: TrapType, timestamp: u64, from: u64, to: u64) -> (r: Entry)
        requires
            trap_type != TrapType::TNone,
        ensures
            r@ == spec_timed_entry(spec_from_trap_type(trap_type), timestamp, from, to),
    {
        Entry::new_timed_event(Event::from_trap_type(trap_type), timestamp, from, to)
    }
}

} // verus!
