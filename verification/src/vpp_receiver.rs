//! The per-entry-path timing sink: it tracks calls into top-level
//! functions, records branch polarity while one is open, and keys a
//! histogram of durations by the entry address and the branch path.

use crate::event::{Entry, Event};
use crate::packet::TraceError;
use crate::render::{lit, push_dec_u64, push_hex_u64, push_str_bytes, push_string_bytes,
    spec_dec_bytes, spec_hex_bytes};
use crate::unwind::{sym_index, syms_view, StackUnwinder, SymbolInfoV};
use vstd::prelude::*;

verus! {

/// A path: the address a top-level call entered at, and the branch
/// polarities taken while it ran.
#[derive(Debug)]
pub struct Path {
    pub addr: u64,
    pub path: Vec<bool>,
}

/// The view of a [`Path`].
pub struct PathV {
    pub addr: u64,
    pub path: Seq<bool>,
}

impl View for Path {
    type V = PathV;

    open spec fn view(&self) -> PathV {
        PathV { addr: self.addr, path: self.path@ }
    }
}

/// One histogram record: a path and the durations observed for it.
#[derive(Debug)]
pub struct PathRecord {
    pub path: Path,
    pub intervals: Vec<u64>,
}

/// The view of a [`PathRecord`].
pub struct PathRecordV {
    pub path: PathV,
    pub intervals: Seq<u64>,
}

impl View for PathRecord {
    type V = PathRecordV;

    open spec fn view(&self) -> PathRecordV {
        PathRecordV { path: self.path@, intervals: self.intervals@ }
    }
}

/// The views of a record table.
pub open spec fn records_view(s: Seq<PathRecord>) -> Seq<PathRecordV> {
    s.map_values(|r: PathRecord| r@)
}

/// Copy a polarity vector.
#[verifier::loop_isolation(false)]
fn clone_bools(v: &Vec<bool>) -> (r: Vec<bool>)
    ensures
        r@ == v@,
{
    let mut out: Vec<bool> = Vec::new();
    let mut i: usize = 0;
    while i < v.len()
        invariant
            0 <= i <= v@.len(),
            out@ =~= v@.subrange(0, i as int),
        decreases v@.len() - i,
    {
        out.push(v[i]);
        i = i + 1;
        proof {
            assert(out@ =~= v@.subrange(0, i as int));
        }
    }
    proof {
        assert(v@.subrange(0, v@.len() as int) =~= v@);
    }
    out
}

/// Are two polarity vectors equal?
#[verifier::loop_isolation(false)]
fn bools_eq(a: &Vec<bool>, b: &Vec<bool>) -> (r: bool)
    ensures
        r == (a@ == b@),
{
    if a.len() != b.len() {
        return false;
    }
    let mut i: usize = 0;
    while i < a.len()
        invariant
            0 <= i <= a@.len(),
            a@.len() == b@.len(),
            forall|k: int| 0 <= k < i ==> a@[k] == b@[k],
        decreases a@.len() - i,
    {
        if a[i] != b[i] {
            return false;
        }
        i = i + 1;
    }
    proof {
        assert(a@ =~= b@);
    }
    true
}

/// The first index whose record holds this path, or -1.
pub open spec fn record_index(s: Seq<PathRecordV>, p: PathV) -> int
    decreases s.len(),
{
    if s.len() == 0 {
        -1
    } else if s[0].path == p {
        0
    } else {
        let r = record_index(s.drop_first(), p);
        if r < 0 {
            -1
        } else {
            r + 1
        }
    }
}

/// `record_index` finds the first match.
proof fn lemma_record_index_first(s: Seq<PathRecordV>, p: PathV, i: int)
    requires
        0 <= i <= s.len(),
        forall|k: int| 0 <= k < i ==> s[k].path != p,
        i == s.len() || s[i].path == p,
    ensures
        record_index(s, p) == if i == s.len() {
            -1int
        } else {
            i
        },
    decreases s.len(),
{
    if s.len() > 0 && s[0].path != p {
        let t = s.drop_first();
        assert(forall|k: int| 0 <= k < i - 1 ==> t[k] == s[k + 1]);
        lemma_record_index_first(t, p, i - 1);
    }
}

/// The first record holding this path, if any.
#[verifier::loop_isolation(false)]
fn find_record(records: &Vec<PathRecord>, p: &Path) -> (r: Option<usize>)
    ensures
        ({
            let ri = record_index(records_view(records@), p@);
            match r {
                Some(i) => ri == i && i < records@.len(),
                None => ri == -1,
            }
        }),
{
    let ghost rv = records_view(records@);
    let mut i: usize = 0;
    while i < records.len()
        invariant
            0 <= i <= records@.len(),
            forall|k: int| 0 <= k < i ==> rv[k].path != p@,
        decreases records@.len() - i,
    {
        if records[i].path.addr == p.addr && bools_eq(&records[i].path.path, &p.path) {
            proof {
                assert(rv[i as int].path == p@);
                lemma_record_index_first(rv, p@, i as int);
            }
            return Some(i);
        }
        i = i + 1;
    }
    proof {
        lemma_record_index_first(rv, p@, records@.len() as int);
    }
    None
}

/// The per-entry-path timing sink.
pub struct VPPReceiver {
    pub stack_unwinder: StackUnwinder,
    pub path_records: Vec<PathRecord>,
    pub curr_path: Option<Path>,
    pub start_timestamp: u64,
    pub checksum: u64,
}

impl VPPReceiver {
    /// The unwinder is sound, an open path exists whenever frames are
    /// open, and every recorded or open path starts at a known function.
    pub open spec fn wf(&self) -> bool {
        &&& self.stack_unwinder.wf()
        &&& (self.stack_unwinder.frame_stack@.len() > 0 ==> self.curr_path is Some)
        &&& forall|k: int|
            0 <= k < self.path_records@.len() ==> sym_index(
                syms_view(self.stack_unwinder.func_symbols@),
                (#[trigger] records_view(self.path_records@)[k]).path.addr,
            ) >= 0
        &&& (self.curr_path matches Some(p) ==> sym_index(
            syms_view(self.stack_unwinder.func_symbols@),
            p@.addr,
        ) >= 0)
    }

    /// An empty histogram over the unwinder.
    pub fn new(stack_unwinder: StackUnwinder) -> (r: VPPReceiver)
        requires
            stack_unwinder.wf(),
            stack_unwinder.frame_stack@.len() == 0,
        ensures
            r.wf(),
            r.path_records@.len() == 0,
            r.curr_path is None,
    {
        VPPReceiver {
            stack_unwinder,
            path_records: Vec::new(),
            curr_path: None,
            start_timestamp: 0,
            checksum: 0,
        }
    }

    /// Count one delivered event.
    pub fn _bump_checksum(&mut self)
        requires
            old(self).checksum < u64::MAX,
        ensures
            final(self).checksum == old(self).checksum + 1,
            final(self).path_records == old(self).path_records,
            final(self).stack_unwinder == old(self).stack_unwinder,
            final(self).curr_path == old(self).curr_path,
            final(self).start_timestamp == old(self).start_timestamp,
    {
        self.checksum = self.checksum + 1;
    }

    /// Fold one event in: a call that opens the first frame opens a
    /// path at its destination; branch polarities extend an open path;
    /// the return that empties the stack appends the elapsed time to the
    /// record keyed by the path and closes it; every other event changes
    /// nothing.
    #[verifier::loop_isolation(false)]
    #[verifier::rlimit(60)]
    pub fn _receive_entry(&mut self, entry: &Entry) -> (r: Result<(), TraceError>)
        requires
            old(self).wf(),
            entry.event == Event::InferrableJump || entry.event == Event::UninferableJump
                ==> entry.timestamp is Some,
            entry.event == Event::UninferableJump && entry.timestamp is Some
                ==> entry.timestamp->Some_0 >= old(self).start_timestamp,
        ensures
            final(self).wf(),
            final(self).checksum == old(self).checksum,
            match entry.event {
                Event::InferrableJump => {
                    let si = sym_index(
                        syms_view(old(self).stack_unwinder.func_symbols@),
                        entry.arc.1,
                    );
                    &&& r is Ok
                    &&& final(self).path_records == old(self).path_records
                    &&& if si >= 0 && old(self).stack_unwinder.frame_stack@.len() == 0 {
                        &&& final(self).curr_path matches Some(p) && p@ == (PathV {
                            addr: entry.arc.1,
                            path: Seq::empty(),
                        })
                        &&& final(self).start_timestamp == entry.timestamp->Some_0
                    } else {
                        &&& final(self).curr_path == old(self).curr_path
                        &&& final(self).start_timestamp == old(self).start_timestamp
                    }
                },
                Event::UninferableJump => {
                    let m = old(self).stack_unwinder.insn_map@;
                    let stack0 = old(self).stack_unwinder.frame_stack@;
                    match r {
                        Err(e) => e == TraceError::Consistency && *final(self) == *old(self),
                        Ok(_) => if stack0.len() == 0 || !crate::unwind::spec_is_return(
                            m[entry.arc.0].mnemonic,
                            m[entry.arc.0].op_str,
                        ) {
                            &&& final(self).path_records == old(self).path_records
                            &&& final(self).curr_path == old(self).curr_path
                            &&& final(self).start_timestamp == old(self).start_timestamp
                        } else if crate::unwind::spec_unwind(
                            stack0,
                            old(self).stack_unwinder.ranges@,
                            entry.arc.1,
                        ).1.len() == 0 {
                            let rv0 = records_view(old(self).path_records@);
                            let cp = old(self).curr_path->Some_0@;
                            let iv = (entry.timestamp->Some_0 - old(
                                self,
                            ).start_timestamp) as u64;
                            let ri = record_index(rv0, cp);
                            &&& final(self).curr_path is None
                            &&& final(self).start_timestamp == old(self).start_timestamp
                            &&& if ri >= 0 {
                                records_view(final(self).path_records@) == rv0.update(
                                    ri,
                                    (PathRecordV {
                                        path: rv0[ri].path,
                                        intervals: rv0[ri].intervals.push(iv),
                                    }),
                                )
                            } else {
                                records_view(final(self).path_records@) == rv0.push(
                                    (PathRecordV { path: cp, intervals: seq![iv] }),
                                )
                            }
                        } else {
                            &&& final(self).path_records == old(self).path_records
                            &&& final(self).curr_path == old(self).curr_path
                            &&& final(self).start_timestamp == old(self).start_timestamp
                        },
                    }
                },
                Event::TakenBranch => {
                    &&& r is Ok
                    &&& final(self).path_records == old(self).path_records
                    &&& final(self).stack_unwinder == old(self).stack_unwinder
                    &&& final(self).start_timestamp == old(self).start_timestamp
                    &&& match old(self).curr_path {
                        Some(p) => final(self).curr_path matches Some(q) && q@ == (PathV {
                            addr: p@.addr,
                            path: p@.path.push(true),
                        }),
                        None => final(self).curr_path is None,
                    }
                },
                Event::NonTakenBranch => {
                    &&& r is Ok
                    &&& final(self).path_records == old(self).path_records
                    &&& final(self).stack_unwinder == old(self).stack_unwinder
                    &&& final(self).start_timestamp == old(self).start_timestamp
                    &&& match old(self).curr_path {
                        Some(p) => final(self).curr_path matches Some(q) && q@ == (PathV {
                            addr: p@.addr,
                            path: p@.path.push(false),
                        }),
                        None => final(self).curr_path is None,
                    }
                },
                _ => r is Ok && *final(self) == *old(self),
            },
    {
        match entry.event {
            Event::InferrableJump => {
                let ts = match entry.timestamp {
                    Some(t) => t,
                    None => { return Err(TraceError::Consistency) },
                };
                let (success, frame_stack_size, _) = self.stack_unwinder.step_ij(entry.clone());
                if success && frame_stack_size == 1 {
                    self.curr_path = Some(Path { addr: entry.arc.1, path: Vec::new() });
                    self.start_timestamp = ts;
                }
                Ok(())
            },
            Event::UninferableJump => {
                let ts = match entry.timestamp {
                    Some(t) => t,
                    None => { return Err(TraceError::Consistency) },
                };
                let (success, frame_stack_size) = match self.stack_unwinder.step_uj(
                    entry.clone(),
                ) {
                    Ok((success, depth, _closed)) => (success, depth),
                    Err(e) => { return Err(e) },
                };
                if success && frame_stack_size == 0 {
                    let interval = ts - self.start_timestamp;
                    let closing = match &self.curr_path {
                        Some(p) => Path { addr: p.addr, path: clone_bools(&p.path) },
                        None => {
                            proof {
                                assert(false);
                            }
                            return Err(TraceError::Consistency);
                        },
                    };
                    proof {
                        assert(closing@ == old(self).curr_path->Some_0@);
                    }
                    match find_record(&self.path_records, &closing) {
                        Some(i) => {
                            let ghost pre = self.path_records@;
                            let rec = &mut self.path_records[i];
                            rec.intervals.push(interval);
                            proof {
                                assert(self.path_records@ == pre.update(
                                    i as int,
                                    self.path_records@[i as int],
                                ));
                                assert(records_view(self.path_records@) =~= records_view(
                                    pre,
                                ).update(
                                    i as int,
                                    (PathRecordV {
                                        path: records_view(pre)[i as int].path,
                                        intervals: records_view(pre)[i as int].intervals.push(
                                            interval,
                                        ),
                                    }),
                                ));
                                assert(forall|k: int|
                                    0 <= k < self.path_records@.len() ==> (#[trigger] records_view(
                                        self.path_records@,
                                    )[k]).path.addr == records_view(pre)[k].path.addr);
                            }
                        },
                        None => {
                            let ghost pre = self.path_records@;
                            let mut intervals: Vec<u64> = Vec::new();
                            intervals.push(interval);
                            self.path_records.push(PathRecord { path: closing, intervals });
                            proof {
                                assert(self.path_records@ == pre.push(self.path_records@.last()));
                                assert(self.path_records@.last()@.intervals =~= seq![interval]);
                                assert(records_view(self.path_records@) =~= records_view(
                                    pre,
                                ).push(self.path_records@.last()@));
                            }
                        },
                    }
                    self.curr_path = None;
                }
                Ok(())
            },
            Event::TakenBranch => {
                match &mut self.curr_path {
                    Some(p) => {
                        p.path.push(true);
                    },
                    None => {},
                }
                Ok(())
            },
            Event::NonTakenBranch => {
                match &mut self.curr_path {
                    Some(p) => {
                        p.path.push(false);
                    },
                    None => {},
                }
                Ok(())
            },
            _ => Ok(()),
        }
    }
}

/// The text of a polarity vector, in the debug-list form.
pub open spec fn spec_bools_text(s: Seq<bool>, i: int) -> Seq<u8>
    decreases s.len() - i,
{
    if i < 0 || i >= s.len() {
        Seq::empty()
    } else {
        (if i > 0 {
            lit(", "@)
        } else {
            Seq::empty()
        }) + (if s[i] {
            lit("true"@)
        } else {
            lit("false"@)
        }) + spec_bools_text(s, i + 1)
    }
}

/// The text of an interval list, in the debug-list form.
pub open spec fn spec_intervals_text(s: Seq<u64>, i: int) -> Seq<u8>
    decreases s.len() - i,
{
    if i < 0 || i >= s.len() {
        Seq::empty()
    } else {
        (if i > 0 {
            lit(", "@)
        } else {
            Seq::empty()
        }) + spec_dec_bytes(s[i] as nat) + spec_intervals_text(s, i + 1)
    }
}

/// The block one record prints: its path, its symbol, its intervals.
pub open spec fn spec_record_text(r: PathRecordV, info: SymbolInfoV) -> Seq<u8> {
    lit("PATH:0x"@) + spec_hex_bytes(r.path.addr as nat) + lit("-["@) + spec_bools_text(
        r.path.path,
        0,
    ) + lit("]\n"@) + lit("INFO: "@) + lit(info.name) + lit(": "@) + lit(info.file) + lit(
        ", line: "@,
    ) + spec_dec_bytes(info.line as nat) + lit("\n"@) + lit("INTERVALS: ["@) + spec_intervals_text(
        r.intervals,
        0,
    ) + lit("]\n\n"@)
}

/// The whole histogram: one block per record, in first-appearance
/// order, each under the symbol its address starts.
pub open spec fn spec_vpp_output(records: Seq<PathRecordV>, syms: Seq<crate::unwind::FuncSymV>, i: int) -> Seq<u8>
    decreases records.len() - i,
{
    if i < 0 || i >= records.len() {
        Seq::empty()
    } else {
        spec_record_text(records[i], syms[sym_index(syms, records[i].path.addr)].info)
            + spec_vpp_output(records, syms, i + 1)
    }
}

/// Render one record under its symbol.
#[verifier::loop_isolation(false)]
#[verifier::rlimit(100)]
fn render_record(rec: &PathRecord, info: &crate::unwind::SymbolInfo) -> (r: Vec<u8>)
    ensures
        r@ == spec_record_text(rec@, info@),
{
    let mut out: Vec<u8> = Vec::new();
    push_str_bytes(&mut out, "PATH:0x");
    push_hex_u64(&mut out, rec.path.addr);
    push_str_bytes(&mut out, "-[");
    let ghost b1 = out@;
    let mut b: usize = 0;
    while b < rec.path.path.len()
        invariant
            0 <= b <= rec.path.path@.len(),
            out@ + spec_bools_text(rec.path.path@, b as int) == b1 + spec_bools_text(
                rec.path.path@,
                0,
            ),
        decreases rec.path.path@.len() - b,
    {
        if b > 0 {
            push_str_bytes(&mut out, ", ");
        }
        if rec.path.path[b] {
            push_str_bytes(&mut out, "true");
        } else {
            push_str_bytes(&mut out, "false");
        }
        b = b + 1;
        proof {
            assert(out@ + spec_bools_text(rec.path.path@, b as int) =~= b1 + spec_bools_text(
                rec.path.path@,
                0,
            ));
        }
    }
    push_str_bytes(&mut out, "]\n");
    push_str_bytes(&mut out, "INFO: ");
    push_string_bytes(&mut out, &info.name);
    push_str_bytes(&mut out, ": ");
    push_string_bytes(&mut out, &info.file);
    push_str_bytes(&mut out, ", line: ");
    push_dec_u64(&mut out, info.line as u64);
    push_str_bytes(&mut out, "\n");
    push_str_bytes(&mut out, "INTERVALS: [");
    let ghost v1 = out@;
    let mut v: usize = 0;
    while v < rec.intervals.len()
        invariant
            0 <= v <= rec.intervals@.len(),
            out@ + spec_intervals_text(rec.intervals@, v as int) == v1 + spec_intervals_text(
                rec.intervals@,
                0,
            ),
        decreases rec.intervals@.len() - v,
    {
        if v > 0 {
            push_str_bytes(&mut out, ", ");
        }
        push_dec_u64(&mut out, rec.intervals[v]);
        v = v + 1;
        proof {
            assert(out@ + spec_intervals_text(rec.intervals@, v as int) =~= v1
                + spec_intervals_text(rec.intervals@, 0));
        }
    }
    push_str_bytes(&mut out, "]\n\n");
    proof {
        assert(out@ =~= spec_record_text(rec@, info@));
    }
    out
}

impl VPPReceiver {
    /// Render the histogram: one block per distinct path, in
    /// first-appearance order.
    #[verifier::loop_isolation(false)]
    #[verifier::rlimit(100)]
    pub fn _flush(&self) -> (r: Vec<u8>)
        requires
            self.wf(),
        ensures
            r@ == spec_vpp_output(
                records_view(self.path_records@),
                syms_view(self.stack_unwinder.func_symbols@),
                0,
            ),
    {
        let ghost rv = records_view(self.path_records@);
        let ghost sv = syms_view(self.stack_unwinder.func_symbols@);
        let mut out: Vec<u8> = Vec::new();
        let mut i: usize = 0;
        while i < self.path_records.len()
            invariant
                0 <= i <= rv.len(),
                out@ + spec_vpp_output(rv, sv, i as int) == spec_vpp_output(rv, sv, 0),
            decreases rv.len() - i,
        {
            let rec = &self.path_records[i];
            proof {
                assert(sym_index(sv, records_view(self.path_records@)[i as int].path.addr) >= 0);
            }
            let info = self.stack_unwinder.get_symbol_info(rec.path.addr);
            let mut block = render_record(rec, &info);
            out.append(&mut block);
            i = i + 1;
            proof {
                assert(rv[i - 1] == rec@);
                assert(out@ + spec_vpp_output(rv, sv, i as int) =~= spec_vpp_output(rv, sv, 0));
            }
        }
        out
    }
}

} // verus!
