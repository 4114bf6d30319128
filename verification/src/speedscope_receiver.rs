//! The speedscope profile sink: the unwinder turns jumps into frame
//! opens and closes, and the flush renders the evented JSON profile.

use crate::event::{Entry, Event};
use crate::render::{lit, push_dec_u64, push_str_bytes, push_string_bytes, spec_dec_bytes};
use crate::unwind::{syms_view, StackUnwinder, SymbolInfo, SymbolInfoV};
use crate::packet::TraceError;
use vstd::prelude::*;

verus! {

/// One profile event: a frame opens or closes at a timestamp.
#[derive(Debug, Clone, Copy, PartialEq, Eq, Structural)]
pub struct ProfileEntry {
    /// True for an open event, false for a close event.
    pub open_frame: bool,
    pub frame: u32,
    pub at: u64,
}

/// How many profile events open a frame.
pub open spec fn spec_count_open(s: Seq<ProfileEntry>) -> int
    decreases s.len(),
{
    if s.len() == 0 {
        0
    } else {
        spec_count_open(s.drop_last()) + if s.last().open_frame {
            1int
        } else {
            0
        }
    }
}

/// How many profile events close a frame.
pub open spec fn spec_count_close(s: Seq<ProfileEntry>) -> int
    decreases s.len(),
{
    if s.len() == 0 {
        0
    } else {
        spec_count_close(s.drop_last()) + if s.last().open_frame {
            0int
        } else {
            1
        }
    }
}

/// The speedscope profile sink.
pub struct SpeedscopeReceiver {
    pub frames: Vec<SymbolInfo>,
    pub start: u64,
    pub end: u64,
    pub profile_entries: Vec<ProfileEntry>,
    pub stack_unwinder: StackUnwinder,
    pub checksum: u64,
}

impl SpeedscopeReceiver {
    /// Every open frame of the unwinder has its open event on record:
    /// the opens exceed the closes by exactly the open frames.
    pub open spec fn wf(&self) -> bool {
        &&& self.stack_unwinder.wf()
        &&& spec_count_open(self.profile_entries@) == spec_count_close(self.profile_entries@)
            + self.stack_unwinder.frame_stack@.len()
    }

    /// An empty profile over the unwinder's function table.
    #[verifier::loop_isolation(false)]
    pub fn new(stack_unwinder: StackUnwinder) -> (r: SpeedscopeReceiver)
        requires
            stack_unwinder.wf(),
            stack_unwinder.frame_stack@.len() == 0,
        ensures
            r.wf(),
            r.profile_entries@.len() == 0,
            r.frames@.len() == stack_unwinder.func_symbols@.len(),
            forall|i: int|
                0 <= i < r.frames@.len() ==> (#[trigger] r.frames@[i])@ == syms_view(
                    stack_unwinder.func_symbols@,
                )[i].info,
            r.start == 0 && r.end == 0,
    {
        let mut frames: Vec<SymbolInfo> = Vec::new();
        let mut i: usize = 0;
        while i < stack_unwinder.func_symbols.len()
            invariant
                0 <= i <= stack_unwinder.func_symbols@.len(),
                frames@.len() == i,
                forall|k: int|
                    0 <= k < i ==> (#[trigger] frames@[k])@ == syms_view(
                        stack_unwinder.func_symbols@,
                    )[k].info,
            decreases stack_unwinder.func_symbols@.len() - i,
        {
            frames.push(stack_unwinder.func_symbols[i].info.clone());
            i = i + 1;
        }
        SpeedscopeReceiver {
            frames,
            start: 0,
            end: 0,
            profile_entries: Vec::new(),
            stack_unwinder,
            checksum: 0,
        }
    }

    /// Count one delivered event.
    pub fn _bump_checksum(&mut self)
        requires
            old(self).checksum < u64::MAX,
        ensures
            final(self).checksum == old(self).checksum + 1,
            final(self).frames == old(self).frames,
            final(self).profile_entries == old(self).profile_entries,
            final(self).stack_unwinder == old(self).stack_unwinder,
            final(self).start == old(self).start,
            final(self).end == old(self).end,
    {
        self.checksum = self.checksum + 1;
    }

    /// Fold one event in: an inferable jump that opens a frame records
    /// an open event; an uninferable return records one close event per
    /// closed frame, in pop order; start and end pin the profile bounds;
    /// every other event changes nothing.
    #[verifier::loop_isolation(false)]
    #[verifier::rlimit(60)]
    pub fn _receive_entry(&mut self, entry: &Entry) -> (r: Result<(), TraceError>)
        requires
            old(self).wf(),
            entry.event == Event::InferrableJump || entry.event == Event::UninferableJump
                || entry.event == Event::Start || entry.event == Event::End
                ==> entry.timestamp is Some,
        ensures
            final(self).wf(),
            final(self).frames == old(self).frames,
            final(self).checksum == old(self).checksum,
            match entry.event {
                Event::InferrableJump => {
                    let si = crate::unwind::sym_index(
                        syms_view(old(self).stack_unwinder.func_symbols@),
                        entry.arc.1,
                    );
                    &&& r is Ok
                    &&& final(self).start == old(self).start
                    &&& final(self).end == old(self).end
                    &&& if si >= 0 {
                        final(self).profile_entries@ == old(self).profile_entries@.push(
                            (ProfileEntry {
                                open_frame: true,
                                frame: si as u32,
                                at: entry.timestamp->Some_0,
                            }),
                        )
                    } else {
                        final(self).profile_entries == old(self).profile_entries
                    }
                },
                Event::UninferableJump => {
                    let m = old(self).stack_unwinder.insn_map@;
                    let stack0 = old(self).stack_unwinder.frame_stack@;
                    &&& final(self).start == old(self).start
                    &&& final(self).end == old(self).end
                    &&& match r {
                        Err(e) => e == TraceError::Consistency && *final(self) == *old(self),
                        Ok(_) => if stack0.len() == 0 || !crate::unwind::spec_is_return(
                            m[entry.arc.0].mnemonic,
                            m[entry.arc.0].op_str,
                        ) {
                            final(self).profile_entries == old(self).profile_entries
                        } else {
                            let popped = crate::unwind::spec_unwind(
                                stack0,
                                old(self).stack_unwinder.ranges@,
                                entry.arc.1,
                            ).0;
                            let n0 = old(self).profile_entries@.len() as int;
                            &&& final(self).profile_entries@.len() == n0 + popped.len()
                            &&& final(self).profile_entries@.subrange(0, n0) == old(
                                self,
                            ).profile_entries@
                            &&& forall|k: int|
                                0 <= k < popped.len()
                                    ==> #[trigger] final(self).profile_entries@[n0 + k]
                                    == (ProfileEntry {
                                    open_frame: false,
                                    frame: popped[k],
                                    at: entry.timestamp->Some_0,
                                })
                        },
                    }
                },
                Event::Start => r is Ok && *final(self) == (SpeedscopeReceiver {
                    start: entry.timestamp->Some_0,
                    ..*old(self)
                }),
                Event::End => r is Ok && *final(self) == (SpeedscopeReceiver {
                    end: entry.timestamp->Some_0,
                    ..*old(self)
                }),
                _ => r is Ok && *final(self) == *old(self),
            },
    {
        match entry.event {
            Event::InferrableJump => {
                let at = match entry.timestamp {
                    Some(t) => t,
                    None => { return Err(TraceError::Consistency) },
                };
                let (success, _depth, opened) = self.stack_unwinder.step_ij(entry.clone());
                if success {
                    match opened {
                        Some(info) => {
                            proof {
                                let sv = syms_view(old(self).stack_unwinder.func_symbols@);
                                let si = crate::unwind::sym_index(sv, entry.arc.1);
                                crate::unwind::lemma_sym_index_found(sv, entry.arc.1);
                                assert(sv[si].info.index == si);
                                assert(info@ == sv[si].info);
                            }
                            let ghost pre = self.profile_entries@;
                            self.profile_entries.push(
                                ProfileEntry { open_frame: true, frame: info.index, at },
                            );
                            proof {
                                assert(self.profile_entries@.drop_last() =~= pre);
                                assert(self.profile_entries@ =~= pre.push(
                                    self.profile_entries@.last(),
                                ));
                            }
                        },
                        None => {
                            proof {
                                assert(false);
                            }
                            return Err(TraceError::Consistency);
                        },
                    }
                }
                Ok(())
            },
            Event::UninferableJump => {
                let at = match entry.timestamp {
                    Some(t) => t,
                    None => { return Err(TraceError::Consistency) },
                };
                let closed = match self.stack_unwinder.step_uj(entry.clone()) {
                    Ok((success, _depth, closed)) => {
                        if success {
                            closed
                        } else {
                            return Ok(());
                        }
                    },
                    Err(e) => { return Err(e) },
                };
                proof {
                    crate::unwind::lemma_unwind_props(
                        old(self).stack_unwinder.frame_stack@,
                        old(self).stack_unwinder.ranges@,
                        entry.arc.1,
                    );
                }
                let ghost popped = crate::unwind::spec_unwind(
                    old(self).stack_unwinder.frame_stack@,
                    old(self).stack_unwinder.ranges@,
                    entry.arc.1,
                ).0;
                let ghost su = self.stack_unwinder;
                let ghost sv = syms_view(old(self).stack_unwinder.func_symbols@);
                let ghost n0 = old(self).profile_entries@.len() as int;
                let mut k: usize = 0;
                while k < closed.len()
                    invariant
                        0 <= k <= closed@.len(),
                        closed@.len() == popped.len(),
                        self.frames == old(self).frames,
                        self.stack_unwinder == su,
                        su.wf(),
                        self.checksum == old(self).checksum,
                        self.start == old(self).start,
                        self.end == old(self).end,
                        self.profile_entries@.len() == n0 + k,
                        self.profile_entries@.subrange(0, n0) == old(self).profile_entries@,
                        forall|q: int|
                            0 <= q < k ==> #[trigger] self.profile_entries@[n0 + q]
                                == (ProfileEntry {
                                open_frame: false,
                                frame: popped[q],
                                at: entry.timestamp->Some_0,
                            }),
                        spec_count_open(self.profile_entries@) == spec_count_close(
                            self.profile_entries@,
                        ) + self.stack_unwinder.frame_stack@.len() + (closed@.len() - k),
                    decreases closed@.len() - k,
                {
                    let frame = closed[k].index;
                    proof {
                        assert(closed@[k as int]@ == sv[popped[k as int] as int].info);
                        assert(sv[popped[k as int] as int].info.index == popped[k as int]);
                    }
                    let ghost pre = self.profile_entries@;
                    self.profile_entries.push(ProfileEntry { open_frame: false, frame, at });
                    proof {
                        assert(self.profile_entries@.drop_last() =~= pre);
                        assert(self.profile_entries@.subrange(0, n0) =~= old(
                            self,
                        ).profile_entries@);
                    }
                    k = k + 1;
                }
                Ok(())
            },
            Event::Start => {
                match entry.timestamp {
                    Some(t) => {
                        self.start = t;
                    },
                    None => {},
                }
                Ok(())
            },
            Event::End => {
                match entry.timestamp {
                    Some(t) => {
                        self.end = t;
                    },
                    None => {},
                }
                Ok(())
            },
            _ => Ok(()),
        }
    }
}

/// The frame objects of the profile document, with a comma after every
/// frame but the last.
pub open spec fn spec_frames_json(frames: Seq<SymbolInfoV>, i: int) -> Seq<u8>
    decreases frames.len() - i,
{
    if i < 0 || i >= frames.len() {
        Seq::empty()
    } else {
        lit("      {\n        \"name\": \""@) + lit(frames[i].name) + lit(
            "\",\n        \"file\": \""@,
        ) + lit(frames[i].file) + lit("\",\n        \"line\": "@) + spec_dec_bytes(
            frames[i].line as nat,
        ) + lit("\n      }"@) + (if i < frames.len() - 1 {
            lit(","@)
        } else {
            Seq::empty()
        }) + lit("\n"@) + spec_frames_json(frames, i + 1)
    }
}

/// The event objects of the profile document, with a comma after every
/// event but the last.
pub open spec fn spec_events_json(entries: Seq<ProfileEntry>, i: int) -> Seq<u8>
    decreases entries.len() - i,
{
    if i < 0 || i >= entries.len() {
        Seq::empty()
    } else {
        lit("        {\n          \"type\": \""@) + (if entries[i].open_frame {
            lit("O"@)
        } else {
            lit("C"@)
        }) + lit("\",\n          \"frame\": "@) + spec_dec_bytes(entries[i].frame as nat) + lit(
            ",\n          \"at\": "@,
        ) + spec_dec_bytes(entries[i].at as nat) + lit("\n        }"@) + (if i < entries.len()
            - 1 {
            lit(","@)
        } else {
            Seq::empty()
        }) + lit("\n"@) + spec_events_json(entries, i + 1)
    }
}

/// The whole profile document.
pub open spec fn spec_speedscope_json(
    frames: Seq<SymbolInfoV>,
    start: u64,
    end: u64,
    entries: Seq<ProfileEntry>,
) -> Seq<u8> {
    lit(
        "{\n  \"version\": \"0.0.1\",\n  \"$schema\": \"https://www.speedscope.app/file-format-schema.json\",\n  \"shared\": {\n    \"frames\": [\n"@,
    ) + spec_frames_json(frames, 0) + lit(
        "    ]\n  },\n  \"profiles\": [\n    {\n      \"name\": \"tacit\",\n      \"type\": \"evented\",\n      \"unit\": \"none\",\n      \"startValue\": "@,
    ) + spec_dec_bytes(start as nat) + lit(",\n      \"endValue\": "@) + spec_dec_bytes(
        end as nat,
    ) + lit(",\n      \"events\": [\n"@) + spec_events_json(entries, 0) + lit(
        "      ]\n    }\n  ]\n}\n"@,
    )
}

/// Render the frame objects.
#[verifier::loop_isolation(false)]
#[verifier::rlimit(100)]
#[verifier::spinoff_prover]
fn render_frames(frames: &Vec<SymbolInfo>) -> (r: Vec<u8>)
    ensures
        r@ == spec_frames_json(frames@.map_values(|s: SymbolInfo| s@), 0),
{
    let mut out: Vec<u8> = Vec::new();
    let ghost fv = frames@.map_values(|s: SymbolInfo| s@);
    let mut i: usize = 0;
    while i < frames.len()
        invariant
            0 <= i <= fv.len(),
            out@ + spec_frames_json(fv, i as int) == spec_frames_json(fv, 0),
        decreases fv.len() - i,
    {
        push_str_bytes(&mut out, "      {\n        \"name\": \"");
        push_string_bytes(&mut out, &frames[i].name);
        push_str_bytes(&mut out, "\",\n        \"file\": \"");
        push_string_bytes(&mut out, &frames[i].file);
        push_str_bytes(&mut out, "\",\n        \"line\": ");
        push_dec_u64(&mut out, frames[i].line as u64);
        push_str_bytes(&mut out, "\n      }");
        if i + 1 < frames.len() {
            push_str_bytes(&mut out, ",");
        }
        push_str_bytes(&mut out, "\n");
        i = i + 1;
        proof {
            assert(out@ + spec_frames_json(fv, i as int) =~= spec_frames_json(fv, 0));
        }
    }
    out
}

/// Render the event objects.
#[verifier::loop_isolation(false)]
#[verifier::rlimit(100)]
#[verifier::spinoff_prover]
fn render_events(entries: &Vec<ProfileEntry>) -> (r: Vec<u8>)
    ensures
        r@ == spec_events_json(entries@, 0),
{
    let mut out: Vec<u8> = Vec::new();
    let ghost ev = entries@;
    let mut j: usize = 0;
    while j < entries.len()
        invariant
            0 <= j <= ev.len(),
            out@ + spec_events_json(ev, j as int) == spec_events_json(ev, 0),
        decreases ev.len() - j,
    {
        push_str_bytes(&mut out, "        {\n          \"type\": \"");
        if entries[j].open_frame {
            push_str_bytes(&mut out, "O");
        } else {
            push_str_bytes(&mut out, "C");
        }
        push_str_bytes(&mut out, "\",\n          \"frame\": ");
        push_dec_u64(&mut out, entries[j].frame as u64);
        push_str_bytes(&mut out, ",\n          \"at\": ");
        push_dec_u64(&mut out, entries[j].at);
        push_str_bytes(&mut out, "\n        }");
        if j + 1 < entries.len() {
            push_str_bytes(&mut out, ",");
        }
        push_str_bytes(&mut out, "\n");
        j = j + 1;
        proof {
            assert(out@ + spec_events_json(ev, j as int) =~= spec_events_json(ev, 0));
        }
    }
    out
}

/// Render the profile document.
#[verifier::rlimit(100)]
fn render_profile(frames: &Vec<SymbolInfo>, start: u64, end: u64, entries: &Vec<ProfileEntry>) -> (r:
    Vec<u8>)
    ensures
        r@ == spec_speedscope_json(
            frames@.map_values(|s: SymbolInfo| s@),
            start,
            end,
            entries@,
        ),
{
    let mut out: Vec<u8> = Vec::new();
    push_str_bytes(
        &mut out,
        "{\n  \"version\": \"0.0.1\",\n  \"$schema\": \"https://www.speedscope.app/file-format-schema.json\",\n  \"shared\": {\n    \"frames\": [\n",
    );
    let mut fpart = render_frames(frames);
    out.append(&mut fpart);
    push_str_bytes(
        &mut out,
        "    ]\n  },\n  \"profiles\": [\n    {\n      \"name\": \"tacit\",\n      \"type\": \"evented\",\n      \"unit\": \"none\",\n      \"startValue\": ",
    );
    push_dec_u64(&mut out, start);
    push_str_bytes(&mut out, ",\n      \"endValue\": ");
    push_dec_u64(&mut out, end);
    push_str_bytes(&mut out, ",\n      \"events\": [\n");
    let mut epart = render_events(entries);
    out.append(&mut epart);
    push_str_bytes(&mut out, "      ]\n    }\n  ]\n}\n");
    proof {
        assert(out@ =~= spec_speedscope_json(
            frames@.map_values(|s: SymbolInfo| s@),
            start,
            end,
            entries@,
        ));
    }
    out
}

impl SpeedscopeReceiver {
    /// Close whatever frames are still open at the end timestamp — one
    /// close event per open frame, top first — then render the document.
    /// Law: the emitted events hold exactly as many opens as closes.
    #[verifier::loop_isolation(false)]
    pub fn _flush(&mut self) -> (r: Vec<u8>)
        requires
            old(self).wf(),
        ensures
            final(self).wf(),
            final(self).frames == old(self).frames,
            final(self).start == old(self).start,
            final(self).end == old(self).end,
            ({
                let stack0 = old(self).stack_unwinder.frame_stack@;
                let n0 = old(self).profile_entries@.len() as int;
                &&& final(self).profile_entries@.len() == n0 + stack0.len()
                &&& final(self).profile_entries@.subrange(0, n0) == old(self).profile_entries@
                &&& forall|k: int|
                    0 <= k < stack0.len() ==> #[trigger] final(self).profile_entries@[n0 + k]
                        == (ProfileEntry {
                        open_frame: false,
                        frame: stack0[stack0.len() - 1 - k],
                        at: old(self).end,
                    })
            }),
            spec_count_open(final(self).profile_entries@) == spec_count_close(
                final(self).profile_entries@,
            ),
            r@ == spec_speedscope_json(
                final(self).frames@.map_values(|s: SymbolInfo| s@),
                final(self).start,
                final(self).end,
                final(self).profile_entries@,
            ),
    {
        let ghost stack0 = self.stack_unwinder.frame_stack@;
        let ghost sv = syms_view(self.stack_unwinder.func_symbols@);
        let ghost n0 = self.profile_entries@.len() as int;
        let closed = self.stack_unwinder.flush();
        let at = self.end;
        let mut k: usize = 0;
        while k < closed.len()
            invariant
                0 <= k <= closed@.len(),
                closed@.len() == stack0.len(),
                self.stack_unwinder.frame_stack@.len() == 0,
                self.stack_unwinder.wf(),
                self.stack_unwinder.func_symbols == old(self).stack_unwinder.func_symbols,
                self.profile_entries@.len() == n0 + k,
                self.profile_entries@.subrange(0, n0) == old(self).profile_entries@,
                forall|q: int|
                    0 <= q < k ==> #[trigger] self.profile_entries@[n0 + q] == (ProfileEntry {
                        open_frame: false,
                        frame: stack0[stack0.len() - 1 - q],
                        at: old(self).end,
                    }),
                spec_count_open(self.profile_entries@) == spec_count_close(self.profile_entries@)
                    + (closed@.len() - k),
                self.frames == old(self).frames,
                self.start == old(self).start,
                self.end == old(self).end,
                self.checksum == old(self).checksum,
            decreases closed@.len() - k,
        {
            let frame = closed[k].index;
            proof {
                assert(closed@[k as int]@ == sv[stack0[stack0.len() - 1 - k] as int].info);
                assert(sv[stack0[stack0.len() - 1 - k] as int].info.index == stack0[stack0.len()
                    - 1 - k]);
            }
            let ghost pre = self.profile_entries@;
            self.profile_entries.push(ProfileEntry { open_frame: false, frame, at });
            proof {
                assert(self.profile_entries@.drop_last() =~= pre);
                assert(self.profile_entries@.subrange(0, n0) =~= old(self).profile_entries@);
            }
            k = k + 1;
        }
        render_profile(&self.frames, self.start, self.end, &self.profile_entries)
    }
}

} // verus!
