//! The AFDO-style histogram sink: range and branch counters keyed by
//! address pairs, written as a text histogram relative to the load
//! address.

use crate::event::{Entry, Event};
use crate::render::{lit, push_dec_u64, push_hex_u64, push_str_bytes, spec_dec_bytes,
    spec_hex_bytes};
use vstd::prelude::*;

verus! {

/// One counter of an address-pair histogram.
#[derive(Debug, Clone, Copy, PartialEq, Eq, Structural)]
pub struct CounterEntry {
    pub a: u64,
    pub b: u64,
    pub count: u64,
}

/// The first index carrying the key, or -1.
pub open spec fn counter_index(s: Seq<CounterEntry>, a: u64, b: u64) -> int
    decreases s.len(),
{
    if s.len() == 0 {
        -1
    } else if s[0].a == a && s[0].b == b {
        0
    } else {
        let r = counter_index(s.drop_first(), a, b);
        if r < 0 {
            -1
        } else {
            r + 1
        }
    }
}

/// Step a histogram at a key: a fresh key enters with count one at the
/// end, a known key's count grows by one, saturating.
pub open spec fn spec_bump(s: Seq<CounterEntry>, a: u64, b: u64) -> Seq<CounterEntry> {
    let i = counter_index(s, a, b);
    if i < 0 {
        s.push(CounterEntry { a, b, count: 1 })
    } else {
        s.update(
            i,
            CounterEntry {
                a,
                b,
                count: if s[i].count < u64::MAX {
                    (s[i].count + 1) as u64
                } else {
                    u64::MAX
                },
            },
        )
    }
}

/// `counter_index` finds the first match.
proof fn lemma_counter_index_first(s: Seq<CounterEntry>, a: u64, b: u64, i: int)
    requires
        0 <= i <= s.len(),
        forall|k: int| 0 <= k < i ==> s[k].a != a || s[k].b != b,
        i == s.len() || (s[i].a == a && s[i].b == b),
    ensures
        counter_index(s, a, b) == if i == s.len() {
            -1int
        } else {
            i
        },
    decreases s.len(),
{
    if s.len() > 0 && !(s[0].a == a && s[0].b == b) {
        let t = s.drop_first();
        assert(forall|k: int| 0 <= k < i - 1 ==> t[k] == s[k + 1]);
        lemma_counter_index_first(t, a, b, i - 1);
    }
}

/// Step a histogram at a key.
#[verifier::loop_isolation(false)]
fn bump(map: &mut Vec<CounterEntry>, a: u64, b: u64)
    ensures
        final(map)@ == spec_bump(old(map)@, a, b),
{
    let ghost s0 = map@;
    let mut i: usize = 0;
    while i < map.len()
        invariant
            0 <= i <= s0.len(),
            map@ == s0,
            forall|k: int| 0 <= k < i ==> s0[k].a != a || s0[k].b != b,
        decreases s0.len() - i,
    {
        if map[i].a == a && map[i].b == b {
            proof {
                lemma_counter_index_first(s0, a, b, i as int);
            }
            let c = map[i].count;
            let blk = &mut map[i];
            *blk = CounterEntry {
                a,
                b,
                count: if c < u64::MAX {
                    c + 1
                } else {
                    u64::MAX
                },
            };
            return ;
        }
        i = i + 1;
    }
    proof {
        lemma_counter_index_first(s0, a, b, s0.len() as int);
    }
    map.push(CounterEntry { a, b, count: 1 });
}

/// The AFDO histogram sink.
pub struct AfdoReceiver {
    pub range_map: Vec<CounterEntry>,
    pub branch_map: Vec<CounterEntry>,
    pub last_record: (u64, u64),
    pub elf_start: u64,
    pub checksum: u64,
}

/// The lines of one histogram: each key pair relative to the load
/// address, then its count.
pub open spec fn spec_afdo_lines(s: Seq<CounterEntry>, elf_start: u64, arrow: Seq<char>) -> Seq<u8>
    decreases s.len(),
{
    if s.len() == 0 {
        Seq::empty()
    } else {
        spec_afdo_lines(s.drop_last(), elf_start, arrow) + spec_hex_bytes(
            (s.last().a - elf_start) as nat,
        ) + lit(arrow) + spec_hex_bytes((s.last().b - elf_start) as nat) + lit(":"@)
            + spec_dec_bytes(s.last().count as nat) + lit("\n"@)
    }
}

/// The whole histogram file: the range lines, a zero sample record, the
/// branch lines, each block preceded by its length.
pub open spec fn spec_afdo_output(
    range_map: Seq<CounterEntry>,
    branch_map: Seq<CounterEntry>,
    elf_start: u64,
) -> Seq<u8> {
    spec_dec_bytes(range_map.len() as nat) + lit("\n"@) + spec_afdo_lines(
        range_map,
        elf_start,
        "-"@,
    ) + lit("0\n"@) + spec_dec_bytes(branch_map.len() as nat) + lit("\n"@) + spec_afdo_lines(
        branch_map,
        elf_start,
        "->"@,
    )
}

/// Do all recorded addresses sit at or above the load address?
pub open spec fn spec_keys_in_range(s: Seq<CounterEntry>, elf_start: u64) -> bool {
    forall|k: int|
        0 <= k < s.len() ==> (#[trigger] s[k]).a >= elf_start && s[k].b >= elf_start
}

impl AfdoReceiver {
    /// An empty histogram for a binary loaded at `elf_start`.
    pub fn new(elf_start: u64) -> (r: AfdoReceiver)
        ensures
            r.range_map@ == Seq::<CounterEntry>::empty(),
            r.branch_map@ == Seq::<CounterEntry>::empty(),
            r.last_record == (0u64, 0u64),
            r.elf_start == elf_start,
            r.checksum == 0,
    {
        AfdoReceiver {
            range_map: Vec::new(),
            branch_map: Vec::new(),
            last_record: (0, 0),
            elf_start,
            checksum: 0,
        }
    }

    /// Count one delivered event.
    pub fn _bump_checksum(&mut self)
        requires
            old(self).checksum < u64::MAX,
        ensures
            final(self).checksum == old(self).checksum + 1,
            final(self).range_map == old(self).range_map,
            final(self).branch_map == old(self).branch_map,
            final(self).last_record == old(self).last_record,
            final(self).elf_start == old(self).elf_start,
    {
        self.checksum = self.checksum + 1;
    }

    /// Fold one event in: the start event seeds the last record; a taken
    /// branch or jump extends the range histogram from the last record
    /// and the branch histogram with its arc.
    pub fn _receive_entry(&mut self, entry: &Entry)
        ensures
            final(self).elf_start == old(self).elf_start,
            final(self).checksum == old(self).checksum,
            match entry.event {
                Event::Start => final(self).range_map == old(self).range_map
                    && final(self).branch_map == old(self).branch_map
                    && final(self).last_record == (0u64, entry.arc.0),
                Event::TakenBranch | Event::InferrableJump | Event::UninferableJump => {
                    &&& final(self).range_map@ == spec_bump(
                        old(self).range_map@,
                        old(self).last_record.1,
                        entry.arc.0,
                    )
                    &&& final(self).branch_map@ == spec_bump(
                        old(self).branch_map@,
                        entry.arc.0,
                        entry.arc.1,
                    )
                    &&& final(self).last_record == (entry.arc.0, entry.arc.1)
                },
                _ => *final(self) == *old(self),
            },
    {
        match entry.event {
            Event::Start => {
                self.last_record = (0, entry.arc.0);
            },
            Event::TakenBranch | Event::InferrableJump | Event::UninferableJump => {
                bump(&mut self.range_map, self.last_record.1, entry.arc.0);
                bump(&mut self.branch_map, entry.arc.0, entry.arc.1);
                self.last_record = (entry.arc.0, entry.arc.1);
            },
            _ => {},
        }
    }

    /// Render the histogram file.
    #[verifier::loop_isolation(false)]
    #[verifier::rlimit(100)]
    pub fn _flush(&self) -> (r: Vec<u8>)
        requires
            spec_keys_in_range(self.range_map@, self.elf_start),
            spec_keys_in_range(self.branch_map@, self.elf_start),
        ensures
            r@ == spec_afdo_output(self.range_map@, self.branch_map@, self.elf_start),
    {
        let mut out: Vec<u8> = Vec::new();
        push_dec_u64(&mut out, self.range_map.len() as u64);
        push_str_bytes(&mut out, "\n");
        let ghost h1 = out@;
        let mut i: usize = 0;
        while i < self.range_map.len()
            invariant
                0 <= i <= self.range_map@.len(),
                out@ == h1 + spec_afdo_lines(
                    self.range_map@.subrange(0, i as int),
                    self.elf_start,
                    "-"@,
                ),
            decreases self.range_map@.len() - i,
        {
            let e = self.range_map[i];
            push_hex_u64(&mut out, e.a - self.elf_start);
            push_str_bytes(&mut out, "-");
            push_hex_u64(&mut out, e.b - self.elf_start);
            push_str_bytes(&mut out, ":");
            push_dec_u64(&mut out, e.count);
            push_str_bytes(&mut out, "\n");
            i = i + 1;
            proof {
                let cur = self.range_map@.subrange(0, i as int);
                assert(cur.drop_last() =~= self.range_map@.subrange(0, i - 1));
                assert(cur.last() == self.range_map@[i - 1]);
                assert(out@ =~= h1 + spec_afdo_lines(cur, self.elf_start, "-"@));
            }
        }
        proof {
            assert(self.range_map@.subrange(0, self.range_map@.len() as int) =~= self.range_map@);
        }
        push_str_bytes(&mut out, "0\n");
        push_dec_u64(&mut out, self.branch_map.len() as u64);
        push_str_bytes(&mut out, "\n");
        let ghost h2 = out@;
        let mut j: usize = 0;
        while j < self.branch_map.len()
            invariant
                0 <= j <= self.branch_map@.len(),
                out@ == h2 + spec_afdo_lines(
                    self.branch_map@.subrange(0, j as int),
                    self.elf_start,
                    "->"@,
                ),
            decreases self.branch_map@.len() - j,
        {
            let e = self.branch_map[j];
            push_hex_u64(&mut out, e.a - self.elf_start);
            push_str_bytes(&mut out, "->");
            push_hex_u64(&mut out, e.b - self.elf_start);
            push_str_bytes(&mut out, ":");
            push_dec_u64(&mut out, e.count);
            push_str_bytes(&mut out, "\n");
            j = j + 1;
            proof {
                let cur = self.branch_map@.subrange(0, j as int);
                assert(cur.drop_last() =~= self.branch_map@.subrange(0, j - 1));
                assert(cur.last() == self.branch_map@[j - 1]);
                assert(out@ =~= h2 + spec_afdo_lines(cur, self.elf_start, "->"@));
            }
        }
        proof {
            assert(self.branch_map@.subrange(0, self.branch_map@.len() as int)
                =~= self.branch_map@);
            assert(out@ =~= spec_afdo_output(self.range_map@, self.branch_map@, self.elf_start));
        }
        out
    }
}

} // verus!
