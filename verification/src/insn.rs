//! The instruction records of the disassembled text section and the
//! address-keyed index the reconstructor walks.

use crate::packet::TraceError;
use std::collections::HashMap;
use vstd::prelude::*;

verus! {

broadcast use vstd::std_specs::hash::group_hash_axioms;

/// Everything the pipeline keeps of one disassembled instruction.
#[derive(Debug, Clone)]
pub struct InsnInfo {
    pub address: u64,
    pub len: usize,
    pub bytes: Vec<u8>,
    pub mnemonic: String,
    pub op_str: String,
}

/// The view of an [`InsnInfo`].
pub struct InsnInfoV {
    pub address: u64,
    pub len: usize,
    pub bytes: Seq<u8>,
    pub mnemonic: Seq<char>,
    pub op_str: Seq<char>,
}

impl View for InsnInfo {
    type V = InsnInfoV;

    open spec fn view(&self) -> InsnInfoV {
        InsnInfoV {
            address: self.address,
            len: self.len,
            bytes: self.bytes@,
            mnemonic: self.mnemonic@,
            op_str: self.op_str@,
        }
    }
}

/// Copy a byte vector.
#[verifier::loop_isolation(false)]
pub fn clone_bytes(v: &Vec<u8>) -> (r: Vec<u8>)
    ensures
        r@ == v@,
{
    let mut out: Vec<u8> = Vec::new();
    let mut i: usize = 0;
    while i < v.len()
        invariant
            0 <= i <= v@.len(),
            out@ =~= v@.subrange(0, i as int),
        decreases v@.len() - i,
    {
        out.push(v[i]);
        i = i + 1;
        proof {
            assert(out@ =~= v@.subrange(0, i as int));
        }
    }
    proof {
        assert(v@.subrange(0, v@.len() as int) =~= v@);
    }
    out
}

impl InsnInfo {
    /// Copy one instruction record.
    pub fn duplicate(&self) -> (r: InsnInfo)
        ensures
            r@ == self@,
    {
        InsnInfo {
            address: self.address,
            len: self.len,
            bytes: clone_bytes(&self.bytes),
            mnemonic: self.mnemonic.clone(),
            op_str: self.op_str.clone(),
        }
    }
}

/// The views of a raw instruction map.
pub open spec fn insn_map_view(m: Map<u64, InsnInfo>) -> Map<u64, InsnInfoV> {
    m.map_values(|i: InsnInfo| i@)
}

/// The views of a list of instruction records.
pub open spec fn insn_views(s: Seq<InsnInfo>) -> Seq<InsnInfoV> {
    s.map_values(|i: InsnInfo| i@)
}

/// The last list index holding this address, or -1.
pub open spec fn last_insn_at(s: Seq<InsnInfoV>, a: u64) -> int
    decreases s.len(),
{
    if s.len() == 0 {
        -1
    } else if s.last().address == a {
        s.len() - 1
    } else {
        last_insn_at(s.drop_last(), a)
    }
}

/// A found last index is in bounds.
proof fn lemma_last_insn_bound(s: Seq<InsnInfoV>, a: u64)
    ensures
        last_insn_at(s, a) < s.len(),
    decreases s.len(),
{
    if s.len() > 0 && s.last().address != a {
        lemma_last_insn_bound(s.drop_last(), a);
    }
}

/// Is an instruction record well-formed for this index: stored under its
/// own address, two or four bytes long?
pub open spec fn insn_wf(addr: u64, i: InsnInfoV) -> bool {
    i.address == addr && (i.len == 2 || i.len == 4)
}

/// The address-keyed instruction index, immutable after construction.
/// Every record sits under its own address and is 2 or 4 bytes long.
pub struct InsnMap {
    pub map: HashMap<u64, InsnInfo>,
}

impl View for InsnMap {
    type V = Map<u64, InsnInfoV>;

    open spec fn view(&self) -> Map<u64, InsnInfoV> {
        insn_map_view(self.map@)
    }
}

impl InsnMap {
    /// Does every record of the index sit under its own address with a
    /// two- or four-byte length?
    pub open spec fn wf(&self) -> bool {
        forall|a: u64| self@.contains_key(a) ==> insn_wf(a, #[trigger] self@[a])
    }

    /// Build the index from disassembled records. A record whose length
    /// is not two or four bytes cannot come from this instruction set
    /// and is a consistency error.
    #[verifier::loop_isolation(false)]
    pub fn from_insns(insns: Vec<InsnInfo>) -> (r: Result<InsnMap, TraceError>)
        ensures
            match r {
                Ok(m) => m.wf() && (forall|k: int|
                    0 <= k < insns@.len() ==> m@.contains_key(
                        (#[trigger] insns@[k])@.address,
                    )) && (forall|a: u64|
                        m@.contains_key(a) ==> exists|k: int|
                            0 <= k < insns@.len() && (#[trigger] insns@[k])@.address == a)
                    && (forall|a: u64|
                        #[trigger] m@.contains_key(a) ==> last_insn_at(insn_views(insns@), a) >= 0
                            && m@[a] == insn_views(insns@)[last_insn_at(insn_views(insns@), a)]),
                Err(e) => e == TraceError::Consistency && exists|k: int|
                    0 <= k < insns@.len() && ((#[trigger] insns@[k])@.len != 2 && insns@[k]@.len
                        != 4),
            },
    {
        let mut map: HashMap<u64, InsnInfo> = HashMap::new();
        let mut i: usize = 0;
        while i < insns.len()
            invariant
                0 <= i <= insns@.len(),
                forall|a: u64|
                    map@.contains_key(a) ==> insn_wf(a, #[trigger] insn_map_view(map@)[a]),
                forall|k: int|
                    0 <= k < i ==> map@.contains_key((#[trigger] insns@[k])@.address),
                forall|a: u64|
                    map@.contains_key(a) ==> exists|k: int|
                        0 <= k < insns@.len() && (#[trigger] insns@[k])@.address == a,
                forall|a: u64|
                    #[trigger] map@.contains_key(a) ==> last_insn_at(
                        insn_views(insns@).subrange(0, i as int),
                        a,
                    ) >= 0 && insn_map_view(map@)[a] == insn_views(insns@).subrange(0, i as int)[
                        last_insn_at(insn_views(insns@).subrange(0, i as int), a)],
            decreases insns@.len() - i,
    {
            let insn = &insns[i];
            if insn.len != 2 && insn.len != 4 {
                return Err(TraceError::Consistency);
            }
            let addr = insn.address;
            let ghost m0 = map@;
            let dup = insn.duplicate();
            let ghost dv = dup@;
            map.insert(addr, dup);
            proof {
                let vs = insn_views(insns@);
                let pre = vs.subrange(0, i as int);
                let cur = vs.subrange(0, i + 1);
                assert(cur.drop_last() =~= pre);
                assert(cur.last() == vs[i as int]);
                assert(vs[i as int].address == addr);
                assert forall|a: u64| map@.contains_key(a) implies insn_wf(
                    a,
                    #[trigger] insn_map_view(map@)[a],
                ) && last_insn_at(cur, a) >= 0 && insn_map_view(map@)[a] == cur[last_insn_at(
                    cur,
                    a,
                )] by {
                    if a == addr {
                        assert(insn_map_view(map@)[a] == dv);
                        assert(vs[i as int] == dv);
                        assert(last_insn_at(cur, a) == i as int);
                        assert(cur[i as int] == dv);
                    } else {
                        assert(m0.contains_key(a));
                        assert(map@[a] == m0[a]);
                        assert(insn_map_view(map@)[a] == insn_map_view(m0)[a]);
                        assert(last_insn_at(cur, a) == last_insn_at(pre, a));
                        lemma_last_insn_bound(pre, a);
                        let la = last_insn_at(pre, a);
                        assert(0 <= la < pre.len());
                        assert(cur[la] == pre[la]);
                    }
                }
            }
            i = i + 1;
        }
        proof {
            assert(insn_views(insns@).subrange(0, insns@.len() as int) =~= insn_views(insns@));
        }
        Ok(InsnMap { map })
    }

    /// Look an address up.
    pub fn get(&self, addr: u64) -> (r: Option<&InsnInfo>)
        ensures
            match r {
                Some(i) => self@.contains_key(addr) && i@ == self@[addr],
                None => !self@.contains_key(addr),
            },
    {
        self.map.get(&addr)
    }

    /// Does the index hold an address?
    pub fn contains(&self, addr: u64) -> (r: bool)
        ensures
            r == self@.contains_key(addr),
    {
        self.map.contains_key(&addr)
    }
}

} // verus!
