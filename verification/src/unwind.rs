//! The synthetic call-frame stack maintained from control-flow events
//! alone: inferable jumps into known function starts open frames,
//! uninferable jumps through return instructions close them.

use crate::cfg::SourceLocation;
use crate::decoder::streq;
use crate::event::{Entry, Event};
use crate::insn::{InsnInfo, InsnMap};
use crate::packet::TraceError;
use vstd::prelude::*;

verus! {

/// Everything the profile sinks need to know of one function symbol.
#[derive(Debug)]
pub struct SymbolInfo {
    pub name: String,
    pub index: u32,
    pub line: u32,
    pub file: String,
}

/// The view of a [`SymbolInfo`].
pub struct SymbolInfoV {
    pub name: Seq<char>,
    pub index: u32,
    pub line: u32,
    pub file: Seq<char>,
}

impl View for SymbolInfo {
    type V = SymbolInfoV;

    open spec fn view(&self) -> SymbolInfoV {
        SymbolInfoV { name: self.name@, index: self.index, line: self.line, file: self.file@ }
    }
}

impl Clone for SymbolInfo {
    /// A symbol equal to this one under the view.
    fn clone(&self) -> (r: SymbolInfo)
        ensures
            r@ == self@,
    {
        SymbolInfo {
            name: self.name.clone(),
            index: self.index,
            line: self.line,
            file: self.file.clone(),
        }
    }
}

/// One entry of the function table: a start address and its symbol.
#[derive(Debug)]
pub struct FuncSym {
    pub addr: u64,
    pub info: SymbolInfo,
}

/// The view of a [`FuncSym`].
pub struct FuncSymV {
    pub addr: u64,
    pub info: SymbolInfoV,
}

impl View for FuncSym {
    type V = FuncSymV;

    open spec fn view(&self) -> FuncSymV {
        FuncSymV { addr: self.addr, info: self.info@ }
    }
}

/// The views of a function table.
pub open spec fn syms_view(t: Seq<FuncSym>) -> Seq<FuncSymV> {
    t.map_values(|f: FuncSym| f@)
}

/// The first table index holding this start address, or -1.
pub open spec fn sym_index(syms: Seq<FuncSymV>, addr: u64) -> int
    decreases syms.len(),
{
    if syms.len() == 0 {
        -1
    } else if syms[0].addr == addr {
        0
    } else {
        let r = sym_index(syms.drop_first(), addr);
        if r < 0 {
            -1
        } else {
            r + 1
        }
    }
}

/// `sym_index` finds the first match.
pub proof fn lemma_sym_index_first(syms: Seq<FuncSymV>, addr: u64, i: int)
    requires
        0 <= i <= syms.len(),
        forall|k: int| 0 <= k < i ==> syms[k].addr != addr,
        i == syms.len() || syms[i].addr == addr,
    ensures
        sym_index(syms, addr) == if i == syms.len() {
            -1int
        } else {
            i
        },
    decreases syms.len(),
{
    if syms.len() > 0 && syms[0].addr != addr {
        let t = syms.drop_first();
        assert(forall|k: int| 0 <= k < i - 1 ==> t[k] == syms[k + 1] && t[k].addr != addr);
        lemma_sym_index_first(t, addr, i - 1);
    }
}

/// A found index is in bounds and holds the address.
pub proof fn lemma_sym_index_found(syms: Seq<FuncSymV>, addr: u64)
    requires
        sym_index(syms, addr) >= 0,
    ensures
        sym_index(syms, addr) < syms.len(),
        syms[sym_index(syms, addr)].addr == addr,
    decreases syms.len(),
{
    if syms.len() > 0 && syms[0].addr != addr {
        lemma_sym_index_found(syms.drop_first(), addr);
    }
}

/// Find the table entry with this start address.
#[verifier::loop_isolation(false)]
pub fn find_sym(syms: &Vec<FuncSym>, addr: u64) -> (r: Option<usize>)
    ensures
        ({
            let si = sym_index(syms_view(syms@), addr);
            match r {
                Some(i) => si == i && i < syms@.len(),
                None => si == -1,
            }
        }),
{
    let ghost sv = syms_view(syms@);
    let mut i: usize = 0;
    while i < syms.len()
        invariant
            0 <= i <= syms@.len(),
            forall|k: int| 0 <= k < i ==> sv[k].addr != addr,
        decreases syms@.len() - i,
    {
        if syms[i].addr == addr {
            proof {
                lemma_sym_index_first(sv, addr, i as int);
            }
            return Some(i);
        }
        i = i + 1;
    }
    proof {
        lemma_sym_index_first(sv, addr, syms@.len() as int);
    }
    None
}

/// Is the instruction a return: `ret`, or `c.jr` through `ra`?
pub open spec fn spec_is_return(m: Seq<char>, op: Seq<char>) -> bool {
    m == "ret"@ || (m == "c.jr"@ && op == "ra"@)
}

/// Unwind the frame stack against a return target: pop until the top
/// frame's address range contains the target or the stack empties.
/// Returns the popped indices, top first, and what remains.
pub open spec fn spec_unwind(stack: Seq<u32>, ranges: Seq<(u64, u64)>, target: u64) -> (
    Seq<u32>,
    Seq<u32>,
)
    decreases stack.len(),
{
    if stack.len() == 0 {
        (Seq::empty(), stack)
    } else {
        let top = stack.last();
        let rg = ranges[top as int];
        if rg.0 <= target < rg.1 {
            (Seq::empty(), stack)
        } else {
            let (p, rem) = spec_unwind(stack.drop_last(), ranges, target);
            (seq![top] + p, rem)
        }
    }
}

/// What remains after an unwind is a prefix of the stack, and when it is
/// not empty its top frame's range contains the target.
pub proof fn lemma_unwind_props(stack: Seq<u32>, ranges: Seq<(u64, u64)>, target: u64)
    ensures
        ({
            let (p, rem) = spec_unwind(stack, ranges, target);
            &&& rem == stack.subrange(0, rem.len() as int)
            &&& rem.len() <= stack.len()
            &&& p.len() + rem.len() == stack.len()
            &&& forall|k: int| 0 <= k < p.len() ==> #[trigger] p[k] == stack[stack.len() - 1 - k]
            &&& (rem.len() > 0 ==> 0 <= rem.last() < ranges.len()
                ==> ranges[rem.last() as int].0 <= target < ranges[rem.last() as int].1)
        }),
    decreases stack.len(),
{
    if stack.len() > 0 {
        let top = stack.last();
        let rg = ranges[top as int];
        if rg.0 <= target < rg.1 {
            assert(stack.subrange(0, stack.len() as int) =~= stack);
        } else {
            lemma_unwind_props(stack.drop_last(), ranges, target);
            let (p, rem) = spec_unwind(stack.drop_last(), ranges, target);
            assert(stack.drop_last().subrange(0, rem.len() as int) =~= stack.subrange(
                0,
                rem.len() as int,
            ));
        }
    }
}

/// The smallest table address strictly greater than `x`, if any.
pub open spec fn spec_is_min_greater(addrs: Seq<u64>, x: u64, m: u64) -> bool {
    &&& addrs.contains(m)
    &&& m > x
    &&& forall|k: int| 0 <= k < addrs.len() && addrs[k] > x ==> addrs[k] >= m
}

/// The smallest table address.
pub open spec fn spec_is_min(addrs: Seq<u64>, m: u64) -> bool {
    &&& addrs.contains(m)
    &&& forall|k: int| 0 <= k < addrs.len() ==> addrs[k] >= m
}

/// The smallest address strictly greater than `x`, or `None`.
#[verifier::loop_isolation(false)]
fn min_greater(addrs: &Vec<u64>, x: u64) -> (r: Option<u64>)
    ensures
        match r {
            Some(m) => spec_is_min_greater(addrs@, x, m),
            None => forall|k: int| 0 <= k < addrs@.len() ==> addrs@[k] <= x,
        },
{
    let mut best: Option<u64> = None;
    let mut i: usize = 0;
    while i < addrs.len()
        invariant
            0 <= i <= addrs@.len(),
            match best {
                Some(m) => addrs@.contains(m) && m > x && forall|k: int|
                    0 <= k < i && addrs@[k] > x ==> addrs@[k] >= m,
                None => forall|k: int| 0 <= k < i ==> addrs@[k] <= x,
            },
        decreases addrs@.len() - i,
    {
        let a = addrs[i];
        if a > x {
            match best {
                Some(m) => {
                    if a < m {
                        best = Some(a);
                    }
                },
                None => {
                    best = Some(a);
                },
            }
        }
        i = i + 1;
    }
    best
}

/// The smallest address of the table.
#[verifier::loop_isolation(false)]
fn min_all(addrs: &Vec<u64>) -> (r: u64)
    requires
        addrs@.len() > 0,
    ensures
        spec_is_min(addrs@, r),
{
    let mut best: u64 = addrs[0];
    let mut i: usize = 1;
    proof {
        assert(addrs@.contains(best));
    }
    while i < addrs.len()
        invariant
            1 <= i <= addrs@.len(),
            addrs@.contains(best),
            forall|k: int| 0 <= k < i ==> addrs@[k] >= best,
        decreases addrs@.len() - i,
    {
        if addrs[i] < best {
            best = addrs[i];
            proof {
                assert(addrs@.contains(best));
            }
        }
        i = i + 1;
    }
    best
}

/// The addresses of the function table, in table order.
pub open spec fn table_addrs(syms: Seq<FuncSymV>) -> Seq<u64> {
    syms.map_values(|f: FuncSymV| f.addr)
}

/// The first input index carrying this address, or -1.
pub open spec fn first_sym_occurrence(symbols: Seq<(u64, String)>, addr: u64) -> int
    decreases symbols.len(),
{
    if symbols.len() == 0 {
        -1
    } else if symbols[0].0 == addr {
        0
    } else {
        let r = first_sym_occurrence(symbols.drop_first(), addr);
        if r < 0 {
            -1
        } else {
            r + 1
        }
    }
}

/// `first_sym_occurrence` finds the first match.
proof fn lemma_first_occurrence_first(symbols: Seq<(u64, String)>, addr: u64, i: int)
    requires
        0 <= i <= symbols.len(),
        forall|k: int| 0 <= k < i ==> symbols[k].0 != addr,
        i == symbols.len() || symbols[i].0 == addr,
    ensures
        first_sym_occurrence(symbols, addr) == if i == symbols.len() {
            -1int
        } else {
            i
        },
    decreases symbols.len(),
{
    if symbols.len() > 0 && symbols[0].0 != addr {
        let t = symbols.drop_first();
        assert(forall|k: int| 0 <= k < i - 1 ==> t[k] == symbols[k + 1]);
        lemma_first_occurrence_first(t, addr, i - 1);
    }
}

/// Is `end` the successor of `start` among the table addresses: the
/// smallest address strictly greater, or — when `start` is the largest —
/// the smallest address of all?
pub open spec fn spec_range_end_ok(addrs: Seq<u64>, start: u64, end: u64) -> bool {
    if exists|k: int| 0 <= k < addrs.len() && addrs[k] > start {
        spec_is_min_greater(addrs, start, end)
    } else {
        spec_is_min(addrs, end)
    }
}

/// The frame stack and the read-only tables it leans on: the function
/// table in first-appearance order, each function's address range, and
/// the instruction index for return detection.
pub struct StackUnwinder {
    pub func_symbols: Vec<FuncSym>,
    pub ranges: Vec<(u64, u64)>,
    pub insn_map: InsnMap,
    pub frame_stack: Vec<u32>,
}

impl StackUnwinder {
    /// The tables agree: one range per function, starting at its
    /// address; indices are positions; addresses are unique; every open
    /// frame points into the table.
    pub open spec fn wf(&self) -> bool {
        &&& self.ranges@.len() == self.func_symbols@.len()
        &&& self.func_symbols@.len() <= u32::MAX
        &&& forall|i: int|
            0 <= i < self.func_symbols@.len() ==> (#[trigger] syms_view(
                self.func_symbols@,
            )[i]).info.index == i
        &&& forall|i: int|
            0 <= i < self.ranges@.len() ==> (#[trigger] self.ranges@[i]).0 == syms_view(
                self.func_symbols@,
            )[i].addr
        &&& forall|i: int, j: int|
            0 <= i < j < self.func_symbols@.len() ==> (#[trigger] syms_view(
                self.func_symbols@,
            )[i]).addr != (#[trigger] syms_view(self.func_symbols@)[j]).addr
        &&& forall|k: int|
            0 <= k < self.frame_stack@.len() ==> (#[trigger] self.frame_stack@[k])
                < self.func_symbols@.len()
    }

    /// Build the tables: dedup the text symbols on their address, first
    /// occurrence first, resolve each one's source location, and pair
    /// each address with its successor (the largest one wraps to the
    /// smallest).
    #[verifier::loop_isolation(false)]
    pub fn new(symbols: Vec<(u64, String)>, insns: Vec<InsnInfo>, loader: &addr2line::Loader) -> (r:
        Result<StackUnwinder, TraceError>)
        ensures
            match r {
                Ok(u) => {
                    let sv = syms_view(u.func_symbols@);
                    &&& u.wf()
                    &&& u.frame_stack@.len() == 0
                    &&& forall|k: int|
                        0 <= k < symbols@.len() ==> sym_index(
                            sv,
                            (#[trigger] symbols@[k]).0,
                        ) >= 0
                    &&& forall|i: int|
                        0 <= i < sv.len() ==> {
                            let fo = first_sym_occurrence(symbols@, (#[trigger] sv[i]).addr);
                            &&& 0 <= fo < symbols@.len()
                            &&& symbols@[fo].0 == sv[i].addr
                            &&& sv[i].info.name == symbols@[fo].1@
                        }
                    &&& forall|i: int, j: int|
                        0 <= i < j < sv.len() ==> first_sym_occurrence(
                            symbols@,
                            (#[trigger] sv[i]).addr,
                        ) < first_sym_occurrence(symbols@, (#[trigger] sv[j]).addr)
                    &&& forall|i: int|
                        0 <= i < u.ranges@.len() ==> spec_range_end_ok(
                            table_addrs(sv),
                            (#[trigger] u.ranges@[i]).0,
                            u.ranges@[i].1,
                        )
                },
                Err(_) => true,
            },
    {
        let insn_map = match InsnMap::from_insns(insns) {
            Ok(m) => m,
            Err(e) => { return Err(e) },
        };
        let mut func_symbols: Vec<FuncSym> = Vec::new();
        let mut i: usize = 0;
        while i < symbols.len()
            invariant
                0 <= i <= symbols@.len(),
                func_symbols@.len() <= i,
                func_symbols@.len() <= 0xffff_ffff,
                forall|p: int|
                    0 <= p < func_symbols@.len() ==> (#[trigger] syms_view(
                        func_symbols@,
                    )[p]).info.index == p,
                forall|p: int, q: int|
                    0 <= p < q < func_symbols@.len() ==> (#[trigger] syms_view(
                        func_symbols@,
                    )[p]).addr != (#[trigger] syms_view(func_symbols@)[q]).addr,
                forall|k: int|
                    0 <= k < i ==> sym_index(
                        syms_view(func_symbols@),
                        (#[trigger] symbols@[k]).0,
                    ) >= 0,
                forall|p: int|
                    0 <= p < func_symbols@.len() ==> exists|k: int|
                        0 <= k < symbols@.len() && (#[trigger] syms_view(func_symbols@)[p]).addr
                            == symbols@[k].0,
                forall|p: int|
                    0 <= p < func_symbols@.len() ==> {
                        let fo = first_sym_occurrence(
                            symbols@,
                            (#[trigger] syms_view(func_symbols@)[p]).addr,
                        );
                        &&& 0 <= fo < i
                        &&& symbols@[fo].0 == syms_view(func_symbols@)[p].addr
                        &&& syms_view(func_symbols@)[p].info.name == symbols@[fo].1@
                    },
                forall|p: int, q: int|
                    0 <= p < q < func_symbols@.len() ==> first_sym_occurrence(
                        symbols@,
                        (#[trigger] syms_view(func_symbols@)[p]).addr,
                    ) < first_sym_occurrence(
                        symbols@,
                        (#[trigger] syms_view(func_symbols@)[q]).addr,
                    ),
            decreases symbols@.len() - i,
        {
            let addr = symbols[i].0;
            let ghost sv0 = syms_view(func_symbols@);
            match find_sym(&func_symbols, addr) {
                Some(_) => {
                    // A later alias of an address already seen is
                    // dropped, as the first occurrence wins.
                    proof {
                        assert(sym_index(sv0, addr) >= 0);
                    }
                },
                None => {
                    let raw = match crate::lines::resolve_location(loader, addr) {
                        Ok(l) => l,
                        Err(e) => { return Err(e) },
                    };
                    let loc: SourceLocation = SourceLocation::from_addr2line(raw);
                    if func_symbols.len() >= 0xffff_ffff {
                        return Err(TraceError::Consistency);
                    }
                    let index = func_symbols.len() as u32;
                    let name = symbols[i].1.clone();
                    func_symbols.push(
                        FuncSym {
                            addr,
                            info: SymbolInfo { name, index, line: loc.lines, file: loc.file },
                        },
                    );
                    proof {
                        assert(syms_view(func_symbols@) =~= sv0.push(func_symbols@.last()@));
                        assert forall|k: int| 0 <= k < i + 1 implies sym_index(
                            syms_view(func_symbols@),
                            (#[trigger] symbols@[k]).0,
                        ) >= 0 by {
                            lemma_sym_index_push(sv0, func_symbols@.last()@, symbols@[k].0);
                        }
                        lemma_sym_index_absent(sv0, addr);
                        // The pushed address was never seen before: any
                        // earlier occurrence would already be in the
                        // table.
                        assert forall|k: int| 0 <= k < i implies symbols@[k].0 != addr by {
                            if symbols@[k].0 == addr {
                                assert(sym_index(sv0, symbols@[k].0) >= 0);
                            }
                        }
                        lemma_first_occurrence_first(symbols@, addr, i as int);
                        assert(first_sym_occurrence(symbols@, addr) == i as int);
                    }
                },
            }
            i = i + 1;
        }
        // Derive each function's address range from its successor.
        let mut addrs: Vec<u64> = Vec::new();
        let mut j: usize = 0;
        while j < func_symbols.len()
            invariant
                0 <= j <= func_symbols@.len(),
                addrs@.len() == j,
                forall|p: int| 0 <= p < j ==> addrs@[p] == syms_view(func_symbols@)[p].addr,
            decreases func_symbols@.len() - j,
        {
            addrs.push(func_symbols[j].addr);
            j = j + 1;
        }
        proof {
            assert(addrs@ =~= table_addrs(syms_view(func_symbols@)));
        }
        let mut ranges: Vec<(u64, u64)> = Vec::new();
        let mut k: usize = 0;
        while k < func_symbols.len()
            invariant
                0 <= k <= func_symbols@.len(),
                addrs@.len() == func_symbols@.len(),
                addrs@ == table_addrs(syms_view(func_symbols@)),
                ranges@.len() == k,
                forall|p: int|
                    0 <= p < k ==> (#[trigger] ranges@[p]).0 == syms_view(func_symbols@)[p].addr,
                forall|p: int|
                    0 <= p < k ==> spec_range_end_ok(
                        table_addrs(syms_view(func_symbols@)),
                        (#[trigger] ranges@[p]).0,
                        ranges@[p].1,
                    ),
            decreases func_symbols@.len() - k,
        {
            let a = func_symbols[k].addr;
            let end = match min_greater(&addrs, a) {
                Some(m) => m,
                None => min_all(&addrs),
            };
            ranges.push((a, end));
            k = k + 1;
        }
        let u = StackUnwinder { func_symbols, ranges, insn_map, frame_stack: Vec::new() };
        proof {
            assert(u.ranges@.len() == u.func_symbols@.len());
            assert(u.func_symbols@.len() <= u32::MAX);
            assert(forall|i: int|
                0 <= i < u.func_symbols@.len() ==> (#[trigger] syms_view(
                    u.func_symbols@,
                )[i]).info.index == i);
            assert(forall|i: int|
                0 <= i < u.ranges@.len() ==> (#[trigger] u.ranges@[i]).0 == syms_view(
                    u.func_symbols@,
                )[i].addr);
            assert(forall|i: int, j: int|
                0 <= i < j < u.func_symbols@.len() ==> (#[trigger] syms_view(
                    u.func_symbols@,
                )[i]).addr != (#[trigger] syms_view(u.func_symbols@)[j]).addr);
            assert(forall|k: int|
                0 <= k < u.frame_stack@.len() ==> (#[trigger] u.frame_stack@[k])
                    < u.func_symbols@.len());
            assert(u.wf());
            assert(forall|k: int|
                0 <= k < symbols@.len() ==> sym_index(
                    syms_view(u.func_symbols@),
                    (#[trigger] symbols@[k]).0,
                ) >= 0);
            assert forall|i: int| 0 <= i < u.func_symbols@.len() implies exists|k: int|
                0 <= k < symbols@.len() && (#[trigger] syms_view(u.func_symbols@)[i]).addr
                    == symbols@[k].0 by {
                assert(syms_view(u.func_symbols@)[i] == syms_view(func_symbols@)[i]);
                let k = choose|k: int|
                    0 <= k < symbols@.len() && syms_view(func_symbols@)[i].addr == symbols@[k].0;
                assert(0 <= k < symbols@.len() && syms_view(u.func_symbols@)[i].addr
                    == symbols@[k].0);
            }
        }
        Ok(u)
    }

    /// The function table, address first, in first-appearance order.
    pub fn func_symbol_map(&self) -> (r: &Vec<FuncSym>)
        ensures
            r == &self.func_symbols,
    {
        &self.func_symbols
    }

    /// An inferable jump opens a frame exactly when its destination is
    /// the start address of a known function.
    pub fn step_ij(&mut self, entry: Entry) -> (r: (bool, usize, Option<SymbolInfo>))
        requires
            old(self).wf(),
            entry.event == Event::InferrableJump,
        ensures
            final(self).wf(),
            final(self).func_symbols == old(self).func_symbols,
            final(self).ranges == old(self).ranges,
            final(self).insn_map == old(self).insn_map,
            ({
                let si = sym_index(syms_view(old(self).func_symbols@), entry.arc.1);
                if si >= 0 {
                    &&& final(self).frame_stack@ == old(self).frame_stack@.push(si as u32)
                    &&& r.0 == true
                    &&& r.1 == final(self).frame_stack@.len()
                    &&& r.2 matches Some(info) && info@ == syms_view(
                        old(self).func_symbols@,
                    )[si].info
                } else {
                    &&& final(self).frame_stack == old(self).frame_stack
                    &&& r.0 == false
                    &&& r.1 == final(self).frame_stack@.len()
                    &&& r.2 is None
                }
            }),
    {
        let ghost sv = syms_view(self.func_symbols@);
        match find_sym(&self.func_symbols, entry.arc.1) {
            Some(i) => {
                proof {
                    lemma_sym_index_found(sv, entry.arc.1);
                }
                let frame_idx = self.func_symbols[i].info.index;
                self.frame_stack.push(frame_idx);
                (true, self.frame_stack.len(), Some(self.func_symbols[i].info.clone()))
            },
            None => (false, self.frame_stack.len(), None),
        }
    }

    /// An uninferable jump through a return instruction closes frames
    /// until the top frame's range contains the target. Law: this never
    /// returns with a non-empty stack whose top frame's range misses the
    /// target.
    #[verifier::loop_isolation(false)]
    pub fn step_uj(&mut self, entry: Entry) -> (r: Result<(bool, usize, Vec<SymbolInfo>),
        TraceError>)
        requires
            old(self).wf(),
            entry.event == Event::UninferableJump,
        ensures
            final(self).wf(),
            final(self).func_symbols == old(self).func_symbols,
            final(self).ranges == old(self).ranges,
            final(self).insn_map == old(self).insn_map,
            match r {
                Err(e) => e == TraceError::Consistency && !old(self).insn_map@.contains_key(
                    entry.arc.0,
                ) && final(self).frame_stack == old(self).frame_stack,
                Ok((success, depth, closed)) => {
                    &&& old(self).insn_map@.contains_key(entry.arc.0) || old(
                        self,
                    ).frame_stack@.len() == 0
                    &&& depth == final(self).frame_stack@.len()
                    &&& if old(self).frame_stack@.len() == 0 {
                        success == false && final(self).frame_stack == old(self).frame_stack
                            && closed@.len() == 0
                    } else if !spec_is_return(
                        old(self).insn_map@[entry.arc.0].mnemonic,
                        old(self).insn_map@[entry.arc.0].op_str,
                    ) {
                        success == false && final(self).frame_stack == old(self).frame_stack
                            && closed@.len() == 0
                    } else {
                        let (popped, rem) = spec_unwind(
                            old(self).frame_stack@,
                            old(self).ranges@,
                            entry.arc.1,
                        );
                        &&& success == true
                        &&& final(self).frame_stack@ == rem
                        &&& closed@.len() == popped.len()
                        &&& forall|k: int|
                            0 <= k < closed@.len() ==> (#[trigger] closed@[k])@ == syms_view(
                                old(self).func_symbols@,
                            )[popped[k] as int].info
                        &&& (rem.len() > 0 ==> final(self).ranges@[rem.last() as int].0
                            <= entry.arc.1 < final(self).ranges@[rem.last() as int].1)
                    }
                },
            },
    {
        let mut closed: Vec<SymbolInfo> = Vec::new();
        if self.frame_stack.len() == 0 {
            return Ok((false, 0, closed));
        }
        let target = entry.arc.1;
        let is_ret = match self.insn_map.get(entry.arc.0) {
            Some(insn) => streq(&insn.mnemonic, "ret") || (streq(&insn.mnemonic, "c.jr") && streq(
                &insn.op_str,
                "ra",
            )),
            None => { return Err(TraceError::Consistency) },
        };
        if !is_ret {
            return Ok((false, self.frame_stack.len(), closed));
        }
        let ghost stack0 = self.frame_stack@;
        let ghost rv = self.ranges@;
        let ghost sv = syms_view(self.func_symbols@);
        let ghost popped_total = spec_unwind(stack0, rv, target).0;
        let ghost rem_total = spec_unwind(stack0, rv, target).1;
        let ghost mut popped_so_far = Seq::<u32>::empty();
        proof {
            lemma_unwind_props(stack0, rv, target);
        }
        loop
            invariant
                self.wf(),
                self.func_symbols == old(self).func_symbols,
                self.ranges == old(self).ranges,
                self.insn_map == old(self).insn_map,
                closed@.len() == popped_so_far.len(),
                forall|k: int|
                    0 <= k < closed@.len() ==> (#[trigger] closed@[k])@ == sv[popped_so_far[k] as int].info,
                forall|k: int| 0 <= k < popped_so_far.len() ==> popped_so_far[k] < sv.len(),
                popped_total == popped_so_far + spec_unwind(self.frame_stack@, rv, target).0,
                rem_total == spec_unwind(self.frame_stack@, rv, target).1,
            decreases self.frame_stack@.len(),
        {
            if self.frame_stack.len() == 0 {
                proof {
                    assert(popped_so_far + Seq::<u32>::empty() =~= popped_so_far);
                }
                return Ok((true, 0, closed));
            }
            let top = self.frame_stack[self.frame_stack.len() - 1];
            let rg = self.ranges[top as usize];
            if rg.0 <= target && target < rg.1 {
                proof {
                    assert(popped_so_far + Seq::<u32>::empty() =~= popped_so_far);
                }
                return Ok((true, self.frame_stack.len(), closed));
            }
            self.frame_stack.pop();
            closed.push(self.func_symbols[top as usize].info.clone());
            proof {
                popped_so_far = popped_so_far.push(top);
                let st = self.frame_stack@;
                let (p, rem) = spec_unwind(st, rv, target);
                assert(popped_so_far + p =~= popped_so_far.drop_last() + (seq![top] + p));
            }
        }
    }

    /// Close every frame that is still open. The stack is empty after.
    #[verifier::loop_isolation(false)]
    pub fn flush(&mut self) -> (r: Vec<SymbolInfo>)
        requires
            old(self).wf(),
        ensures
            final(self).wf(),
            final(self).func_symbols == old(self).func_symbols,
            final(self).ranges == old(self).ranges,
            final(self).insn_map == old(self).insn_map,
            final(self).frame_stack@.len() == 0,
            r@.len() == old(self).frame_stack@.len(),
            forall|k: int|
                0 <= k < r@.len() ==> (#[trigger] r@[k])@ == syms_view(
                    old(self).func_symbols@,
                )[old(self).frame_stack@[old(self).frame_stack@.len() - 1 - k] as int].info,
    {
        let ghost stack0 = self.frame_stack@;
        let ghost sv = syms_view(self.func_symbols@);
        let mut closed: Vec<SymbolInfo> = Vec::new();
        loop
            invariant
                self.wf(),
                self.func_symbols == old(self).func_symbols,
                self.ranges == old(self).ranges,
                self.insn_map == old(self).insn_map,
                self.frame_stack@ == stack0.subrange(0, self.frame_stack@.len() as int),
                closed@.len() + self.frame_stack@.len() == stack0.len(),
                forall|k: int|
                    0 <= k < closed@.len() ==> (#[trigger] closed@[k])@ == sv[stack0[stack0.len()
                        - 1 - k] as int].info,
            decreases self.frame_stack@.len(),
        {
            let n = self.frame_stack.len();
            if n == 0 {
                return closed;
            }
            let top = self.frame_stack[n - 1];
            self.frame_stack.pop();
            closed.push(self.func_symbols[top as usize].info.clone());
            proof {
                assert(self.frame_stack@ =~= stack0.subrange(0, self.frame_stack@.len() as int));
            }
        }
    }

    /// The symbol whose start address this is.
    pub fn get_symbol_info(&self, addr: u64) -> (r: SymbolInfo)
        requires
            self.wf(),
            sym_index(syms_view(self.func_symbols@), addr) >= 0,
        ensures
            r@ == syms_view(self.func_symbols@)[sym_index(
                syms_view(self.func_symbols@),
                addr,
            )].info,
    {
        let ghost sv = syms_view(self.func_symbols@);
        proof {
            lemma_sym_index_found(sv, addr);
        }
        match find_sym(&self.func_symbols, addr) {
            Some(i) => self.func_symbols[i].info.clone(),
            None => {
                proof {
                    assert(false);
                }
                SymbolInfo { name: String::new(), index: 0, line: 0, file: String::new() }
            },
        }
    }
}

/// How appending an entry moves `sym_index`.
pub proof fn lemma_sym_index_push(sv: Seq<FuncSymV>, f: FuncSymV, addr: u64)
    ensures
        sym_index(sv.push(f), addr) == if sym_index(sv, addr) >= 0 {
            sym_index(sv, addr)
        } else if f.addr == addr {
            sv.len() as int
        } else {
            -1int
        },
    decreases sv.len(),
{
    if sv.len() == 0 {
        assert(sv.push(f)[0] == f);
        assert(sv.push(f).drop_first() =~= Seq::<FuncSymV>::empty());
        if f.addr != addr {
            assert(sym_index(Seq::<FuncSymV>::empty(), addr) == -1);
        }
    } else {
        assert(sv.push(f)[0] == sv[0]);
        assert(sv.push(f).drop_first() =~= sv.drop_first().push(f));
        assert(sym_index(sv.push(f).drop_first(), addr) == sym_index(
            sv.drop_first().push(f),
            addr,
        ));
        assert(sv.drop_first().len() == sv.len() - 1);
        lemma_sym_index_push(sv.drop_first(), f, addr);
    }
}

/// A negative `sym_index` means no entry carries the address.
pub proof fn lemma_sym_index_absent(sv: Seq<FuncSymV>, addr: u64)
    requires
        sym_index(sv, addr) < 0,
    ensures
        forall|k: int| 0 <= k < sv.len() ==> sv[k].addr != addr,
    decreases sv.len(),
{
    if sv.len() > 0 {
        lemma_sym_index_absent(sv.drop_first(), addr);
        assert(forall|k: int| 1 <= k < sv.len() ==> sv[k] == sv.drop_first()[k - 1]);
    }
}

} // verus!
