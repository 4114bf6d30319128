//! The coverage sink: it owns the lifted graph and its instrumented
//! edges, resolves event endpoints to source locations through the
//! debug-line data, counts matching edges, and serializes the counter
//! file.

use crate::cfg::{
    locs_view, reports_view, spec_gcda_bytes, spec_graph_report_loop, ControlFlowGraph,
    FunctionEdges, ReportedEdge, SourceLocation, SourceLocationV,
};
use crate::event::{Entry, Event};
use crate::packet::TraceError;
use vstd::prelude::*;

verus! {

/// The instruction-execution count at one function's entry address.
#[derive(Debug)]
pub struct FuncCount {
    pub addr: u64,
    pub name: String,
    pub count: u64,
}

/// The view of a [`FuncCount`].
pub struct FuncCountV {
    pub addr: u64,
    pub name: Seq<char>,
    pub count: u64,
}

impl View for FuncCount {
    type V = FuncCountV;

    open spec fn view(&self) -> FuncCountV {
        FuncCountV { addr: self.addr, name: self.name@, count: self.count }
    }
}

/// The views of an entry-count table.
pub open spec fn counts_view(s: Seq<FuncCount>) -> Seq<FuncCountV> {
    s.map_values(|c: FuncCount| c@)
}

/// Does the list hold this location?
pub open spec fn spec_locs_contain(s: Seq<SourceLocationV>, l: SourceLocationV) -> bool {
    exists|i: int| 0 <= i < s.len() && s[i] == l
}

/// Does the list hold this location?
#[verifier::loop_isolation(false)]
pub fn locs_contain(s: &Vec<SourceLocation>, l: &SourceLocation) -> (r: bool)
    ensures
        r == spec_locs_contain(locs_view(s@), l@),
{
    let mut i: usize = 0;
    while i < s.len()
        invariant
            0 <= i <= s@.len(),
            forall|k: int| 0 <= k < i ==> locs_view(s@)[k] != l@,
        decreases s@.len() - i,
    {
        if s[i].loc_eq(l) {
            proof {
                assert(locs_view(s@)[i as int] == l@);
            }
            return true;
        }
        i = i + 1;
    }
    false
}

/// Does some instrumented edge mark an entry under this name?
pub open spec fn spec_name_has_entry(reports: Seq<crate::cfg::FunctionEdgesV>, name: Seq<char>) -> bool {
    exists|j: int, k: int|
        0 <= j < reports.len() && 0 <= k < reports[j].edges.len() && reports[j].edges[k].entry
            && reports[j].edges[k].func_name == name
}

/// The first entry-count row holding this address, or -1.
pub open spec fn count_index(s: Seq<FuncCountV>, addr: u64) -> int
    decreases s.len(),
{
    if s.len() == 0 {
        -1
    } else if s[0].addr == addr {
        0
    } else {
        let r = count_index(s.drop_first(), addr);
        if r < 0 {
            -1
        } else {
            r + 1
        }
    }
}

/// `count_index` finds the first match.
proof fn lemma_count_index_first(s: Seq<FuncCountV>, addr: u64, i: int)
    requires
        0 <= i <= s.len(),
        forall|k: int| 0 <= k < i ==> s[k].addr != addr,
        i == s.len() || s[i].addr == addr,
    ensures
        count_index(s, addr) == if i == s.len() {
            -1int
        } else {
            i
        },
    decreases s.len(),
{
    if s.len() > 0 && s[0].addr != addr {
        let t = s.drop_first();
        assert(forall|k: int| 0 <= k < i - 1 ==> t[k] == s[k + 1]);
        lemma_count_index_first(t, addr, i - 1);
    }
}

/// A found index is in bounds and holds the address.
proof fn lemma_count_index_found(s: Seq<FuncCountV>, addr: u64)
    requires
        count_index(s, addr) >= 0,
    ensures
        count_index(s, addr) < s.len(),
        s[count_index(s, addr)].addr == addr,
    decreases s.len(),
{
    if s.len() > 0 && s[0].addr != addr {
        lemma_count_index_found(s.drop_first(), addr);
    }
}

/// How appending a row moves `count_index`.
proof fn lemma_count_index_push(s: Seq<FuncCountV>, c: FuncCountV, addr: u64)
    ensures
        count_index(s.push(c), addr) == if count_index(s, addr) >= 0 {
            count_index(s, addr)
        } else if c.addr == addr {
            s.len() as int
        } else {
            -1int
        },
    decreases s.len(),
{
    if s.len() == 0 {
        assert(s.push(c)[0] == c);
        assert(s.push(c).drop_first() =~= Seq::<FuncCountV>::empty());
        if c.addr != addr {
            assert(count_index(Seq::<FuncCountV>::empty(), addr) == -1);
        }
    } else {
        assert(s.push(c)[0] == s[0]);
        assert(s.push(c).drop_first() =~= s.drop_first().push(c));
        assert(count_index(s.push(c).drop_first(), addr) == count_index(
            s.drop_first().push(c),
            addr,
        ));
        assert(s.drop_first().len() == s.len() - 1);
        lemma_count_index_push(s.drop_first(), c, addr);
    }
}

/// A negative `count_index` means no row carries the address.
proof fn lemma_count_index_absent(s: Seq<FuncCountV>, addr: u64)
    requires
        count_index(s, addr) < 0,
    ensures
        forall|k: int| 0 <= k < s.len() ==> s[k].addr != addr,
    decreases s.len(),
{
    if s.len() > 0 {
        lemma_count_index_absent(s.drop_first(), addr);
        assert(forall|k: int| 1 <= k < s.len() ==> s[k] == s.drop_first()[k - 1]);
    }
}

/// `count_index` over two tables with the same addresses is the same.
proof fn lemma_count_index_same_addrs(a: Seq<FuncCountV>, b: Seq<FuncCountV>, addr: u64)
    requires
        a.len() == b.len(),
        forall|k: int| 0 <= k < a.len() ==> a[k].addr == b[k].addr,
    ensures
        count_index(a, addr) == count_index(b, addr),
    decreases a.len(),
{
    if a.len() > 0 {
        let ta = a.drop_first();
        let tb = b.drop_first();
        assert(forall|k: int|
            0 <= k < ta.len() ==> ta[k].addr == a[k + 1].addr && tb[k].addr == b[k + 1].addr);
        lemma_count_index_same_addrs(ta, tb, addr);
    }
}

/// The first row holding this address, if any.
#[verifier::loop_isolation(false)]
fn find_count(counts: &Vec<FuncCount>, addr: u64) -> (r: Option<usize>)
    ensures
        ({
            let ci = count_index(counts_view(counts@), addr);
            match r {
                Some(i) => ci == i && i < counts@.len(),
                None => ci == -1,
            }
        }),
{
    let ghost cv = counts_view(counts@);
    let mut i: usize = 0;
    while i < counts.len()
        invariant
            0 <= i <= counts@.len(),
            forall|k: int| 0 <= k < i ==> cv[k].addr != addr,
        decreases counts@.len() - i,
    {
        if counts[i].addr == addr {
            proof {
                lemma_count_index_first(cv, addr, i as int);
            }
            return Some(i);
        }
        i = i + 1;
    }
    proof {
        lemma_count_index_first(cv, addr, counts@.len() as int);
    }
    None
}

/// The sum of the entry counts recorded under a name.
pub open spec fn spec_count_sum(s: Seq<FuncCountV>, name: Seq<char>) -> int
    decreases s.len(),
{
    if s.len() == 0 {
        0
    } else {
        spec_count_sum(s.drop_last(), name) + if s.last().name == name {
            s.last().count as int
        } else {
            0
        }
    }
}

/// Does `m1` step `m0` for the resolved location pair `(fl, tl)`: an
/// edge whose endpoint lists hold both locations counts one more,
/// saturating; everything else is unchanged?
pub open spec fn spec_edges_bumped(
    m0: Seq<crate::cfg::FunctionEdgesV>,
    m1: Seq<crate::cfg::FunctionEdgesV>,
    fl: SourceLocationV,
    tl: SourceLocationV,
) -> bool {
    &&& m1.len() == m0.len()
    &&& forall|j: int|
        0 <= j < m0.len() ==> {
            let of = m0[j];
            let nf = #[trigger] m1[j];
            &&& nf.func_name == of.func_name
            &&& nf.edges.len() == of.edges.len()
            &&& forall|k: int|
                0 <= k < of.edges.len() ==> (#[trigger] nf.edges[k]) == spec_bump_edge(
                    of.edges[k],
                    fl,
                    tl,
                )
        }
}

/// The coverage sink.
pub struct GcdaReceiver {
    pub cfg: ControlFlowGraph,
    pub edge_map: Vec<FunctionEdges>,
    pub func_counts: Vec<FuncCount>,
    pub loader: addr2line::Loader,
    pub checksum: u64,
}

impl GcdaReceiver {
    /// The edge table mirrors the graph function by function, within the
    /// counter-record size limit.
    pub open spec fn wf(&self) -> bool {
        &&& self.edge_map@.len() == self.cfg@.functions.len()
        &&& forall|j: int|
            0 <= j < self.edge_map@.len() ==> (#[trigger] reports_view(self.edge_map@)[j]).edges.len()
                * 8 < 0x100000000
    }

    /// Own the lifted graph: project its instrumented edges and keep one
    /// entry counter per distinct text-symbol address whose name owns an
    /// entry edge; a later symbol at a seen address only renames the row.
    #[verifier::loop_isolation(false)]
    #[verifier::rlimit(100)]
    pub fn new(cfg: ControlFlowGraph, loader: addr2line::Loader, symbols: &Vec<(u64, String)>) -> (r:
        Result<GcdaReceiver, TraceError>)
        ensures
            match spec_graph_report_loop(cfg@.functions, 0, Seq::empty()) {
                Err(pe) => r is Err && r->Err_0 == pe,
                Ok(reports) => if exists|j: int|
                    0 <= j < reports.len() && (#[trigger] reports[j]).edges.len() >= 0x20000000 {
                    r is Err && r->Err_0 == TraceError::Consistency
                } else {
                    let g = r->Ok_0;
                    &&& r is Ok
                    &&& g.wf()
                    &&& g.cfg == cfg
                    &&& reports_view(g.edge_map@) == reports
                    &&& forall|p: int|
                        0 <= p < g.func_counts@.len() ==> {
                            let c = #[trigger] counts_view(g.func_counts@)[p];
                            &&& c.count == 0
                            &&& spec_name_has_entry(reports, c.name)
                            &&& exists|k: int|
                                0 <= k < symbols@.len() && (#[trigger] symbols@[k]).0 == c.addr
                                    && symbols@[k].1@ == c.name
                        }
                    &&& forall|k: int|
                        0 <= k < symbols@.len() && spec_name_has_entry(
                            reports,
                            (#[trigger] symbols@[k]).1@,
                        ) ==> count_index(counts_view(g.func_counts@), symbols@[k].0) >= 0
                    &&& forall|p: int, q: int|
                        0 <= p < q < g.func_counts@.len() ==> (#[trigger] counts_view(
                            g.func_counts@,
                        )[p]).addr != (#[trigger] counts_view(g.func_counts@)[q]).addr
                },
            },
    {
        let edge_map = match cfg.report_instrumented_edges() {
            Ok(m) => m,
            Err(e) => { return Err(e) },
        };
        proof {
            crate::cfg::lemma_graph_report_len(cfg@.functions, 0, Seq::empty());
        }
        let ghost reports = reports_view(edge_map@);
        let mut j: usize = 0;
        while j < edge_map.len()
            invariant
                0 <= j <= edge_map@.len(),
                forall|p: int|
                    0 <= p < j ==> (#[trigger] reports_view(edge_map@)[p]).edges.len()
                        < 0x20000000,
            decreases edge_map@.len() - j,
        {
            if edge_map[j].edges.len() >= 0x20000000 {
                proof {
                    assert(reports[j as int].edges.len() >= 0x20000000);
                }
                return Err(TraceError::Consistency);
            }
            j = j + 1;
        }
        // Keep one counter per distinct address whose symbol name owns an
        // entry edge; a later symbol at the same address renames the row.
        let mut func_counts: Vec<FuncCount> = Vec::new();
        let mut k: usize = 0;
        while k < symbols.len()
            invariant
                0 <= k <= symbols@.len(),
                forall|p: int|
                    0 <= p < func_counts@.len() ==> {
                        let c = #[trigger] counts_view(func_counts@)[p];
                        &&& c.count == 0
                        &&& spec_name_has_entry(reports, c.name)
                        &&& exists|q: int|
                            0 <= q < k && (#[trigger] symbols@[q]).0 == c.addr && symbols@[q].1@
                                == c.name
                    },
                forall|q: int|
                    0 <= q < k && spec_name_has_entry(reports, (#[trigger] symbols@[q]).1@)
                        ==> count_index(counts_view(func_counts@), symbols@[q].0) >= 0,
                forall|p: int, q: int|
                    0 <= p < q < func_counts@.len() ==> (#[trigger] counts_view(
                        func_counts@,
                    )[p]).addr != (#[trigger] counts_view(func_counts@)[q]).addr,
            decreases symbols@.len() - k,
        {
            let addr = symbols[k].0;
            let mut has_entry = false;
            let mut fj: usize = 0;
            while fj < edge_map.len()
                invariant
                    0 <= fj <= edge_map@.len(),
                    has_entry ==> spec_name_has_entry(reports, symbols@[k as int].1@),
                    !has_entry ==> forall|a: int, b: int|
                        0 <= a < fj && 0 <= b < reports[a].edges.len() ==> !(
                        (#[trigger] reports[a].edges[b]).entry && reports[a].edges[b].func_name
                            == symbols@[k as int].1@),
                decreases edge_map@.len() - fj,
            {
                let fe = &edge_map[fj];
                let nedges = fe.edges.len();
                let mut ej: usize = 0;
                while ej < nedges
                    invariant
                        0 <= ej <= nedges,
                        0 <= fj < edge_map@.len(),
                        nedges == reports[fj as int].edges.len(),
                        has_entry ==> spec_name_has_entry(reports, symbols@[k as int].1@),
                        !has_entry ==> forall|a: int, b: int|
                            0 <= a < fj && 0 <= b < reports[a].edges.len() ==> !(
                            (#[trigger] reports[a].edges[b]).entry && reports[a].edges[b].func_name
                                == symbols@[k as int].1@),
                        !has_entry ==> forall|b: int|
                            0 <= b < ej ==> !((#[trigger] reports[fj as int].edges[b]).entry
                                && reports[fj as int].edges[b].func_name == symbols@[
                                k as int].1@),
                    decreases nedges - ej,
                {
                    if fe.edges[ej].entry && crate::decoder::streq(
                        &fe.edges[ej].func_name,
                        symbols[k].1.as_str(),
                    ) {
                        proof {
                            assert(reports[fj as int].edges[ej as int].entry
                                && reports[fj as int].edges[ej as int].func_name == symbols@[
                                k as int].1@);
                        }
                        has_entry = true;
                    }
                    ej = ej + 1;
                }
                fj = fj + 1;
            }
            if has_entry {
                let ghost pre = func_counts@;
                match find_count(&func_counts, addr) {
                    Some(i) => {
                        proof {
                            lemma_count_index_found(counts_view(func_counts@), addr);
                        }
                        let c = &mut func_counts[i];
                        c.name = symbols[k].1.clone();
                        proof {
                            assert(func_counts@ == pre.update(i as int, func_counts@[i as int]));
                            assert(counts_view(func_counts@) =~= counts_view(pre).update(
                                i as int,
                                (FuncCountV {
                                    addr: counts_view(pre)[i as int].addr,
                                    name: symbols@[k as int].1@,
                                    count: counts_view(pre)[i as int].count,
                                }),
                            ));
                            assert forall|q: int|
                                0 <= q < k + 1 && spec_name_has_entry(
                                    reports,
                                    (#[trigger] symbols@[q]).1@,
                                ) implies count_index(
                                counts_view(func_counts@),
                                symbols@[q].0,
                            ) >= 0 by {
                                lemma_count_index_same_addrs(
                                    counts_view(pre),
                                    counts_view(func_counts@),
                                    symbols@[q].0,
                                );
                            }
                        }
                    },
                    None => {
                        func_counts.push(
                            FuncCount { addr, name: symbols[k].1.clone(), count: 0 },
                        );
                        proof {
                            assert(func_counts@ == pre.push(func_counts@.last()));
                            assert(counts_view(func_counts@) =~= counts_view(pre).push(
                                func_counts@.last()@,
                            ));
                            lemma_count_index_absent(counts_view(pre), addr);
                            assert forall|q: int|
                                0 <= q < k + 1 && spec_name_has_entry(
                                    reports,
                                    (#[trigger] symbols@[q]).1@,
                                ) implies count_index(
                                counts_view(func_counts@),
                                symbols@[q].0,
                            ) >= 0 by {
                                lemma_count_index_push(
                                    counts_view(pre),
                                    func_counts@.last()@,
                                    symbols@[q].0,
                                );
                            }
                        }
                    },
                }
            }
            k = k + 1;
        }
        if edge_map.len() != cfg.functions.len() {
            proof {
                assert(false);
            }
            return Err(TraceError::Consistency);
        }
        proof {
            assert(forall|j2: int|
                0 <= j2 < reports.len() ==> (#[trigger] reports[j2]).edges.len() < 0x20000000);
        }
        Ok(GcdaReceiver { cfg, edge_map, func_counts, loader, checksum: 0 })
    }

    /// Count one delivered event.
    pub fn _bump_checksum(&mut self)
        requires
            old(self).checksum < u64::MAX,
        ensures
            final(self).checksum == old(self).checksum + 1,
            final(self).edge_map == old(self).edge_map,
            final(self).func_counts == old(self).func_counts,
            final(self).cfg == old(self).cfg,
    {
        self.checksum = self.checksum + 1;
    }

    /// The edge table with its current counters.
    pub fn output_edge_map(&self) -> (r: &Vec<FunctionEdges>)
        ensures
            r == &self.edge_map,
    {
        &self.edge_map
    }
}

/// Copy one reported edge with a new count.
fn copy_edge_with_count(e: &ReportedEdge, count: u64) -> (r: ReportedEdge)
    ensures
        r@ == (crate::cfg::ReportedEdgeV { count, ..e@ }),
{
    ReportedEdge {
        from: crate::cfg::clone_locs(&e.from),
        to: crate::cfg::clone_locs(&e.to),
        count,
        entry: e.entry,
        func_name: e.func_name.clone(),
    }
}

/// The edges after one resolved control-flow event: an edge whose
/// endpoint lists hold both locations counts one more, saturating.
pub open spec fn spec_bump_edge(e: crate::cfg::ReportedEdgeV, f: SourceLocationV, t: SourceLocationV)
    -> crate::cfg::ReportedEdgeV {
    if spec_locs_contain(e.from, f) && spec_locs_contain(e.to, t) && e.count < u64::MAX {
        crate::cfg::ReportedEdgeV { count: (e.count + 1) as u64, ..e }
    } else {
        e
    }
}

/// Step every matching edge of one function.
#[verifier::loop_isolation(false)]
fn bump_edges(edges: &Vec<ReportedEdge>, from_loc: &SourceLocation, to_loc: &SourceLocation) -> (r:
    Vec<ReportedEdge>)
    ensures
        r@.len() == edges@.len(),
        forall|k: int|
            0 <= k < edges@.len() ==> (#[trigger] crate::cfg::reported_view(r@)[k])
                == spec_bump_edge(
                crate::cfg::reported_view(edges@)[k],
                from_loc@,
                to_loc@,
            ),
{
    let mut out: Vec<ReportedEdge> = Vec::new();
    let mut k: usize = 0;
    while k < edges.len()
        invariant
            0 <= k <= edges@.len(),
            out@.len() == k,
            forall|q: int|
                0 <= q < k ==> (#[trigger] crate::cfg::reported_view(out@)[q]) == spec_bump_edge(
                    crate::cfg::reported_view(edges@)[q],
                    from_loc@,
                    to_loc@,
                ),
        decreases edges@.len() - k,
    {
        let e = &edges[k];
        let hit = locs_contain(&e.from, from_loc) && locs_contain(&e.to, to_loc);
        let c = e.count;
        let nc = if hit && c < u64::MAX {
            c + 1
        } else {
            c
        };
        let ghost pre = out@;
        out.push(copy_edge_with_count(e, nc));
        proof {
            assert(out@ == pre.push(out@.last()));
            assert(crate::cfg::reported_view(out@) =~= crate::cfg::reported_view(pre).push(
                out@.last()@,
            ));
        }
        k = k + 1;
    }
    out
}

/// The sequential saturating merge of the entry counts under a name
/// onto a counter.
pub open spec fn spec_merge_count(c: u64, counts: Seq<FuncCountV>, name: Seq<char>) -> u64
    decreases counts.len(),
{
    if counts.len() == 0 {
        c
    } else {
        let c2 = spec_merge_count(c, counts.drop_last(), name);
        if counts.last().name == name {
            if c2 > u64::MAX - counts.last().count {
                u64::MAX
            } else {
                (c2 + counts.last().count) as u64
            }
        } else {
            c2
        }
    }
}

/// Add the entry counts recorded under this function's name onto its
/// entry edges.
#[verifier::loop_isolation(false)]
fn merge_edges(edges: &Vec<ReportedEdge>, counts: &Vec<FuncCount>, fname: &String) -> (r: Vec<
    ReportedEdge,
>)
    ensures
        r@.len() == edges@.len(),
        forall|k: int|
            0 <= k < edges@.len() ==> (#[trigger] crate::cfg::reported_view(r@)[k]) == ({
                let oe = crate::cfg::reported_view(edges@)[k];
                if oe.entry {
                    crate::cfg::ReportedEdgeV {
                        count: spec_merge_count(oe.count, counts_view(counts@), fname@),
                        ..oe
                    }
                } else {
                    oe
                }
            }),
{
    let mut out: Vec<ReportedEdge> = Vec::new();
    let mut k: usize = 0;
    while k < edges.len()
        invariant
            0 <= k <= edges@.len(),
            out@.len() == k,
            forall|q: int|
                0 <= q < k ==> (#[trigger] crate::cfg::reported_view(out@)[q]) == ({
                    let oe = crate::cfg::reported_view(edges@)[q];
                    if oe.entry {
                        crate::cfg::ReportedEdgeV {
                            count: spec_merge_count(oe.count, counts_view(counts@), fname@),
                            ..oe
                        }
                    } else {
                        oe
                    }
                }),
        decreases edges@.len() - k,
    {
        let e = &edges[k];
        let mut nc = e.count;
        if e.entry {
            let mut ci: usize = 0;
            while ci < counts.len()
                invariant
                    0 <= ci <= counts@.len(),
                    nc == spec_merge_count(
                        e.count,
                        counts_view(counts@).subrange(0, ci as int),
                        fname@,
                    ),
                decreases counts@.len() - ci,
            {
                let matches_name = crate::decoder::streq(&counts[ci].name, fname.as_str());
                if matches_name {
                    let add = counts[ci].count;
                    nc = if nc > u64::MAX - add {
                        u64::MAX
                    } else {
                        nc + add
                    };
                }
                ci = ci + 1;
                proof {
                    let cur = counts_view(counts@).subrange(0, ci as int);
                    assert(cur.drop_last() =~= counts_view(counts@).subrange(0, ci - 1));
                    assert(cur.last() == counts_view(counts@)[ci - 1]);
                }
            }
            proof {
                assert(counts_view(counts@).subrange(0, counts@.len() as int) =~= counts_view(
                    counts@,
                ));
            }
        }
        let ghost pre = out@;
        out.push(copy_edge_with_count(e, nc));
        proof {
            assert(out@ == pre.push(out@.last()));
            assert(crate::cfg::reported_view(out@) =~= crate::cfg::reported_view(pre).push(
                out@.last()@,
            ));
        }
        k = k + 1;
    }
    out
}

impl GcdaReceiver {
    /// Step every instrumented edge whose endpoint location lists hold
    /// the two resolved locations, saturating at the counter limit.
    #[verifier::loop_isolation(false)]
    pub fn apply_branch(&mut self, from_loc: &SourceLocation, to_loc: &SourceLocation)
        requires
            old(self).wf(),
        ensures
            final(self).wf(),
            final(self).cfg == old(self).cfg,
            final(self).func_counts == old(self).func_counts,
            final(self).checksum == old(self).checksum,
            final(self).edge_map@.len() == old(self).edge_map@.len(),
            forall|j: int|
                0 <= j < old(self).edge_map@.len() ==> {
                    let of = reports_view(old(self).edge_map@)[j];
                    let nf = (#[trigger] reports_view(final(self).edge_map@)[j]);
                    &&& nf.func_name == of.func_name
                    &&& nf.edges.len() == of.edges.len()
                    &&& forall|k: int|
                        0 <= k < of.edges.len() ==> (#[trigger] nf.edges[k]) == spec_bump_edge(
                            of.edges[k],
                            from_loc@,
                            to_loc@,
                        )
                },
    {
        let ghost m0 = reports_view(self.edge_map@);
        let mut j: usize = 0;
        while j < self.edge_map.len()
            invariant
                0 <= j <= m0.len(),
                self.edge_map@.len() == m0.len(),
                self.cfg == old(self).cfg,
                self.func_counts == old(self).func_counts,
                self.checksum == old(self).checksum,
                forall|p: int|
                    j <= p < m0.len() ==> (#[trigger] reports_view(self.edge_map@)[p]) == m0[p],
                forall|p: int|
                    0 <= p < j ==> {
                        let of = m0[p];
                        let nf = (#[trigger] reports_view(self.edge_map@)[p]);
                        &&& nf.func_name == of.func_name
                        &&& nf.edges.len() == of.edges.len()
                        &&& forall|k: int|
                            0 <= k < of.edges.len() ==> (#[trigger] nf.edges[k])
                                == spec_bump_edge(of.edges[k], from_loc@, to_loc@)
                    },
            decreases m0.len() - j,
        {
            proof {
                assert(reports_view(self.edge_map@)[j as int] == self.edge_map@[j as int]@);
                assert(crate::cfg::reported_view(self.edge_map@[j as int].edges@) == m0[
                    j as int].edges);
            }
            let ne = bump_edges(&self.edge_map[j].edges, from_loc, to_loc);
            let ghost nev = crate::cfg::reported_view(ne@);
            let ghost t0 = self.edge_map@;
            let fe = &mut self.edge_map[j];
            fe.edges = ne;
            proof {
                assert(self.edge_map@ == t0.update(j as int, self.edge_map@[j as int]));
                assert(forall|p: int|
                    0 <= p < m0.len() && p != j ==> self.edge_map@[p] == t0[p]
                        && (#[trigger] reports_view(self.edge_map@)[p]) == reports_view(t0)[p]);
                assert(self.edge_map@[j as int].func_name == t0[j as int].func_name);
                assert(reports_view(self.edge_map@)[j as int] == self.edge_map@[j as int]@);
                assert(reports_view(self.edge_map@)[j as int].edges == nev);
            }
            j = j + 1;
        }
    }

    /// Fold one event in: a resolved control-flow event steps the edges
    /// matching the two resolved locations, whatever the lookup hands
    /// back; an instruction event steps every entry counter recorded at
    /// its address; every other event changes nothing.
    #[verifier::loop_isolation(false)]
    pub fn _receive_entry(&mut self, entry: &Entry) -> (r: Result<(), TraceError>)
        requires
            old(self).wf(),
        ensures
            final(self).wf(),
            final(self).cfg == old(self).cfg,
            final(self).checksum == old(self).checksum,
            match entry.event {
                Event::TakenBranch | Event::NonTakenBranch | Event::InferrableJump
                    | Event::UninferableJump => match r {
                    Err(e) => e == TraceError::InputIO && *final(self) == *old(self),
                    Ok(_) => final(self).func_counts == old(self).func_counts && exists|
                        fl: SourceLocationV,
                        tl: SourceLocationV,
                    |
                        #[trigger] spec_edges_bumped(
                            reports_view(old(self).edge_map@),
                            reports_view(final(self).edge_map@),
                            fl,
                            tl,
                        ),
                },
                Event::NoneEv => {
                    let cv0 = counts_view(old(self).func_counts@);
                    &&& r is Ok
                    &&& final(self).edge_map == old(self).edge_map
                    &&& counts_view(final(self).func_counts@).len() == cv0.len()
                    &&& forall|p: int|
                        0 <= p < cv0.len() ==> (#[trigger] counts_view(
                            final(self).func_counts@,
                        )[p]) == (FuncCountV {
                            addr: cv0[p].addr,
                            name: cv0[p].name,
                            count: if cv0[p].addr == entry.arc.0 && cv0[p].count < u64::MAX {
                                (cv0[p].count + 1) as u64
                            } else {
                                cv0[p].count
                            },
                        })
                },
                _ => r is Ok && *final(self) == *old(self),
            },
    {
        match entry.event {
            Event::TakenBranch | Event::NonTakenBranch | Event::InferrableJump
                | Event::UninferableJump => {
                let from_raw = match crate::lines::resolve_location(&self.loader, entry.arc.0) {
                    Ok(l) => l,
                    Err(e) => { return Err(e) },
                };
                let to_raw = match crate::lines::resolve_location(&self.loader, entry.arc.1) {
                    Ok(l) => l,
                    Err(e) => { return Err(e) },
                };
                let from_loc = SourceLocation::from_addr2line(from_raw);
                let to_loc = SourceLocation::from_addr2line(to_raw);
                self.apply_branch(&from_loc, &to_loc);
                proof {
                    assert(spec_edges_bumped(
                        reports_view(old(self).edge_map@),
                        reports_view(self.edge_map@),
                        from_loc@,
                        to_loc@,
                    ));
                }
                Ok(())
            },
            Event::NoneEv => {
                let ghost cv0 = counts_view(self.func_counts@);
                let mut i: usize = 0;
                while i < self.func_counts.len()
                    invariant
                        0 <= i <= cv0.len(),
                        self.func_counts@.len() == cv0.len(),
                        self.wf(),
                        self.cfg == old(self).cfg,
                        self.edge_map == old(self).edge_map,
                        self.checksum == old(self).checksum,
                        forall|p: int|
                            i <= p < cv0.len() ==> (#[trigger] counts_view(
                                self.func_counts@,
                            )[p]) == cv0[p],
                        forall|p: int|
                            0 <= p < i ==> (#[trigger] counts_view(self.func_counts@)[p])
                                == (FuncCountV {
                                addr: cv0[p].addr,
                                name: cv0[p].name,
                                count: if cv0[p].addr == entry.arc.0 && cv0[p].count < u64::MAX {
                                    (cv0[p].count + 1) as u64
                                } else {
                                    cv0[p].count
                                },
                            }),
                    decreases cv0.len() - i,
                {
                    if self.func_counts[i].addr == entry.arc.0 {
                        let c = self.func_counts[i].count;
                        if c < u64::MAX {
                            let addr_i = self.func_counts[i].addr;
                            let name_i = self.func_counts[i].name.clone();
                            let ghost pre = self.func_counts@;
                            let fc = &mut self.func_counts[i];
                            *fc = FuncCount { addr: addr_i, name: name_i, count: c + 1 };
                            proof {
                                assert(self.func_counts@ == pre.update(
                                    i as int,
                                    self.func_counts@[i as int],
                                ));
                                assert(counts_view(self.func_counts@) =~= counts_view(
                                    pre,
                                ).update(i as int, self.func_counts@[i as int]@));
                                assert(counts_view(pre)[i as int] == cv0[i as int]);
                                assert(counts_view(self.func_counts@)[i as int]
                                    == (FuncCountV {
                                    addr: cv0[i as int].addr,
                                    name: cv0[i as int].name,
                                    count: (cv0[i as int].count + 1) as u64,
                                }));
                            }
                        }
                    }
                    i = i + 1;
                }
                Ok(())
            },
            _ => Ok(()),
        }
    }

    /// Merge the recorded entry counts onto each function's entry edges
    /// — each entry edge's count grows by the saturating sum of the
    /// counts recorded under its function's name, other edges unchanged
    /// — then serialize the counter file.
    #[verifier::loop_isolation(false)]
    pub fn _flush(&mut self) -> (r: Vec<u8>)
        requires
            old(self).wf(),
        ensures
            final(self).wf(),
            final(self).cfg == old(self).cfg,
            final(self).func_counts == old(self).func_counts,
            ({
                let m0 = reports_view(old(self).edge_map@);
                let m1 = reports_view(final(self).edge_map@);
                let counts = counts_view(old(self).func_counts@);
                &&& m1.len() == m0.len()
                &&& forall|j: int|
                    0 <= j < m0.len() ==> {
                        let of = m0[j];
                        let nf = #[trigger] m1[j];
                        &&& nf.func_name == of.func_name
                        &&& nf.edges.len() == of.edges.len()
                        &&& forall|k: int|
                            0 <= k < of.edges.len() ==> (#[trigger] nf.edges[k]) == (
                            if of.edges[k].entry {
                                crate::cfg::ReportedEdgeV {
                                    count: spec_merge_count(
                                        of.edges[k].count,
                                        counts,
                                        of.func_name,
                                    ),
                                    ..of.edges[k]
                                }
                            } else {
                                of.edges[k]
                            })
                    }
            }),
            r@ == spec_gcda_bytes(final(self).cfg@, reports_view(final(self).edge_map@)),
    {
        let ghost m0 = reports_view(self.edge_map@);
        let mut j: usize = 0;
        while j < self.edge_map.len()
            invariant
                0 <= j <= m0.len(),
                self.edge_map@.len() == m0.len(),
                self.cfg == old(self).cfg,
                self.func_counts == old(self).func_counts,
                forall|p: int|
                    j <= p < m0.len() ==> (#[trigger] reports_view(self.edge_map@)[p]) == m0[p],
                forall|p: int|
                    0 <= p < j ==> {
                        let of = m0[p];
                        let nf = (#[trigger] reports_view(self.edge_map@)[p]);
                        &&& nf.func_name == of.func_name
                        &&& nf.edges.len() == of.edges.len()
                        &&& forall|k: int|
                            0 <= k < of.edges.len() ==> (#[trigger] nf.edges[k]) == (
                            if of.edges[k].entry {
                                crate::cfg::ReportedEdgeV {
                                    count: spec_merge_count(
                                        of.edges[k].count,
                                        counts_view(old(self).func_counts@),
                                        of.func_name,
                                    ),
                                    ..of.edges[k]
                                }
                            } else {
                                of.edges[k]
                            })
                    },
            decreases m0.len() - j,
        {
            proof {
                assert(reports_view(self.edge_map@)[j as int] == self.edge_map@[j as int]@);
                assert(crate::cfg::reported_view(self.edge_map@[j as int].edges@) == m0[
                    j as int].edges);
            }
            let fname = self.edge_map[j].func_name.clone();
            let ne = merge_edges(&self.edge_map[j].edges, &self.func_counts, &fname);
            let ghost nev = crate::cfg::reported_view(ne@);
            let ghost t0 = self.edge_map@;
            let fe = &mut self.edge_map[j];
            fe.edges = ne;
            proof {
                assert(self.edge_map@ == t0.update(j as int, self.edge_map@[j as int]));
                assert(forall|p: int|
                    0 <= p < m0.len() && p != j ==> self.edge_map@[p] == t0[p]
                        && (#[trigger] reports_view(self.edge_map@)[p]) == reports_view(t0)[p]);
                assert(self.edge_map@[j as int].func_name == t0[j as int].func_name);
                assert(reports_view(self.edge_map@)[j as int] == self.edge_map@[j as int]@);
                assert(reports_view(self.edge_map@)[j as int].edges == nev);
            }
            j = j + 1;
        }
        if self.edge_map.len() != self.cfg.functions.len() {
            proof {
                assert(false);
            }
            return Vec::new();
        }
        proof {
            assert forall|p: int| 0 <= p < self.edge_map@.len() implies (#[trigger] self.edge_map@[p])@.edges.len()
                * 8 < 0x100000000 by {
                assert(self.edge_map@[p]@ == reports_view(self.edge_map@)[p]);
                assert(reports_view(self.edge_map@)[p].edges.len() == m0[p].edges.len());
            }
        }
        self.cfg.write_gcda(&self.edge_map)
    }
}

} // verus!
