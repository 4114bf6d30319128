//! The control-flow graph lifted from parsed coverage notes, the
//! instrumented-edge projection whose counters the coverage sink
//! increments, and the byte layout of the counter file.

use crate::gcno::{ArcsV, Blocks, Function, FunctionV, Gcno, LinesV, SourceV};
use crate::packet::TraceError;
use crate::tag::{COUNTER_BASE_TAG, FLAG_TREE, FUNCTION_TAG};
use vstd::prelude::*;

verus! {

/// The magic word that opens a counter file.
pub const GCDA_MAGIC: u32 = 0x67636461;

/// A lifted control-flow graph: header fields and one entry per function
/// that carried block data.
#[derive(Debug, Clone)]
pub struct ControlFlowGraph {
    pub cwd: String,
    pub version: u32,
    pub stamp: u32,
    pub functions: Vec<FunctionCFG>,
}

/// One function of the graph: metadata, its blocks, and its edges.
#[derive(Debug, Clone)]
pub struct FunctionCFG {
    pub identifier: u32,
    pub lineno_checksum: u32,
    pub cfg_checksum: u32,
    pub name: String,
    pub source_file: String,
    pub span: SourceSpan,
    pub basic_blocks: Vec<BasicBlock>,
    pub edges: Vec<Edge>,
}

/// The source span of a function.
#[derive(Debug, Clone, Copy, PartialEq, Eq, Structural)]
pub struct SourceSpan {
    pub start_line: u32,
    pub start_column: u32,
    pub end_line: u32,
    pub end_column: u32,
}

/// A basic block and the source locations attached to it.
#[derive(Debug, Clone)]
pub struct BasicBlock {
    pub id: u32,
    pub locations: Vec<SourceLocation>,
}

/// A source file and line.
#[derive(Debug, Clone, PartialEq, Eq)]
pub struct SourceLocation {
    pub file: String,
    pub lines: u32,
}

/// An edge of the flow graph with its flag bits.
#[derive(Debug, Clone, Copy, PartialEq, Eq, Structural)]
pub struct Edge {
    pub from: u32,
    pub to: u32,
    pub edge_flags: u32,
}

/// The view of a [`SourceLocation`].
pub struct SourceLocationV {
    pub file: Seq<char>,
    pub lines: u32,
}

impl View for SourceLocation {
    type V = SourceLocationV;

    open spec fn view(&self) -> SourceLocationV {
        SourceLocationV { file: self.file@, lines: self.lines }
    }
}

/// The view of a [`BasicBlock`].
pub struct BasicBlockV {
    pub id: u32,
    pub locations: Seq<SourceLocationV>,
}

impl View for BasicBlock {
    type V = BasicBlockV;

    open spec fn view(&self) -> BasicBlockV {
        BasicBlockV {
            id: self.id,
            locations: self.locations@.map_values(|l: SourceLocation| l@),
        }
    }
}

/// The view of a [`FunctionCFG`].
pub struct FunctionCFGV {
    pub identifier: u32,
    pub lineno_checksum: u32,
    pub cfg_checksum: u32,
    pub name: Seq<char>,
    pub source_file: Seq<char>,
    pub span: SourceSpan,
    pub basic_blocks: Seq<BasicBlockV>,
    pub edges: Seq<Edge>,
}

impl View for FunctionCFG {
    type V = FunctionCFGV;

    open spec fn view(&self) -> FunctionCFGV {
        FunctionCFGV {
            identifier: self.identifier,
            lineno_checksum: self.lineno_checksum,
            cfg_checksum: self.cfg_checksum,
            name: self.name@,
            source_file: self.source_file@,
            span: self.span,
            basic_blocks: table_view(self.basic_blocks@),
            edges: self.edges@,
        }
    }
}

impl SourceLocation {
    /// Do two locations name the same file and line?
    pub fn loc_eq(&self, other: &SourceLocation) -> (r: bool)
        ensures
            r == (self@ == other@),
    {
        self.lines == other.lines && self.file.eq(&other.file)
    }

    /// Project a resolved debug-line lookup into a location: a missing
    /// file becomes the empty name, a missing line becomes zero.
    pub fn from_addr2line(loc: Option<RawLocation>) -> (r: SourceLocation)
        ensures
            r@ == spec_from_addr2line(match loc {
                Some(l) => Some(l@),
                None => None,
            }),
    {
        match loc {
            Some(l) => {
                if let Some(file) = l.file {
                    SourceLocation {
                        file,
                        lines: match l.line {
                            Some(n) => n,
                            None => 0,
                        },
                    }
                } else {
                    SourceLocation { file: String::new(), lines: 0 }
                }
            },
            None => SourceLocation { file: String::new(), lines: 0 },
        }
    }
}

/// What a debug-line lookup hands back: an optional file name and an
/// optional line number.
#[derive(Debug, Clone)]
pub struct RawLocation {
    pub file: Option<String>,
    pub line: Option<u32>,
}

/// The view of a [`RawLocation`].
pub struct RawLocationV {
    pub file: Option<Seq<char>>,
    pub line: Option<u32>,
}

impl View for RawLocation {
    type V = RawLocationV;

    open spec fn view(&self) -> RawLocationV {
        RawLocationV {
            file: match self.file {
                Some(ref f) => Some(f@),
                None => None,
            },
            line: self.line,
        }
    }
}

/// The location a resolved lookup stands for.
pub open spec fn spec_from_addr2line(loc: Option<RawLocationV>) -> SourceLocationV {
    match loc {
        Some(l) => match l.file {
            Some(f) => SourceLocationV {
                file: f,
                lines: match l.line {
                    Some(n) => n,
                    None => 0,
                },
            },
            None => SourceLocationV { file: Seq::empty(), lines: 0 },
        },
        None => SourceLocationV { file: Seq::empty(), lines: 0 },
    }
}

/// The views of a table of blocks.
pub open spec fn table_view(t: Seq<BasicBlock>) -> Seq<BasicBlockV> {
    t.map_values(|b: BasicBlock| b@)
}

/// The views of the functions of a graph.
pub open spec fn functions_view(t: Seq<FunctionCFG>) -> Seq<FunctionCFGV> {
    t.map_values(|f: FunctionCFG| f@)
}

/// Pushing a function pushes its view.
pub proof fn lemma_functions_view_push(t0: Seq<FunctionCFG>, f: FunctionCFG)
    ensures
        functions_view(t0.push(f)) =~= functions_view(t0).push(f@),
{
}

/// Pushing a block pushes its view.
pub proof fn lemma_table_view_push(t0: Seq<BasicBlock>, b: BasicBlock)
    ensures
        table_view(t0.push(b)) =~= table_view(t0).push(b@),
{
}

/// Updating a block updates its view.
pub proof fn lemma_table_view_update(t0: Seq<BasicBlock>, i: int, b: BasicBlock)
    requires
        0 <= i < t0.len(),
    ensures
        table_view(t0.update(i, b)) =~= table_view(t0).update(i, b@),
{
}

/// The first index holding a block with this id, or -1.
pub open spec fn block_index(blocks: Seq<BasicBlockV>, id: u32) -> int
    decreases blocks.len(),
{
    if blocks.len() == 0 {
        -1
    } else if blocks[0].id == id {
        0
    } else {
        let r = block_index(blocks.drop_first(), id);
        if r < 0 {
            -1
        } else {
            r + 1
        }
    }
}

/// `block_index` finds the first match: a prefix without the id and a
/// match at its end pin the index down; no match at all gives -1.
pub proof fn lemma_block_index_first(blocks: Seq<BasicBlockV>, id: u32, i: int)
    requires
        0 <= i <= blocks.len(),
        forall|k: int| 0 <= k < i ==> blocks[k].id != id,
        i == blocks.len() || blocks[i].id == id,
    ensures
        block_index(blocks, id) == if i == blocks.len() {
            -1int
        } else {
            i
        },
    decreases blocks.len(),
{
    if blocks.len() > 0 && blocks[0].id != id {
        let t = blocks.drop_first();
        assert(forall|k: int| 0 <= k < i - 1 ==> t[k] == blocks[k + 1] && t[k].id != id);
        lemma_block_index_first(t, id, i - 1);
    }
}

/// A found index is in bounds and holds the id.
pub proof fn lemma_block_index_found(blocks: Seq<BasicBlockV>, id: u32)
    requires
        block_index(blocks, id) >= 0,
    ensures
        block_index(blocks, id) < blocks.len(),
        blocks[block_index(blocks, id)].id == id,
    decreases blocks.len(),
{
    if blocks.len() > 0 && blocks[0].id != id {
        lemma_block_index_found(blocks.drop_first(), id);
    }
}

/// `block_index` over two tables with the same ids at every position is
/// the same function.
pub proof fn lemma_block_index_same_ids(a: Seq<BasicBlockV>, b: Seq<BasicBlockV>, id: u32)
    requires
        a.len() == b.len(),
        forall|k: int| 0 <= k < a.len() ==> a[k].id == b[k].id,
    ensures
        block_index(a, id) == block_index(b, id),
    decreases a.len(),
{
    if a.len() > 0 {
        let ta = a.drop_first();
        let tb = b.drop_first();
        assert(forall|k: int| 0 <= k < ta.len() ==> ta[k].id == a[k + 1].id && tb[k].id == b[k
            + 1].id);
        lemma_block_index_same_ids(ta, tb, id);
    }
}

/// How appending a block moves `block_index`.
pub proof fn lemma_block_index_push(bv: Seq<BasicBlockV>, b: BasicBlockV, id: u32)
    ensures
        block_index(bv.push(b), id) == if block_index(bv, id) >= 0 {
            block_index(bv, id)
        } else if b.id == id {
            bv.len() as int
        } else {
            -1int
        },
    decreases bv.len(),
{
    if bv.len() == 0 {
        assert(bv.push(b)[0] == b);
        assert(bv.push(b).drop_first() =~= Seq::<BasicBlockV>::empty());
        if b.id != id {
            assert(block_index(Seq::<BasicBlockV>::empty(), id) == -1);
        }
    } else {
        assert(bv.push(b)[0] == bv[0]);
        assert(bv.push(b).drop_first() =~= bv.drop_first().push(b));
        assert(block_index(bv.push(b).drop_first(), id) == block_index(
            bv.drop_first().push(b),
            id,
        ));
        assert(bv.drop_first().len() == bv.len() - 1);
        lemma_block_index_push(bv.drop_first(), b, id);
    }
}

/// Do the arcs records name this block as a source?
pub open spec fn arcs_srcs_contain(arcs: Seq<ArcsV>, id: u32) -> bool {
    exists|k: int| 0 <= k < arcs.len() && arcs[k].src_block == id
}

/// Does a lines record carry at least one line number?
pub open spec fn lines_nonempty(l: LinesV) -> bool {
    exists|k: int| 0 <= k < l.sources.len() && l.sources[k].lineno.len() > 0
}

/// Every lines record that carries a line number names a block the graph
/// has: the synthetic exit, or a source block of some arcs record.
pub open spec fn lines_ok(arcs: Seq<ArcsV>, lines: Seq<LinesV>) -> bool {
    forall|i: int|
        0 <= i < lines.len() ==> (lines_nonempty(#[trigger] lines[i]) ==> (lines[i].block_id == 1
            || arcs_srcs_contain(arcs, lines[i].block_id)))
}

/// The locations a run of line numbers contributes under one file name.
pub open spec fn locs_of_nums(file: Seq<char>, nums: Seq<u32>) -> Seq<SourceLocationV> {
    nums.map_values(|n: u32| SourceLocationV { file: file, lines: n })
}

/// The locations one source chunk of a lines record contributes.
pub open spec fn locs_of_source(s: SourceV) -> Seq<SourceLocationV> {
    locs_of_nums(s.file_name, s.lineno)
}

/// The locations of a whole lines record, chunk by chunk.
pub open spec fn locs_of_sources(ss: Seq<SourceV>) -> Seq<SourceLocationV>
    decreases ss.len(),
{
    if ss.len() == 0 {
        Seq::empty()
    } else {
        locs_of_sources(ss.drop_last()) + locs_of_source(ss.last())
    }
}

/// The locations the lines records attach to one block, in record order.
pub open spec fn locs_for_block(lines: Seq<LinesV>, id: u32) -> Seq<SourceLocationV>
    decreases lines.len(),
{
    if lines.len() == 0 {
        Seq::empty()
    } else {
        locs_for_block(lines.drop_last(), id) + if lines.last().block_id == id {
            locs_of_sources(lines.last().sources)
        } else {
            Seq::empty()
        }
    }
}

/// Can this function be lifted? It must have a source block 0 for the
/// synthetic entry location, and its lines records must name known
/// blocks.
pub open spec fn function_liftable(f: FunctionV) -> bool {
    match f.blocks {
        None => true,
        Some(b) => arcs_srcs_contain(b.arcs, 0) && lines_ok(b.arcs, b.lines),
    }
}

/// The edges of one arcs record.
pub open spec fn arc_record_edges(a: ArcsV) -> Seq<Edge> {
    a.arcs.map_values(
        |x: crate::gcno::Arc| Edge { from: x.src_block, to: x.dst_block, edge_flags: x.flags },
    )
}

/// The edges of a function: every arcs record's edges, in record order.
pub open spec fn edges_of_arcs(arcs: Seq<ArcsV>) -> Seq<Edge>
    decreases arcs.len(),
{
    if arcs.len() == 0 {
        Seq::empty()
    } else {
        edges_of_arcs(arcs.drop_last()) + arc_record_edges(arcs.last())
    }
}

/// The functions of the notes that carry block data, in order.
pub open spec fn lifted_fns(fs: Seq<FunctionV>) -> Seq<FunctionV>
    decreases fs.len(),
{
    if fs.len() == 0 {
        Seq::empty()
    } else if fs.last().blocks is Some {
        lifted_fns(fs.drop_last()).push(fs.last())
    } else {
        lifted_fns(fs.drop_last())
    }
}

/// How a lifted function relates to its notes record: metadata carried
/// over, edges in arc order, block ids unique and drawn from the arc
/// sources plus the synthetic exit, and the synthetic entry and exit
/// locations in place.
pub open spec fn function_matches(fc: FunctionCFGV, f: FunctionV) -> bool {
    let b = f.blocks->Some_0;
    let bi0 = block_index(fc.basic_blocks, 0);
    let bi1 = block_index(fc.basic_blocks, 1);
    &&& f.blocks is Some
    &&& fc.identifier == f.identifier
    &&& fc.lineno_checksum == f.lineno_checksum
    &&& fc.cfg_checksum == f.cfg_checksum
    &&& fc.name == f.name
    &&& fc.source_file == f.source
    &&& fc.span == (SourceSpan {
        start_line: f.start_lineno,
        start_column: f.start_colno,
        end_line: f.end_lineno,
        end_column: f.end_colno,
    })
    &&& fc.edges == edges_of_arcs(b.arcs)
    &&& bi0 >= 0
    &&& bi1 >= 0
    &&& fc.basic_blocks[bi0].locations.len() >= 1
    &&& fc.basic_blocks[bi0].locations.last() == (SourceLocationV {
        file: f.source,
        lines: f.start_lineno,
    })
    &&& fc.basic_blocks[bi1].locations.len() >= 1
    &&& fc.basic_blocks[bi1].locations.last() == (SourceLocationV {
        file: f.source,
        lines: f.end_lineno,
    })
    &&& forall|k: int|
        0 <= k < fc.basic_blocks.len() ==> ((#[trigger] fc.basic_blocks[k].id) == 1
            || arcs_srcs_contain(b.arcs, fc.basic_blocks[k].id))
    &&& forall|k: int|
        0 <= k < fc.basic_blocks.len() ==> (#[trigger] fc.basic_blocks[k]).locations
            == locs_for_block(b.lines, fc.basic_blocks[k].id) + (if fc.basic_blocks[k].id == 0 {
            seq![SourceLocationV { file: f.source, lines: f.start_lineno }]
        } else if fc.basic_blocks[k].id == 1 {
            seq![SourceLocationV { file: f.source, lines: f.end_lineno }]
        } else {
            Seq::<SourceLocationV>::empty()
        })
    &&& forall|k1: int, k2: int|
        0 <= k1 < k2 < fc.basic_blocks.len() ==> fc.basic_blocks[k1].id
            != fc.basic_blocks[k2].id
}

/// The view of a [`ControlFlowGraph`].
pub struct ControlFlowGraphV {
    pub cwd: Seq<char>,
    pub version: u32,
    pub stamp: u32,
    pub functions: Seq<FunctionCFGV>,
}

impl View for ControlFlowGraph {
    type V = ControlFlowGraphV;

    open spec fn view(&self) -> ControlFlowGraphV {
        ControlFlowGraphV {
            cwd: self.cwd@,
            version: self.version,
            stamp: self.stamp,
            functions: functions_view(self.functions@),
        }
    }
}

/// How a lifted graph relates to the notes it came from.
pub open spec fn cfg_matches(c: ControlFlowGraphV, g: crate::gcno::GcnoV) -> bool {
    let lifted = lifted_fns(g.functions);
    &&& c.cwd == g.cwd
    &&& c.version == g.version
    &&& c.stamp == g.stamp
    &&& c.functions.len() == lifted.len()
    &&& forall|j: int|
        0 <= j < lifted.len() ==> function_matches(#[trigger] c.functions[j], lifted[j])
}

/// Find the block with this id.
#[verifier::loop_isolation(false)]
pub fn find_block(blocks: &Vec<BasicBlock>, id: u32) -> (r: Option<usize>)
    ensures
        ({
            let bi = block_index(table_view(blocks@), id);
            match r {
                Some(i) => bi == i && i < blocks@.len(),
                None => bi == -1,
            }
        }),
{
    let ghost bv = table_view(blocks@);
    let mut i: usize = 0;
    while i < blocks.len()
        invariant
            0 <= i <= blocks@.len(),
            forall|k: int| 0 <= k < i ==> bv[k].id != id,
        decreases blocks@.len() - i,
    {
        if blocks[i].id == id {
            proof {
                lemma_block_index_first(bv, id, i as int);
            }
            return Some(i);
        }
        i = i + 1;
    }
    proof {
        lemma_block_index_first(bv, id, blocks@.len() as int);
    }
    None
}

/// A negative `block_index` means no block carries the id.
pub proof fn lemma_block_index_absent(blocks: Seq<BasicBlockV>, id: u32)
    requires
        block_index(blocks, id) < 0,
    ensures
        forall|k: int| 0 <= k < blocks.len() ==> blocks[k].id != id,
    decreases blocks.len(),
{
    if blocks.len() > 0 {
        lemma_block_index_absent(blocks.drop_first(), id);
        assert(forall|k: int|
            1 <= k < blocks.len() ==> blocks[k] == blocks.drop_first()[k - 1]);
    }
}

/// Lift one function that carries block data.
#[verifier::loop_isolation(false)]
#[verifier::rlimit(50)]
fn lift_function(func: &Function) -> (r: Result<FunctionCFG, TraceError>)
    requires
        func.blocks is Some,
    ensures
        if function_liftable(func@) {
            r is Ok && function_matches(r->Ok_0@, func@)
        } else {
            r is Err && r->Err_0 == TraceError::Format
        },
{
    let blocks = match &func.blocks {
        Some(b) => b,
        None => {
            proof {
                assert(false);
            }
            return Err(TraceError::Format);
        },
    };
    let ghost barcs = blocks@.arcs;
    let ghost blines = blocks@.lines;
    let mut table: Vec<BasicBlock> = Vec::new();
    let mut edges: Vec<Edge> = Vec::new();
    // One pass over the arcs records: open a fresh block per source and
    // collect every arc as an edge.
    let mut ai: usize = 0;
    while ai < blocks.arcs.len()
        invariant
            0 <= ai <= barcs.len(),
            forall|k1: int, k2: int|
                0 <= k1 < k2 < table@.len() ==> (#[trigger] table_view(table@)[k1]).id != (#[trigger] table_view(table@)[k2]).id,
            forall|k: int|
                0 <= k < ai ==> block_index(
                    table_view(table@),
                    (#[trigger] barcs[k]).src_block,
                ) >= 0,
            forall|k: int|
                0 <= k < table@.len() ==> arcs_srcs_contain(
                    barcs,
                    (#[trigger] table_view(table@)[k]).id,
                ),
            forall|k: int|
                0 <= k < table@.len() ==> (#[trigger] table_view(table@)[k]).locations == Seq::<
                    SourceLocationV,
                >::empty(),
            edges@ == edges_of_arcs(barcs.subrange(0, ai as int)),
        decreases barcs.len() - ai,
    {
        let a = &blocks.arcs[ai];
        let ghost t0 = table@;
        let ghost tv0 = table_view(table@);
        match find_block(&table, a.src_block) {
            Some(i) => {
                proof {
                    lemma_block_index_found(tv0, a.src_block);
                }
                let blk = &mut table[i];
                *blk = BasicBlock { id: a.src_block, locations: Vec::new() };
                proof {
                    let tv1 = table_view(table@);
                    lemma_table_view_update(t0, i as int, table@[i as int]);
                    assert(table@ == t0.update(i as int, table@[i as int]));
                    assert(table@[i as int]@.locations =~= Seq::<SourceLocationV>::empty());
                    assert(tv1 =~= tv0.update(i as int, table@[i as int]@));
                    assert(forall|k: int| 0 <= k < tv1.len() ==> tv1[k].id == tv0[k].id);
                    assert forall|k: int| 0 <= k < ai implies block_index(
                        tv1,
                        (#[trigger] barcs[k]).src_block,
                    ) >= 0 by {
                        lemma_block_index_same_ids(tv0, tv1, barcs[k].src_block);
                    }
                    lemma_block_index_same_ids(tv0, tv1, a.src_block);
                }
            },
            None => {
                table.push(BasicBlock { id: a.src_block, locations: Vec::new() });
                proof {
                    let nb = BasicBlockV {
                        id: a.src_block,
                        locations: Seq::<SourceLocationV>::empty(),
                    };
                    let tv1 = table_view(table@);
                    lemma_table_view_push(t0, table@.last());
                    assert(table@ == t0.push(table@.last()));
                    assert(table@.last()@.locations =~= Seq::<SourceLocationV>::empty());
                    assert(table@.last()@ == nb);
                    assert(tv1 =~= tv0.push(nb));
                    lemma_block_index_absent(tv0, a.src_block);
                    assert forall|k: int| 0 <= k < ai implies block_index(
                        tv1,
                        (#[trigger] barcs[k]).src_block,
                    ) >= 0 by {
                        lemma_block_index_push(tv0, nb, barcs[k].src_block);
                    }
                    lemma_block_index_push(tv0, nb, a.src_block);
                }
            },
        }
        proof {
            let tv1 = table_view(table@);
            assert(block_index(tv1, barcs[ai as int].src_block) >= 0);
        }
        let mut ni: usize = 0;
        while ni < a.arcs.len()
            invariant
                0 <= ni <= a.arcs@.len(),
                edges@ == edges_of_arcs(barcs.subrange(0, ai as int)) + arc_record_edges(
                    barcs[ai as int],
                ).subrange(0, ni as int),
            decreases a.arcs@.len() - ni,
        {
            let arc = &a.arcs[ni];
            edges.push(Edge { from: arc.src_block, to: arc.dst_block, edge_flags: arc.flags });
            ni = ni + 1;
            proof {
                assert(edges@ =~= edges_of_arcs(barcs.subrange(0, ai as int))
                    + arc_record_edges(barcs[ai as int]).subrange(0, ni as int));
            }
        }
        ai = ai + 1;
        proof {
            assert(barcs.subrange(0, ai as int).drop_last() =~= barcs.subrange(0, ai - 1));
            assert(barcs.subrange(0, ai as int).last() == barcs[ai - 1]);
            assert(arc_record_edges(barcs[ai - 1]).subrange(
                0,
                arc_record_edges(barcs[ai - 1]).len() as int,
            ) =~= arc_record_edges(barcs[ai - 1]));
            assert(edges@ =~= edges_of_arcs(barcs.subrange(0, ai as int)));
        }
    }
    proof {
        assert(barcs.subrange(0, barcs.len() as int) =~= barcs);
    }
    // The synthetic exit block.
    let ghost t0 = table@;
    let ghost tv0 = table_view(table@);
    match find_block(&table, 1) {
        Some(i) => {
            proof {
                lemma_block_index_found(tv0, 1);
            }
            let blk = &mut table[i];
            *blk = BasicBlock { id: 1, locations: Vec::new() };
            proof {
                let tv1 = table_view(table@);
                lemma_table_view_update(t0, i as int, table@[i as int]);
                assert(table@ == t0.update(i as int, table@[i as int]));
                assert(table@[i as int]@.locations =~= Seq::<SourceLocationV>::empty());
                assert(tv1 =~= tv0.update(i as int, table@[i as int]@));
                assert(forall|k: int| 0 <= k < tv1.len() ==> tv1[k].id == tv0[k].id);
                assert forall|k: int| 0 <= k < barcs.len() implies block_index(
                    tv1,
                    (#[trigger] barcs[k]).src_block,
                ) >= 0 by {
                    lemma_block_index_same_ids(tv0, tv1, barcs[k].src_block);
                }
                lemma_block_index_same_ids(tv0, tv1, 1);
                assert(forall|k: int|
                    0 <= k < tv1.len() ==> (#[trigger] tv1[k]).locations == Seq::<
                        SourceLocationV,
                    >::empty());
            }
        },
        None => {
            table.push(BasicBlock { id: 1, locations: Vec::new() });
            proof {
                let nb = BasicBlockV { id: 1, locations: Seq::<SourceLocationV>::empty() };
                let tv1 = table_view(table@);
                lemma_table_view_push(t0, table@.last());
                assert(table@ == t0.push(table@.last()));
                assert(table@.last()@.locations =~= Seq::<SourceLocationV>::empty());
                assert(table@.last()@ == nb);
                assert(tv1 =~= tv0.push(nb));
                lemma_block_index_absent(tv0, 1);
                assert forall|k: int| 0 <= k < barcs.len() implies block_index(
                    tv1,
                    (#[trigger] barcs[k]).src_block,
                ) >= 0 by {
                    lemma_block_index_push(tv0, nb, barcs[k].src_block);
                }
                lemma_block_index_push(tv0, nb, 1u32);
                assert(forall|k: int|
                    0 <= k < tv1.len() ==> (#[trigger] tv1[k]).locations == Seq::<
                        SourceLocationV,
                    >::empty());
            }
        },
    }
    proof {
        assert(blines.subrange(0, 0) =~= Seq::<LinesV>::empty());
        assert forall|p: int| 0 <= p < table@.len() implies (#[trigger] table_view(
            table@,
        )[p]).locations == locs_for_block(blines.subrange(0, 0), table_view(table@)[p].id) by {
            assert(locs_for_block(Seq::<LinesV>::empty(), table_view(table@)[p].id) =~= Seq::<
                SourceLocationV,
            >::empty());
        }
    }
    // Attach the recorded source lines to their blocks.
    let mut li: usize = 0;
    while li < blocks.lines.len()
        invariant
            0 <= li <= blines.len(),
            forall|k1: int, k2: int|
                0 <= k1 < k2 < table@.len() ==> (#[trigger] table_view(table@)[k1]).id != (#[trigger] table_view(table@)[k2]).id,
            forall|k: int|
                0 <= k < barcs.len() ==> block_index(
                    table_view(table@),
                    (#[trigger] barcs[k]).src_block,
                ) >= 0,
            block_index(table_view(table@), 1) >= 0,
            forall|k: int|
                0 <= k < table@.len() ==> ((#[trigger] table_view(table@)[k]).id == 1 || arcs_srcs_contain(
                    barcs,
                    table_view(table@)[k].id,
                )),
            forall|k: int|
                0 <= k < li ==> (lines_nonempty(#[trigger] blines[k]) ==> (blines[k].block_id == 1
                    || arcs_srcs_contain(barcs, blines[k].block_id))),
            forall|p: int|
                0 <= p < table@.len() ==> (#[trigger] table_view(table@)[p]).locations
                    == locs_for_block(blines.subrange(0, li as int), table_view(table@)[p].id),
        decreases blines.len() - li,
    {
        let line = &blocks.lines[li];
        let ghost bid = blines[li as int].block_id;
        let ghost srcs = blines[li as int].sources;
        let ghost tv_li = table_view(table@);
        proof {
            assert(line@ == blines[li as int]);
            assert(srcs.subrange(0, 0) =~= Seq::<SourceV>::empty());
            assert(locs_of_sources(srcs.subrange(0, 0)) =~= Seq::<SourceLocationV>::empty());
        }
        let mut si: usize = 0;
        while si < line.sources.len()
            invariant
                0 <= si <= line.sources@.len(),
                forall|k1: int, k2: int|
                    0 <= k1 < k2 < table@.len() ==> (#[trigger] table_view(table@)[k1]).id != (#[trigger] table_view(table@)[k2]).id,
                forall|k: int|
                    0 <= k < barcs.len() ==> block_index(
                        table_view(table@),
                        (#[trigger] barcs[k]).src_block,
                    ) >= 0,
                block_index(table_view(table@), 1) >= 0,
                forall|k: int|
                    0 <= k < table@.len() ==> ((#[trigger] table_view(table@)[k]).id == 1 || arcs_srcs_contain(
                        barcs,
                        table_view(table@)[k].id,
                    )),
                forall|k: int|
                    0 <= k < si ==> ((#[trigger] line@.sources[k]).lineno.len() > 0 ==> (
                    line.block_id == 1 || arcs_srcs_contain(barcs, line.block_id))),
                forall|p: int|
                    0 <= p < table@.len() ==> (#[trigger] table_view(table@)[p]).locations == (
                    if table_view(table@)[p].id == bid {
                        locs_for_block(blines.subrange(0, li as int), bid) + locs_of_sources(
                            srcs.subrange(0, si as int),
                        )
                    } else {
                        locs_for_block(
                            blines.subrange(0, li as int),
                            table_view(table@)[p].id,
                        )
                    }),
            decreases line.sources@.len() - si,
        {
            let source = &line.sources[si];
            let ghost sfile = srcs[si as int].file_name;
            let ghost snums = srcs[si as int].lineno;
            proof {
                assert(source@ == srcs[si as int]);
                assert(locs_of_nums(sfile, snums.subrange(0, 0)) =~= Seq::<
                    SourceLocationV,
                >::empty());
                assert forall|p: int| 0 <= p < table@.len() implies (#[trigger] table_view(
                    table@,
                )[p]).locations == (if table_view(table@)[p].id == bid {
                    locs_for_block(blines.subrange(0, li as int), bid) + (locs_of_sources(
                        srcs.subrange(0, si as int),
                    ) + locs_of_nums(sfile, snums.subrange(0, 0)))
                } else {
                    locs_for_block(blines.subrange(0, li as int), table_view(table@)[p].id)
                }) by {
                    assert(locs_of_sources(srcs.subrange(0, si as int)) + Seq::<
                        SourceLocationV,
                    >::empty() =~= locs_of_sources(srcs.subrange(0, si as int)));
                }
            }
            let mut ni: usize = 0;
            while ni < source.lineno.len()
                invariant
                    0 <= ni <= source.lineno@.len(),
                    forall|k1: int, k2: int|
                        0 <= k1 < k2 < table@.len() ==> (#[trigger] table_view(table@)[k1]).id != (#[trigger] table_view(table@)[k2]).id,
                    forall|k: int|
                        0 <= k < barcs.len() ==> block_index(
                            table_view(table@),
                            (#[trigger] barcs[k]).src_block,
                        ) >= 0,
                    block_index(table_view(table@), 1) >= 0,
                    forall|k: int|
                        0 <= k < table@.len() ==> ((#[trigger] table_view(table@)[k]).id == 1 || arcs_srcs_contain(
                            barcs,
                            table_view(table@)[k].id,
                        )),
                    ni > 0 ==> (line.block_id == 1 || arcs_srcs_contain(barcs, line.block_id)),
                    forall|p: int|
                        0 <= p < table@.len() ==> (#[trigger] table_view(table@)[p]).locations
                            == (if table_view(table@)[p].id == bid {
                            locs_for_block(blines.subrange(0, li as int), bid) + (locs_of_sources(
                                srcs.subrange(0, si as int),
                            ) + locs_of_nums(sfile, snums.subrange(0, ni as int)))
                        } else {
                            locs_for_block(
                                blines.subrange(0, li as int),
                                table_view(table@)[p].id,
                            )
                        }),
                decreases source.lineno@.len() - ni,
            {
                let ghost tl0 = table@;
                let ghost tvl = table_view(table@);
                match find_block(&table, line.block_id) {
                    Some(bi) => {
                        proof {
                            lemma_block_index_found(tvl, line.block_id);
                        }
                        let loc = SourceLocation {
                            file: source.file_name.clone(),
                            lines: source.lineno[ni],
                        };
                        let blk = &mut table[bi];
                        blk.locations.push(loc);
                        proof {
                            let tv1 = table_view(table@);
                            lemma_table_view_update(tl0, bi as int, table@[bi as int]);
                            assert(table@ == tl0.update(bi as int, table@[bi as int]));
                            assert(tv1 =~= tvl.update(bi as int, table@[bi as int]@));
                            assert(forall|k: int| 0 <= k < tv1.len() ==> tv1[k].id == tvl[k].id);
                            assert forall|k: int| 0 <= k < barcs.len() implies block_index(
                                tv1,
                                (#[trigger] barcs[k]).src_block,
                            ) >= 0 by {
                                lemma_block_index_same_ids(tvl, tv1, barcs[k].src_block);
                            }
                            lemma_block_index_same_ids(tvl, tv1, 1);
                            lemma_block_index_same_ids(tvl, tv1, line.block_id);
                            // One more location lands on the block the
                            // record names.
                            let loc_v = SourceLocationV { file: sfile, lines: snums[ni as int] };
                            assert(tv1[bi as int].locations =~= tvl[bi as int].locations.push(
                                loc_v,
                            ));
                            assert(locs_of_nums(sfile, snums.subrange(0, ni + 1)) =~= locs_of_nums(
                                sfile,
                                snums.subrange(0, ni as int),
                            ).push(loc_v));
                            assert(tvl[bi as int].id == bid);
                            assert((locs_for_block(blines.subrange(0, li as int), bid) + (
                            locs_of_sources(srcs.subrange(0, si as int)) + locs_of_nums(
                                sfile,
                                snums.subrange(0, ni as int),
                            ))).push(loc_v) =~= locs_for_block(blines.subrange(0, li as int), bid)
                                + (locs_of_sources(srcs.subrange(0, si as int)) + locs_of_nums(
                                sfile,
                                snums.subrange(0, ni + 1),
                            )));
                            assert forall|p: int|
                                0 <= p < tv1.len() && p != bi implies (#[trigger] tv1[p]).id
                                != bid by {}
                        }
                    },
                    None => {
                        proof {
                            lemma_block_index_absent(tvl, line.block_id);
                            if arcs_srcs_contain(barcs, line.block_id) {
                                let k = choose|k: int|
                                    0 <= k < barcs.len() && barcs[k].src_block == line.block_id;
                                assert(block_index(tvl, barcs[k].src_block) >= 0);
                                lemma_block_index_found(tvl, line.block_id);
                            }
                            assert(line.block_id != 1) by {
                                lemma_block_index_found(tvl, 1);
                            }
                            assert(line@.sources[si as int].lineno.len() > 0);
                            assert(lines_nonempty(blines[li as int]));
                            assert(!function_liftable(func@));
                        }
                        return Err(TraceError::Format);
                    },
                }
                ni = ni + 1;
            }
            proof {
                assert(snums.subrange(0, snums.len() as int) =~= snums);
                assert(srcs.subrange(0, si + 1).drop_last() =~= srcs.subrange(0, si as int));
                assert(srcs.subrange(0, si + 1).last() == srcs[si as int]);
                assert(locs_of_sources(srcs.subrange(0, si + 1)) == locs_of_sources(
                    srcs.subrange(0, si as int),
                ) + locs_of_nums(sfile, snums));
            }
            si = si + 1;
        }
        proof {
            assert(srcs.subrange(0, srcs.len() as int) =~= srcs);
            assert(blines.subrange(0, li + 1).drop_last() =~= blines.subrange(0, li as int));
            assert(blines.subrange(0, li + 1).last() == blines[li as int]);
            assert forall|p: int| 0 <= p < table@.len() implies (#[trigger] table_view(
                table@,
            )[p]).locations == locs_for_block(
                blines.subrange(0, li + 1),
                table_view(table@)[p].id,
            ) by {
                let id = table_view(table@)[p].id;
                if id != bid {
                    assert(locs_for_block(blines.subrange(0, li as int), id) + Seq::<
                        SourceLocationV,
                    >::empty() =~= locs_for_block(blines.subrange(0, li as int), id));
                }
            }
        }
        li = li + 1;
    }
    proof {
        assert(blines.subrange(0, blines.len() as int) =~= blines);
    }
    // The synthetic entry and exit locations.
    let ghost te0 = table@;
    let ghost tve = table_view(table@);
    let b0 = match find_block(&table, 0) {
        Some(i) => i,
        None => {
            proof {
                lemma_block_index_absent(tve, 0);
                if arcs_srcs_contain(barcs, 0) {
                    let k = choose|k: int| 0 <= k < barcs.len() && barcs[k].src_block == 0;
                    assert(block_index(tve, barcs[k].src_block) >= 0);
                }
                assert(!function_liftable(func@));
            }
            return Err(TraceError::Format);
        },
    };
    proof {
        lemma_block_index_found(tve, 0);
    }
    let entry_loc = SourceLocation { file: func.source.clone(), lines: func.start_lineno };
    let blk0 = &mut table[b0];
    blk0.locations.push(entry_loc);
    proof {
        let tv1 = table_view(table@);
        lemma_table_view_update(te0, b0 as int, table@[b0 as int]);
        assert(table@ == te0.update(b0 as int, table@[b0 as int]));
        assert(tv1 =~= tve.update(b0 as int, table@[b0 as int]@));
        assert(forall|k: int| 0 <= k < tv1.len() ==> tv1[k].id == tve[k].id);
        lemma_block_index_same_ids(tve, tv1, 0);
        lemma_block_index_same_ids(tve, tv1, 1);
    }
    let ghost tf0 = table@;
    let ghost tvf = table_view(table@);
    let b1 = match find_block(&table, 1) {
        Some(i) => i,
        None => {
            proof {
                assert(false);
            }
            return Err(TraceError::Format);
        },
    };
    proof {
        lemma_block_index_found(tvf, 1);
        assert(tvf[b1 as int].id == 1 && tvf[b0 as int].id == 0);
        assert(b0 != b1);
    }
    let exit_loc = SourceLocation { file: func.source.clone(), lines: func.end_lineno };
    let blk1 = &mut table[b1];
    blk1.locations.push(exit_loc);
    proof {
        let tv1 = table_view(table@);
        lemma_table_view_update(tf0, b1 as int, table@[b1 as int]);
        assert(table@ == tf0.update(b1 as int, table@[b1 as int]));
        assert(tv1 =~= tvf.update(b1 as int, table@[b1 as int]@));
        assert(forall|k: int| 0 <= k < tv1.len() ==> tv1[k].id == tvf[k].id);
        lemma_block_index_same_ids(tvf, tv1, 0);
        lemma_block_index_same_ids(tvf, tv1, 1);
        assert(block_index(tv1, 0) == b0 as int && block_index(tv1, 1) == b1 as int);
    }
    let fc = FunctionCFG {
        identifier: func.identifier,
        lineno_checksum: func.lineno_checksum,
        cfg_checksum: func.cfg_checksum,
        name: func.name.clone(),
        source_file: func.source.clone(),
        span: SourceSpan {
            start_line: func.start_lineno,
            start_column: func.start_colno,
            end_line: func.end_lineno,
            end_column: func.end_colno,
        },
        basic_blocks: table,
        edges,
    };
    proof {
        assert(block_index(tvf, 0) == b0 as int);
        assert(arcs_srcs_contain(barcs, 0)) by {
            assert(tvf[b0 as int].id == 0);
        }
        let tvz = fc@.basic_blocks;
        let entry_v = SourceLocationV { file: func@.source, lines: func@.start_lineno };
        let exit_v = SourceLocationV { file: func@.source, lines: func@.end_lineno };
        assert forall|k: int| 0 <= k < tvz.len() implies (#[trigger] tvz[k]).locations
            == locs_for_block(blines, tvz[k].id) + (if tvz[k].id == 0 {
            seq![entry_v]
        } else if tvz[k].id == 1 {
            seq![exit_v]
        } else {
            Seq::<SourceLocationV>::empty()
        }) by {
            if k == b0 as int {
                assert(tve[k].locations == locs_for_block(blines, 0));
                assert(locs_for_block(blines, 0).push(entry_v) =~= locs_for_block(blines, 0)
                    + seq![entry_v]);
            } else if k == b1 as int {
                assert(tvf[k].locations == tve[k].locations);
                assert(tve[k].locations == locs_for_block(blines, 1));
                assert(locs_for_block(blines, 1).push(exit_v) =~= locs_for_block(blines, 1)
                    + seq![exit_v]);
            } else {
                assert(tvz[k] == tve[k]);
                assert(tvz[k].id != 0 && tvz[k].id != 1);
                assert(tve[k].locations == locs_for_block(blines, tve[k].id));
                assert(locs_for_block(blines, tvz[k].id) + Seq::<SourceLocationV>::empty()
                    =~= locs_for_block(blines, tvz[k].id));
            }
        }
        assert(function_matches(fc@, func@));
    }
    Ok(fc)
}

/// Lift parsed notes into a control-flow graph. Functions without block
/// data are dropped; a lines record that names an unknown block, or a
/// function without a source block 0, is a format error.
#[verifier::loop_isolation(false)]
impl ControlFlowGraph {
    pub fn from(gcno: Gcno) -> (r: Result<ControlFlowGraph, TraceError>)
        ensures
            if forall|i: int|
                0 <= i < gcno@.functions.len() ==> function_liftable(#[trigger] gcno@.functions[i]) {
                r is Ok && cfg_matches(r->Ok_0@, gcno@)
            } else {
                r is Err && r->Err_0 == TraceError::Format
            },
    {
        let ghost gfs = gcno@.functions;
        let mut functions: Vec<FunctionCFG> = Vec::new();
        let mut fi: usize = 0;
        while fi < gcno.functions.len()
            invariant
                0 <= fi <= gfs.len(),
                gcno@.functions == gfs,
                forall|k: int| 0 <= k < fi ==> function_liftable(#[trigger] gfs[k]),
                functions_view(functions@).len() == lifted_fns(
                    gfs.subrange(0, fi as int),
                ).len(),
                forall|j: int|
                    0 <= j < lifted_fns(gfs.subrange(0, fi as int)).len() ==> function_matches(
                        #[trigger] functions_view(functions@)[j],
                        lifted_fns(gfs.subrange(0, fi as int))[j],
                    ),
            decreases gfs.len() - fi,
        {
            let func = &gcno.functions[fi];
            let ghost pre = lifted_fns(gfs.subrange(0, fi as int));
            let ghost fv0 = functions@;
            if func.blocks.is_some() {
                let fc = match lift_function(func) {
                    Ok(fc) => fc,
                    Err(e) => {
                        proof {
                            assert(func@ == gfs[fi as int]);
                            assert(!function_liftable(gfs[fi as int]));
                        }
                        return Err(e);
                    },
                };
                functions.push(fc);
                proof {
                    lemma_functions_view_push(fv0, functions@.last());
                    assert(functions@ == fv0.push(functions@.last()));
                    assert(functions_view(functions@) =~= functions_view(fv0).push(
                        functions@.last()@,
                    ));
                }
            }
            fi = fi + 1;
            proof {
                assert(gfs.subrange(0, fi as int).drop_last() =~= gfs.subrange(0, fi - 1));
                assert(gfs.subrange(0, fi as int).last() == gfs[fi - 1]);
                if gfs[fi - 1].blocks is Some {
                    assert(lifted_fns(gfs.subrange(0, fi as int)) =~= pre.push(gfs[fi - 1]));
                } else {
                    assert(lifted_fns(gfs.subrange(0, fi as int)) =~= pre);
                }
            }
        }
        proof {
            assert(gfs.subrange(0, gfs.len() as int) =~= gfs);
        }
        Ok(ControlFlowGraph { cwd: gcno.cwd, version: gcno.version, stamp: gcno.stamp, functions })
    }
}


/// An instrumented edge projected into the source-location domain, with
/// the counter the coverage sink increments.
#[derive(Debug, Clone)]
pub struct ReportedEdge {
    pub from: Vec<SourceLocation>,
    pub to: Vec<SourceLocation>,
    pub count: u64,
    /// True exactly when the underlying edge runs from block 0 to block
    /// 2: the edge that counts function invocations.
    pub entry: bool,
    pub func_name: String,
}

/// The view of a [`ReportedEdge`].
pub struct ReportedEdgeV {
    pub from: Seq<SourceLocationV>,
    pub to: Seq<SourceLocationV>,
    pub count: u64,
    pub entry: bool,
    pub func_name: Seq<char>,
}

/// The views of a list of locations.
pub open spec fn locs_view(l: Seq<SourceLocation>) -> Seq<SourceLocationV> {
    l.map_values(|x: SourceLocation| x@)
}

impl View for ReportedEdge {
    type V = ReportedEdgeV;

    open spec fn view(&self) -> ReportedEdgeV {
        ReportedEdgeV {
            from: locs_view(self.from@),
            to: locs_view(self.to@),
            count: self.count,
            entry: self.entry,
            func_name: self.func_name@,
        }
    }
}

/// The views of a list of reported edges.
pub open spec fn reported_view(l: Seq<ReportedEdge>) -> Seq<ReportedEdgeV> {
    l.map_values(|x: ReportedEdge| x@)
}

/// Pushing a reported edge pushes its view.
pub proof fn lemma_reported_view_push(t0: Seq<ReportedEdge>, e: ReportedEdge)
    ensures
        reported_view(t0.push(e)) =~= reported_view(t0).push(e@),
{
}

/// The reported edge an instrumented edge projects to: the source
/// locations of both endpoint blocks, a zero counter, and the entry mark.
pub open spec fn spec_reported_edge(f: FunctionCFGV, e: Edge) -> ReportedEdgeV {
    ReportedEdgeV {
        from: f.basic_blocks[block_index(f.basic_blocks, e.from)].locations,
        to: f.basic_blocks[block_index(f.basic_blocks, e.to)].locations,
        count: 0,
        entry: e.from == 0 && e.to == 2,
        func_name: f.name,
    }
}

/// Copy a list of locations.
#[verifier::loop_isolation(false)]
pub fn clone_locs(v: &Vec<SourceLocation>) -> (r: Vec<SourceLocation>)
    ensures
        locs_view(r@) == locs_view(v@),
{
    let mut out: Vec<SourceLocation> = Vec::new();
    let mut i: usize = 0;
    while i < v.len()
        invariant
            0 <= i <= v@.len(),
            locs_view(out@) =~= locs_view(v@).subrange(0, i as int),
        decreases v@.len() - i,
    {
        let l = &v[i];
        out.push(SourceLocation { file: l.file.clone(), lines: l.lines });
        i = i + 1;
        proof {
            assert(locs_view(out@) =~= locs_view(v@).subrange(0, i as int));
        }
    }
    proof {
        assert(locs_view(v@).subrange(0, v@.len() as int) =~= locs_view(v@));
    }
    out
}

impl ReportedEdge {
    /// Project one edge; both endpoint blocks must be in the graph.
    pub fn new(edge: Edge, func: &FunctionCFG) -> (r: Result<ReportedEdge, TraceError>)
        ensures
            if block_index(func@.basic_blocks, edge.from) >= 0 && block_index(
                func@.basic_blocks,
                edge.to,
            ) >= 0 {
                r is Ok && r->Ok_0@ == spec_reported_edge(func@, edge)
            } else {
                r is Err && r->Err_0 == TraceError::Format
            },
    {
        let fi = match find_block(&func.basic_blocks, edge.from) {
            Some(i) => i,
            None => { return Err(TraceError::Format) },
        };
        let ti = match find_block(&func.basic_blocks, edge.to) {
            Some(i) => i,
            None => { return Err(TraceError::Format) },
        };
        let r = ReportedEdge {
            from: clone_locs(&func.basic_blocks[fi].locations),
            to: clone_locs(&func.basic_blocks[ti].locations),
            count: 0,
            entry: edge.from == 0 && edge.to == 2,
            func_name: func.name.clone(),
        };
        proof {
            assert(func.basic_blocks@[fi as int]@ == func@.basic_blocks[fi as int]);
            assert(locs_view(func.basic_blocks@[fi as int].locations@) == func@.basic_blocks[
                fi as int].locations);
            assert(locs_view(func.basic_blocks@[ti as int].locations@) == func@.basic_blocks[
                ti as int].locations);
        }
        Ok(r)
    }

    /// Step the counter once. Counters start at zero and only increase.
    pub fn increment_count(&mut self)
        requires
            old(self).count < u64::MAX,
        ensures
            *final(self) == (ReportedEdge { count: (old(self).count + 1) as u64, ..*old(self) }),
    {
        self.count = self.count + 1;
    }
}

/// The projection scan: tree edges are skipped, every other edge is
/// reported in order, and an edge endpoint without a block fails.
pub open spec fn spec_report_loop(f: FunctionCFGV, i: int, acc: Seq<ReportedEdgeV>) -> Result<
    Seq<ReportedEdgeV>,
    TraceError,
>
    decreases f.edges.len() - i,
{
    if i < 0 || i >= f.edges.len() {
        Ok(acc)
    } else {
        let e = f.edges[i];
        if e.edge_flags & FLAG_TREE != 0 {
            spec_report_loop(f, i + 1, acc)
        } else if block_index(f.basic_blocks, e.from) < 0 || block_index(f.basic_blocks, e.to)
            < 0 {
            Err(TraceError::Format)
        } else {
            spec_report_loop(f, i + 1, acc.push(spec_reported_edge(f, e)))
        }
    }
}

/// The instrumented edges of a function, in edge order.
pub open spec fn spec_instrumented_edges(f: FunctionCFGV) -> Result<Seq<ReportedEdgeV>, TraceError> {
    spec_report_loop(f, 0, Seq::empty())
}

impl FunctionCFG {
    /// Project every non-tree edge of this function, in edge order.
    #[verifier::loop_isolation(false)]
    pub fn report_instrumented_edges(&self) -> (r: Result<Vec<ReportedEdge>, TraceError>)
        ensures
            match spec_instrumented_edges(self@) {
                Ok(evs) => r is Ok && reported_view(r->Ok_0@) == evs,
                Err(e) => r is Err && r->Err_0 == e,
            },
    {
        let mut edges: Vec<ReportedEdge> = Vec::new();
        let mut i: usize = 0;
        proof {
            assert(reported_view(edges@) =~= Seq::<ReportedEdgeV>::empty());
        }
        while i < self.edges.len()
            invariant
                0 <= i <= self.edges@.len(),
                spec_report_loop(self@, i as int, reported_view(edges@)) == spec_instrumented_edges(
                    self@,
                ),
            decreases self.edges@.len() - i,
        {
            let edge = self.edges[i];
            if edge.edge_flags & FLAG_TREE == 0 {
                let ghost pre = edges@;
                let re = match ReportedEdge::new(edge, self) {
                    Ok(re) => re,
                    Err(e) => { return Err(e) },
                };
                edges.push(re);
                proof {
                    lemma_reported_view_push(pre, edges@.last());
                    assert(edges@ == pre.push(edges@.last()));
                    assert(reported_view(edges@) =~= reported_view(pre).push(
                        spec_reported_edge(self@, edge),
                    ));
                }
            }
            i = i + 1;
        }
        Ok(edges)
    }
}

/// The instrumented edges of one function, under its name.
#[derive(Debug, Clone)]
pub struct FunctionEdges {
    pub func_name: String,
    pub edges: Vec<ReportedEdge>,
}

/// The view of a [`FunctionEdges`].
pub struct FunctionEdgesV {
    pub func_name: Seq<char>,
    pub edges: Seq<ReportedEdgeV>,
}

impl View for FunctionEdges {
    type V = FunctionEdgesV;

    open spec fn view(&self) -> FunctionEdgesV {
        FunctionEdgesV { func_name: self.func_name@, edges: reported_view(self.edges@) }
    }
}

/// The views of a list of function edge reports.
pub open spec fn reports_view(l: Seq<FunctionEdges>) -> Seq<FunctionEdgesV> {
    l.map_values(|x: FunctionEdges| x@)
}

/// The per-graph projection scan, one entry per function in order.
pub open spec fn spec_graph_report_loop(
    fs: Seq<FunctionCFGV>,
    i: int,
    acc: Seq<FunctionEdgesV>,
) -> Result<Seq<FunctionEdgesV>, TraceError>
    decreases fs.len() - i,
{
    if i < 0 || i >= fs.len() {
        Ok(acc)
    } else {
        match spec_instrumented_edges(fs[i]) {
            Err(e) => Err(e),
            Ok(evs) => spec_graph_report_loop(
                fs,
                i + 1,
                acc.push(FunctionEdgesV { func_name: fs[i].name, edges: evs }),
            ),
        }
    }
}

/// A successful projection yields one report per remaining function.
pub proof fn lemma_graph_report_len(fs: Seq<FunctionCFGV>, i: int, acc: Seq<FunctionEdgesV>)
    requires
        0 <= i <= fs.len(),
    ensures
        spec_graph_report_loop(fs, i, acc) matches Ok(rs) ==> rs.len() == acc.len() + (fs.len()
            - i),
    decreases fs.len() - i,
{
    if i < fs.len() {
        match spec_instrumented_edges(fs[i]) {
            Err(_) => {},
            Ok(evs) => {
                lemma_graph_report_len(
                    fs,
                    i + 1,
                    acc.push(FunctionEdgesV { func_name: fs[i].name, edges: evs }),
                );
            },
        }
    }
}

impl ControlFlowGraph {
    /// Project the instrumented edges of every function, in function
    /// order.
    #[verifier::loop_isolation(false)]
    pub fn report_instrumented_edges(&self) -> (r: Result<Vec<FunctionEdges>, TraceError>)
        ensures
            match spec_graph_report_loop(self@.functions, 0, Seq::empty()) {
                Ok(reports) => r is Ok && reports_view(r->Ok_0@) == reports,
                Err(e) => r is Err && r->Err_0 == e,
            },
    {
        let mut out: Vec<FunctionEdges> = Vec::new();
        let mut i: usize = 0;
        proof {
            assert(reports_view(out@) =~= Seq::<FunctionEdgesV>::empty());
        }
        while i < self.functions.len()
            invariant
                0 <= i <= self.functions@.len(),
                spec_graph_report_loop(self@.functions, i as int, reports_view(out@))
                    == spec_graph_report_loop(self@.functions, 0, Seq::empty()),
            decreases self.functions@.len() - i,
        {
            let func = &self.functions[i];
            let edges = match func.report_instrumented_edges() {
                Ok(evs) => evs,
                Err(e) => {
                    proof {
                        assert(func@ == self@.functions[i as int]);
                    }
                    return Err(e);
                },
            };
            let ghost pre = out@;
            out.push(FunctionEdges { func_name: func.name.clone(), edges });
            proof {
                assert(out@ == pre.push(out@.last()));
                assert(reports_view(out@) =~= reports_view(pre).push(out@.last()@));
                assert(out@.last()@.func_name == self@.functions[i as int].name);
            }
            i = i + 1;
        }
        Ok(out)
    }
}

/// The four little-endian bytes of a 32-bit word.
pub open spec fn u32_le_bytes(v: u32) -> Seq<u8> {
    seq![
        (v & 0xff) as u8,
        ((v >> 8) & 0xff) as u8,
        ((v >> 16) & 0xff) as u8,
        ((v >> 24) & 0xff) as u8,
    ]
}

/// The eight little-endian bytes of a 64-bit word.
pub open spec fn u64_le_bytes(v: u64) -> Seq<u8> {
    seq![
        (v & 0xff) as u8,
        ((v >> 8) & 0xff) as u8,
        ((v >> 16) & 0xff) as u8,
        ((v >> 24) & 0xff) as u8,
        ((v >> 32) & 0xff) as u8,
        ((v >> 40) & 0xff) as u8,
        ((v >> 48) & 0xff) as u8,
        ((v >> 56) & 0xff) as u8,
    ]
}

/// Append the four little-endian bytes of a 32-bit word.
pub fn push_u32_le(out: &mut Vec<u8>, v: u32)
    ensures
        final(out)@ == old(out)@ + u32_le_bytes(v),
{
    out.push((v & 0xff) as u8);
    out.push(((v >> 8) & 0xff) as u8);
    out.push(((v >> 16) & 0xff) as u8);
    out.push(((v >> 24) & 0xff) as u8);
    proof {
        assert(out@ =~= old(out)@ + u32_le_bytes(v));
    }
}

/// Append the eight little-endian bytes of a 64-bit word.
pub fn push_u64_le(out: &mut Vec<u8>, v: u64)
    ensures
        final(out)@ == old(out)@ + u64_le_bytes(v),
{
    out.push((v & 0xff) as u8);
    out.push(((v >> 8) & 0xff) as u8);
    out.push(((v >> 16) & 0xff) as u8);
    out.push(((v >> 24) & 0xff) as u8);
    out.push(((v >> 32) & 0xff) as u8);
    out.push(((v >> 40) & 0xff) as u8);
    out.push(((v >> 48) & 0xff) as u8);
    out.push(((v >> 56) & 0xff) as u8);
    proof {
        assert(out@ =~= old(out)@ + u64_le_bytes(v));
    }
}

/// The counter words of one function: each reported edge's count, in
/// edge order, as little-endian 64-bit words.
pub open spec fn counters_bytes(edges: Seq<ReportedEdgeV>) -> Seq<u8>
    decreases edges.len(),
{
    if edges.len() == 0 {
        Seq::empty()
    } else {
        counters_bytes(edges.drop_last()) + u64_le_bytes(edges.last().count)
    }
}

/// The record bytes of one function in the counter file: its
/// announcement record, then its counters record.
pub open spec fn gcda_function_bytes(f: FunctionCFGV, edges: Seq<ReportedEdgeV>) -> Seq<u8> {
    u32_le_bytes(FUNCTION_TAG) + u32_le_bytes(12) + u32_le_bytes(f.identifier) + u32_le_bytes(
        f.lineno_checksum,
    ) + u32_le_bytes(f.cfg_checksum) + u32_le_bytes(COUNTER_BASE_TAG) + u32_le_bytes(
        (edges.len() * 8) as u32,
    ) + counters_bytes(edges)
}

/// The function records of the counter file, for the first `i`
/// functions.
pub open spec fn gcda_body_bytes(
    fs: Seq<FunctionCFGV>,
    reports: Seq<FunctionEdgesV>,
    i: int,
) -> Seq<u8>
    decreases i,
{
    if i <= 0 {
        Seq::empty()
    } else {
        gcda_body_bytes(fs, reports, i - 1) + gcda_function_bytes(fs[i - 1], reports[i - 1].edges)
    }
}

/// The whole counter file: magic, version, stamp, a zero checksum, then
/// every function's records.
pub open spec fn spec_gcda_bytes(c: ControlFlowGraphV, reports: Seq<FunctionEdgesV>) -> Seq<u8> {
    u32_le_bytes(GCDA_MAGIC) + u32_le_bytes(c.version) + u32_le_bytes(c.stamp) + u32_le_bytes(0)
        + gcda_body_bytes(c.functions, reports, c.functions.len() as int)
}

impl ControlFlowGraph {
    /// Serialize the counter file for this graph, with the counters of
    /// `edge_map`, one entry per function in function order.
    #[verifier::loop_isolation(false)]
    #[verifier::rlimit(80)]
    pub fn write_gcda(&self, edge_map: &Vec<FunctionEdges>) -> (r: Vec<u8>)
        requires
            edge_map@.len() == self.functions@.len(),
            forall|j: int|
                0 <= j < edge_map@.len() ==> (#[trigger] edge_map@[j])@.edges.len() * 8
                    < 0x100000000,
        ensures
            r@ == spec_gcda_bytes(self@, reports_view(edge_map@)),
    {
        let mut out: Vec<u8> = Vec::new();
        push_u32_le(&mut out, GCDA_MAGIC);
        push_u32_le(&mut out, self.version);
        push_u32_le(&mut out, self.stamp);
        push_u32_le(&mut out, 0);
        let ghost header = out@;
        let ghost fs = self@.functions;
        let ghost reports = reports_view(edge_map@);
        let mut j: usize = 0;
        while j < self.functions.len()
            invariant
                0 <= j <= fs.len(),
                out@ == header + gcda_body_bytes(fs, reports, j as int),
            decreases fs.len() - j,
        {
            let func = &self.functions[j];
            push_u32_le(&mut out, FUNCTION_TAG);
            push_u32_le(&mut out, 12);
            push_u32_le(&mut out, func.identifier);
            push_u32_le(&mut out, func.lineno_checksum);
            push_u32_le(&mut out, func.cfg_checksum);
            push_u32_le(&mut out, COUNTER_BASE_TAG);
            let edges = &edge_map[j].edges;
            let size = edges.len() as u32;
            push_u32_le(&mut out, size * 8);
            let ghost pre = out@;
            let mut k: usize = 0;
            proof {
                assert(reported_view(edges@).subrange(0, 0) =~= Seq::<ReportedEdgeV>::empty());
                assert(counters_bytes(reported_view(edges@).subrange(0, 0)) =~= Seq::<u8>::empty());
                assert(out@ =~= pre + counters_bytes(reported_view(edges@).subrange(0, 0)));
            }
            while k < edges.len()
                invariant
                    0 <= k <= edges@.len(),
                    out@ == pre + counters_bytes(reported_view(edges@).subrange(0, k as int)),
                decreases edges@.len() - k,
            {
                push_u64_le(&mut out, edges[k].count);
                k = k + 1;
                proof {
                    let evs = reported_view(edges@);
                    assert(evs.subrange(0, k as int).drop_last() =~= evs.subrange(0, k - 1));
                    assert(evs.subrange(0, k as int).last() == evs[k - 1]);
                    assert(out@ =~= pre + counters_bytes(evs.subrange(0, k as int)));
                }
            }
            j = j + 1;
            proof {
                let evs = reported_view(edges@);
                assert(evs.subrange(0, evs.len() as int) =~= evs);
                assert(reports[j - 1].edges == evs);
                assert(fs[j - 1] == func@);
                assert(out@ =~= header + gcda_body_bytes(fs, reports, j as int));
            }
        }
        out
    }
}

} // verus!
