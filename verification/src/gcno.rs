//! The record-level data model of a GCC coverage-notes file: functions,
//! block counts, arc lists and line tables, as they appear in the file.

use vstd::prelude::*;

verus! {

/// Trim a string at its first NUL: the prefix before it, or the whole
/// string when none occurs.
pub open spec fn spec_str_trim(s: Seq<char>) -> Seq<char>
    decreases s.len(),
{
    if s.len() == 0 {
        s
    } else if s[0] == '\0' {
        Seq::empty()
    } else {
        seq![s[0]] + spec_str_trim(s.drop_first())
    }
}

/// A prefix free of NUL, ended by NUL or the end of the string, is the
/// trimmed value.
proof fn lemma_str_trim_prefix(s: Seq<char>, i: int)
    requires
        0 <= i <= s.len(),
        forall|k: int| 0 <= k < i ==> s[k] != '\0',
        i == s.len() || s[i] == '\0',
    ensures
        spec_str_trim(s) == s.subrange(0, i),
    decreases s.len(),
{
    if s.len() == 0 {
        assert(s.subrange(0, 0) =~= s);
    } else if s[0] == '\0' {
        assert(s.subrange(0, 0) =~= Seq::<char>::empty());
    } else {
        let t = s.drop_first();
        assert(forall|k: int| 0 <= k < i - 1 ==> t[k] == s[k + 1] && t[k] != '\0');
        lemma_str_trim_prefix(t, i - 1);
        assert(t.subrange(0, i - 1) =~= s.subrange(1, i));
        assert(seq![s[0]] + s.subrange(1, i) =~= s.subrange(0, i));
    }
}

/// Remove everything from the first NUL on.
pub fn str_trim(s: String) -> (r: String)
    ensures
        r@ == spec_str_trim(s@),
{
    let sl = s.as_str();
    let len = sl.unicode_len();
    let mut i: usize = 0;
    while i < len && sl.get_char(i) != '\0'
        invariant
            0 <= i <= s@.len(),
            len == s@.len(),
            sl@ == s@,
            forall|k: int| 0 <= k < i ==> s@[k] != '\0',
        decreases len - i,
    {
        i = i + 1;
    }
    let r = sl.substring_char(0, i).to_owned();
    proof {
        lemma_str_trim_prefix(s@, i as int);
    }
    r
}

/// Append a terminating NUL.
pub fn str_term(s: String) -> (r: String)
    ensures
        r@ == s@.push('\0'),
{
    let ghost sv = s@;
    let mut t = s;
    t.append("\0");
    proof {
        reveal_strlit("\0");
        assert(t@ =~= sv.push('\0'));
    }
    t
}

/// A parsed notes file: header fields and the functions in file order.
#[derive(Debug, Clone)]
pub struct Gcno {
    pub version: u32,
    pub stamp: u32,
    pub cwd: String,
    pub functions: Vec<Function>,
}

/// The view of a [`Gcno`]: the same fields over mathematical sequences.
pub struct GcnoV {
    pub version: u32,
    pub stamp: u32,
    pub cwd: Seq<char>,
    pub functions: Seq<FunctionV>,
}

impl View for Gcno {
    type V = GcnoV;

    open spec fn view(&self) -> GcnoV {
        GcnoV {
            version: self.version,
            stamp: self.stamp,
            cwd: self.cwd@,
            functions: self.functions@.map_values(|f: Function| f@),
        }
    }
}

impl Gcno {
    pub fn new(version: u32, stamp: u32, cwd: String) -> (r: Gcno)
        ensures
            r.version == version,
            r.stamp == stamp,
            r.cwd@ == cwd@,
            r@.functions =~= Seq::<FunctionV>::empty(),
    {
        Gcno { version, stamp, cwd, functions: Vec::new() }
    }

    pub fn add_function(&mut self, function: Function)
        ensures
            final(self).version == old(self).version,
            final(self).stamp == old(self).stamp,
            final(self).cwd == old(self).cwd,
            final(self)@.functions =~= old(self)@.functions.push(function@),
    {
        self.functions.push(function);
    }
}

/// One function record, plus the block data attached to it by later
/// records.
#[derive(Debug, Clone)]
pub struct Function {
    pub identifier: u32,
    pub lineno_checksum: u32,
    pub cfg_checksum: u32,
    pub name: String,
    pub source: String,
    pub start_lineno: u32,
    pub start_colno: u32,
    pub end_lineno: u32,
    pub end_colno: u32,
    pub blocks: Option<Blocks>,
}

/// The view of a [`Function`].
pub struct FunctionV {
    pub identifier: u32,
    pub lineno_checksum: u32,
    pub cfg_checksum: u32,
    pub name: Seq<char>,
    pub source: Seq<char>,
    pub start_lineno: u32,
    pub start_colno: u32,
    pub end_lineno: u32,
    pub end_colno: u32,
    pub blocks: Option<BlocksV>,
}

impl View for Function {
    type V = FunctionV;

    open spec fn view(&self) -> FunctionV {
        FunctionV {
            identifier: self.identifier,
            lineno_checksum: self.lineno_checksum,
            cfg_checksum: self.cfg_checksum,
            name: self.name@,
            source: self.source@,
            start_lineno: self.start_lineno,
            start_colno: self.start_colno,
            end_lineno: self.end_lineno,
            end_colno: self.end_colno,
            blocks: match self.blocks {
                Some(b) => Some(b@),
                None => None,
            },
        }
    }
}

impl Function {
    pub fn new(
        identifier: u32,
        lineno_checksum: u32,
        cfg_checksum: u32,
        name: String,
        source: String,
        start_lineno: u32,
        start_colno: u32,
        end_lineno: u32,
        end_colno: u32,
    ) -> (r: Function)
        ensures
            r.identifier == identifier,
            r.lineno_checksum == lineno_checksum,
            r.cfg_checksum == cfg_checksum,
            r.name@ == name@,
            r.source@ == source@,
            r.start_lineno == start_lineno,
            r.start_colno == start_colno,
            r.end_lineno == end_lineno,
            r.end_colno == end_colno,
            r.blocks is None,
    {
        Function {
            identifier,
            lineno_checksum,
            cfg_checksum,
            name,
            source,
            start_lineno,
            start_colno,
            end_lineno,
            end_colno,
            blocks: None,
        }
    }

    pub fn set_blocks(&mut self, blocks: Blocks)
        ensures
            *final(self) == (Function { blocks: Some(blocks), ..*old(self) }),
    {
        self.blocks = Some(blocks);
    }
}

/// The block count of a function, with the arc and line records that
/// follow it.
#[derive(Debug, Clone)]
pub struct Blocks {
    pub num_blocks: u32,
    pub arcs: Vec<Arcs>,
    pub lines: Vec<Lines>,
}

/// The view of a [`Blocks`].
pub struct BlocksV {
    pub num_blocks: u32,
    pub arcs: Seq<ArcsV>,
    pub lines: Seq<LinesV>,
}

impl View for Blocks {
    type V = BlocksV;

    open spec fn view(&self) -> BlocksV {
        BlocksV {
            num_blocks: self.num_blocks,
            arcs: self.arcs@.map_values(|a: Arcs| a@),
            lines: self.lines@.map_values(|l: Lines| l@),
        }
    }
}

impl Blocks {
    pub fn new(num_blocks: u32) -> (r: Blocks)
        ensures
            r.num_blocks == num_blocks,
            r@.arcs =~= Seq::<ArcsV>::empty(),
            r@.lines =~= Seq::<LinesV>::empty(),
    {
        Blocks { num_blocks, arcs: Vec::new(), lines: Vec::new() }
    }

    pub fn add_arcs(&mut self, arcs: Arcs)
        ensures
            final(self).num_blocks == old(self).num_blocks,
            final(self)@.arcs =~= old(self)@.arcs.push(arcs@),
            final(self)@.lines == old(self)@.lines,
    {
        self.arcs.push(arcs);
    }

    pub fn add_line(&mut self, line: Lines)
        ensures
            final(self).num_blocks == old(self).num_blocks,
            final(self)@.arcs == old(self)@.arcs,
            final(self)@.lines =~= old(self)@.lines.push(line@),
    {
        self.lines.push(line);
    }
}

/// One arcs record: the outgoing arcs of one source block.
#[derive(Debug, Clone)]
pub struct Arcs {
    pub num_arcs: u32,
    pub src_block: u32,
    pub arcs: Vec<Arc>,
}

/// The view of an [`Arcs`].
pub struct ArcsV {
    pub num_arcs: u32,
    pub src_block: u32,
    pub arcs: Seq<Arc>,
}

impl View for Arcs {
    type V = ArcsV;

    open spec fn view(&self) -> ArcsV {
        ArcsV { num_arcs: self.num_arcs, src_block: self.src_block, arcs: self.arcs@ }
    }
}

impl Arcs {
    pub fn new(num_arcs: u32, src_block: u32, arcs: Vec<Arc>) -> (r: Arcs)
        ensures
            r.num_arcs == num_arcs,
            r.src_block == src_block,
            r.arcs@ == arcs@,
    {
        Arcs { num_arcs, src_block, arcs }
    }
}

/// One arc of the flow graph, with its flag bits.
#[derive(Debug, Clone, Copy, PartialEq, Eq, Structural)]
pub struct Arc {
    pub src_block: u32,
    pub dst_block: u32,
    pub flags: u32,
}

/// One lines record: the source lines attached to one block.
#[derive(Debug, Clone)]
pub struct Lines {
    pub block_id: u32,
    pub sources: Vec<Source>,
}

/// The view of a [`Lines`].
pub struct LinesV {
    pub block_id: u32,
    pub sources: Seq<SourceV>,
}

impl View for Lines {
    type V = LinesV;

    open spec fn view(&self) -> LinesV {
        LinesV { block_id: self.block_id, sources: self.sources@.map_values(|s: Source| s@) }
    }
}

/// The line numbers of one source file inside a lines record.
#[derive(Debug, Clone)]
pub struct Source {
    pub file_name: String,
    pub lineno: Vec<u32>,
}

/// The view of a [`Source`].
pub struct SourceV {
    pub file_name: Seq<char>,
    pub lineno: Seq<u32>,
}

impl View for Source {
    type V = SourceV;

    open spec fn view(&self) -> SourceV {
        SourceV { file_name: self.file_name@, lineno: self.lineno@ }
    }
}

} // verus!
