//! The trace reconstructor: it walks basic blocks through the
//! instruction index and turns each packet into a concrete control-flow
//! event with both endpoints resolved.

use crate::event::{entries_view, lemma_entries_view_push, Entry, EntryV, Event};
use crate::insn::{InsnInfoV, InsnMap};
use crate::packet::TraceError;
use vstd::prelude::*;

verus! {

/// Is the mnemonic one of the conditional branches?
pub open spec fn spec_is_branch_mnemonic(m: Seq<char>) -> bool {
    ||| m == "beq"@
    ||| m == "bge"@
    ||| m == "bgeu"@
    ||| m == "blt"@
    ||| m == "bltu"@
    ||| m == "bne"@
    ||| m == "beqz"@
    ||| m == "bnez"@
    ||| m == "bgez"@
    ||| m == "blez"@
    ||| m == "bltz"@
    ||| m == "bgtz"@
    ||| m == "bgt"@
    ||| m == "ble"@
    ||| m == "bgtu"@
    ||| m == "bleu"@
    ||| m == "c.beqz"@
    ||| m == "c.bnez"@
    ||| m == "c.bltz"@
    ||| m == "c.bgez"@
}

/// Is the mnemonic one of the jumps?
pub open spec fn spec_is_jump_mnemonic(m: Seq<char>) -> bool {
    ||| m == "jal"@
    ||| m == "jalr"@
    ||| m == "j"@
    ||| m == "jr"@
    ||| m == "call"@
    ||| m == "ret"@
    ||| m == "tail"@
    ||| m == "c.j"@
    ||| m == "c.jal"@
    ||| m == "c.jr"@
    ||| m == "c.jalr"@
}

/// Does the mnemonic look like a branch or jump the tables above miss:
/// it starts with `b`, `j`, `c.b` or `c.j`?
pub open spec fn spec_looks_control(m: Seq<char>) -> bool {
    ||| (m.len() >= 1 && m[0] == 'b')
    ||| (m.len() >= 1 && m[0] == 'j')
    ||| (m.len() >= 3 && m[0] == 'c' && m[1] == '.' && m[2] == 'b')
    ||| (m.len() >= 3 && m[0] == 'c' && m[1] == '.' && m[2] == 'j')
}

/// Compare a mnemonic against a fixed word.
pub fn streq(m: &String, lit: &str) -> (r: bool)
    ensures
        r == (m@ == lit@),
{
    m.eq(&String::from_str(lit))
}

/// Is this one of the conditional branches?
pub fn is_branch_mnemonic(m: &String) -> (r: bool)
    ensures
        r == spec_is_branch_mnemonic(m@),
{
    streq(m, "beq") || streq(m, "bge") || streq(m, "bgeu") || streq(m, "blt") || streq(m, "bltu")
        || streq(m, "bne") || streq(m, "beqz") || streq(m, "bnez") || streq(m, "bgez") || streq(
        m,
        "blez",
    ) || streq(m, "bltz") || streq(m, "bgtz") || streq(m, "bgt") || streq(m, "ble") || streq(
        m,
        "bgtu",
    ) || streq(m, "bleu") || streq(m, "c.beqz") || streq(m, "c.bnez") || streq(m, "c.bltz")
        || streq(m, "c.bgez")
}

/// Is this one of the jumps?
pub fn is_jump_mnemonic(m: &String) -> (r: bool)
    ensures
        r == spec_is_jump_mnemonic(m@),
{
    streq(m, "jal") || streq(m, "jalr") || streq(m, "j") || streq(m, "jr") || streq(m, "call")
        || streq(m, "ret") || streq(m, "tail") || streq(m, "c.j") || streq(m, "c.jal") || streq(
        m,
        "c.jr",
    ) || streq(m, "c.jalr")
}

/// Does this start with `b`, `j`, `c.b` or `c.j`?
pub fn looks_control(m: &String) -> (r: bool)
    ensures
        r == spec_looks_control(m@),
{
    let s = m.as_str();
    let n = s.unicode_len();
    if n >= 1 {
        let c0 = s.get_char(0);
        if c0 == 'b' || c0 == 'j' {
            return true;
        }
        if n >= 3 && c0 == 'c' && s.get_char(1) == '.' && (s.get_char(2) == 'b' || s.get_char(2)
            == 'j') {
            return true;
        }
    }
    false
}

/// Shift a wire address of 2-byte parcels into a byte address.
pub open spec fn spec_refund_addr(addr: u64) -> u64 {
    addr << 1
}

/// Shift a wire address of 2-byte parcels into a byte address.
pub fn refund_addr(addr: u64) -> (r: u64)
    ensures
        r == spec_refund_addr(addr),
{
    addr << 1
}

/// The index one to the right of the last comma, scanning `s[..j]`.
pub open spec fn spec_token_start(s: Seq<char>, j: int) -> int
    decreases j,
{
    if j <= 0 {
        0
    } else if s[j - 1] == ',' {
        j
    } else {
        spec_token_start(s, j - 1)
    }
}

/// The first index at or after `i` whose character is not a space.
pub open spec fn spec_skip_spaces(s: Seq<char>, i: int) -> int
    decreases s.len() - i,
{
    if i < 0 || i >= s.len() {
        s.len() as int
    } else if s[i] != ' ' {
        i
    } else {
        spec_skip_spaces(s, i + 1)
    }
}

/// The end of the non-space run ending at `j`, never below `a`.
pub open spec fn spec_rskip_spaces(s: Seq<char>, j: int, a: int) -> int
    decreases j - a,
{
    if j <= a {
        a
    } else if 0 < j <= s.len() && s[j - 1] != ' ' {
        j
    } else {
        spec_rskip_spaces(s, j - 1, a)
    }
}

/// The value of a hexadecimal digit.
pub open spec fn spec_digit(c: char, radix: int) -> Option<int> {
    let v = if '0' <= c <= '9' {
        (c as int) - ('0' as int)
    } else if 'a' <= c <= 'f' {
        10 + (c as int) - ('a' as int)
    } else if 'A' <= c <= 'F' {
        10 + (c as int) - ('A' as int)
    } else {
        -1
    };
    if 0 <= v < radix {
        Some(v)
    } else {
        None
    }
}

/// The value of a digit string in a radix; `None` when empty or when any
/// character is not a digit of the radix.
pub open spec fn spec_digits_val(s: Seq<char>, radix: int) -> Option<int>
    decreases s.len(),
{
    if s.len() == 0 {
        None
    } else if s.len() == 1 {
        spec_digit(s[0], radix)
    } else {
        match (spec_digits_val(s.drop_last(), radix), spec_digit(s.last(), radix)) {
            (Some(a), Some(d)) => Some(a * radix + d),
            _ => None,
        }
    }
}

/// A failed prefix fails the whole digit string.
proof fn lemma_digits_val_none(s: Seq<char>, radix: int, k: int)
    requires
        0 < k <= s.len(),
        spec_digits_val(s.subrange(0, k), radix) is None,
    ensures
        spec_digits_val(s, radix) is None,
    decreases s.len() - k,
{
    if k < s.len() {
        assert(s.subrange(0, k + 1).drop_last() =~= s.subrange(0, k));
        lemma_digits_val_none(s, radix, k + 1);
    } else {
        assert(s.subrange(0, k) =~= s);
    }
}

/// A digit string is worth at least any of its prefixes.
proof fn lemma_digits_val_grows(s: Seq<char>, radix: int, k: int)
    requires
        0 < k <= s.len(),
        2 <= radix,
        spec_digits_val(s.subrange(0, k), radix) matches Some(a) && a >= 0,
    ensures
        spec_digits_val(s, radix) is None || (spec_digits_val(s, radix) matches Some(v) && v
            >= spec_digits_val(s.subrange(0, k), radix)->Some_0),
    decreases s.len() - k,
{
    if k < s.len() {
        assert(s.subrange(0, k + 1).drop_last() =~= s.subrange(0, k));
        let a = spec_digits_val(s.subrange(0, k), radix)->Some_0;
        match spec_digits_val(s.subrange(0, k + 1), radix) {
            Some(v1) => {
                assert(v1 >= a) by (nonlinear_arith)
                    requires
                        v1 == a * radix + spec_digit(s.subrange(0, k + 1).last(), radix)->Some_0,
                        spec_digit(s.subrange(0, k + 1).last(), radix)->Some_0 >= 0,
                        a >= 0,
                        radix >= 2,
                ;
                lemma_digits_val_grows(s, radix, k + 1);
            },
            None => {
                lemma_digits_val_none(s, radix, k + 1);
            },
        }
    } else {
        assert(s.subrange(0, k) =~= s);
    }
}

/// The signed operand value of a trimmed token: a `-0x` or `0x` prefix
/// picks hexadecimal, a bare `-` or digits pick decimal; a value beyond
/// the signed 64-bit range, or a malformed digit, is rejected.
pub open spec fn spec_parse_offset_token(t: Seq<char>) -> Option<i64> {
    if t.len() >= 3 && t[0] == '-' && t[1] == '0' && t[2] == 'x' {
        match spec_digits_val(t.subrange(3, t.len() as int), 16) {
            Some(v) => if v <= i64::MAX {
                Some((-v) as i64)
            } else {
                None
            },
            None => None,
        }
    } else if t.len() >= 2 && t[0] == '0' && t[1] == 'x' {
        match spec_digits_val(t.subrange(2, t.len() as int), 16) {
            Some(v) => if v <= i64::MAX {
                Some(v as i64)
            } else {
                None
            },
            None => None,
        }
    } else if t.len() >= 1 && t[0] == '-' {
        match spec_digits_val(t.subrange(1, t.len() as int), 10) {
            Some(v) => if v <= i64::MAX {
                Some((-v) as i64)
            } else {
                None
            },
            None => None,
        }
    } else {
        match spec_digits_val(t, 10) {
            Some(v) => if v <= i64::MAX {
                Some(v as i64)
            } else {
                None
            },
            None => None,
        }
    }
}

/// The relative offset encoded in an operand string: the last
/// comma-separated operand, trimmed of spaces, read as a signed number.
pub open spec fn spec_compute_offset(s: Seq<char>) -> Option<i64> {
    let t0 = spec_token_start(s, s.len() as int);
    let a = spec_skip_spaces(s, t0);
    let b = spec_rskip_spaces(s, s.len() as int, a);
    spec_parse_offset_token(s.subrange(a, b))
}

/// Read one digit of the radix.
fn digit_val(c: char, radix: u32) -> (r: Option<u32>)
    requires
        radix == 10 || radix == 16,
    ensures
        match r {
            Some(v) => spec_digit(c, radix as int) == Some(v as int) && v < radix,
            None => spec_digit(c, radix as int) is None,
        },
{
    let v: u32 = if c >= '0' && c <= '9' {
        (c as u32) - ('0' as u32)
    } else if c >= 'a' && c <= 'f' {
        10 + (c as u32) - ('a' as u32)
    } else if c >= 'A' && c <= 'F' {
        10 + (c as u32) - ('A' as u32)
    } else {
        return None;
    };
    if v < radix {
        Some(v)
    } else {
        None
    }
}

/// Read the digits `s[from..to]` in the radix, within the signed 64-bit
/// range.
#[verifier::loop_isolation(false)]
fn parse_digits(s: &str, from: usize, to: usize, radix: u32) -> (r: Option<u64>)
    requires
        from <= to <= s@.len(),
        radix == 10 || radix == 16,
    ensures
        ({
            let dv = spec_digits_val(s@.subrange(from as int, to as int), radix as int);
            match r {
                Some(v) => dv == Some(v as int) && v <= i64::MAX,
                None => dv is None || (dv matches Some(w) && w > i64::MAX),
            }
        }),
{
    let ghost t = s@.subrange(from as int, to as int);
    if from == to {
        return None;
    }
    let mut acc: u64 = 0;
    let mut i: usize = from;
    while i < to
        invariant
            from <= i <= to,
            i > from ==> spec_digits_val(t.subrange(0, i - from), radix as int) == Some(
                acc as int,
            ),
            i == from ==> acc == 0,
            acc <= i64::MAX,
        decreases to - i,
    {
        let c = s.get_char(i);
        proof {
            assert(t[i - from] == s@[i as int]);
        }
        let d = match digit_val(c, radix) {
            Some(d) => d,
            None => {
                proof {
                    if i == from {
                        assert(t.subrange(0, 1).len() == 1);
                        assert(t.subrange(0, 1)[0] == t[0]);
                        assert(spec_digits_val(t.subrange(0, 1), radix as int) is None);
                        lemma_digits_val_none(t, radix as int, 1);
                    } else {
                        assert(t.subrange(0, i + 1 - from).drop_last() =~= t.subrange(
                            0,
                            i - from,
                        ));
                        assert(t.subrange(0, i + 1 - from).last() == t[i - from]);
                        assert(spec_digits_val(t.subrange(0, i + 1 - from), radix as int) is None);
                        lemma_digits_val_none(t, radix as int, i + 1 - from);
                    }
                }
                return None;
            },
        };
        if acc > (0x7fff_ffff_ffff_ffffu64 - (d as u64)) / (radix as u64) {
            proof {
                let w = acc as int * radix + d;
                assert(w > i64::MAX) by (nonlinear_arith)
                    requires
                        acc as int > ((0x7fff_ffff_ffff_ffff - d) as int) / (radix as int),
                        radix == 10 || radix == 16,
                        0 <= d < radix,
                        w == acc as int * radix + d,
                ;
                if i == from {
                    assert(t.subrange(0, 1)[0] == t[0]);
                    assert(spec_digits_val(t.subrange(0, 1), radix as int) == Some(d as int));
                    assert(d as int <= i64::MAX);
                    assert(false);
                } else {
                    assert(t.subrange(0, i + 1 - from).drop_last() =~= t.subrange(0, i - from));
                    assert(t.subrange(0, i + 1 - from).last() == t[i - from]);
                    assert(spec_digits_val(t.subrange(0, i + 1 - from), radix as int) == Some(w));
                    lemma_digits_val_grows(t, radix as int, i + 1 - from);
                }
            }
            return None;
        }
        proof {
            assert(acc as int * radix + d <= i64::MAX) by (nonlinear_arith)
                requires
                    acc as int <= ((0x7fff_ffff_ffff_ffff - d) as int) / (radix as int),
                    radix == 10 || radix == 16,
                    0 <= d < radix,
            ;
        }
        let new_acc = acc * (radix as u64) + (d as u64);
        proof {
            if i == from {
                assert(t.subrange(0, 1)[0] == t[0]);
                assert(spec_digits_val(t.subrange(0, 1), radix as int) == Some(d as int));
            } else {
                assert(t.subrange(0, i + 1 - from).drop_last() =~= t.subrange(0, i - from));
                assert(t.subrange(0, i + 1 - from).last() == t[i - from]);
            }
        }
        acc = new_acc;
        i = i + 1;
    }
    proof {
        assert(t.subrange(0, to - from) =~= t);
    }
    Some(acc)
}

/// The relative offset in an operand string: the last comma-separated
/// operand, trimmed, in the forms `-0xHEX`, `0xHEX`, `-DEC` or `DEC`.
#[verifier::loop_isolation(false)]
pub fn compute_offset(op_str: &String) -> (r: Option<i64>)
    ensures
        r == spec_compute_offset(op_str@),
{
    let s = op_str.as_str();
    let n = s.unicode_len();
    // Find the start of the last comma-separated operand.
    let mut t0: usize = n;
    while t0 > 0 && s.get_char(t0 - 1) != ','
        invariant
            0 <= t0 <= n,
            n == s@.len(),
            spec_token_start(s@, n as int) == spec_token_start(s@, t0 as int),
        decreases t0,
    {
        t0 = t0 - 1;
    }
    proof {
        assert(spec_token_start(s@, t0 as int) == t0 as int);
    }
    // Trim spaces on both sides.
    let mut a: usize = t0;
    while a < n && s.get_char(a) == ' '
        invariant
            t0 <= a <= n,
            spec_skip_spaces(s@, t0 as int) == spec_skip_spaces(s@, a as int),
        decreases n - a,
    {
        a = a + 1;
    }
    proof {
        assert(spec_skip_spaces(s@, a as int) == a as int);
    }
    let mut b: usize = n;
    while b > a && s.get_char(b - 1) == ' '
        invariant
            a <= b <= n,
            spec_rskip_spaces(s@, n as int, a as int) == spec_rskip_spaces(s@, b as int, a as int),
        decreases b,
    {
        b = b - 1;
    }
    proof {
        assert(spec_rskip_spaces(s@, b as int, a as int) == b as int);
    }
    let ghost t = s@.subrange(a as int, b as int);
    let len = b - a;
    // Dispatch on the sign and radix prefix.
    if len >= 3 && s.get_char(a) == '-' && s.get_char(a + 1) == '0' && s.get_char(a + 2) == 'x' {
        proof {
            assert(t[0] == s@[a as int] && t[1] == s@[a + 1] && t[2] == s@[a + 2]);
            assert(t.subrange(3, t.len() as int) =~= s@.subrange(a + 3, b as int));
        }
        match parse_digits(s, a + 3, b, 16) {
            Some(v) => Some(-(v as i64)),
            None => None,
        }
    } else if len >= 2 && s.get_char(a) == '0' && s.get_char(a + 1) == 'x' {
        proof {
            assert(t[0] == s@[a as int] && t[1] == s@[a + 1]);
            assert(t.subrange(2, t.len() as int) =~= s@.subrange(a + 2, b as int));
        }
        match parse_digits(s, a + 2, b, 16) {
            Some(v) => Some(v as i64),
            None => None,
        }
    } else if len >= 1 && s.get_char(a) == '-' {
        proof {
            assert(t[0] == s@[a as int]);
            assert(t.subrange(1, t.len() as int) =~= s@.subrange(a + 1, b as int));
        }
        match parse_digits(s, a + 1, b, 10) {
            Some(v) => Some(-(v as i64)),
            None => None,
        }
    } else {
        proof {
            if t.len() >= 1 {
                assert(t[0] == s@[a as int]);
            }
            if t.len() >= 2 {
                assert(t[1] == s@[a + 1]);
            }
            if t.len() >= 3 {
                assert(t[2] == s@[a + 2]);
            }
            assert(t =~= s@.subrange(a as int, b as int));
        }
        match parse_digits(s, a, b, 10) {
            Some(v) => Some(v as i64),
            None => None,
        }
    }
}

/// Walk straight-line code from `pc`: one instruction event per record,
/// stopping at (and including) the first branch or jump. An address the
/// index misses, a stray control-flow-looking mnemonic, or an impossible
/// record length is a consistency error.
pub open spec fn spec_walk(m: Map<u64, InsnInfoV>, pc: u64) -> Result<
    (Seq<EntryV>, u64),
    TraceError,
>
    decreases u64::MAX - pc,
{
    if !m.contains_key(pc) {
        Err(TraceError::Consistency)
    } else {
        let i = m[pc];
        if spec_is_branch_mnemonic(i.mnemonic) || spec_is_jump_mnemonic(i.mnemonic) {
            Ok((seq![crate::event::spec_insn_entry(i)], pc))
        } else if spec_looks_control(i.mnemonic) {
            Err(TraceError::Consistency)
        } else if i.len < 2 || pc + i.len > u64::MAX {
            Err(TraceError::Consistency)
        } else {
            match spec_walk(m, (pc + i.len) as u64) {
                Ok((es, end)) => Ok((seq![crate::event::spec_insn_entry(i)] + es, end)),
                Err(e) => Err(e),
            }
        }
    }
}

/// Walk straight-line code from `pc`, stopping at the first branch or
/// jump or upon reaching `target`.
pub open spec fn spec_walk_until(m: Map<u64, InsnInfoV>, pc: u64, target: u64) -> Result<
    (Seq<EntryV>, u64),
    TraceError,
>
    decreases u64::MAX - pc,
{
    if !m.contains_key(pc) {
        Err(TraceError::Consistency)
    } else {
        let i = m[pc];
        if spec_is_branch_mnemonic(i.mnemonic) || spec_is_jump_mnemonic(i.mnemonic) {
            Ok((seq![crate::event::spec_insn_entry(i)], pc))
        } else if i.len < 2 || pc + i.len > u64::MAX {
            Err(TraceError::Consistency)
        } else if pc + i.len == target {
            Ok((seq![crate::event::spec_insn_entry(i)], (pc + i.len) as u64))
        } else {
            match spec_walk_until(m, (pc + i.len) as u64, target) {
                Ok((es, end)) => Ok((seq![crate::event::spec_insn_entry(i)] + es, end)),
                Err(e) => Err(e),
            }
        }
    }
}

/// Advance straight-line through the index, handing one instruction
/// event per record to `out`, until a branch or jump (inclusive).
/// Returns the address of that control-flow instruction.
#[verifier::loop_isolation(false)]
pub fn step_bb(pc: u64, insn_map: &InsnMap, out: &mut Vec<Entry>) -> (r: Result<u64, TraceError>)
    ensures
        match spec_walk(insn_map@, pc) {
            Ok((es, end)) => r == Ok::<u64, TraceError>(end) && entries_view(final(out)@)
                == entries_view(old(out)@) + es,
            Err(e) => r == Err::<u64, TraceError>(e),
        },
{
    let ghost total = spec_walk(insn_map@, pc);
    let ghost base = entries_view(old(out)@);
    let mut pc = pc;
    loop
        invariant
            entries_view(out@).len() >= base.len(),
            entries_view(out@).subrange(0, base.len() as int) == base,
            ({
                let delta = entries_view(out@).subrange(
                    base.len() as int,
                    entries_view(out@).len() as int,
                );
                match spec_walk(insn_map@, pc) {
                    Ok((es, end)) => total == Ok::<(Seq<EntryV>, u64), TraceError>(
                        (delta + es, end),
                    ),
                    Err(e) => total == Err::<(Seq<EntryV>, u64), TraceError>(e),
                }
            }),
        decreases u64::MAX - pc,
    {
        let insn = match insn_map.get(pc) {
            Some(i) => i,
            None => { return Err(TraceError::Consistency) },
        };
        let ghost pre = out@;
        out.push(Entry::new_insn(insn));
        proof {
            lemma_entries_view_push(pre, out@.last());
            assert(out@ == pre.push(out@.last()));
            assert(entries_view(out@) =~= entries_view(pre).push(
                crate::event::spec_insn_entry(insn@),
            ));
            assert(entries_view(out@).subrange(0, base.len() as int) =~= base);
        }
        if is_branch_mnemonic(&insn.mnemonic) || is_jump_mnemonic(&insn.mnemonic) {
            proof {
                let delta = entries_view(out@).subrange(
                    base.len() as int,
                    entries_view(out@).len() as int,
                );
                let delta0 = entries_view(pre).subrange(
                    base.len() as int,
                    entries_view(pre).len() as int,
                );
                assert(delta =~= delta0 + seq![crate::event::spec_insn_entry(insn@)]);
                assert(entries_view(out@) =~= base + delta);
            }
            return Ok(pc);
        }
        if looks_control(&insn.mnemonic) {
            return Err(TraceError::Consistency);
        }
        if insn.len < 2 {
            return Err(TraceError::Consistency);
        }
        if pc > u64::MAX - (insn.len as u64) {
            return Err(TraceError::Consistency);
        }
        let ghost old_pc = pc;
        pc = pc + insn.len as u64;
        proof {
            let delta = entries_view(out@).subrange(
                base.len() as int,
                entries_view(out@).len() as int,
            );
            let delta0 = entries_view(pre).subrange(
                base.len() as int,
                entries_view(pre).len() as int,
            );
            assert(delta =~= delta0 + seq![crate::event::spec_insn_entry(insn@)]);
            match spec_walk(insn_map@, pc) {
                Ok((es, end)) => {
                    assert(delta0 + (seq![crate::event::spec_insn_entry(insn@)] + es) =~= delta
                        + es);
                },
                Err(e) => {},
            }
        }
    }
}

/// Advance straight-line through the index until a branch or jump
/// (inclusive) or until the walk reaches `target`.
#[verifier::loop_isolation(false)]
pub fn step_bb_until(pc: u64, insn_map: &InsnMap, target_pc: u64, out: &mut Vec<Entry>) -> (r:
    Result<u64, TraceError>)
    ensures
        match spec_walk_until(insn_map@, pc, target_pc) {
            Ok((es, end)) => r == Ok::<u64, TraceError>(end) && entries_view(final(out)@)
                == entries_view(old(out)@) + es,
            Err(e) => r == Err::<u64, TraceError>(e),
        },
{
    let ghost total = spec_walk_until(insn_map@, pc, target_pc);
    let ghost base = entries_view(old(out)@);
    let mut pc = pc;
    loop
        invariant
            entries_view(out@).len() >= base.len(),
            entries_view(out@).subrange(0, base.len() as int) == base,
            ({
                let delta = entries_view(out@).subrange(
                    base.len() as int,
                    entries_view(out@).len() as int,
                );
                match spec_walk_until(insn_map@, pc, target_pc) {
                    Ok((es, end)) => total == Ok::<(Seq<EntryV>, u64), TraceError>(
                        (delta + es, end),
                    ),
                    Err(e) => total == Err::<(Seq<EntryV>, u64), TraceError>(e),
                }
            }),
        decreases u64::MAX - pc,
    {
        let insn = match insn_map.get(pc) {
            Some(i) => i,
            None => { return Err(TraceError::Consistency) },
        };
        let ghost pre = out@;
        out.push(Entry::new_insn(insn));
        proof {
            lemma_entries_view_push(pre, out@.last());
            assert(out@ == pre.push(out@.last()));
            assert(entries_view(out@) =~= entries_view(pre).push(
                crate::event::spec_insn_entry(insn@),
            ));
            assert(entries_view(out@).subrange(0, base.len() as int) =~= base);
            let delta = entries_view(out@).subrange(
                base.len() as int,
                entries_view(out@).len() as int,
            );
            let delta0 = entries_view(pre).subrange(
                base.len() as int,
                entries_view(pre).len() as int,
            );
            assert(delta =~= delta0 + seq![crate::event::spec_insn_entry(insn@)]);
        }
        if is_branch_mnemonic(&insn.mnemonic) || is_jump_mnemonic(&insn.mnemonic) {
            proof {
                assert(entries_view(out@) =~= base + entries_view(out@).subrange(
                    base.len() as int,
                    entries_view(out@).len() as int,
                ));
            }
            return Ok(pc);
        }
        if insn.len < 2 {
            return Err(TraceError::Consistency);
        }
        if pc > u64::MAX - (insn.len as u64) {
            return Err(TraceError::Consistency);
        }
        let next = pc + insn.len as u64;
        if next == target_pc {
            proof {
                assert(entries_view(out@) =~= base + entries_view(out@).subrange(
                    base.len() as int,
                    entries_view(out@).len() as int,
                ));
            }
            return Ok(next);
        }
        pc = next;
        proof {
            let delta = entries_view(out@).subrange(
                base.len() as int,
                entries_view(out@).len() as int,
            );
            let delta0 = entries_view(pre).subrange(
                base.len() as int,
                entries_view(pre).len() as int,
            );
            match spec_walk_until(insn_map@, pc, target_pc) {
                Ok((es, end)) => {
                    assert(delta0 + (seq![crate::event::spec_insn_entry(insn@)] + es) =~= delta
                        + es);
                },
                Err(e) => {},
            }
        }
    }
}

/// Program-counter arithmetic with a signed offset, modulo the address
/// space.
pub open spec fn spec_add_offset(pc: u64, off: i64) -> u64 {
    vstd::wrapping::u64_specs::wrapping_add_signed(pc, off)
}

/// What one non-initial packet does: the events it emits, the new
/// program counter, the new accumulated timestamp, and whether the trace
/// ends here.
pub open spec fn spec_decode_step(
    m: Map<u64, InsnInfoV>,
    pc: u64,
    ts: u64,
    p: crate::packet::Packet,
) -> Result<(Seq<EntryV>, u64, u64, bool), TraceError> {
    match p.f_header {
        crate::packet::FHeader::FSync => match spec_walk_until(
            m,
            pc,
            spec_refund_addr(p.target_address),
        ) {
            Ok((es, pc2)) => Ok(
                (
                    es.push(crate::event::spec_timed_entry(Event::End, p.timestamp, pc2, 0)),
                    pc2,
                    ts,
                    true,
                ),
            ),
            Err(e) => Err(e),
        },
        crate::packet::FHeader::FTrap => {
            if p.trap_type == crate::packet::TrapType::TNone {
                Err(TraceError::Format)
            } else if ts + p.timestamp > u64::MAX {
                Err(TraceError::Consistency)
            } else {
                match spec_walk_until(m, pc, p.trap_address) {
                    Ok((es, pc2)) => Ok(
                        (
                            seq![
                                crate::event::spec_timed_entry(
                                    crate::event::spec_from_trap_type(p.trap_type),
                                    p.timestamp,
                                    pc,
                                    p.trap_address,
                                ),
                            ] + es,
                            spec_refund_addr(p.target_address ^ (pc2 >> 1)),
                            (ts + p.timestamp) as u64,
                            false,
                        ),
                    ),
                    Err(e) => Err(e),
                }
            }
        },
        _ => match spec_walk(m, pc) {
            Err(e) => Err(e),
            Ok((es, pc1)) => {
                if !m.contains_key(pc1) {
                    Err(TraceError::Consistency)
                } else if ts + p.timestamp > u64::MAX {
                    Err(TraceError::Consistency)
                } else {
                    let i = m[pc1];
                    let ts2 = (ts + p.timestamp) as u64;
                    match p.f_header {
                        crate::packet::FHeader::FTb => if !spec_is_branch_mnemonic(i.mnemonic) {
                            Err(TraceError::Consistency)
                        } else {
                            match spec_compute_offset(i.op_str) {
                                None => Err(TraceError::Consistency),
                                Some(off) => {
                                    let new_pc = spec_add_offset(pc1, off);
                                    Ok(
                                        (
                                            es.push(
                                                crate::event::spec_timed_entry(
                                                    Event::TakenBranch,
                                                    ts2,
                                                    pc1,
                                                    new_pc,
                                                ),
                                            ),
                                            new_pc,
                                            ts2,
                                            false,
                                        ),
                                    )
                                },
                            }
                        },
                        crate::packet::FHeader::FNt => if !spec_is_branch_mnemonic(i.mnemonic) {
                            Err(TraceError::Consistency)
                        } else if pc1 + i.len > u64::MAX {
                            Err(TraceError::Consistency)
                        } else {
                            let new_pc = (pc1 + i.len) as u64;
                            Ok(
                                (
                                    es.push(
                                        crate::event::spec_timed_entry(
                                            Event::NonTakenBranch,
                                            ts2,
                                            pc1,
                                            new_pc,
                                        ),
                                    ),
                                    new_pc,
                                    ts2,
                                    false,
                                ),
                            )
                        },
                        crate::packet::FHeader::FIj => if !spec_is_jump_mnemonic(i.mnemonic) {
                            Err(TraceError::Consistency)
                        } else {
                            match spec_compute_offset(i.op_str) {
                                None => Err(TraceError::Consistency),
                                Some(off) => {
                                    let new_pc = spec_add_offset(pc1, off);
                                    Ok(
                                        (
                                            es.push(
                                                crate::event::spec_timed_entry(
                                                    Event::InferrableJump,
                                                    ts2,
                                                    pc1,
                                                    new_pc,
                                                ),
                                            ),
                                            new_pc,
                                            ts2,
                                            false,
                                        ),
                                    )
                                },
                            }
                        },
                        crate::packet::FHeader::FUj => if !spec_is_jump_mnemonic(
                            i.mnemonic,
                        ) {
                            Err(TraceError::Consistency)
                        } else {
                            let new_pc = spec_refund_addr(p.target_address ^ (pc1 >> 1));
                            Ok(
                                (
                                    es.push(
                                        crate::event::spec_timed_entry(
                                            Event::UninferableJump,
                                            ts2,
                                            pc1,
                                            new_pc,
                                        ),
                                    ),
                                    new_pc,
                                    ts2,
                                    false,
                                ),
                            )
                        },
                        _ => Err(TraceError::Format),
                    }
                }
            },
        },
    }
}

/// Decode packets from `pos` on: the trace ends cleanly when the input
/// runs out or a synchronization packet arrives.
pub open spec fn spec_decode_loop(
    m: Map<u64, InsnInfoV>,
    bs: Seq<u8>,
    pos: int,
    pc: u64,
    ts: u64,
) -> Result<Seq<EntryV>, TraceError>
    decreases bs.len() - pos when pos >= 0 via spec_decode_loop_decreases
{
    match crate::packet::spec_read_packet(bs, pos) {
        Err(TraceError::EndOfStream) => Ok(Seq::empty()),
        Err(e) => Err(e),
        Ok((p, pos2)) => match spec_decode_step(m, pc, ts, p) {
            Err(e) => Err(e),
            Ok((es, pc2, ts2, done)) => if done {
                Ok(es)
            } else {
                match spec_decode_loop(m, bs, pos2, pc2, ts2) {
                    Ok(rest) => Ok(es + rest),
                    Err(e) => Err(e),
                }
            },
        },
    }
}

#[via_fn]
proof fn spec_decode_loop_decreases(m: Map<u64, InsnInfoV>, bs: Seq<u8>, pos: int, pc: u64, ts: u64) {
    crate::packet::lemma_read_packet_bounds(bs, pos);
}

/// The whole reconstruction: the first packet seeds the program counter
/// and emits the start event; the rest drive the walk.
pub open spec fn spec_trace_decoder(m: Map<u64, InsnInfoV>, bs: Seq<u8>) -> Result<
    Seq<EntryV>,
    TraceError,
> {
    match crate::packet::spec_read_packet(bs, 0) {
        Err(e) => Err(e),
        Ok((p0, pos1)) => {
            let pc0 = spec_refund_addr(p0.target_address);
            let start = crate::event::spec_timed_entry(Event::Start, p0.timestamp, pc0, 0);
            match spec_decode_loop(m, bs, pos1, pc0, p0.timestamp) {
                Ok(es) => Ok(seq![start] + es),
                Err(e) => Err(e),
            }
        },
    }
}

/// Apply one non-initial packet: emit its events, update the program
/// counter and the accumulated timestamp, and say whether the trace ends.
#[verifier::loop_isolation(false)]
#[verifier::rlimit(60)]
pub fn decode_step(
    packet: &crate::packet::Packet,
    insn_map: &InsnMap,
    pc: &mut u64,
    timestamp: &mut u64,
    out: &mut Vec<Entry>,
) -> (r: Result<bool, TraceError>)
    ensures
        match spec_decode_step(insn_map@, *old(pc), *old(timestamp), *packet) {
            Ok((es, pc2, ts2, done)) => r == Ok::<bool, TraceError>(done) && *final(pc) == pc2
                && *final(timestamp) == ts2 && entries_view(final(out)@) == entries_view(old(out)@)
                + es,
            Err(e) => r == Err::<bool, TraceError>(e),
        },
{
    let ghost m = insn_map@;
    let ghost pc_in = *pc;
    let ghost ts_in = *timestamp;
    let ghost base = entries_view(out@);
    if matches!(packet.f_header, crate::packet::FHeader::FSync) {
        let new_pc = match step_bb_until(*pc, insn_map, refund_addr(packet.target_address), out) {
            Ok(p) => p,
            Err(e) => { return Err(e) },
        };
        *pc = new_pc;
        let ghost pre = out@;
        out.push(Entry::new_timed_event(Event::End, packet.timestamp, new_pc, 0));
        proof {
            lemma_entries_view_push(pre, out@.last());
            assert(out@ == pre.push(out@.last()));
            let step = spec_decode_step(m, pc_in, ts_in, *packet);
            assert(entries_view(out@) =~= base + step->Ok_0.0);
        }
        return Ok(true);
    } else if matches!(packet.f_header, crate::packet::FHeader::FTrap) {
        if matches!(packet.trap_type, crate::packet::TrapType::TNone) {
            return Err(TraceError::Format);
        }
        if *timestamp > u64::MAX - packet.timestamp {
            return Err(TraceError::Consistency);
        }
        let ghost pre = out@;
        out.push(
            Entry::new_timed_trap(packet.trap_type, packet.timestamp, *pc, packet.trap_address),
        );
        proof {
            lemma_entries_view_push(pre, out@.last());
            assert(out@ == pre.push(out@.last()));
        }
        let new_pc = match step_bb_until(*pc, insn_map, packet.trap_address, out) {
            Ok(p) => p,
            Err(e) => { return Err(e) },
        };
        *pc = refund_addr(packet.target_address ^ (new_pc >> 1));
        *timestamp = *timestamp + packet.timestamp;
        proof {
            let step = spec_decode_step(m, pc_in, ts_in, *packet);
            assert(entries_view(out@) =~= base + step->Ok_0.0);
        }
        return Ok(false);
    }
    let pc1 = match step_bb(*pc, insn_map, out) {
        Ok(p) => p,
        Err(e) => { return Err(e) },
    };
    let insn = match insn_map.get(pc1) {
        Some(i) => i,
        None => { return Err(TraceError::Consistency) },
    };
    if *timestamp > u64::MAX - packet.timestamp {
        return Err(TraceError::Consistency);
    }
    let ts2 = *timestamp + packet.timestamp;
    let event: Event;
    let new_pc: u64;
    if matches!(packet.f_header, crate::packet::FHeader::FTb) {
        if !is_branch_mnemonic(&insn.mnemonic) {
            return Err(TraceError::Consistency);
        }
        let off = match compute_offset(&insn.op_str) {
            Some(o) => o,
            None => { return Err(TraceError::Consistency) },
        };
        event = Event::TakenBranch;
        new_pc = pc1.wrapping_add_signed(off);
    } else if matches!(packet.f_header, crate::packet::FHeader::FNt) {
        if !is_branch_mnemonic(&insn.mnemonic) {
            return Err(TraceError::Consistency);
        }
        if pc1 > u64::MAX - (insn.len as u64) {
            return Err(TraceError::Consistency);
        }
        event = Event::NonTakenBranch;
        new_pc = pc1 + insn.len as u64;
    } else if matches!(packet.f_header, crate::packet::FHeader::FIj) {
        if !is_jump_mnemonic(&insn.mnemonic) {
            return Err(TraceError::Consistency);
        }
        let off = match compute_offset(&insn.op_str) {
            Some(o) => o,
            None => { return Err(TraceError::Consistency) },
        };
        event = Event::InferrableJump;
        new_pc = pc1.wrapping_add_signed(off);
    } else if matches!(packet.f_header, crate::packet::FHeader::FUj) {
        if !is_jump_mnemonic(&insn.mnemonic) {
            return Err(TraceError::Consistency);
        }
        event = Event::UninferableJump;
        new_pc = refund_addr(packet.target_address ^ (pc1 >> 1));
    } else {
        return Err(TraceError::Format);
    }
    *timestamp = ts2;
    *pc = new_pc;
    let ghost pre = out@;
    out.push(Entry::new_timed_event(event, ts2, pc1, new_pc));
    proof {
        lemma_entries_view_push(pre, out@.last());
        assert(out@ == pre.push(out@.last()));
        let step = spec_decode_step(m, pc_in, ts_in, *packet);
        assert(entries_view(out@) =~= base + step->Ok_0.0);
    }
    Ok(false)
}

/// Reconstruct the event stream of an encoded trace against the
/// instruction index.
#[verifier::loop_isolation(false)]
#[verifier::rlimit(60)]
pub fn trace_decoder(trace: &Vec<u8>, insn_map: &InsnMap) -> (r: Result<Vec<Entry>, TraceError>)
    ensures
        match spec_trace_decoder(insn_map@, trace@) {
            Ok(es) => r is Ok && entries_view(r->Ok_0@) == es,
            Err(e) => r is Err && r->Err_0 == e,
        },
{
    let mut out: Vec<Entry> = Vec::new();
    let mut pos: usize = 0;
    let packet = match crate::packet::read_packet(trace, &mut pos) {
        Ok(p) => p,
        Err(e) => { return Err(e) },
    };
    proof {
        crate::packet::lemma_read_packet_bounds(trace@, 0);
    }
    let mut pc = refund_addr(packet.target_address);
    let mut timestamp = packet.timestamp;
    out.push(Entry::new_timed_event(Event::Start, packet.timestamp, pc, 0));
    let ghost m = insn_map@;
    let ghost bs = trace@;
    let ghost total = spec_decode_loop(m, bs, pos as int, pc, timestamp);
    let ghost start_entry = crate::event::spec_timed_entry(Event::Start, packet.timestamp, pc, 0);
    proof {
        assert(entries_view(out@) =~= seq![start_entry]);
    }
    loop
        invariant
            pos <= bs.len(),
            entries_view(out@).len() >= 1,
            entries_view(out@)[0] == start_entry,
            ({
                let delta = entries_view(out@).subrange(1, entries_view(out@).len() as int);
                match spec_decode_loop(m, bs, pos as int, pc, timestamp) {
                    Ok(rest) => total == Ok::<Seq<EntryV>, TraceError>(delta + rest),
                    Err(e) => total == Err::<Seq<EntryV>, TraceError>(e),
                }
            }),
        decreases bs.len() - pos,
    {
        let ghost pos0 = pos as int;
        let ghost delta0 = entries_view(out@).subrange(1, entries_view(out@).len() as int);
        let packet = match crate::packet::read_packet(trace, &mut pos) {
            Ok(p) => p,
            Err(e) => {
                if matches!(e, TraceError::EndOfStream) {
                    proof {
                        assert(entries_view(out@) =~= seq![start_entry] + delta0);
                    }
                    return Ok(out);
                }
                return Err(e);
            },
        };
        proof {
            crate::packet::lemma_read_packet_bounds(bs, pos0);
        }
        let done = match decode_step(&packet, insn_map, &mut pc, &mut timestamp, &mut out) {
            Ok(d) => d,
            Err(e) => { return Err(e) },
        };
        proof {
            let delta = entries_view(out@).subrange(1, entries_view(out@).len() as int);
            assert(entries_view(out@) =~= seq![start_entry] + delta);
        }
        if done {
            proof {
                let delta = entries_view(out@).subrange(1, entries_view(out@).len() as int);
                assert(delta =~= total->Ok_0);
            }
            return Ok(out);
        }
        proof {
            match spec_decode_loop(m, bs, pos as int, pc, timestamp) {
                Ok(rest) => {
                    let delta = entries_view(out@).subrange(1, entries_view(out@).len() as int);
                    assert(delta + rest =~= total->Ok_0);
                },
                Err(e) => {},
            }
        }
    }
}

/// Is this an event that carries the accumulated timestamp: the start
/// event or a resolved control-flow event? Trap and end events carry the
/// raw packet delta instead.
pub open spec fn spec_cf_event(e: EntryV) -> bool {
    ||| e.event == Event::Start
    ||| e.event == Event::TakenBranch
    ||| e.event == Event::NonTakenBranch
    ||| e.event == Event::InferrableJump
    ||| e.event == Event::UninferableJump
}

/// Every accumulated timestamp in `es` is present, at least `t0`, and
/// they never decrease.
pub open spec fn spec_cf_monotonic(es: Seq<EntryV>, t0: u64) -> bool {
    &&& forall|i: int|
        0 <= i < es.len() && spec_cf_event(#[trigger] es[i]) ==> es[i].timestamp is Some
            && es[i].timestamp->Some_0 >= t0
    &&& forall|i: int, j: int|
        0 <= i < j < es.len() && spec_cf_event(#[trigger] es[i]) && spec_cf_event(
            #[trigger] es[j],
        ) ==> es[i].timestamp->Some_0 <= es[j].timestamp->Some_0
}

/// A straight-line walk emits no timestamp-carrying event.
proof fn lemma_walk_no_cf(m: Map<u64, InsnInfoV>, pc: u64)
    ensures
        spec_walk(m, pc) matches Ok((es, end)) ==> forall|i: int|
            0 <= i < es.len() ==> !spec_cf_event(#[trigger] es[i]),
    decreases u64::MAX - pc,
{
    if m.contains_key(pc) {
        let i = m[pc];
        if !(spec_is_branch_mnemonic(i.mnemonic) || spec_is_jump_mnemonic(i.mnemonic))
            && !spec_looks_control(i.mnemonic) && i.len >= 2 && pc + i.len <= u64::MAX {
            lemma_walk_no_cf(m, (pc + i.len) as u64);
        }
    }
}

/// A bounded walk emits no timestamp-carrying event either.
proof fn lemma_walk_until_no_cf(m: Map<u64, InsnInfoV>, pc: u64, target: u64)
    ensures
        spec_walk_until(m, pc, target) matches Ok((es, end)) ==> forall|i: int|
            0 <= i < es.len() ==> !spec_cf_event(#[trigger] es[i]),
    decreases u64::MAX - pc,
{
    if m.contains_key(pc) {
        let i = m[pc];
        if !(spec_is_branch_mnemonic(i.mnemonic) || spec_is_jump_mnemonic(i.mnemonic)) && i.len
            >= 2 && pc + i.len <= u64::MAX && pc + i.len != target {
            lemma_walk_until_no_cf(m, (pc + i.len) as u64, target);
        }
    }
}

/// One packet never lowers the accumulator, and every
/// timestamp-carrying event it emits carries exactly the new
/// accumulator value.
proof fn lemma_decode_step_cf(m: Map<u64, InsnInfoV>, pc: u64, ts: u64, p: crate::packet::Packet)
    ensures
        spec_decode_step(m, pc, ts, p) matches Ok((es, pc2, ts2, done)) ==> ts2 >= ts && forall|
            i: int,
        |
            0 <= i < es.len() && spec_cf_event(#[trigger] es[i]) ==> es[i].timestamp == Some(ts2),
{
    match p.f_header {
        crate::packet::FHeader::FSync => {
            lemma_walk_until_no_cf(m, pc, spec_refund_addr(p.target_address));
        },
        crate::packet::FHeader::FTrap => {
            lemma_walk_until_no_cf(m, pc, p.trap_address);
        },
        _ => {
            lemma_walk_no_cf(m, pc);
        },
    }
}

/// Law: across any run, the accumulated timestamps of the start event
/// and of the resolved control-flow events never decrease.
pub proof fn lemma_decode_loop_monotonic(
    m: Map<u64, InsnInfoV>,
    bs: Seq<u8>,
    pos: int,
    pc: u64,
    ts: u64,
)
    requires
        pos >= 0,
    ensures
        spec_decode_loop(m, bs, pos, pc, ts) matches Ok(es) ==> spec_cf_monotonic(es, ts),
    decreases bs.len() - pos,
{
    crate::packet::lemma_read_packet_bounds(bs, pos);
    match crate::packet::spec_read_packet(bs, pos) {
        Err(_) => {},
        Ok((p, pos2)) => {
            lemma_decode_step_cf(m, pc, ts, p);
            match spec_decode_step(m, pc, ts, p) {
                Err(_) => {},
                Ok((es, pc2, ts2, done)) => {
                    if !done {
                        lemma_decode_loop_monotonic(m, bs, pos2, pc2, ts2);
                    }
                },
            }
        },
    }
}

/// Law: in a reconstructed event stream, the start event comes first and
/// the accumulated timestamps never decrease from it on.
pub proof fn lemma_trace_timestamps_monotonic(m: Map<u64, InsnInfoV>, bs: Seq<u8>)
    ensures
        spec_trace_decoder(m, bs) matches Ok(es) ==> es.len() >= 1 && es[0].event == Event::Start
            && es[0].timestamp is Some && spec_cf_monotonic(es, es[0].timestamp->Some_0),
{
    match crate::packet::spec_read_packet(bs, 0) {
        Err(_) => {},
        Ok((p0, pos1)) => {
            crate::packet::lemma_read_packet_bounds(bs, 0);
            lemma_decode_loop_monotonic(m, bs, pos1, spec_refund_addr(p0.target_address),
                p0.timestamp);
        },
    }
}

} // verus!
