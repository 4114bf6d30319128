//! Byte-level text rendering used by the sinks: decimal and hexadecimal
//! numbers, string payloads, and JSON string escaping.

use vstd::prelude::*;
use vstd::utf8::encode_utf8;

verus! {

/// The decimal digits of a number.
pub open spec fn spec_dec_bytes(n: nat) -> Seq<u8>
    decreases n,
{
    if n < 10 {
        seq![(48 + n) as u8]
    } else {
        spec_dec_bytes(n / 10) + seq![(48 + n % 10) as u8]
    }
}

/// One lower-case hexadecimal digit.
pub open spec fn spec_hex_digit(d: nat) -> u8 {
    if d < 10 {
        (48 + d) as u8
    } else {
        (87 + d) as u8
    }
}

/// The lower-case hexadecimal digits of a number.
pub open spec fn spec_hex_bytes(n: nat) -> Seq<u8>
    decreases n,
{
    if n < 16 {
        seq![spec_hex_digit(n)]
    } else {
        spec_hex_bytes(n / 16) + seq![spec_hex_digit(n % 16)]
    }
}

/// The UTF-8 bytes of a character sequence.
pub open spec fn lit(s: Seq<char>) -> Seq<u8> {
    encode_utf8(s)
}

/// Append the decimal digits of `n`.
pub fn push_dec_u64(out: &mut Vec<u8>, n: u64)
    ensures
        final(out)@ == old(out)@ + spec_dec_bytes(n as nat),
    decreases n,
{
    if n < 10 {
        out.push(48 + (n as u8));
        proof {
            assert(out@ =~= old(out)@ + spec_dec_bytes(n as nat));
        }
    } else {
        push_dec_u64(out, n / 10);
        out.push(48 + ((n % 10) as u8));
        proof {
            assert(out@ =~= old(out)@ + spec_dec_bytes(n as nat));
        }
    }
}

/// Append the lower-case hexadecimal digits of `n`.
pub fn push_hex_u64(out: &mut Vec<u8>, n: u64)
    ensures
        final(out)@ == old(out)@ + spec_hex_bytes(n as nat),
    decreases n,
{
    if n < 16 {
        let d = n as u8;
        out.push(if d < 10 {
            48 + d
        } else {
            87 + d
        });
        proof {
            assert(out@ =~= old(out)@ + spec_hex_bytes(n as nat));
        }
    } else {
        push_hex_u64(out, n / 16);
        let d = (n % 16) as u8;
        out.push(if d < 10 {
            48 + d
        } else {
            87 + d
        });
        proof {
            assert(out@ =~= old(out)@ + spec_hex_bytes(n as nat));
        }
    }
}

/// Append the UTF-8 bytes of a string slice.
pub fn push_str_bytes(out: &mut Vec<u8>, s: &str)
    ensures
        final(out)@ == old(out)@ + lit(s@),
{
    let mut v = s.as_bytes_vec();
    out.append(&mut v);
}

/// Append the UTF-8 bytes of a string.
pub fn push_string_bytes(out: &mut Vec<u8>, s: &String)
    ensures
        final(out)@ == old(out)@ + lit(s@),
{
    push_str_bytes(out, s.as_str());
}

/// JSON string escaping over UTF-8 bytes: a quote or backslash byte gets
/// a backslash; continuation bytes are never either, so this matches
/// escaping the characters. Control characters are left as they are.
pub open spec fn spec_json_escape(bs: Seq<u8>) -> Seq<u8>
    decreases bs.len(),
{
    if bs.len() == 0 {
        bs
    } else {
        (if bs[0] == 34 || bs[0] == 92 {
            seq![92u8, bs[0]]
        } else {
            seq![bs[0]]
        }) + spec_json_escape(bs.drop_first())
    }
}

/// The escape of a concatenation is the concatenation of the escapes.
pub proof fn lemma_json_escape_concat(a: Seq<u8>, b: Seq<u8>)
    ensures
        spec_json_escape(a + b) == spec_json_escape(a) + spec_json_escape(b),
    decreases a.len(),
{
    if a.len() == 0 {
        assert(a + b =~= b);
        assert(spec_json_escape(a) + spec_json_escape(b) =~= spec_json_escape(b));
    } else {
        assert((a + b).drop_first() =~= a.drop_first() + b);
        lemma_json_escape_concat(a.drop_first(), b);
        assert((if a[0] == 34 || a[0] == 92 {
            seq![92u8, a[0]]
        } else {
            seq![a[0]]
        }) + (spec_json_escape(a.drop_first()) + spec_json_escape(b)) =~= spec_json_escape(a)
            + spec_json_escape(b));
    }
}

/// Append a JSON string: a quote, the escaped bytes, a quote.
#[verifier::loop_isolation(false)]
pub fn push_json_string(out: &mut Vec<u8>, s: &String)
    ensures
        final(out)@ == old(out)@ + seq![34u8] + spec_json_escape(lit(s@)) + seq![34u8],
{
    out.push(34);
    let bytes = s.as_str().as_bytes_vec();
    let ghost bv = bytes@;
    let ghost mid = out@;
    let mut i: usize = 0;
    while i < bytes.len()
        invariant
            0 <= i <= bv.len(),
            bytes@ == bv,
            out@ == mid + spec_json_escape(bv.subrange(0, i as int)),
        decreases bv.len() - i,
    {
        let b = bytes[i];
        if b == 34 || b == 92 {
            out.push(92);
        }
        out.push(b);
        i = i + 1;
        proof {
            let pre = bv.subrange(0, i - 1);
            let cur = bv.subrange(0, i as int);
            assert(cur =~= pre + seq![bv[i - 1]]);
            lemma_json_escape_concat(pre, seq![bv[i - 1]]);
            assert(seq![bv[i - 1]].drop_first() =~= Seq::<u8>::empty());
            assert(spec_json_escape(Seq::<u8>::empty()) == Seq::<u8>::empty());
            assert(spec_json_escape(seq![bv[i - 1]]) =~= (if bv[i - 1] == 34 || bv[i - 1] == 92 {
                seq![92u8, bv[i - 1]]
            } else {
                seq![bv[i - 1]]
            }));
            assert(out@ =~= mid + spec_json_escape(cur));
        }
    }
    proof {
        assert(bv.subrange(0, bv.len() as int) =~= bv);
    }
    out.push(34);
    proof {
        assert(out@ =~= old(out)@ + seq![34u8] + spec_json_escape(lit(s@)) + seq![34u8]);
    }
}

} // verus!
