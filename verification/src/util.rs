//! Verified text helpers shared across the crate: equality, prefix and
//! suffix tests, concatenation, and bounded decimal parsing.

use vstd::prelude::*;

verus! {

/// True when `p` is a prefix of `s`.
pub open spec fn is_prefix(p: Seq<char>, s: Seq<char>) -> bool {
    p.len() <= s.len() && s.subrange(0, p.len() as int) == p
}

/// True when `p` is a suffix of `s`.
pub open spec fn is_suffix(p: Seq<char>, s: Seq<char>) -> bool {
    p.len() <= s.len() && s.subrange(s.len() - p.len(), s.len() as int) == p
}

/// Character-wise equality of two string slices.
pub fn str_eq(a: &str, b: &str) -> (r: bool)
    ensures
        r == (a@ == b@),
{
    let a_len = a.unicode_len();
    let b_len = b.unicode_len();
    if a_len != b_len {
        assert(a@.len() != b@.len());
        return false;
    }
    let mut i: usize = 0;
    while i < a_len
        invariant
            i <= a_len,
            a_len == a@.len(),
            b_len == b@.len(),
            a_len == b_len,
            forall|j: int| 0 <= j < i ==> a@[j] == b@[j],
        decreases a_len - i,
    {
        if a.get_char(i) != b.get_char(i) {
            return false;
        }
        i += 1;
    }
    assert(a@ =~= b@);
    true
}

/// Tests whether `s` starts with `p`.
pub fn starts_with(s: &str, p: &str) -> (r: bool)
    ensures
        r == is_prefix(p@, s@),
{
    let s_len = s.unicode_len();
    let p_len = p.unicode_len();
    if p_len > s_len {
        return false;
    }
    let mut i: usize = 0;
    while i < p_len
        invariant
            i <= p_len,
            p_len == p@.len(),
            s_len == s@.len(),
            p_len <= s_len,
            forall|j: int| 0 <= j < i ==> s@[j] == p@[j],
        decreases p_len - i,
    {
        if s.get_char(i) != p.get_char(i) {
            assert(s@.subrange(0, p@.len() as int)[i as int] != p@[i as int]);
            return false;
        }
        i += 1;
    }
    assert(s@.subrange(0, p@.len() as int) =~= p@);
    true
}

/// Tests whether `s` ends with `p`.
pub fn ends_with(s: &str, p: &str) -> (r: bool)
    ensures
        r == is_suffix(p@, s@),
{
    let s_len = s.unicode_len();
    let p_len = p.unicode_len();
    if p_len > s_len {
        return false;
    }
    let off: usize = s_len - p_len;
    let mut i: usize = 0;
    while i < p_len
        invariant
            i <= p_len,
            p_len == p@.len(),
            s_len == s@.len(),
            off == s_len - p_len,
            forall|j: int| 0 <= j < i ==> s@[off + j] == p@[j],
        decreases p_len - i,
    {
        if s.get_char(off + i) != p.get_char(i) {
            assert(s@.subrange(s@.len() - p@.len(), s@.len() as int)[i as int] != p@[i as int]);
            return false;
        }
        i += 1;
    }
    assert(s@.subrange(s@.len() - p@.len(), s@.len() as int) =~= p@);
    true
}

/// The running software's version, substituted into error pages.
pub fn get_pkg_version() -> (v: &'static str)
    ensures
        v@ == "0.1.0"@,
{
    "0.1.0"
}

/// Concatenation of two strings as a fresh `String`.
pub fn concat_str(a: &str, b: &str) -> (r: String)
    ensures
        r@ == a@ + b@,
{
    let mut out = String::from_str(a);
    out.append(b);
    out
}

/// Value of a digit sequence read left to right, capped at `max`;
/// `None` on a non-digit or when the value would exceed `max`.
/// The empty sequence reads as zero.
pub open spec fn spec_parse_dec_digits(s: Seq<char>, max: u64) -> Option<u64>
    decreases s.len(),
{
    if s.len() == 0 {
        Some(0u64)
    } else {
        match spec_parse_dec_digits(s.drop_last(), max) {
            None => None,
            Some(hi) => {
                if !('0' <= s.last() <= '9') {
                    None
                } else {
                    let d = s.last() as u64 - '0' as u64;
                    if hi * 10 + d <= max {
                        Some((hi * 10 + d) as u64)
                    } else {
                        None
                    }
                }
            },
        }
    }
}

/// What a decimal number no greater than `max` reads as: `None` when
/// `s` is empty, holds a non-digit, or exceeds `max`.
pub open spec fn spec_parse_dec(s: Seq<char>, max: u64) -> Option<u64> {
    if s.len() == 0 {
        None
    } else {
        spec_parse_dec_digits(s, max)
    }
}

/// Once a prefix fails to read, every extension of it fails too.
proof fn lemma_parse_dec_digits_none(s: Seq<char>, max: u64, i: int)
    requires
        0 <= i <= s.len(),
        spec_parse_dec_digits(s.subrange(0, i), max) is None,
    ensures
        spec_parse_dec_digits(s, max) is None,
    decreases s.len(),
{
    if i == s.len() {
        assert(s.subrange(0, i) =~= s);
    } else {
        assert(s.drop_last().subrange(0, i) =~= s.subrange(0, i));
        lemma_parse_dec_digits_none(s.drop_last(), max, i);
    }
}

/// Parses `s` as an unsigned decimal number of value at most `max`.
pub fn parse_dec(s: &str, max: u64) -> (r: Option<u64>)
    ensures
        r == spec_parse_dec(s@, max),
        r matches Some(v) ==> v <= max,
{
    let len = s.unicode_len();
    if len == 0 {
        return None;
    }
    let mut acc: u64 = 0;
    let mut i: usize = 0;
    while i < len
        invariant
            0 < len == s@.len(),
            i <= len,
            spec_parse_dec_digits(s@.subrange(0, i as int), max) == Some(acc),
            acc <= max,
        decreases len - i,
    {
        let ghost pre = s@.subrange(0, i as int);
        let ghost cur = s@.subrange(0, i + 1 as int);
        proof {
            assert(cur.drop_last() =~= pre);
            assert(cur.last() == s@[i as int]);
        }
        let c = s.get_char(i);
        if c < '0' || c > '9' {
            proof {
                assert(spec_parse_dec_digits(cur, max) is None);
                lemma_parse_dec_digits_none(s@, max, i + 1);
            }
            return None;
        }
        let d: u64 = (c as u32 as u64) - ('0' as u32 as u64);
        assert(d <= 9);
        if d > max || acc > (max - d) / 10 {
            proof {
                assert(acc * 10 + d > max) by (nonlinear_arith)
                    requires
                        d <= max ==> acc > (max - d) / 10,
                        d <= 9,
                        acc >= 0,
                        max >= 0,
                        d > max || acc > (max - d) / 10,
                ;
                assert(spec_parse_dec_digits(cur, max) is None);
                lemma_parse_dec_digits_none(s@, max, i + 1);
            }
            return None;
        }
        proof {
            assert(acc * 10 + d <= max) by (nonlinear_arith)
                requires
                    d <= max,
                    acc <= (max - d) / 10,
                    acc >= 0,
            ;
        }
        acc = acc * 10 + d;
        i += 1;
        proof {
            assert(spec_parse_dec_digits(cur, max) == Some(acc));
            assert(s@.subrange(0, i as int) =~= cur);
        }
    }
    proof {
        assert(s@.subrange(0, len as int) =~= s@);
    }
    Some(acc)
}

} // verus!
