//! Per-request failure handling: the error carried out of a pipeline phase,
//! its classification into a response status, and the synthesis of the
//! client-facing error response from a template.

use vstd::prelude::*;
use crate::util::is_prefix;

verus! {

/// Where a per-request error was attributed.
#[derive(Clone, Copy, PartialEq, Eq, Structural, Debug)]
pub enum ErrorSource {
    Upstream,
    Downstream,
    Internal,
    Unset,
}

/// What kind of failure the error reports. `HttpStatus` carries an
/// explicit response status chosen where the error was raised.
#[derive(Clone, Copy, PartialEq, Eq, Structural, Debug)]
pub enum ErrorKind {
    HttpStatus(u16),
    ReadError,
    WriteError,
    ConnectionClosed,
    Other,
}

/// A per-request error as the pipeline's failure handler sees it.
#[derive(Debug)]
pub struct ProxyError {
    pub kind: ErrorKind,
    pub source: ErrorSource,
    pub message: String,
}

/// Builds an internally raised error carrying an explicit status.
pub fn new_internal_error(status: u16, message: String) -> (r: ProxyError)
    ensures
        r.kind == ErrorKind::HttpStatus(status),
        r.source == ErrorSource::Internal,
        r.message == message,
{
    ProxyError { kind: ErrorKind::HttpStatus(status), source: ErrorSource::Internal, message }
}

/// The response status an error classifies to: an explicit status wins;
/// else upstream-sourced errors give 502; downstream read/write failures
/// give 500, a downstream close 499, other downstream conditions 400;
/// internal or unset origins give 500.
pub open spec fn spec_status_of(kind: ErrorKind, source: ErrorSource) -> u16 {
    match kind {
        ErrorKind::HttpStatus(code) => code,
        _ => match source {
            ErrorSource::Upstream => 502u16,
            ErrorSource::Downstream => match kind {
                ErrorKind::WriteError | ErrorKind::ReadError => 500u16,
                ErrorKind::ConnectionClosed => 499u16,
                _ => 400u16,
            },
            ErrorSource::Internal | ErrorSource::Unset => 500u16,
        },
    }
}

/// Classifies an error into the response status of its class.
pub fn classify_error(e: &ProxyError) -> (code: u16)
    ensures
        code == spec_status_of(e.kind, e.source),
{
    match e.kind {
        ErrorKind::HttpStatus(code) => code,
        _ => match e.source {
            ErrorSource::Upstream => 502,
            ErrorSource::Downstream => match e.kind {
                ErrorKind::WriteError | ErrorKind::ReadError => 500,
                ErrorKind::ConnectionClosed => 499,
                _ => 400,
            },
            ErrorSource::Internal | ErrorSource::Unset => 500,
        },
    }
}

/// A status usable on a response line.
pub open spec fn spec_valid_status(code: u16) -> bool {
    100 <= code <= 999
}

/// Every occurrence of a non-empty `from` replaced by `to`, scanning left
/// to right without re-scanning replacements.
pub open spec fn spec_replace(s: Seq<char>, from: Seq<char>, to: Seq<char>) -> Seq<char>
    decreases s.len(),
    when from.len() > 0
{
    if s.len() < from.len() {
        s
    } else if is_prefix(from, s) {
        to + spec_replace(s.skip(from.len() as int), from, to)
    } else {
        seq![s[0]] + spec_replace(s.drop_first(), from, to)
    }
}

/// Whether `p` occurs in `s` at position `i`.
pub open spec fn spec_matches_at(s: Seq<char>, i: int, p: Seq<char>) -> bool {
    0 <= i && i + p.len() <= s.len() && s.subrange(i, i + p.len()) == p
}

/// Tests whether `p` occurs in `s` at position `i`.
fn matches_at(s: &str, s_len: usize, i: usize, p: &str) -> (r: bool)
    requires
        s_len == s@.len(),
        i <= s_len,
    ensures
        r == spec_matches_at(s@, i as int, p@),
{
    let p_len = p.unicode_len();
    if p_len > s_len - i {
        return false;
    }
    let mut j: usize = 0;
    while j < p_len
        invariant
            j <= p_len,
            p_len == p@.len(),
            s_len == s@.len(),
            i + p_len <= s_len,
            forall|k: int| 0 <= k < j ==> s@[i + k] == p@[k],
        decreases p_len - j,
    {
        if s.get_char(i + j) != p.get_char(j) {
            assert(s@.subrange(i as int, i + p@.len())[j as int] != p@[j as int]);
            return false;
        }
        j += 1;
    }
    assert(s@.subrange(i as int, i + p@.len()) =~= p@);
    true
}

/// Replaces every occurrence of `from` in `s` by `to`.
pub fn replace_all(s: &str, from: &str, to: &str) -> (r: String)
    requires
        from@.len() > 0,
    ensures
        r@ == spec_replace(s@, from@, to@),
{
    let s_len = s.unicode_len();
    let from_len = from.unicode_len();
    let mut out = String::new();
    let mut i: usize = 0;
    proof {
        assert(s@.skip(0) =~= s@);
        assert(out@ + spec_replace(s@, from@, to@) =~= spec_replace(s@, from@, to@));
    }
    while i < s_len
        invariant
            i <= s_len,
            s_len == s@.len(),
            from_len == from@.len() > 0,
            out@ + spec_replace(s@.skip(i as int), from@, to@) == spec_replace(s@, from@, to@),
        decreases s_len - i,
    {
        let ghost rest = s@.skip(i as int);
        if matches_at(s, s_len, i, from) {
            proof {
                assert(rest.subrange(0, from@.len() as int) =~= s@.subrange(
                    i as int,
                    i + from@.len(),
                ));
                assert(is_prefix(from@, rest));
                assert(rest.skip(from@.len() as int) =~= s@.skip(i + from@.len()));
            }
            out.append(to);
            i += from_len;
        } else {
            proof {
                if rest.len() >= from@.len() {
                    assert(rest.subrange(0, from@.len() as int) =~= s@.subrange(
                        i as int,
                        i + from@.len(),
                    ));
                }
                assert(rest.drop_first() =~= s@.skip(i + 1));
                assert(seq![rest[0]] =~= s@.subrange(i as int, i + 1));
            }
            let piece = s.substring_char(i, i + 1);
            out.append(piece);
            i += 1;
        }
    }
    proof {
        assert(s@.skip(i as int) =~= Seq::<char>::empty());
        assert(spec_replace(s@.skip(i as int), from@, to@) =~= s@.skip(i as int));
        assert(out@ =~= out@ + s@.skip(i as int));
    }
    out
}

/// The decimal spelling of `v`.
pub open spec fn spec_dec_str(v: nat) -> Seq<char>
    decreases v,
{
    if v < 10 {
        seq![spec_dec_digit((v % 10) as u64)]
    } else {
        spec_dec_str(v / 10).push(spec_dec_digit((v % 10) as u64))
    }
}

/// The character of one decimal digit.
pub open spec fn spec_dec_digit(d: u64) -> char {
    (('0' as u8) + (d as u8)) as char
}

/// The spelling of one decimal digit.
fn digit_str(d: u64) -> (r: &'static str)
    requires
        d < 10,
    ensures
        r@ == seq![spec_dec_digit(d)],
{
    proof {
        reveal_strlit("0");
        reveal_strlit("1");
        reveal_strlit("2");
        reveal_strlit("3");
        reveal_strlit("4");
        reveal_strlit("5");
        reveal_strlit("6");
        reveal_strlit("7");
        reveal_strlit("8");
        reveal_strlit("9");
    }
    let r = match d {
        0 => "0",
        1 => "1",
        2 => "2",
        3 => "3",
        4 => "4",
        5 => "5",
        6 => "6",
        7 => "7",
        8 => "8",
        _ => "9",
    };
    proof {
        assert(r@ =~= seq![spec_dec_digit(d)]);
    }
    r
}

/// The client-facing response synthesized for a failed request.
pub struct ErrorResponse {
    pub status: u16,
    pub headers: Vec<(String, String)>,
    pub body: String,
    /// Keep-alive is always disabled on a synthesized error response:
    /// the downstream connection is not guaranteed reusable.
    pub keepalive_disabled: bool,
}

/// The error page: the template with its two placeholders substituted,
/// by literal replacement.
pub open spec fn spec_error_body(
    template: Seq<char>,
    version: Seq<char>,
    message: Seq<char>,
) -> Seq<char> {
    spec_replace(spec_replace(template, "{{version}}"@, version), "{{content}}"@, message)
}

/// Substitutes the version and error detail into the error template.
pub fn build_error_body(template: &str, version: &str, message: &str) -> (r: String)
    ensures
        r@ == spec_error_body(template@, version@, message@),
{
    proof {
        reveal_strlit("{{version}}");
        reveal_strlit("{{content}}");
    }
    let step = replace_all(template, "{{version}}", version);
    replace_all(step.as_str(), "{{content}}", message)
}

/// Writes `v` in decimal.
pub fn u64_to_dec(v: u64) -> (r: String)
    ensures
        r@ == spec_dec_str(v as nat),
    decreases v,
{
    if v < 10 {
        let r = String::from_str(digit_str(v));
        proof {
            assert(r@ =~= spec_dec_str(v as nat));
        }
        r
    } else {
        let mut out = u64_to_dec(v / 10);
        out.append(digit_str(v % 10));
        proof {
            assert(out@ =~= spec_dec_str((v as nat) / 10).push(spec_dec_digit((v % 10) as u64)));
        }
        out
    }
}

} // verus!
