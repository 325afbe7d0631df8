//! Calls into outside crates, each behind one wrapper whose contract names
//! what the call returns. Everything else in the crate is verified against
//! these contracts.

use vstd::prelude::*;
use base64::Engine;
use std::str::FromStr;

verus! {

/// The query pairs of `s` read as a URL: `None` when `s` is not a
/// structurally valid URL, else the key/value pairs of its query string
/// in order.
pub uninterp spec fn url_query_pairs(s: Seq<char>) -> Option<Seq<(String, String)>>;

/// Relies on `url::Url::parse` and `Url::query_pairs`: the pairs depend on
/// the text alone; keys and values come back percent-decoded, in order.
/// On failure the parser's own message comes back; nothing is stated of
/// its text.
#[verifier::external_body]
pub(crate) fn parse_url_query_pairs(value: &str) -> (r: Result<Vec<(String, String)>, String>)
    ensures
        match r {
            Ok(v) => url_query_pairs(value@) == Some(v@),
            Err(_) => url_query_pairs(value@) is None,
        },
{
    match url::Url::parse(value) {
        Ok(u) => Ok(u.query_pairs().map(|(k, v)| (k.into_owned(), v.into_owned())).collect()),
        Err(e) => Err(e.to_string()),
    }
}

/// The whole seconds of the duration that `s` spells (`"3s"`, `"2min"`),
/// or `None` when `s` is not a duration.
pub uninterp spec fn duration_secs(s: Seq<char>) -> Option<u64>;

/// Relies on `humantime::parse_duration`: the duration depends on the text
/// alone.
#[verifier::external_body]
pub(crate) fn parse_duration_secs(value: &str) -> (r: Option<u64>)
    ensures
        r == duration_secs(value@),
{
    humantime::parse_duration(value).ok().map(|d| d.as_secs())
}

/// The number of bytes that `s` spells as a size (`"30kb"`, `"1mib"`),
/// or `None` when `s` is not a size.
pub uninterp spec fn byte_size(s: Seq<char>) -> Option<u64>;

/// Relies on `bytesize::ByteSize::from_str`: the size depends on the text
/// alone.
#[verifier::external_body]
pub(crate) fn parse_byte_size(value: &str) -> (r: Option<u64>)
    ensures
        r == byte_size(value@),
{
    bytesize::ByteSize::from_str(value).ok().map(|b| b.0)
}

/// The bytes that `s` decodes to under standard base64, or `None` when `s`
/// is not valid base64.
pub uninterp spec fn base64_decoded(s: Seq<char>) -> Option<Seq<u8>>;

/// Relies on `base64::engine::general_purpose::STANDARD.decode`: the bytes
/// depend on the text alone.
#[verifier::external_body]
pub(crate) fn base64_decode(value: &str) -> (r: Option<Vec<u8>>)
    ensures
        match r {
            Some(v) => base64_decoded(value@) == Some(v@),
            None => base64_decoded(value@) is None,
        },
{
    base64::engine::general_purpose::STANDARD.decode(value.as_bytes()).ok()
}

/// Whether `s` is a structurally valid URI.
pub uninterp spec fn uri_ok(s: Seq<char>) -> bool;

/// Relies on `http::Uri::from_str`: validity depends on the text alone.
#[verifier::external_body]
pub(crate) fn is_valid_uri(value: &str) -> (r: bool)
    ensures
        r == uri_ok(value@),
{
    http::Uri::from_str(value).is_ok()
}

} // verus!
