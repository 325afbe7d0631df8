//! Plain models of the HTTP messages the pipeline works on: a request with
//! method, host, path, query and headers, a response, and verified header
//! operations. Header lists are specified through their deep view, a
//! sequence of name/value character sequences.

use vstd::prelude::*;
use crate::util::concat_str;

verus! {

/// An HTTP request method.
#[derive(Clone, Copy, PartialEq, Eq, Structural, Debug)]
pub enum Method {
    Get,
    Head,
    Post,
    Put,
    Delete,
    Patch,
    Options,
    Trace,
    Connect,
}

/// One request as the pipeline sees it: the transport hands these fields
/// over as plain values. `query` is empty when the request has none;
/// `remote_addr` is the downstream client address when known.
pub struct HttpRequest {
    pub method: Method,
    pub host: String,
    pub path: String,
    pub query: String,
    pub headers: Vec<(String, String)>,
    pub remote_addr: Option<String>,
}

/// One upstream response as the pipeline sees it: status, headers, and
/// the body as the chunks in which it streams through.
pub struct HttpResponse {
    pub status: u16,
    pub headers: Vec<(String, String)>,
    pub body: Vec<String>,
}

/// A header list as contracts speak of it.
pub type HeaderSeq = Seq<(Seq<char>, Seq<char>)>;

/// Index of the first header named `name`, if any.
pub open spec fn spec_find_header(headers: HeaderSeq, name: Seq<char>) -> Option<int>
    decreases headers.len(),
{
    if headers.len() == 0 {
        None
    } else if headers[0].0 == name {
        Some(0 as int)
    } else {
        match spec_find_header(headers.drop_first(), name) {
            None => None,
            Some(i) => Some(i + 1),
        }
    }
}

/// The first header named `name` holds this index.
pub proof fn lemma_find_header(headers: HeaderSeq, name: Seq<char>)
    ensures
        match spec_find_header(headers, name) {
            Some(i) => 0 <= i < headers.len() && headers[i].0 == name && forall|j: int|
                0 <= j < i ==> headers[j].0 != name,
            None => forall|j: int| 0 <= j < headers.len() ==> headers[j].0 != name,
        },
    decreases headers.len(),
{
    if headers.len() > 0 && headers[0].0 != name {
        let rest = headers.drop_first();
        lemma_find_header(rest, name);
        assert forall|j: int| 1 <= j < headers.len() implies headers[j] == rest[j - 1] by {
            assert(rest[j - 1] == headers[j]);
        }
        match spec_find_header(rest, name) {
            Some(i) => {
                assert(spec_find_header(headers, name) == Some(i + 1));
                assert(headers[i + 1].0 == name);
                assert forall|j: int| 0 <= j < i + 1 implies headers[j].0 != name by {
                    if j >= 1 {
                        assert(headers[j] == rest[j - 1]);
                    }
                }
            },
            None => {
                assert forall|j: int| 0 <= j < headers.len() implies headers[j].0 != name by {
                    if j >= 1 {
                        assert(headers[j] == rest[j - 1]);
                    }
                }
            },
        }
    }
}

/// Finds the first header named `name`.
pub fn find_header(headers: &Vec<(String, String)>, name: &str) -> (r: Option<usize>)
    ensures
        match r {
            Some(i) => spec_find_header(headers.deep_view(), name@) == Some(i as int),
            None => spec_find_header(headers.deep_view(), name@) is None,
        },
{
    let ghost dv = headers.deep_view();
    let mut i: usize = 0;
    let len = headers.len();
    assert(dv.len() == headers@.len());
    while i < len
        invariant
            i <= len == headers@.len(),
            dv == headers.deep_view(),
            dv.len() == headers@.len(),
            forall|j: int| 0 <= j < i ==> dv[j].0 != name@,
        decreases len - i,
    {
        assert(dv[i as int].0 == headers@[i as int].0@);
        if crate::util::str_eq(headers[i].0.as_str(), name) {
            proof {
                lemma_find_header(dv, name@);
            }
            return Some(i);
        }
        i += 1;
    }
    proof {
        lemma_find_header(dv, name@);
    }
    None
}

/// The header list once the first header named `name` is given `value`:
/// with none present, the pair is appended.
pub open spec fn spec_set_header(headers: HeaderSeq, name: Seq<char>, value: Seq<char>) -> HeaderSeq {
    match spec_find_header(headers, name) {
        Some(i) => headers.update(i, (headers[i].0, value)),
        None => headers.push((name, value)),
    }
}

/// Sets the first header named `name` to `value`, appending when absent.
pub fn set_header(headers: &mut Vec<(String, String)>, name: &str, value: String)
    ensures
        final(headers).deep_view() == spec_set_header(old(headers).deep_view(), name@, value@),
{
    let ghost orig = old(headers).deep_view();
    match find_header(headers, name) {
        Some(i) => {
            proof {
                lemma_find_header(orig, name@);
            }
            let kept = headers[i].0.clone();
            headers.set(i, (kept, value));
            proof {
                assert(headers.deep_view() =~= spec_set_header(orig, name@, value@));
            }
        },
        None => {
            let owned_name = String::from_str(name);
            headers.push((owned_name, value));
            proof {
                assert(headers.deep_view() =~= spec_set_header(orig, name@, value@));
            }
        },
    }
}

/// A header list once every pair of `add` is set on it, in order.
pub open spec fn spec_insert_all(headers: HeaderSeq, add: HeaderSeq) -> HeaderSeq
    decreases add.len(),
{
    if add.len() == 0 {
        headers
    } else {
        spec_insert_all(spec_set_header(headers, add[0].0, add[0].1), add.drop_first())
    }
}

/// Sets every header of `add` in order.
pub fn insert_headers(headers: &mut Vec<(String, String)>, add: &Vec<(String, String)>)
    ensures
        final(headers).deep_view() == spec_insert_all(
            old(headers).deep_view(),
            add.deep_view(),
        ),
{
    let ghost goal = spec_insert_all(old(headers).deep_view(), add.deep_view());
    let ghost adv = add.deep_view();
    let mut i: usize = 0;
    let len = add.len();
    proof {
        assert(adv.skip(0) =~= adv);
    }
    while i < len
        invariant
            i <= len == add@.len(),
            adv == add.deep_view(),
            adv.len() == add@.len(),
            goal == spec_insert_all(headers.deep_view(), adv.skip(i as int)),
        decreases len - i,
    {
        let ghost rest = adv.skip(i as int);
        proof {
            assert(rest[0] == adv[i as int]);
            assert(rest.drop_first() =~= adv.skip(i + 1));
            assert(adv[i as int] == (add@[i as int].0@, add@[i as int].1@));
        }
        let value = add[i].1.clone();
        set_header(headers, add[i].0.as_str(), value);
        i += 1;
    }
    proof {
        assert(adv.skip(len as int) =~= Seq::<(Seq<char>, Seq<char>)>::empty());
    }
}

/// The forwarded-client-address header value after this request passes
/// through: the remote address is appended to any existing value, never
/// replacing it.
pub open spec fn spec_forwarded_for(existing: Option<Seq<char>>, addr: Seq<char>) -> Seq<char> {
    match existing {
        Some(v) => v + ", "@ + addr,
        None => addr,
    }
}

/// A header list once the forwarded-client-address of this request is
/// recorded: nothing changes without a known remote address.
pub open spec fn spec_apply_forwarded_for(headers: HeaderSeq, remote: Option<String>) -> HeaderSeq {
    match remote {
        None => headers,
        Some(a) => {
            let existing = match spec_find_header(headers, "x-forwarded-for"@) {
                Some(i) => Some(headers[i].1),
                None => None,
            };
            spec_set_header(headers, "x-forwarded-for"@, spec_forwarded_for(existing, a@))
        },
    }
}

/// Records the downstream client address in the forwarded-for header.
pub fn apply_forwarded_for(headers: &mut Vec<(String, String)>, remote: &Option<String>)
    ensures
        final(headers).deep_view() == spec_apply_forwarded_for(
            old(headers).deep_view(),
            *remote,
        ),
{
    match remote {
        None => {},
        Some(addr) => {
            let ghost dv = headers.deep_view();
            let value = match find_header(headers, "x-forwarded-for") {
                Some(i) => {
                    proof {
                        lemma_find_header(dv, "x-forwarded-for"@);
                        assert(dv[i as int].1 == headers@[i as int].1@);
                    }
                    forwarded_for_value(Some(&headers[i].1), addr.as_str())
                },
                None => forwarded_for_value(None, addr.as_str()),
            };
            set_header(headers, "x-forwarded-for", value);
        },
    }
}

/// Builds the combined forwarded-client-address value.
pub fn forwarded_for_value(existing: Option<&String>, addr: &str) -> (r: String)
    ensures
        match existing {
            Some(v) => r@ == spec_forwarded_for(Some(v@), addr@),
            None => r@ == spec_forwarded_for(None, addr@),
        },
{
    match existing {
        Some(v) => {
            let mut out = concat_str(v.as_str(), ", ");
            out.append(addr);
            out
        },
        None => String::from_str(addr),
    }
}

} // verus!
