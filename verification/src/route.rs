//! Routing rules: a Location binds a host matcher, a path matcher, an
//! optional path rewrite, a priority weight, per-rule headers, a plugin
//! chain and the name of one upstream. Locations are kept sorted by
//! descending weight with configuration order preserved among equals, and
//! a request is routed to the first rule that matches both host and path.

use vstd::prelude::*;
use crate::plugin::Plugin;
use crate::util::{ends_with, is_prefix, is_suffix, starts_with, str_eq, concat_str};

verus! {

/// How a rule matches the request host.
pub enum HostMatcher {
    /// Accepts every host.
    Any,
    /// Accepts exactly this host.
    Exact(String),
    /// Accepts every host ending in this suffix (a `*` pattern).
    Wildcard(String),
}

/// How a rule matches the request path.
pub enum PathMatcher {
    /// Accepts every path.
    Any,
    /// Accepts every path starting with this prefix.
    Prefix(String),
    /// Accepts exactly this path (an `=` pattern).
    Exact(String),
}

/// A path rewrite: the leading `from` of a matching path is replaced by
/// `to` before upstream dispatch.
pub struct Rewrite {
    pub from: String,
    pub to: String,
}

/// The configured form of one routing rule. The host pattern is empty for
/// any host, `*suffix` for a wildcard, else an exact host; the path
/// pattern is empty for any path, `=path` for an exact path, else a
/// prefix.
pub struct LocationConf {
    pub upstream: String,
    pub host: String,
    pub path: String,
    pub rewrite: Option<Rewrite>,
    pub weight: u32,
    pub headers: Vec<(String, String)>,
    pub proxy_headers: Vec<(String, String)>,
    pub plugins: Vec<Plugin>,
}

/// One constructed routing rule. Immutable after construction; the
/// server resolves `upstream` to the index of the one upstream that
/// `upstream_name` names when it is built.
pub struct Location {
    pub name: String,
    pub upstream_name: String,
    pub upstream: usize,
    pub host: HostMatcher,
    pub path: PathMatcher,
    pub rewrite: Option<Rewrite>,
    pub weight: u32,
    pub headers: Vec<(String, String)>,
    pub proxy_headers: Vec<(String, String)>,
    pub plugins: Vec<Plugin>,
}

impl Location {
    /// Whether the host matcher accepts `host`.
    pub open spec fn spec_host_match(self, host: Seq<char>) -> bool {
        match self.host {
            HostMatcher::Any => true,
            HostMatcher::Exact(h) => host == h@,
            HostMatcher::Wildcard(s) => is_suffix(s@, host),
        }
    }

    /// Whether the path matcher accepts `path`.
    pub open spec fn spec_path_match(self, path: Seq<char>) -> bool {
        match self.path {
            PathMatcher::Any => true,
            PathMatcher::Prefix(p) => is_prefix(p@, path),
            PathMatcher::Exact(p) => path == p@,
        }
    }

    /// Whether this rule matches the request: host and path must both
    /// be accepted.
    pub open spec fn spec_matches(self, host: Seq<char>, path: Seq<char>) -> bool {
        self.spec_host_match(host) && self.spec_path_match(path)
    }

    /// Whether this rule is the one that configuration entry describes:
    /// the matchers read off the patterns, and every other field carried
    /// over. Says nothing of the resolved upstream index, which the
    /// server fills in.
    pub open spec fn spec_built_from(self, name: Seq<char>, conf: LocationConf) -> bool {
        &&& self.name@ == name
        &&& self.upstream_name == conf.upstream
        &&& (conf.host@.len() == 0 ==> self.host is Any)
        &&& (conf.host@.len() > 0 && conf.host@[0] == '*' ==> (self.host matches
        HostMatcher::Wildcard(s) && s@ == conf.host@.skip(1)))
        &&& (conf.host@.len() > 0 && conf.host@[0] != '*' ==> (self.host matches
        HostMatcher::Exact(h) && h == conf.host))
        &&& (conf.path@.len() == 0 ==> self.path is Any)
        &&& (conf.path@.len() > 0 && conf.path@[0] == '=' ==> (self.path matches
        PathMatcher::Exact(p) && p@ == conf.path@.skip(1)))
        &&& (conf.path@.len() > 0 && conf.path@[0] != '=' ==> (self.path matches
        PathMatcher::Prefix(p) && p == conf.path))
        &&& self.rewrite == conf.rewrite
        &&& self.weight == conf.weight
        &&& self.headers == conf.headers
        &&& self.proxy_headers == conf.proxy_headers
        &&& self.plugins == conf.plugins
    }

    /// Builds a rule from its configuration.
    pub fn new(name: &str, conf: LocationConf) -> (r: Location)
        ensures
            r.spec_built_from(name@, conf),
            r.upstream == 0,
    {
        let LocationConf { upstream, host, path, rewrite, weight, headers, proxy_headers, plugins } =
            conf;
        proof {
            reveal_strlit("*");
            reveal_strlit("=");
            assert("*"@ =~= seq!['*']);
            assert("="@ =~= seq!['=']);
        }
        let host_len = host.as_str().unicode_len();
        let host_wild = starts_with(host.as_str(), "*");
        proof {
            if host@.len() > 0 {
                assert(host@.subrange(0, 1) =~= seq![host@[0]]);
                if host@[0] == '*' {
                    assert(host@.subrange(0, 1) =~= "*"@);
                }
                if is_prefix("*"@, host@) {
                    assert(host@.subrange(0, 1)[0] == '*');
                }
            }
        }
        let host_matcher = if host_len == 0 {
            HostMatcher::Any
        } else if host_wild {
            let suffix = String::from_str(host.as_str().substring_char(1, host_len));
            proof {
                assert(suffix@ =~= host@.skip(1));
            }
            HostMatcher::Wildcard(suffix)
        } else {
            HostMatcher::Exact(host)
        };
        let path_len = path.as_str().unicode_len();
        let path_exact = starts_with(path.as_str(), "=");
        proof {
            if path@.len() > 0 {
                assert(path@.subrange(0, 1) =~= seq![path@[0]]);
                if path@[0] == '=' {
                    assert(path@.subrange(0, 1) =~= "="@);
                }
                if is_prefix("="@, path@) {
                    assert(path@.subrange(0, 1)[0] == '=');
                }
            }
        }
        let path_matcher = if path_len == 0 {
            PathMatcher::Any
        } else if path_exact {
            let exact = String::from_str(path.as_str().substring_char(1, path_len));
            proof {
                assert(exact@ =~= path@.skip(1));
            }
            PathMatcher::Exact(exact)
        } else {
            PathMatcher::Prefix(path)
        };
        Location {
            name: String::from_str(name),
            upstream_name: upstream,
            upstream: 0,
            host: host_matcher,
            path: path_matcher,
            rewrite,
            weight,
            headers,
            proxy_headers,
            plugins,
        }
    }

    /// Tests whether this rule matches the request.
    pub fn matched(&self, host: &str, path: &str) -> (r: bool)
        ensures
            r == self.spec_matches(host@, path@),
    {
        let host_ok = match &self.host {
            HostMatcher::Any => true,
            HostMatcher::Exact(h) => str_eq(host, h.as_str()),
            HostMatcher::Wildcard(s) => ends_with(host, s.as_str()),
        };
        if !host_ok {
            return false;
        }
        match &self.path {
            PathMatcher::Any => true,
            PathMatcher::Prefix(p) => starts_with(path, p.as_str()),
            PathMatcher::Exact(p) => str_eq(path, p.as_str()),
        }
    }

    /// The rewritten path: `None` when no rewrite is configured; else the
    /// leading `from` replaced by `to` when the path starts with `from`,
    /// and the path unchanged when it does not.
    pub open spec fn spec_rewrite(self, path: Seq<char>) -> Option<Seq<char>> {
        match self.rewrite {
            None => None,
            Some(rw) => Some(
                if is_prefix(rw.from@, path) {
                    rw.to@ + path.skip(rw.from@.len() as int)
                } else {
                    path
                },
            ),
        }
    }

    /// Applies the configured path rewrite, if any.
    pub fn rewrite(&self, path: &str) -> (r: Option<String>)
        ensures
            match r {
                Some(p) => self.spec_rewrite(path@) == Some(p@),
                None => self.spec_rewrite(path@) is None,
            },
    {
        match &self.rewrite {
            None => None,
            Some(rw) => {
                if starts_with(path, rw.from.as_str()) {
                    let path_len = path.unicode_len();
                    let from_len = rw.from.as_str().unicode_len();
                    let rest = path.substring_char(from_len, path_len);
                    Some(concat_str(rw.to.as_str(), rest))
                } else {
                    Some(String::from_str(path))
                }
            },
        }
    }

    /// The upstream-facing target once the rewrite is applied and the
    /// original query string is re-appended: `None` when no rewrite is
    /// configured.
    pub open spec fn spec_target(self, path: Seq<char>, query: Seq<char>) -> Option<Seq<char>> {
        match self.spec_rewrite(path) {
            None => None,
            Some(p) => Some(
                if query.len() == 0 {
                    p
                } else {
                    p + "?"@ + query
                },
            ),
        }
    }

    /// The request path as it goes upstream: the rewritten path when a
    /// rewrite is configured and the rewritten target is a structurally
    /// valid URI; the original path otherwise. A failed rewrite never
    /// aborts the request.
    pub open spec fn spec_effective_path(self, path: Seq<char>, query: Seq<char>) -> Seq<char> {
        match self.spec_target(path, query) {
            None => path,
            Some(t) => if crate::trusted::uri_ok(t) {
                match self.spec_rewrite(path) {
                    Some(p) => p,
                    None => path,
                }
            } else {
                path
            },
        }
    }

    /// Builds the rewritten upstream target with the query re-appended.
    pub fn rewrite_target(&self, path: &str, query: &str) -> (r: Option<String>)
        ensures
            match r {
                Some(p) => self.spec_target(path@, query@) == Some(p@),
                None => self.spec_target(path@, query@) is None,
            },
    {
        match self.rewrite(path) {
            None => None,
            Some(p) => {
                if query.is_empty() {
                    Some(p)
                } else {
                    let mut out = concat_str(p.as_str(), "?");
                    out.append(query);
                    Some(out)
                }
            },
        }
    }
}

/// Any path rewritten onto a matching prefix keeps its query string: the
/// upstream target is the replaced prefix, the tail of the path, and the
/// original query behind `?`, exactly.
pub proof fn lemma_rewrite_preserves_query(
    lo: Location,
    rw: Rewrite,
    path: Seq<char>,
    query: Seq<char>,
)
    requires
        lo.rewrite == Some(rw),
        is_prefix(rw.from@, path),
        query.len() > 0,
    ensures
        lo.spec_target(path, query) == Some(
            rw.to@ + path.skip(rw.from@.len() as int) + "?"@ + query,
        ),
{
}

/// Rules ordered by strictly non-increasing weight.
pub open spec fn sorted_by_weight_desc(s: Seq<Location>) -> bool {
    forall|i: int, j: int| 0 <= i < j < s.len() ==> s[i].weight >= s[j].weight
}

/// Where `x` lands when inserted: behind every rule of weight at least
/// `x.weight`, ahead of the first lighter one.
pub open spec fn spec_insert_pos(s: Seq<Location>, x: Location) -> int
    decreases s.len(),
{
    if s.len() == 0 {
        0
    } else if s[0].weight >= x.weight {
        1 + spec_insert_pos(s.drop_first(), x)
    } else {
        0
    }
}

/// One rule inserted behind its equals: the stable insertion step.
pub open spec fn spec_insert(s: Seq<Location>, x: Location) -> Seq<Location>
    decreases s.len(),
{
    if s.len() == 0 {
        seq![x]
    } else if s[0].weight >= x.weight {
        seq![s[0]] + spec_insert(s.drop_first(), x)
    } else {
        seq![x] + s
    }
}

/// The list sorted by descending weight, configuration order kept among
/// equal weights: each rule inserted behind its equals, in order.
pub open spec fn spec_stable_sort(s: Seq<Location>) -> Seq<Location>
    decreases s.len(),
{
    if s.len() == 0 {
        Seq::<Location>::empty()
    } else {
        spec_insert(spec_stable_sort(s.drop_last()), s.last())
    }
}

/// The insertion position is a boundary: heavier-or-equal before, lighter
/// at it.
proof fn lemma_insert_pos(s: Seq<Location>, x: Location)
    ensures
        0 <= spec_insert_pos(s, x) <= s.len(),
        forall|j: int| 0 <= j < spec_insert_pos(s, x) ==> s[j].weight >= x.weight,
        spec_insert_pos(s, x) < s.len() ==> s[spec_insert_pos(s, x)].weight < x.weight,
    decreases s.len(),
{
    if s.len() > 0 && s[0].weight >= x.weight {
        let rest = s.drop_first();
        lemma_insert_pos(rest, x);
        assert(forall|j: int| 1 <= j < s.len() ==> s[j] == rest[j - 1]);
    }
}

/// Inserting splits the list at the insertion position.
proof fn lemma_insert_shape(s: Seq<Location>, x: Location)
    ensures
        spec_insert(s, x) =~= s.take(spec_insert_pos(s, x)) + seq![x] + s.skip(
            spec_insert_pos(s, x),
        ),
    decreases s.len(),
{
    let k = spec_insert_pos(s, x);
    lemma_insert_pos(s, x);
    if s.len() == 0 {
    } else if s[0].weight >= x.weight {
        let rest = s.drop_first();
        lemma_insert_pos(rest, x);
        lemma_insert_shape(rest, x);
        assert(s.take(k) =~= seq![s[0]] + rest.take(k - 1));
        assert(s.skip(k) =~= rest.skip(k - 1));
    } else {
        assert(s.take(0) =~= Seq::<Location>::empty());
        assert(s.skip(0) =~= s);
    }
}

/// A sequence with no matching element filters to nothing.
proof fn lemma_filter_none(s: Seq<Location>, pred: spec_fn(Location) -> bool)
    requires
        forall|j: int| 0 <= j < s.len() ==> !pred(s[j]),
    ensures
        s.filter(pred) =~= Seq::<Location>::empty(),
    decreases s.len(),
{
    reveal(Seq::filter);
    if s.len() > 0 {
        lemma_filter_none(s.drop_last(), pred);
    }
}

/// Inserting keeps the order sorted.
proof fn lemma_insert_sorted(s: Seq<Location>, x: Location)
    requires
        sorted_by_weight_desc(s),
    ensures
        sorted_by_weight_desc(spec_insert(s, x)),
{
    let k = spec_insert_pos(s, x);
    lemma_insert_pos(s, x);
    lemma_insert_shape(s, x);
    let r = spec_insert(s, x);
    assert forall|i: int, j: int| 0 <= i < j < r.len() implies r[i].weight >= r[j].weight by {
        if i < k {
            assert(r[i] == s[i]);
        } else if i == k {
            assert(r[i] == x);
        } else {
            assert(r[i] == s[i - 1]);
        }
        if j < k {
            assert(r[j] == s[j]);
        } else if j == k {
            assert(r[j] == x);
        } else {
            assert(r[j] == s[j - 1]);
        }
        if i < k && k < j {
            assert(s[i].weight >= x.weight);
            assert(s[j - 1].weight < x.weight || (k < s.len() && s[k].weight < x.weight
                && s[j - 1].weight <= s[k].weight));
        }
    }
}

/// Inserting a rule adds it behind every kept rule of its weight and
/// leaves every other weight class unchanged.
proof fn lemma_insert_filter(s: Seq<Location>, x: Location, w: u32)
    requires
        sorted_by_weight_desc(s),
    ensures
        x.weight == w ==> spec_insert(s, x).filter(|l: Location| l.weight == w) =~= s.filter(
            |l: Location| l.weight == w,
        ).push(x),
        x.weight != w ==> spec_insert(s, x).filter(|l: Location| l.weight == w) =~= s.filter(
            |l: Location| l.weight == w,
        ),
{
    let pred = |l: Location| l.weight == w;
    let k = spec_insert_pos(s, x);
    lemma_insert_pos(s, x);
    lemma_insert_shape(s, x);
    let front = s.take(k);
    let back = s.skip(k);
    assert(s =~= front + back);
    Seq::filter_distributes_over_add(front, back, pred);
    Seq::filter_distributes_over_add(front + seq![x], back, pred);
    Seq::filter_distributes_over_add(front, seq![x], pred);
    reveal(Seq::filter);
    assert(seq![x].drop_last() =~= Seq::<Location>::empty());
    if x.weight == w {
        // every element of `back` is lighter than x, so none has weight w
        assert forall|j: int| 0 <= j < back.len() implies !pred(back[j]) by {
            assert(back[j] == s[k + j]);
            if k < s.len() {
                assert(s[k].weight < x.weight);
                if j > 0 {
                    assert(s[k].weight >= s[k + j].weight);
                }
            }
        }
        lemma_filter_none(back, pred);
        assert(seq![x].filter(pred) =~= seq![x]);
        assert(spec_insert(s, x).filter(pred) =~= front.filter(pred) + seq![x]);
        assert(s.filter(pred) =~= front.filter(pred));
        assert(front.filter(pred) + seq![x] =~= front.filter(pred).push(x));
    } else {
        assert(seq![x].last() == x);
        assert(!pred(x));
        assert(Seq::<Location>::empty().filter(pred) =~= Seq::<Location>::empty());
        assert(seq![x].filter(pred) =~= Seq::<Location>::empty());
        assert(spec_insert(s, x).filter(pred) =~= front.filter(pred) + back.filter(pred));
        assert(s.filter(pred) =~= front.filter(pred) + back.filter(pred));
    }
}

/// The sort leaves every list sorted by descending weight.
pub proof fn lemma_sort_sorted(s: Seq<Location>)
    ensures
        sorted_by_weight_desc(spec_stable_sort(s)),
    decreases s.len(),
{
    if s.len() > 0 {
        lemma_sort_sorted(s.drop_last());
        lemma_insert_sorted(spec_stable_sort(s.drop_last()), s.last());
    }
}

/// The sort is stable: within each weight, rules keep their
/// configuration order, exactly.
pub proof fn lemma_sort_stable(s: Seq<Location>, w: u32)
    ensures
        spec_stable_sort(s).filter(|l: Location| l.weight == w) =~= s.filter(
            |l: Location| l.weight == w,
        ),
    decreases s.len(),
{
    let pred = |l: Location| l.weight == w;
    reveal(Seq::filter);
    if s.len() > 0 {
        lemma_sort_stable(s.drop_last(), w);
        lemma_sort_sorted(s.drop_last());
        lemma_insert_filter(spec_stable_sort(s.drop_last()), s.last(), w);
    }
}

/// Every rule in an insertion came from the list or is the one inserted.
proof fn lemma_insert_elems(s: Seq<Location>, x: Location)
    ensures
        forall|i: int| 0 <= i < spec_insert(s, x).len() ==> (spec_insert(s, x)[i] == x || exists|j: int|
            0 <= j < s.len() && s[j] == #[trigger] spec_insert(s, x)[i]),
{
    lemma_insert_pos(s, x);
    lemma_insert_shape(s, x);
    let k = spec_insert_pos(s, x);
    assert forall|i: int| 0 <= i < spec_insert(s, x).len() implies (spec_insert(s, x)[i] == x
        || exists|j: int| 0 <= j < s.len() && s[j] == #[trigger] spec_insert(s, x)[i]) by {
        if i < k {
            assert(s[i] == spec_insert(s, x)[i]);
        } else if i > k {
            assert(s[i - 1] == spec_insert(s, x)[i]);
        }
    }
}

/// Every rule in the sorted list came from the original list.
pub proof fn lemma_sort_elems(s: Seq<Location>)
    ensures
        forall|i: int| 0 <= i < spec_stable_sort(s).len() ==> exists|j: int|
            0 <= j < s.len() && s[j] == #[trigger] spec_stable_sort(s)[i],
        spec_stable_sort(s).len() == s.len(),
    decreases s.len(),
{
    if s.len() > 0 {
        let prefix = s.drop_last();
        lemma_sort_elems(prefix);
        let t = spec_stable_sort(prefix);
        lemma_insert_elems(t, s.last());
        lemma_insert_pos(t, s.last());
        lemma_insert_shape(t, s.last());
        assert forall|i: int| 0 <= i < spec_stable_sort(s).len() implies exists|j: int|
            0 <= j < s.len() && s[j] == #[trigger] spec_stable_sort(s)[i] by {
            let e = spec_stable_sort(s)[i];
            if e == s.last() {
                assert(s[s.len() - 1] == e);
            } else {
                let j1 = choose|j1: int| 0 <= j1 < t.len() && t[j1] == e;
                let j2 = choose|j2: int| 0 <= j2 < prefix.len() && prefix[j2] == e;
                assert(s[j2] == e);
            }
        }
    }
}

/// Sorts rules by descending weight, stably.
pub fn sort_locations(v: Vec<Location>) -> (r: Vec<Location>)
    ensures
        r@ == spec_stable_sort(v@),
{
    let ghost orig = v@;
    let mut v = v;
    let mut out: Vec<Location> = Vec::new();
    let mut i: usize = 0;
    let total = v.len();
    proof {
        assert(orig.take(0) =~= Seq::<Location>::empty());
        assert(orig.len() == total);
    }
    while v.len() > 0
        invariant
            i + v@.len() == orig.len(),
            orig.len() <= usize::MAX,
            v@ =~= orig.skip(i as int),
            out@ == spec_stable_sort(orig.take(i as int)),
        decreases v@.len(),
    {
        let x = v.remove(0);
        proof {
            assert(x == orig[i as int]);
            assert(v@ =~= orig.skip(i + 1));
        }
        // find the stable insertion position in `out`
        let mut k: usize = 0;
        let out_len = out.len();
        while k < out_len && out[k].weight >= x.weight
            invariant
                k <= out_len == out@.len(),
                forall|j: int| 0 <= j < k ==> out@[j].weight >= x.weight,
            decreases out_len - k,
        {
            k += 1;
        }
        proof {
            lemma_insert_pos(out@, x);
            lemma_insert_shape(out@, x);
            // k is exactly the spec insertion position
            let sk = spec_insert_pos(out@, x);
            if sk < k {
                assert(out@[sk].weight >= x.weight);
            }
            if (k as int) < sk {
                assert(out@[k as int].weight >= x.weight);
            }
            assert(sk == k as int);
        }
        out.insert(k, x);
        i += 1;
        proof {
            assert(out@ =~= spec_insert(spec_stable_sort(orig.take(i - 1)), x));
            assert(orig.take(i as int).drop_last() =~= orig.take(i - 1));
            assert(orig.take(i as int).last() == x);
        }
    }
    proof {
        assert(orig.take(i as int) =~= orig);
    }
    out
}

/// The first rule in order that matches the request, if any.
pub open spec fn spec_route(locs: Seq<Location>, host: Seq<char>, path: Seq<char>) -> Option<int>
    decreases locs.len(),
{
    if locs.len() == 0 {
        None
    } else if locs[0].spec_matches(host, path) {
        Some(0 as int)
    } else {
        match spec_route(locs.drop_first(), host, path) {
            None => None,
            Some(i) => Some(i + 1),
        }
    }
}

/// The routed rule is the first match: it matches, and no earlier rule
/// does; `None` means no rule matches at all.
pub proof fn lemma_route(locs: Seq<Location>, host: Seq<char>, path: Seq<char>)
    ensures
        match spec_route(locs, host, path) {
            Some(i) => 0 <= i < locs.len() && locs[i].spec_matches(host, path) && forall|j: int|
                0 <= j < i ==> !locs[j].spec_matches(host, path),
            None => forall|j: int| 0 <= j < locs.len() ==> !locs[j].spec_matches(host, path),
        },
    decreases locs.len(),
{
    if locs.len() > 0 && !locs[0].spec_matches(host, path) {
        let rest = locs.drop_first();
        lemma_route(rest, host, path);
        assert(forall|j: int| 1 <= j < locs.len() ==> locs[j] == rest[j - 1]);
        match spec_route(rest, host, path) {
            Some(i) => {
                assert(locs[i + 1] == rest[i]);
                assert forall|j: int| 0 <= j < i + 1 implies !locs[j].spec_matches(host, path) by {
                    if j >= 1 {
                        assert(locs[j] == rest[j - 1]);
                    }
                }
            },
            None => {
                assert forall|j: int| 0 <= j < locs.len() implies !locs[j].spec_matches(
                    host,
                    path,
                ) by {
                    if j >= 1 {
                        assert(locs[j] == rest[j - 1]);
                    }
                }
            },
        }
    }
}

/// Scans the ordered rules and returns the index of the first match.
pub fn route(locations: &Vec<Location>, host: &str, path: &str) -> (r: Option<usize>)
    ensures
        match r {
            Some(i) => spec_route(locations@, host@, path@) == Some(i as int),
            None => spec_route(locations@, host@, path@) is None,
        },
{
    let mut i: usize = 0;
    let len = locations.len();
    while i < len
        invariant
            i <= len == locations@.len(),
            forall|j: int| 0 <= j < i ==> !locations@[j].spec_matches(host@, path@),
        decreases len - i,
    {
        if locations[i].matched(host, path) {
            proof {
                lemma_route(locations@, host@, path@);
            }
            return Some(i);
        }
        i += 1;
    }
    proof {
        lemma_route(locations@, host@, path@);
    }
    None
}

/// Priority: the routed rule carries the greatest weight of any matching
/// rule; in particular, of two matching rules the heavier one wins.
pub proof fn lemma_route_priority(
    locs: Seq<Location>,
    host: Seq<char>,
    path: Seq<char>,
    i: int,
    j: int,
)
    requires
        sorted_by_weight_desc(locs),
        spec_route(locs, host, path) == Some(i),
        0 <= j < locs.len(),
        locs[j].spec_matches(host, path),
    ensures
        locs[i].weight >= locs[j].weight,
{
    lemma_route(locs, host, path);
    if j < i {
        assert(!locs[j].spec_matches(host, path));
    }
}

} // verus!
