//! One listening server: built from configuration into an ordered rule
//! list and its upstreams, it drives each request through the pipeline
//! phases — accept, route, plugin chain, peer selection, header filters,
//! body accounting, failure handling and logging.

use vstd::prelude::*;
use crate::errors::{
    build_error_body, classify_error, spec_error_body, spec_status_of, spec_valid_status,
    u64_to_dec, ErrorKind, ErrorResponse, ErrorSource, ProxyError, new_internal_error,
    spec_dec_str,
};
use crate::message::{
    insert_headers, spec_apply_forwarded_for, spec_insert_all, apply_forwarded_for, HttpRequest,
    HttpResponse,
};
use crate::plugin::{exec_plugins, spec_chain, Plugin, PluginStep};
use crate::route::{
    route, sort_locations, sorted_by_weight_desc, spec_route, spec_stable_sort, lemma_route,
    lemma_sort_sorted, lemma_sort_elems, Location, LocationConf,
};
use crate::state::State;
use crate::trusted::{base64_decode, base64_decoded};
use crate::upstream::{Upstream, UpstreamConf};
use crate::util::{concat_str, get_pkg_version, str_eq};

verus! {

/// A construction error: what failed and the text around it.
#[derive(Debug)]
pub enum Error {
    /// Configuration text that would not deserialize.
    TomlDe { message: String, content: String },
    /// A failed construction step, by category.
    Common { category: String, message: String },
    /// An input/output failure while bringing the server up.
    Io { message: String },
}

/// One `server` entry of the configuration: a listening address with the
/// names of the routing rules it serves.
pub struct ServerEntry {
    pub addr: String,
    pub access_log: Option<String>,
    pub locations: Option<Vec<String>>,
    pub threads: Option<usize>,
    pub tls_cert: Option<String>,
    pub tls_key: Option<String>,
}

/// The whole configuration: named upstreams, named routing rules, named
/// servers, and the error-page template.
pub struct PingapConf {
    pub upstreams: Vec<(String, UpstreamConf)>,
    pub locations: Vec<(String, LocationConf)>,
    pub servers: Vec<(String, ServerEntry)>,
    pub error_template: String,
}

/// Everything one server is built from.
pub struct ServerConf {
    pub admin: bool,
    pub name: String,
    pub addr: String,
    pub access_log: Option<String>,
    pub upstreams: Vec<(String, UpstreamConf)>,
    pub locations: Vec<(String, LocationConf)>,
    pub tls_cert: Option<Vec<u8>>,
    pub tls_key: Option<Vec<u8>>,
    pub threads: Option<usize>,
    pub error_template: String,
}

/// Whether some name in `names` reads as `n`.
pub open spec fn spec_contains_name(names: Seq<String>, n: Seq<char>) -> bool {
    exists|i: int| 0 <= i < names.len() && names[i]@ == n
}

/// Tests whether `names` holds `n`.
pub fn contains_name(names: &Vec<String>, n: &str) -> (r: bool)
    ensures
        r == spec_contains_name(names@, n@),
{
    let mut i: usize = 0;
    let len = names.len();
    while i < len
        invariant
            i <= len == names@.len(),
            forall|j: int| 0 <= j < i ==> names@[j]@ != n@,
        decreases len - i,
    {
        if str_eq(names[i].as_str(), n) {
            return true;
        }
        i += 1;
    }
    false
}

/// The fallback error page used when the configuration names none.
pub fn default_error_template() -> (r: String)
    ensures
        r@ == "<html><body><h1>{{version}}</h1><p>{{content}}</p></body></html>"@,
{
    String::from_str("<html><body><h1>{{version}}</h1><p>{{content}}</p></body></html>")
}

/// The decoded TLS material of one base64 field: decoded bytes, or empty
/// when the text is not valid base64.
pub open spec fn spec_decoded_tls(s: Seq<char>) -> Seq<u8> {
    match base64_decoded(s) {
        Some(v) => v,
        None => Seq::<u8>::empty(),
    }
}

/// Decodes one optional base64 TLS field.
fn decode_tls(v: &Option<String>) -> (r: Option<Vec<u8>>)
    ensures
        match (v, &r) {
            (Option::None, Option::None) => true,
            (Option::Some(s), Option::Some(buf)) => buf@ == spec_decoded_tls(s@),
            _ => false,
        },
{
    match v {
        None => None,
        Some(s) => match base64_decode(s.as_str()) {
            Some(buf) => Some(buf),
            None => Some(Vec::new()),
        },
    }
}

/// Clones a list of names.
fn clone_strings(v: &Vec<String>) -> (r: Vec<String>)
    ensures
        r@ == v@,
{
    let mut out: Vec<String> = Vec::new();
    let mut i: usize = 0;
    let len = v.len();
    while i < len
        invariant
            i <= len == v@.len(),
            out@.len() == i,
            forall|j: int| 0 <= j < i ==> out@[j] == v@[j],
        decreases len - i,
    {
        out.push(v[i].clone());
        i += 1;
    }
    proof {
        assert(out@ =~= v@);
    }
    out
}

/// Clones a header list.
fn clone_pairs(v: &Vec<(String, String)>) -> (r: Vec<(String, String)>)
    ensures
        r@ == v@,
{
    let mut out: Vec<(String, String)> = Vec::new();
    let mut i: usize = 0;
    let len = v.len();
    while i < len
        invariant
            i <= len == v@.len(),
            out@.len() == i,
            forall|j: int| 0 <= j < i ==> out@[j] == v@[j],
        decreases len - i,
    {
        let name = v[i].0.clone();
        let value = v[i].1.clone();
        out.push((name, value));
        i += 1;
    }
    proof {
        assert(out@ =~= v@);
    }
    out
}

/// Clones a plugin chain.
fn clone_plugins(v: &Vec<Plugin>) -> (r: Vec<Plugin>)
    ensures
        r@ == v@,
{
    let mut out: Vec<Plugin> = Vec::new();
    let mut i: usize = 0;
    let len = v.len();
    while i < len
        invariant
            i <= len == v@.len(),
            out@.len() == i,
            forall|j: int| 0 <= j < i ==> out@[j] == v@[j],
        decreases len - i,
    {
        out.push(v[i]);
        i += 1;
    }
    proof {
        assert(out@ =~= v@);
    }
    out
}

/// Whether two rule configurations read the same.
pub open spec fn spec_location_conf_like(a: LocationConf, b: LocationConf) -> bool {
    &&& a.upstream == b.upstream
    &&& a.host == b.host
    &&& a.path == b.path
    &&& match (a.rewrite, b.rewrite) {
        (Option::None, Option::None) => true,
        (Option::Some(x), Option::Some(y)) => x.from == y.from && x.to == y.to,
        _ => false,
    }
    &&& a.weight == b.weight
    &&& a.headers@ == b.headers@
    &&& a.proxy_headers@ == b.proxy_headers@
    &&& a.plugins@ == b.plugins@
}

/// Clones one rule configuration.
fn clone_location_conf(c: &LocationConf) -> (r: LocationConf)
    ensures
        spec_location_conf_like(*c, r),
{
    let rewrite = match &c.rewrite {
        None => None,
        Some(rw) => Some(crate::route::Rewrite { from: rw.from.clone(), to: rw.to.clone() }),
    };
    LocationConf {
        upstream: c.upstream.clone(),
        host: c.host.clone(),
        path: c.path.clone(),
        rewrite,
        weight: c.weight,
        headers: clone_pairs(&c.headers),
        proxy_headers: clone_pairs(&c.proxy_headers),
        plugins: clone_plugins(&c.plugins),
    }
}

/// Whether two upstream configurations read the same.
pub open spec fn spec_upstream_conf_like(a: UpstreamConf, b: UpstreamConf) -> bool {
    a.addrs@ == b.addrs@ && a.strategy == b.strategy
}

/// Clones one upstream configuration.
fn clone_upstream_conf(c: &UpstreamConf) -> (r: UpstreamConf)
    ensures
        spec_upstream_conf_like(*c, r),
{
    UpstreamConf { addrs: clone_strings(&c.addrs), strategy: c.strategy }
}

/// The names of the rules a server entry serves; none configured means
/// none served.
pub open spec fn spec_entry_location_names(e: ServerEntry) -> Seq<String> {
    match e.locations {
        Some(v) => v@,
        None => Seq::<String>::empty(),
    }
}

/// The rule entries of the configuration that a server selects, in
/// configuration order.
pub open spec fn spec_selected_locations(
    locations: Seq<(String, LocationConf)>,
    names: Seq<String>,
) -> Seq<(String, LocationConf)> {
    locations.filter(|p: (String, LocationConf)| spec_contains_name(names, p.0@))
}

/// The upstream entries that the selected rules reference, in
/// configuration order.
pub open spec fn spec_selected_upstreams(
    upstreams: Seq<(String, UpstreamConf)>,
    selected: Seq<(String, LocationConf)>,
) -> Seq<(String, UpstreamConf)> {
    upstreams.filter(
        |p: (String, UpstreamConf)|
            spec_contains_name(selected.map_values(|q: (String, LocationConf)| q.1.upstream), p.0@),
    )
}

/// Picks the rule entries whose names a server lists.
fn filter_locations(locations: &Vec<(String, LocationConf)>, names: &Vec<String>) -> (r: Vec<
    (String, LocationConf),
>)
    ensures
        r@.len() == spec_selected_locations(locations@, names@).len(),
        forall|j: int| 0 <= j < r@.len() ==> (#[trigger] r@[j]).0 == spec_selected_locations(
            locations@,
            names@,
        )[j].0 && spec_location_conf_like(
            spec_selected_locations(locations@, names@)[j].1,
            r@[j].1,
        ),
{
    let ghost goal = spec_selected_locations(locations@, names@);
    let ghost pred = |p: (String, LocationConf)| spec_contains_name(names@, p.0@);
    let mut out: Vec<(String, LocationConf)> = Vec::new();
    let mut i: usize = 0;
    let len = locations.len();
    proof {
        reveal(Seq::filter);
        assert(locations@.take(0) =~= Seq::<(String, LocationConf)>::empty());
        assert(locations@.take(0).filter(pred) =~= Seq::<(String, LocationConf)>::empty());
    }
    while i < len
        invariant
            i <= len == locations@.len(),
            out@.len() == locations@.take(i as int).filter(pred).len(),
            pred == (|p: (String, LocationConf)| spec_contains_name(names@, p.0@)),
            forall|j: int| 0 <= j < out@.len() ==> (#[trigger] out@[j]).0 == locations@.take(
                i as int,
            ).filter(pred)[j].0 && spec_location_conf_like(
                locations@.take(i as int).filter(pred)[j].1,
                out@[j].1,
            ),
        decreases len - i,
    {
        let ghost before = locations@.take(i as int).filter(pred);
        proof {
            reveal(Seq::filter);
            assert(locations@.take(i + 1).drop_last() =~= locations@.take(i as int));
            assert(locations@.take(i + 1).last() == locations@[i as int]);
        }
        if contains_name(names, locations[i].0.as_str()) {
            let name = locations[i].0.clone();
            let lc = clone_location_conf(&locations[i].1);
            out.push((name, lc));
            proof {
                assert(locations@.take(i + 1).filter(pred) =~= before.push(locations@[i as int]));
            }
        } else {
            proof {
                assert(locations@.take(i + 1).filter(pred) =~= before);
            }
        }
        i += 1;
    }
    proof {
        assert(locations@.take(len as int) =~= locations@);
    }
    out
}

/// Picks the upstream entries that the selected rules reference.
fn filter_upstreams(upstreams: &Vec<(String, UpstreamConf)>, used: &Vec<String>) -> (r: Vec<
    (String, UpstreamConf),
>)
    ensures
        r@.len() == upstreams@.filter(
            |p: (String, UpstreamConf)| spec_contains_name(used@, p.0@),
        ).len(),
        forall|j: int| 0 <= j < r@.len() ==> (#[trigger] r@[j]).0 == upstreams@.filter(
            |p: (String, UpstreamConf)| spec_contains_name(used@, p.0@),
        )[j].0 && spec_upstream_conf_like(
            upstreams@.filter(|p: (String, UpstreamConf)| spec_contains_name(used@, p.0@))[j].1,
            r@[j].1,
        ),
{
    let ghost pred = |p: (String, UpstreamConf)| spec_contains_name(used@, p.0@);
    let mut out: Vec<(String, UpstreamConf)> = Vec::new();
    let mut i: usize = 0;
    let len = upstreams.len();
    proof {
        reveal(Seq::filter);
        assert(upstreams@.take(0) =~= Seq::<(String, UpstreamConf)>::empty());
        assert(upstreams@.take(0).filter(pred) =~= Seq::<(String, UpstreamConf)>::empty());
    }
    while i < len
        invariant
            i <= len == upstreams@.len(),
            out@.len() == upstreams@.take(i as int).filter(pred).len(),
            pred == (|p: (String, UpstreamConf)| spec_contains_name(used@, p.0@)),
            forall|j: int| 0 <= j < out@.len() ==> (#[trigger] out@[j]).0 == upstreams@.take(
                i as int,
            ).filter(pred)[j].0 && spec_upstream_conf_like(
                upstreams@.take(i as int).filter(pred)[j].1,
                out@[j].1,
            ),
        decreases len - i,
    {
        let ghost before = upstreams@.take(i as int).filter(pred);
        proof {
            reveal(Seq::filter);
            assert(upstreams@.take(i + 1).drop_last() =~= upstreams@.take(i as int));
            assert(upstreams@.take(i + 1).last() == upstreams@[i as int]);
        }
        if contains_name(used, upstreams[i].0.as_str()) {
            let name = upstreams[i].0.clone();
            let uc = clone_upstream_conf(&upstreams[i].1);
            out.push((name, uc));
            proof {
                assert(upstreams@.take(i + 1).filter(pred) =~= before.push(upstreams@[i as int]));
            }
        } else {
            proof {
                assert(upstreams@.take(i + 1).filter(pred) =~= before);
            }
        }
        i += 1;
    }
    proof {
        assert(upstreams@.take(len as int) =~= upstreams@);
    }
    out
}

/// Builds one server configuration per configured server: its rules are
/// the configured ones it names, its upstreams the ones those rules
/// reference, its TLS material the decoded base64 fields, and its error
/// template the configured one or the fallback.
pub fn build_server_confs(conf: PingapConf) -> (r: Vec<ServerConf>)
    ensures
        r@.len() == conf.servers@.len(),
        forall|k: int| 0 <= k < r@.len() ==> ({
            let entry = conf.servers@[k].1;
            let sel = spec_selected_locations(
                conf.locations@,
                spec_entry_location_names(entry),
            );
            let sc = #[trigger] r@[k];
            &&& sc.name == conf.servers@[k].0
            &&& !sc.admin
            &&& sc.addr == entry.addr
            &&& sc.access_log == entry.access_log
            &&& sc.threads == entry.threads
            &&& match (entry.tls_cert, sc.tls_cert) {
                (Option::None, Option::None) => true,
                (Option::Some(s), Option::Some(v)) => v@ == spec_decoded_tls(s@),
                _ => false,
            }
            &&& match (entry.tls_key, sc.tls_key) {
                (Option::None, Option::None) => true,
                (Option::Some(s), Option::Some(v)) => v@ == spec_decoded_tls(s@),
                _ => false,
            }
            &&& sc.error_template@ == (if conf.error_template@.len() == 0 {
                "<html><body><h1>{{version}}</h1><p>{{content}}</p></body></html>"@
            } else {
                conf.error_template@
            })
            &&& sc.locations@.len() == sel.len()
            &&& (forall|j: int| 0 <= j < sc.locations@.len() ==> (#[trigger] sc.locations@[j]).0
                == sel[j].0 && spec_location_conf_like(sel[j].1, sc.locations@[j].1))
        }),
{
    let PingapConf { upstreams, locations, servers, error_template } = conf;
    let mut out: Vec<ServerConf> = Vec::new();
    let mut k: usize = 0;
    let n = servers.len();
    while k < n
        invariant
            k <= n == servers@.len(),
            out@.len() == k,
            forall|k2: int| 0 <= k2 < k ==> ({
                let entry = servers@[k2].1;
                let sel = spec_selected_locations(
                    locations@,
                    spec_entry_location_names(entry),
                );
                let sc = #[trigger] out@[k2];
                &&& sc.name == servers@[k2].0
                &&& !sc.admin
                &&& sc.addr == entry.addr
                &&& sc.access_log == entry.access_log
                &&& sc.threads == entry.threads
                &&& match (entry.tls_cert, sc.tls_cert) {
                    (Option::None, Option::None) => true,
                    (Option::Some(s), Option::Some(v)) => v@ == spec_decoded_tls(s@),
                    _ => false,
                }
                &&& match (entry.tls_key, sc.tls_key) {
                    (Option::None, Option::None) => true,
                    (Option::Some(s), Option::Some(v)) => v@ == spec_decoded_tls(s@),
                    _ => false,
                }
                &&& sc.error_template@ == (if error_template@.len() == 0 {
                    "<html><body><h1>{{version}}</h1><p>{{content}}</p></body></html>"@
                } else {
                    error_template@
                })
                &&& sc.locations@.len() == sel.len()
                &&& (forall|j: int| 0 <= j < sc.locations@.len() ==> (
                #[trigger] sc.locations@[j]).0 == sel[j].0 && spec_location_conf_like(
                    sel[j].1,
                    sc.locations@[j].1,
                ))
            }),
        decreases n - k,
    {
        let name = servers[k].0.clone();
        let entry = &servers[k].1;
        let sel_names: Vec<String> = match &entry.locations {
            Some(v) => clone_strings(v),
            None => Vec::new(),
        };
        proof {
            assert(sel_names@ == spec_entry_location_names(servers@[k as int].1));
        }
        let filter_locs = filter_locations(&locations, &sel_names);
        // the upstream names those rules reference
        let mut used: Vec<String> = Vec::new();
        let mut j: usize = 0;
        let flen = filter_locs.len();
        while j < flen
            invariant
                j <= flen == filter_locs@.len(),
                used@.len() == j,
                forall|j2: int| 0 <= j2 < j ==> used@[j2] == (
                #[trigger] filter_locs@[j2]).1.upstream,
            decreases flen - j,
        {
            used.push(filter_locs[j].1.upstream.clone());
            j += 1;
        }
        let filter_ups = filter_upstreams(&upstreams, &used);
        let tls_cert = decode_tls(&entry.tls_cert);
        let tls_key = decode_tls(&entry.tls_key);
        let template = if error_template.as_str().is_empty() {
            default_error_template()
        } else {
            error_template.clone()
        };
        let access_log = match &entry.access_log {
            Some(s) => Some(s.clone()),
            None => None,
        };
        let threads = match &entry.threads {
            Some(t) => Some(*t),
            None => None,
        };
        out.push(
            ServerConf {
                name,
                admin: false,
                addr: entry.addr.clone(),
                access_log,
                upstreams: filter_ups,
                locations: filter_locs,
                tls_cert,
                tls_key,
                threads,
                error_template: template,
            },
        );
        k += 1;
    }
    out
}

/// Index of the first configured upstream of this name.
pub open spec fn spec_find_conf_upstream(
    ups: Seq<(String, UpstreamConf)>,
    name: Seq<char>,
) -> Option<int>
    decreases ups.len(),
{
    if ups.len() == 0 {
        None
    } else if ups[0].0@ == name {
        Some(0 as int)
    } else {
        match spec_find_conf_upstream(ups.drop_first(), name) {
            None => None,
            Some(i) => Some(i + 1),
        }
    }
}

/// Index of the first constructed upstream of this name.
pub open spec fn spec_find_upstream(ups: Seq<Upstream>, name: Seq<char>) -> Option<int>
    decreases ups.len(),
{
    if ups.len() == 0 {
        None
    } else if ups[0].name@ == name {
        Some(0 as int)
    } else {
        match spec_find_upstream(ups.drop_first(), name) {
            None => None,
            Some(i) => Some(i + 1),
        }
    }
}

/// Constructed upstreams carry the configured names, so both lists
/// resolve a name to the same place.
proof fn lemma_find_upstream_names(
    ups: Seq<Upstream>,
    cs: Seq<(String, UpstreamConf)>,
    name: Seq<char>,
)
    requires
        ups.len() == cs.len(),
        forall|j: int| 0 <= j < ups.len() ==> (#[trigger] ups[j]).name@ == cs[j].0@,
    ensures
        spec_find_upstream(ups, name) == spec_find_conf_upstream(cs, name),
    decreases ups.len(),
{
    if ups.len() > 0 {
        let ur = ups.drop_first();
        let cr = cs.drop_first();
        assert(forall|j: int| 0 <= j < ur.len() ==> (#[trigger] ur[j]).name@ == cr[j].0@) by {
            assert(forall|j: int| 0 <= j < ur.len() ==> ur[j] == ups[j + 1] && cr[j] == cs[j
                + 1]);
        }
        lemma_find_upstream_names(ur, cr, name);
    }
}

/// Finds the first constructed upstream of this name.
fn find_upstream(ups: &Vec<Upstream>, name: &str) -> (r: Option<usize>)
    ensures
        match r {
            Some(i) => spec_find_upstream(ups@, name@) == Some(i as int) && i < ups@.len()
                && ups@[i as int].name@ == name@,
            None => spec_find_upstream(ups@, name@) is None,
        },
{
    let mut i: usize = 0;
    let len = ups.len();
    while i < len
        invariant
            i <= len == ups@.len(),
            forall|j: int| 0 <= j < i ==> (#[trigger] ups@[j]).name@ != name@,
        decreases len - i,
    {
        if str_eq(ups[i].name.as_str(), name) {
            proof {
                lemma_find_upstream_index(ups@, name@, i as int);
            }
            return Some(i);
        }
        i += 1;
    }
    proof {
        lemma_find_upstream_index_none(ups@, name@);
    }
    None
}

/// A first match at `i` makes the search return `i`.
proof fn lemma_find_upstream_index(ups: Seq<Upstream>, name: Seq<char>, i: int)
    requires
        0 <= i < ups.len(),
        ups[i].name@ == name,
        forall|j: int| 0 <= j < i ==> (#[trigger] ups[j]).name@ != name,
    ensures
        spec_find_upstream(ups, name) == Some(i),
    decreases ups.len(),
{
    if i > 0 {
        let rest = ups.drop_first();
        assert(forall|j: int| 0 <= j < rest.len() ==> rest[j] == ups[j + 1]);
        lemma_find_upstream_index(rest, name, i - 1);
    }
}

/// No match anywhere makes the search fail.
proof fn lemma_find_upstream_index_none(ups: Seq<Upstream>, name: Seq<char>)
    requires
        forall|j: int| 0 <= j < ups.len() ==> (#[trigger] ups[j]).name@ != name,
    ensures
        spec_find_upstream(ups, name) is None,
    decreases ups.len(),
{
    if ups.len() > 0 {
        let rest = ups.drop_first();
        assert(forall|j: int| 0 <= j < rest.len() ==> rest[j] == ups[j + 1]);
        lemma_find_upstream_index_none(rest, name);
    }
}

/// Whether a server can be built from these lists: every upstream has a
/// usable peer set and every rule names a configured upstream.
pub open spec fn spec_conf_servable(
    ups: Seq<(String, UpstreamConf)>,
    locs: Seq<(String, LocationConf)>,
) -> bool {
    &&& forall|j: int| 0 <= j < ups.len() ==> 0 < (#[trigger] ups[j]).1.addrs@.len() <= usize::MAX
        / 8
    &&& forall|i: int| 0 <= i < locs.len() ==> spec_find_conf_upstream(
        ups,
        (#[trigger] locs[i]).1.upstream@,
    ) is Some
}

impl ServerConf {
    /// Checks the configuration before anything is built: succeeds
    /// exactly when every rule's upstream reference resolves and every
    /// upstream has peers.
    pub fn validate(&self) -> (r: Result<(), Error>)
        ensures
            r is Ok <==> spec_conf_servable(self.upstreams@, self.locations@),
    {
        let mut j: usize = 0;
        let ulen = self.upstreams.len();
        while j < ulen
            invariant
                j <= ulen == self.upstreams@.len(),
                forall|j2: int| 0 <= j2 < j ==> 0 < (#[trigger] self.upstreams@[j2]).1.addrs@.len()
                    <= usize::MAX / 8,
            decreases ulen - j,
        {
            let n = self.upstreams[j].1.addrs.len();
            if n == 0 || n > usize::MAX / 8 {
                return Err(
                    Error::Common {
                        category: String::from_str("upstream"),
                        message: self.upstreams[j].0.clone(),
                    },
                );
            }
            j += 1;
        }
        let mut i: usize = 0;
        let llen = self.locations.len();
        while i < llen
            invariant
                i <= llen == self.locations@.len(),
                forall|j2: int| 0 <= j2 < self.upstreams@.len() ==> 0 < (
                #[trigger] self.upstreams@[j2]).1.addrs@.len() <= usize::MAX / 8,
                forall|i2: int| 0 <= i2 < i ==> spec_find_conf_upstream(
                    self.upstreams@,
                    (#[trigger] self.locations@[i2]).1.upstream@,
                ) is Some,
            decreases llen - i,
        {
            if find_conf_upstream(&self.upstreams, self.locations[i].1.upstream.as_str()).is_none()
            {
                return Err(
                    Error::Common {
                        category: String::from_str("location"),
                        message: self.locations[i].0.clone(),
                    },
                );
            }
            i += 1;
        }
        Ok(())
    }
}

/// Finds the first configured upstream of this name.
fn find_conf_upstream(ups: &Vec<(String, UpstreamConf)>, name: &str) -> (r: Option<usize>)
    ensures
        match r {
            Some(i) => spec_find_conf_upstream(ups@, name@) == Some(i as int),
            None => spec_find_conf_upstream(ups@, name@) is None,
        },
{
    let mut i: usize = 0;
    let len = ups.len();
    while i < len
        invariant
            i <= len == ups@.len(),
            forall|j: int| 0 <= j < i ==> (#[trigger] ups@[j]).0@ != name@,
        decreases len - i,
    {
        if str_eq(ups[i].0.as_str(), name) {
            proof {
                lemma_find_conf_upstream_index(ups@, name@, i as int);
            }
            return Some(i);
        }
        i += 1;
    }
    proof {
        lemma_find_conf_upstream_none(ups@, name@);
    }
    None
}

/// A first match at `i` makes the search return `i`.
proof fn lemma_find_conf_upstream_index(ups: Seq<(String, UpstreamConf)>, name: Seq<char>, i: int)
    requires
        0 <= i < ups.len(),
        ups[i].0@ == name,
        forall|j: int| 0 <= j < i ==> (#[trigger] ups[j]).0@ != name,
    ensures
        spec_find_conf_upstream(ups, name) == Some(i),
    decreases ups.len(),
{
    if i > 0 {
        let rest = ups.drop_first();
        assert(forall|j: int| 0 <= j < rest.len() ==> rest[j] == ups[j + 1]);
        lemma_find_conf_upstream_index(rest, name, i - 1);
    }
}

/// No match anywhere makes the search fail.
proof fn lemma_find_conf_upstream_none(ups: Seq<(String, UpstreamConf)>, name: Seq<char>)
    requires
        forall|j: int| 0 <= j < ups.len() ==> (#[trigger] ups[j]).0@ != name,
    ensures
        spec_find_conf_upstream(ups, name) is None,
    decreases ups.len(),
{
    if ups.len() > 0 {
        let rest = ups.drop_first();
        assert(forall|j: int| 0 <= j < rest.len() ==> rest[j] == ups[j + 1]);
        lemma_find_conf_upstream_none(rest, name);
    }
}

/// One listening server: its ordered rules, their upstreams, its
/// counters and its failure-page template.
pub struct Server {
    pub admin: bool,
    pub addr: String,
    pub access_log: Option<String>,
    pub accepted: u64,
    pub processing: i64,
    pub locations: Vec<Location>,
    pub upstreams: Vec<Upstream>,
    pub error_template: String,
    pub threads: Option<usize>,
    pub tls_cert: Option<Vec<u8>>,
    pub tls_key: Option<Vec<u8>>,
}

impl Server {
    /// Structural soundness: rules ordered by descending weight, every
    /// rule resolved to an upstream of the name it references, every
    /// upstream well formed, and the in-flight count non-negative.
    pub open spec fn well_formed(self) -> bool {
        &&& sorted_by_weight_desc(self.locations@)
        &&& forall|i: int| 0 <= i < self.locations@.len() ==> ((
        #[trigger] self.locations@[i]).upstream < self.upstreams@.len()
            && self.upstreams@[self.locations@[i].upstream as int].name@
            == self.locations@[i].upstream_name@)
        &&& forall|j: int| 0 <= j < self.upstreams@.len() ==> (
        #[trigger] self.upstreams@[j]).well_formed()
        &&& self.processing >= 0
    }

    /// Builds a server from its configuration: constructs every
    /// upstream, builds every rule and resolves its upstream reference,
    /// and orders the rules by descending weight, stably. Succeeds
    /// exactly when the configuration is servable; a dangling reference
    /// or an upstream without peers is a construction error.
    pub fn new(conf: ServerConf) -> (r: Result<Server, Error>)
        ensures
            r is Ok <==> spec_conf_servable(conf.upstreams@, conf.locations@),
            r matches Ok(s) ==> ({
                &&& s.well_formed()
                &&& s.accepted == 0
                &&& s.processing == 0
                &&& s.admin == conf.admin
                &&& s.addr == conf.addr
                &&& s.access_log == conf.access_log
                &&& s.error_template == conf.error_template
                &&& s.threads == conf.threads
                &&& s.tls_cert == conf.tls_cert
                &&& s.tls_key == conf.tls_key
                &&& s.upstreams@.len() == conf.upstreams@.len()
                &&& (forall|j: int| 0 <= j < s.upstreams@.len() ==> ({
                    let u = #[trigger] s.upstreams@[j];
                    &&& u.name@ == conf.upstreams@[j].0@
                    &&& u.peers == conf.upstreams@[j].1.addrs
                    &&& u.strategy == conf.upstreams@[j].1.strategy
                    &&& u.cursor == 0
                    &&& (forall|p: int| 0 <= p < u.healthy@.len() ==> u.healthy@[p])
                }))
                &&& s.locations@.len() == conf.locations@.len()
                &&& (forall|k: int| 0 <= k < s.locations@.len() ==> exists|j: int|
                    0 <= j < conf.locations@.len() && (#[trigger] s.locations@[k]).spec_built_from(
                        conf.locations@[j].0@,
                        conf.locations@[j].1,
                    ))
            }),
    {
        let ServerConf {
            admin,
            name: _name,
            addr,
            access_log,
            upstreams: upstream_confs,
            locations: location_confs,
            tls_cert,
            tls_key,
            threads,
            error_template,
        } = conf;
        let ghost ucseq = upstream_confs@;
        let ghost lcseq = location_confs@;
        let mut ucs = upstream_confs;
        let mut upstreams: Vec<Upstream> = Vec::new();
        let mut i: usize = 0;
        let total_u = ucs.len();
        proof {
            assert(ucseq.skip(0) =~= ucseq);
        }
        while ucs.len() > 0
            invariant
                ucseq == conf.upstreams@,
                lcseq == conf.locations@,
                i + ucs@.len() == ucseq.len(),
                ucseq.len() == total_u <= usize::MAX,
                ucs@ =~= ucseq.skip(i as int),
                upstreams@.len() == i,
                forall|k: int| 0 <= k < i ==> ({
                    let u = #[trigger] upstreams@[k];
                    &&& u.well_formed()
                    &&& u.name@ == ucseq[k].0@
                    &&& u.peers == ucseq[k].1.addrs
                    &&& u.strategy == ucseq[k].1.strategy
                    &&& u.cursor == 0
                    &&& (forall|p: int| 0 <= p < u.healthy@.len() ==> u.healthy@[p])
                    &&& 0 < ucseq[k].1.addrs@.len() <= usize::MAX / 8
                }),
            decreases ucs@.len(),
        {
            let (uname, uconf) = ucs.remove(0);
            proof {
                assert((uname, uconf) == ucseq[i as int]);
                assert(ucs@ =~= ucseq.skip(i + 1));
            }
            let n = uconf.addrs.len();
            if n == 0 || n > usize::MAX / 8 {
                proof {
                    assert(ucseq[i as int].1 == uconf);
                    assert(!(0 < ucseq[i as int].1.addrs@.len() <= usize::MAX / 8));
                    assert(!spec_conf_servable(ucseq, lcseq));
                }
                return Err(
                    Error::Common { category: String::from_str("upstream"), message: uname },
                );
            }
            match Upstream::new(uname.as_str(), uconf) {
                Ok(u) => {
                    upstreams.push(u);
                },
                Err(m) => {
                    return Err(
                        Error::Common { category: String::from_str("upstream"), message: m },
                    );
                },
            }
            i += 1;
        }
        proof {
            assert(ucseq.skip(i as int) =~= Seq::<(String, UpstreamConf)>::empty());
            assert(i == ucseq.len());
        }
        let mut lcs = location_confs;
        let mut locations: Vec<Location> = Vec::new();
        let mut li: usize = 0;
        let total_l = lcs.len();
        proof {
            assert(lcseq.skip(0) =~= lcseq);
            assert(lcseq.len() == total_l);
        }
        while lcs.len() > 0
            invariant
                ucseq == conf.upstreams@,
                lcseq == conf.locations@,
                li + lcs@.len() == lcseq.len(),
                lcseq.len() <= usize::MAX,
                lcs@ =~= lcseq.skip(li as int),
                locations@.len() == li,
                upstreams@.len() == ucseq.len(),
                forall|k: int| 0 <= k < upstreams@.len() ==> (#[trigger] upstreams@[k]).name@
                    == ucseq[k].0@,
                forall|k: int| 0 <= k < upstreams@.len() ==> (
                #[trigger] upstreams@[k]).well_formed(),
                forall|k: int| 0 <= k < li ==> ((#[trigger] locations@[k]).upstream
                    < upstreams@.len() && upstreams@[locations@[k].upstream as int].name@
                    == locations@[k].upstream_name@),
                forall|k: int| 0 <= k < li ==> (#[trigger] locations@[k]).spec_built_from(
                    lcseq[k].0@,
                    lcseq[k].1,
                ),
                forall|k: int| 0 <= k < li ==> spec_find_conf_upstream(
                    ucseq,
                    (#[trigger] lcseq[k]).1.upstream@,
                ) is Some,
            decreases lcs@.len(),
        {
            let (lname, lconf) = lcs.remove(0);
            proof {
                assert((lname, lconf) == lcseq[li as int]);
                assert(lcs@ =~= lcseq.skip(li + 1));
            }
            let mut l = Location::new(lname.as_str(), lconf);
            match find_upstream(&upstreams, l.upstream_name.as_str()) {
                None => {
                    proof {
                        lemma_find_upstream_names(upstreams@, ucseq, l.upstream_name@);
                        assert(lcseq[li as int].1.upstream == l.upstream_name);
                        assert(spec_find_conf_upstream(
                            ucseq,
                            lcseq[li as int].1.upstream@,
                        ) is None);
                        assert(!spec_conf_servable(ucseq, lcseq));
                    }
                    return Err(
                        Error::Common {
                            category: String::from_str("location"),
                            message: l.upstream_name,
                        },
                    );
                },
                Some(j) => {
                    proof {
                        lemma_find_upstream_names(upstreams@, ucseq, l.upstream_name@);
                    }
                    l.upstream = j;
                    locations.push(l);
                },
            }
            li += 1;
        }
        proof {
            assert(lcseq.skip(li as int) =~= Seq::<(String, LocationConf)>::empty());
            assert(li == lcseq.len());
        }
        let ghost presort = locations@;
        let locations = sort_locations(locations);
        proof {
            lemma_sort_sorted(presort);
            lemma_sort_elems(presort);
            assert forall|k: int| 0 <= k < locations@.len() implies ((
            #[trigger] locations@[k]).upstream < upstreams@.len()
                && upstreams@[locations@[k].upstream as int].name@
                == locations@[k].upstream_name@) by {
                let j = choose|j: int| 0 <= j < presort.len() && presort[j] == locations@[k];
            }
            assert(spec_stable_sort(presort) == locations@);
            assert forall|k: int| 0 <= k < locations@.len() implies exists|j: int|
                0 <= j < lcseq.len() && (#[trigger] locations@[k]).spec_built_from(
                    lcseq[j].0@,
                    lcseq[j].1,
                ) by {
                let j = choose|j: int| 0 <= j < presort.len() && presort[j] == locations@[k];
                assert(locations@[k].spec_built_from(lcseq[j].0@, lcseq[j].1));
            }
            assert(spec_conf_servable(ucseq, lcseq)) by {
                assert forall|j: int| 0 <= j < ucseq.len() implies 0 < (
                #[trigger] ucseq[j]).1.addrs@.len() <= usize::MAX / 8 by {
                    assert(upstreams@[j].name@ == ucseq[j].0@);
                }
                assert forall|i2: int| 0 <= i2 < lcseq.len() implies spec_find_conf_upstream(
                    ucseq,
                    (#[trigger] lcseq[i2]).1.upstream@,
                ) is Some by {}
            }
        }
        Ok(
            Server {
                admin,
                addr,
                access_log,
                accepted: 0,
                processing: 0,
                locations,
                upstreams,
                error_template,
                threads,
                tls_cert,
                tls_key,
            },
        )
    }
}

/// The per-request context right after acceptance: the counters as they
/// stood before this request was counted.
pub open spec fn spec_ctx_counted(s: Server, ctx: State) -> State {
    State { processing: s.processing, accepted: s.accepted, ..ctx }
}

/// A sum capped at the largest representable total.
pub open spec fn spec_sat_add_u64(a: u64, b: u64) -> u64 {
    if a + b > u64::MAX {
        u64::MAX
    } else {
        (a + b) as u64
    }
}

/// The running response size after every body chunk streamed through,
/// starting from `start`: each chunk adds its length, saturating.
pub open spec fn spec_body_size_total(start: u64, chunks: Seq<String>) -> u64
    decreases chunks.len(),
{
    if chunks.len() == 0 {
        start
    } else {
        spec_body_size_total(
            spec_sat_add_u64(start, chunks[0]@.len() as u64),
            chunks.drop_first(),
        )
    }
}

/// The terminal record handed to the logging collaborator, once per
/// request.
pub struct LogRecord {
    pub status: Option<u16>,
    pub response_body_size: u64,
    pub upstream_address: String,
    pub reused: bool,
}

/// Where one request ended.
pub enum Dispatched {
    /// Fully handled before upstream dispatch: an admin request or a
    /// plugin short-circuit.
    Handled,
    /// Forwarded and answered: the request as it went upstream and the
    /// response as it went downstream.
    Responded { request: HttpRequest, response: HttpResponse },
    /// Failed in some phase: the classified status and the synthesized
    /// error response.
    Failed { code: u16, response: ErrorResponse },
}

/// The terminal state of one request: its log record, exactly one, and
/// where it ended.
pub struct RequestOutcome {
    pub log: LogRecord,
    pub result: Dispatched,
}

/// The outcome of a request that failed with this classified status: a
/// synthesized response of the same status, keep-alive disabled.
pub open spec fn spec_failed_outcome(out: RequestOutcome, code: u16) -> bool {
    out.result matches Dispatched::Failed { code: c, response } && c == code && response.status
        == code && response.keepalive_disabled
}

/// The outcome of a request answered by its upstream: the response goes
/// back with the rule's headers inserted and its status logged; the
/// forwarded request carried the rewritten path, the appended
/// forwarded-client-address and the rule's upstream headers; the log
/// holds the chosen peer, the reuse flag and the summed body size.
pub open spec fn spec_responded_outcome(
    out: RequestOutcome,
    lo: Location,
    key: Seq<char>,
    method: crate::message::Method,
    host: String,
    query: String,
    remote: Option<String>,
    headers0: crate::message::HeaderSeq,
    addr: String,
    reused: bool,
    rbs0: u64,
    resp: HttpResponse,
) -> bool {
    out.result matches Dispatched::Responded { request, response } && response.status
        == resp.status && out.log.status == Some(resp.status) && out.log.upstream_address == addr
        && out.log.reused == reused && request.path@ == key && request.method == method
        && request.host == host && request.query == query && request.remote_addr == remote
        && request.headers.deep_view() == spec_insert_all(
        spec_apply_forwarded_for(headers0, remote),
        lo.proxy_headers.deep_view(),
    ) && response.headers.deep_view() == spec_insert_all(
        resp.headers.deep_view(),
        lo.headers.deep_view(),
    ) && response.body == resp.body && out.log.response_body_size == spec_body_size_total(
        rbs0,
        resp.body@,
    )
}

impl Server {
    /// A fresh per-request context.
    pub fn new_ctx(&self) -> (r: State)
        ensures
            r.processing == 0 && r.accepted == 0,
            r.location_index is None,
            r.upstream_address@ == Seq::<char>::empty(),
            !r.reused,
            r.status is None,
            r.response_body_size == 0,
            !r.cache.enabled,
    {
        State::default()
    }

    /// Accepts one request: counts it, diverts admin listeners, routes
    /// it to the first matching rule in weight order, applies the rule's
    /// path rewrite when its target is valid, and runs the rule's
    /// request-phase plugin chain. Returns `Ok(true)` when the request
    /// is fully handled, `Ok(false)` when it goes on to upstream
    /// dispatch, and the routing error when no rule matches.
    pub fn request_filter(&mut self, req: &mut HttpRequest, ctx: &mut State) -> (r: Result<
        bool,
        ProxyError,
    >)
        requires
            old(self).processing < i64::MAX,
            old(self).accepted < u64::MAX,
        ensures
            *final(self) == (Server {
                processing: (old(self).processing + 1) as i64,
                accepted: (old(self).accepted + 1) as u64,
                ..*old(self)
            }),
            old(self).admin ==> r == Ok::<bool, ProxyError>(true) && *final(ctx)
                == spec_ctx_counted(*old(self), *old(ctx)) && *final(req) == *old(req),
            !old(self).admin ==> match spec_route(
                old(self).locations@,
                old(req).host@,
                old(req).path@,
            ) {
                None => (r matches Err(e) && e.kind == ErrorKind::HttpStatus(500) && e.source
                    == ErrorSource::Internal && *final(ctx) == spec_ctx_counted(
                    *old(self),
                    *old(ctx),
                ) && *final(req) == *old(req)),
                Some(i) => ({
                    let lo = old(self).locations@[i];
                    let ctx1 = State {
                        location_index: Some(i as usize),
                        ..spec_ctx_counted(*old(self), *old(ctx))
                    };
                    let chain = spec_chain(
                        lo.plugins@,
                        PluginStep::RequestFilter,
                        old(req).method,
                        ctx1,
                    );
                    &&& final(req).path@ == lo.spec_effective_path(
                        old(req).path@,
                        old(req).query@,
                    )
                    &&& final(req).method == old(req).method
                    &&& final(req).host == old(req).host
                    &&& final(req).query == old(req).query
                    &&& final(req).headers == old(req).headers
                    &&& final(req).remote_addr == old(req).remote_addr
                    &&& *final(ctx) == chain.0
                    &&& r == Ok::<bool, ProxyError>(chain.1)
                }),
            },
    {
        ctx.processing = self.processing;
        ctx.accepted = self.accepted;
        self.processing = self.processing + 1;
        self.accepted = self.accepted + 1;
        if self.admin {
            return Ok(true);
        }
        let matched = route(&self.locations, req.host.as_str(), req.path.as_str());
        let i = match matched {
            None => {
                return Err(new_internal_error(500, String::from_str("location not found")));
            },
            Some(i) => i,
        };
        proof {
            lemma_route(self.locations@, req.host@, req.path@);
        }
        ctx.location_index = Some(i);
        let lo = &self.locations[i];
        match lo.rewrite(req.path.as_str()) {
            None => {},
            Some(p) => {
                let ok = if req.query.as_str().is_empty() {
                    crate::trusted::is_valid_uri(p.as_str())
                } else {
                    let mut t = concat_str(p.as_str(), "?");
                    t.append(req.query.as_str());
                    crate::trusted::is_valid_uri(t.as_str())
                };
                if ok {
                    req.path = p;
                }
            },
        }
        match exec_plugins(&lo.plugins, PluginStep::RequestFilter, req.method, ctx) {
            Ok(done) => Ok(done),
            Err(e) => Err(e),
        }
    }

    /// Every request that reaches upstream dispatch goes upstream.
    pub fn proxy_upstream_filter(&self) -> (r: bool)
        ensures
            r,
    {
        true
    }

    /// Selects a peer of the matched rule's upstream for this request
    /// key; a request that matched no rule uses the first rule, as the
    /// pipeline does. Fails with a 503-class error when no peer is
    /// healthy.
    pub fn upstream_peer(&mut self, ctx: &State, key: &str) -> (r: Result<String, ProxyError>)
        requires
            old(self).well_formed(),
            match ctx.location_index {
                Some(i) => i < old(self).locations@.len(),
                None => old(self).locations@.len() > 0,
            },
        ensures
            final(self).well_formed(),
            *final(self) == (Server { upstreams: final(self).upstreams, ..*old(self) }),
            ({
                let li = (match ctx.location_index {
                    Some(i) => i as int,
                    None => 0,
                });
                let ui = old(self).locations@[li].upstream as int;
                let u = old(self).upstreams@[ui];
                &&& final(self).upstreams@ == old(self).upstreams@.update(
                    ui,
                    u.spec_after_select(key@),
                )
                &&& match u.spec_selected_peer(key@) {
                    Some(a) => r == Ok::<String, ProxyError>(a),
                    None => (r matches Err(e) && e.kind == ErrorKind::HttpStatus(503) && e.source
                        == ErrorSource::Internal && e.message@ == "no available upstream "@
                        + old(self).locations@[li].upstream_name@),
                }
            }),
    {
        let li = match ctx.location_index {
            Some(i) => i,
            None => 0,
        };
        let ui = self.locations[li].upstream;
        let ghost ups0 = self.upstreams@;
        let mut u = self.upstreams.remove(ui);
        let picked = u.new_http_peer(key);
        self.upstreams.insert(ui, u);
        proof {
            assert(self.upstreams@ =~= ups0.update(
                ui as int,
                ups0[ui as int].spec_after_select(key@),
            ));
            assert forall|j: int| 0 <= j < self.upstreams@.len() implies (
            #[trigger] self.upstreams@[j]).well_formed() by {
                if j != ui {
                    assert(self.upstreams@[j] == ups0[j]);
                }
            }
            assert forall|k: int| 0 <= k < self.locations@.len() implies ((
            #[trigger] self.locations@[k]).upstream < self.upstreams@.len()
                && self.upstreams@[self.locations@[k].upstream as int].name@
                == self.locations@[k].upstream_name@) by {
                if self.locations@[k].upstream != ui {
                    assert(self.upstreams@[self.locations@[k].upstream as int]
                        == ups0[self.locations@[k].upstream as int]);
                }
            }
        }
        match picked {
            Some(addr) => Ok(addr),
            None => {
                let message = concat_str(
                    "no available upstream ",
                    self.locations[li].upstream_name.as_str(),
                );
                Err(new_internal_error(503, message))
            },
        }
    }

    /// Records the chosen peer and whether its connection was reused:
    /// diagnostic fields only, no behavioural branching.
    pub fn connected_to_upstream(&self, ctx: &mut State, reused: bool, address: String)
        ensures
            *final(ctx) == (State { reused, upstream_address: address, ..*old(ctx) }),
    {
        ctx.reused = reused;
        ctx.upstream_address = address;
    }

    /// Amends the forwarded request: appends the client address to the
    /// forwarded-for header, never replacing what is there, and inserts
    /// the matched rule's upstream headers.
    pub fn upstream_request_filter(&self, req: &mut HttpRequest, ctx: &State)
        ensures
            final(req).headers.deep_view() == ({
                let base = spec_apply_forwarded_for(
                    old(req).headers.deep_view(),
                    old(req).remote_addr,
                );
                match ctx.location_index {
                    Some(i) => if i < self.locations@.len() {
                        spec_insert_all(base, self.locations@[i as int].proxy_headers.deep_view())
                    } else {
                        base
                    },
                    None => base,
                }
            }),
            final(req).method == old(req).method,
            final(req).host == old(req).host,
            final(req).path == old(req).path,
            final(req).query == old(req).query,
            final(req).remote_addr == old(req).remote_addr,
    {
        apply_forwarded_for(&mut req.headers, &req.remote_addr);
        if let Some(i) = ctx.location_index {
            if i < self.locations.len() {
                insert_headers(&mut req.headers, &self.locations[i].proxy_headers);
            }
        }
    }

    /// Captures the response status exactly once — the first writer wins
    /// — and inserts the matched rule's response headers.
    pub fn upstream_response_filter(&self, resp: &mut HttpResponse, ctx: &mut State)
        ensures
            *final(ctx) == (State {
                status: Some(
                    match old(ctx).status {
                        Some(s) => s,
                        None => old(resp).status,
                    },
                ),
                ..*old(ctx)
            }),
            final(resp).status == old(resp).status,
            final(resp).body == old(resp).body,
            final(resp).headers.deep_view() == (match old(ctx).location_index {
                Some(i) => if i < self.locations@.len() {
                    spec_insert_all(
                        old(resp).headers.deep_view(),
                        self.locations@[i as int].headers.deep_view(),
                    )
                } else {
                    old(resp).headers.deep_view()
                },
                None => old(resp).headers.deep_view(),
            }),
    {
        if ctx.status.is_none() {
            ctx.status = Some(resp.status);
        }
        if let Some(i) = ctx.location_index {
            if i < self.locations.len() {
                insert_headers(&mut resp.headers, &self.locations[i].headers);
            }
        }
    }

    /// Counts one streamed body chunk into the running response size;
    /// the total saturates rather than wraps.
    pub fn upstream_response_body_filter(&self, chunk_len: usize, ctx: &mut State)
        ensures
            *final(ctx) == (State {
                response_body_size: spec_sat_add_u64(
                    old(ctx).response_body_size,
                    chunk_len as u64,
                ),
                ..*old(ctx)
            }),
    {
        let add = chunk_len as u64;
        if ctx.response_body_size > u64::MAX - add {
            ctx.response_body_size = u64::MAX;
        } else {
            ctx.response_body_size = ctx.response_body_size + add;
        }
    }

    /// Classifies a failed request and synthesizes its client-facing
    /// response: the classified status, the template with version and
    /// error detail substituted, content headers set accordingly, and
    /// keep-alive disabled. Never fails a second time.
    pub fn fail_to_proxy(&self, e: &ProxyError, ctx: &mut State) -> (r: (u16, ErrorResponse))
        ensures
            ({
                let code = spec_status_of(e.kind, e.source);
                let body = spec_error_body(self.error_template@, "0.1.0"@, e.message@);
                &&& r.0 == code
                &&& r.1.status == code
                &&& r.1.body@ == body
                &&& r.1.keepalive_disabled
                &&& r.1.headers.deep_view() == seq![
                    ("content-type"@, "text/html; charset=utf-8"@),
                    ("content-length"@, spec_dec_str(body.len())),
                ]
                &&& *final(ctx) == (State {
                    status: Some(
                        if spec_valid_status(code) {
                            code
                        } else {
                            500u16
                        },
                    ),
                    response_body_size: body.len() as u64,
                    ..*old(ctx)
                })
            }),
    {
        let code = classify_error(e);
        let version = get_pkg_version();
        let body = build_error_body(self.error_template.as_str(), version, e.message.as_str());
        let blen = body.as_str().unicode_len();
        ctx.status = Some(
            if code >= 100 && code <= 999 {
                code
            } else {
                500
            },
        );
        ctx.response_body_size = blen as u64;
        let mut headers: Vec<(String, String)> = Vec::new();
        headers.push(
            (String::from_str("content-type"), String::from_str("text/html; charset=utf-8")),
        );
        headers.push((String::from_str("content-length"), u64_to_dec(blen as u64)));
        proof {
            assert(headers.deep_view() =~= seq![
                ("content-type"@, "text/html; charset=utf-8"@),
                ("content-length"@, spec_dec_str(body@.len())),
            ]);
        }
        (code, ErrorResponse { status: code, headers, body, keepalive_disabled: true })
    }

    /// Ends one request: decrements the in-flight count, fills the
    /// status from what was written downstream when nothing set it, and
    /// hands back the terminal record — once per request.
    pub fn logging(&mut self, ctx: &mut State, response_written: Option<u16>) -> (r: LogRecord)
        requires
            old(self).processing >= 1,
        ensures
            *final(self) == (Server {
                processing: (old(self).processing - 1) as i64,
                ..*old(self)
            }),
            *final(ctx) == (State {
                status: (match old(ctx).status {
                    Some(s) => Some(s),
                    None => response_written,
                }),
                ..*old(ctx)
            }),
            r.status == final(ctx).status,
            r.response_body_size == old(ctx).response_body_size,
            r.upstream_address == old(ctx).upstream_address,
            r.reused == old(ctx).reused,
    {
        self.processing = self.processing - 1;
        if ctx.status.is_none() {
            ctx.status = response_written;
        }
        LogRecord {
            status: match ctx.status {
                Some(s) => Some(s),
                None => None,
            },
            response_body_size: ctx.response_body_size,
            upstream_address: ctx.upstream_address.clone(),
            reused: ctx.reused,
        }
    }

    /// Ends a failed request: synthesizes its error response and logs it.
    fn finish_failed(&mut self, e: &ProxyError, ctx: &mut State) -> (out: RequestOutcome)
        requires
            old(self).processing >= 1,
        ensures
            *final(self) == (Server {
                processing: (old(self).processing - 1) as i64,
                ..*old(self)
            }),
            spec_failed_outcome(out, spec_status_of(e.kind, e.source)),
            (out.result matches Dispatched::Failed { response, .. } ==> response.body@
                == spec_error_body(old(self).error_template@, "0.1.0"@, e.message@)),
            out.log.status == Some(
                if spec_valid_status(spec_status_of(e.kind, e.source)) {
                    spec_status_of(e.kind, e.source)
                } else {
                    500u16
                },
            ),
            out.log.reused == old(ctx).reused,
            out.log.upstream_address == old(ctx).upstream_address,
    {
        let (code, response) = self.fail_to_proxy(e, ctx);
        let log = self.logging(ctx, None);
        RequestOutcome { log, result: Dispatched::Failed { code, response } }
    }

    /// Carries an already routed request through upstream dispatch:
    /// selects a peer, records the connection, amends the forwarded
    /// request, filters the reply or synthesizes the failure, accounts
    /// the body, and logs once.
    pub fn dispatch_upstream(
        &mut self,
        req: HttpRequest,
        ctx: &mut State,
        reused: bool,
        upstream_reply: Result<HttpResponse, ProxyError>,
    ) -> (out: RequestOutcome)
        requires
            old(self).well_formed(),
            old(self).processing >= 1,
            old(ctx).location_index matches Some(i) && i < old(self).locations@.len(),
            old(ctx).status is None,
        ensures
            final(self).well_formed(),
            *final(self) == (Server {
                processing: (old(self).processing - 1) as i64,
                upstreams: final(self).upstreams,
                ..*old(self)
            }),
            ({
                let li = old(ctx).location_index->Some_0 as int;
                let lo = old(self).locations@[li];
                let u = old(self).upstreams@[lo.upstream as int];
                let key = req.path@;
                &&& final(self).upstreams@ == old(self).upstreams@.update(
                    lo.upstream as int,
                    u.spec_after_select(key),
                )
                &&& match u.spec_selected_peer(key) {
                    None => spec_failed_outcome(out, 503) && out.log.status == Some(503u16),
                    Some(addr) => match upstream_reply {
                        Err(e) => spec_failed_outcome(out, spec_status_of(e.kind, e.source)),
                        Ok(resp) => spec_responded_outcome(
                            out,
                            lo,
                            key,
                            req.method,
                            req.host,
                            req.query,
                            req.remote_addr,
                            req.headers.deep_view(),
                            addr,
                            reused,
                            old(ctx).response_body_size,
                            resp,
                        ),
                    },
                }
            }),
    {
        let mut req = req;
        let picked = self.upstream_peer(&ctx, req.path.as_str());
        match picked {
            Err(e) => self.finish_failed(&e, ctx),
            Ok(addr) => {
                self.connected_to_upstream(ctx, reused, addr);
                self.upstream_request_filter(&mut req, &ctx);
                match upstream_reply {
                    Err(e) => self.finish_failed(&e, ctx),
                    Ok(resp) => {
                        let mut resp = resp;
                        self.upstream_response_filter(&mut resp, ctx);
                        let ghost sp = *self;
                        let ghost cp = *ctx;
                        let mut b: usize = 0;
                        let blen = resp.body.len();
                        proof {
                            assert(resp.body@.skip(0) =~= resp.body@);
                        }
                        while b < blen
                            invariant
                                b <= blen == resp.body@.len(),
                                *self == sp,
                                *ctx == (State {
                                    response_body_size: ctx.response_body_size,
                                    ..cp
                                }),
                                spec_body_size_total(
                                    ctx.response_body_size,
                                    resp.body@.skip(b as int),
                                ) == spec_body_size_total(cp.response_body_size, resp.body@),
                            decreases blen - b,
                        {
                            let ghost rest = resp.body@.skip(b as int);
                            proof {
                                assert(rest[0] == resp.body@[b as int]);
                                assert(rest.drop_first() =~= resp.body@.skip(b + 1));
                            }
                            let chunk_len = resp.body[b].as_str().unicode_len();
                            self.upstream_response_body_filter(chunk_len, ctx);
                            b += 1;
                        }
                        proof {
                            assert(resp.body@.skip(blen as int) =~= Seq::<String>::empty());
                        }
                        let log = self.logging(ctx, None);
                        RequestOutcome {
                            log,
                            result: Dispatched::Responded { request: req, response: resp },
                        }
                    },
                }
            },
        }
    }

    /// Drives one request from acceptance to its terminal state. The
    /// caller performs the outside work — accepting the connection and
    /// talking to the chosen peer — and hands in a fresh context and
    /// what the upstream did; this function makes every decision in
    /// between, logs exactly once, and leaves the in-flight count where
    /// it stood.
    #[verifier::rlimit(100)]
    pub fn handle_request(
        &mut self,
        req: HttpRequest,
        ctx: State,
        reused: bool,
        upstream_reply: Result<HttpResponse, ProxyError>,
    ) -> (out: RequestOutcome)
        requires
            old(self).well_formed(),
            old(self).processing < i64::MAX,
            old(self).accepted < u64::MAX,
            ctx.status is None,
        ensures
            final(self).well_formed(),
            final(self).processing == old(self).processing,
            final(self).accepted == old(self).accepted + 1,
            final(self).locations == old(self).locations,
            final(self).admin == old(self).admin,
            final(self).addr == old(self).addr,
            final(self).error_template == old(self).error_template,
            old(self).admin ==> out.result is Handled,
            (out.result matches Dispatched::Failed { code, response } ==> response.status == code
                && response.keepalive_disabled),
            !old(self).admin && spec_route(old(self).locations@, req.host@, req.path@) is None
                ==> (out.result matches Dispatched::Failed { code, .. } && code == 500
                && out.log.status == Some(500u16)),
            !old(self).admin ==> match spec_route(old(self).locations@, req.host@, req.path@) {
                None => true,
                Some(i) => ({
                    let lo = old(self).locations@[i];
                    let ctx1 = State {
                        location_index: Some(i as usize),
                        ..spec_ctx_counted(*old(self), ctx)
                    };
                    let chain = spec_chain(lo.plugins@, PluginStep::RequestFilter, req.method, ctx1);
                    chain.1 ==> out.result is Handled
                }),
            },
    {
        let ghost req0 = req;
        let mut req = req;
        let mut ctx = ctx;
        proof {
            lemma_route(old(self).locations@, req0.host@, req0.path@);
            if let Some(i) = spec_route(old(self).locations@, req0.host@, req0.path@) {
                let ctx1 = State {
                    location_index: Some(i as usize),
                    ..spec_ctx_counted(*old(self), ctx)
                };
                crate::plugin::lemma_chain_frame(
                    old(self).locations@[i].plugins@,
                    PluginStep::RequestFilter,
                    req0.method,
                    ctx1,
                );
            }
        }
        let filtered = self.request_filter(&mut req, &mut ctx);
        match filtered {
            Ok(true) => {
                let log = self.logging(&mut ctx, None);
                RequestOutcome { log, result: Dispatched::Handled }
            },
            Err(e) => {
                self.finish_failed(&e, &mut ctx)
            },
            Ok(false) => {
                self.dispatch_upstream(req, &mut ctx, reused, upstream_reply)
            },
        }
    }
}


/// One counter event seen by a server: a request was accepted, or a
/// request reached its terminal state.
#[derive(Clone, Copy, PartialEq, Eq, Structural, Debug)]
pub enum CounterEvent {
    Accept,
    Done,
}

/// The in-flight count after a burst of events, in the order they
/// happened: each acceptance raises it by one, each completion lowers it
/// by one.
pub open spec fn spec_apply_events(p: int, events: Seq<CounterEvent>) -> int
    decreases events.len(),
{
    if events.len() == 0 {
        p
    } else {
        let d: int = match events[0] {
            CounterEvent::Accept => 1,
            CounterEvent::Done => -1,
        };
        spec_apply_events(p + d, events.drop_first())
    }
}

/// How many events of one kind a burst holds.
pub open spec fn spec_count_events(events: Seq<CounterEvent>, kind: CounterEvent) -> int
    decreases events.len(),
{
    if events.len() == 0 {
        0
    } else {
        (if events[0] == kind {
            1int
        } else {
            0int
        }) + spec_count_events(events.drop_first(), kind)
    }
}

/// The count after a burst is the start plus acceptances minus
/// completions, whatever the interleaving.
proof fn lemma_apply_events_counts(p: int, events: Seq<CounterEvent>)
    ensures
        spec_apply_events(p, events) == p + spec_count_events(events, CounterEvent::Accept)
            - spec_count_events(events, CounterEvent::Done),
    decreases events.len(),
{
    if events.len() > 0 {
        let d: int = match events[0] {
            CounterEvent::Accept => 1,
            CounterEvent::Done => -1,
        };
        lemma_apply_events_counts(p + d, events.drop_first());
    }
}

/// Counter invariant: over any burst of concurrent requests — any
/// interleaving of acceptances and completions — the in-flight count
/// returns to its pre-burst value once every accepted request has
/// completed. Each request contributes one acceptance when it is
/// counted in and one completion when it is logged.
pub proof fn lemma_processing_balanced(p: int, events: Seq<CounterEvent>)
    requires
        spec_count_events(events, CounterEvent::Accept) == spec_count_events(
            events,
            CounterEvent::Done,
        ),
    ensures
        spec_apply_events(p, events) == p,
{
    lemma_apply_events_counts(p, events);
}

} // verus!
