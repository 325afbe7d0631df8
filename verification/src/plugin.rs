//! Plugins: named units of request-handling behaviour attached to one
//! pipeline phase, composed into an ordered chain per routing rule. The
//! cache plugin parses its configuration from a compact URL-like string
//! and wires cache participation into the request context.

use vstd::prelude::*;
use crate::errors::ProxyError;
use crate::message::Method;
use crate::state::{CacheContext, State};
use crate::trusted::{byte_size, parse_byte_size, parse_url_query_pairs, url_query_pairs};
use crate::util::{parse_dec, spec_parse_dec};

verus! {

/// The pipeline phase a plugin attaches to.
#[derive(Clone, Copy, PartialEq, Eq, Structural, Debug)]
pub enum PluginStep {
    RequestFilter,
    ProxyUpstreamFilter,
}

/// What a plugin does.
#[derive(Clone, Copy, PartialEq, Eq, Structural, Debug)]
pub enum PluginCategory {
    Cache,
}

/// A plugin construction error: the configuration string was not a
/// structurally valid URL. The message carries the URL parser's detail.
#[derive(Debug)]
pub struct PluginError {
    pub message: String,
}

/// Largest cacheable response body when the configuration names none.
pub const DEFAULT_CACHE_MAX_FILE_SIZE: u64 = 30 * 1024;

/// The cache plugin: wires the shared storage backend, the optional
/// eviction manager, the cacheability predictor and a request-collapsing
/// lock into eligible requests. Those collaborators are process-wide and
/// live outside this crate; the plugin holds only the chosen policy.
#[derive(Clone, Copy, PartialEq, Eq, Structural, Debug)]
pub struct Cache {
    pub proxy_step: PluginStep,
    pub eviction: bool,
    pub lock: u8,
    pub max_file_size: u64,
}

/// One `key=value` query pair applied to the settings: `lock` reads as a
/// small decimal, `max_file_size` as a byte size, `eviction` enables the
/// eviction manager; malformed values keep the previous setting and
/// unknown keys are ignored.
pub open spec fn spec_apply_cache_pair(c: Cache, key: Seq<char>, value: Seq<char>) -> Cache {
    if key == "lock"@ {
        match spec_parse_dec(value, 255) {
            Some(d) => Cache { lock: d as u8, ..c },
            None => c,
        }
    } else if key == "max_file_size"@ {
        match byte_size(value) {
            Some(v) => Cache { max_file_size: v, ..c },
            None => c,
        }
    } else if key == "eviction"@ {
        Cache { eviction: true, ..c }
    } else {
        c
    }
}

/// The settings after every query pair is applied in order.
pub open spec fn spec_cache_from_pairs(c: Cache, pairs: Seq<(String, String)>) -> Cache
    decreases pairs.len(),
{
    if pairs.len() == 0 {
        c
    } else {
        spec_cache_from_pairs(
            spec_apply_cache_pair(c, pairs[0].0@, pairs[0].1@),
            pairs.drop_first(),
        )
    }
}

/// The settings before any query pair is read.
pub open spec fn spec_cache_defaults(proxy_step: PluginStep) -> Cache {
    Cache {
        proxy_step,
        eviction: false,
        lock: 0u8,
        max_file_size: DEFAULT_CACHE_MAX_FILE_SIZE as u64,
    }
}

impl Cache {
    /// Parses a cache plugin from its configuration string. A structurally
    /// invalid URL is a hard construction error; every recognised query
    /// pair adjusts one setting and everything else is ignored.
    pub fn new(value: &str, proxy_step: PluginStep) -> (r: Result<Cache, PluginError>)
        ensures
            match url_query_pairs(value@) {
                Some(q) => r matches Ok(c) && c == spec_cache_from_pairs(
                    spec_cache_defaults(proxy_step),
                    q,
                ),
                None => r is Err,
            },
    {
        let pairs = match parse_url_query_pairs(value) {
            Ok(p) => p,
            Err(message) => {
                return Err(PluginError { message });
            },
        };
        let mut c = Cache {
            proxy_step,
            eviction: false,
            lock: 0,
            max_file_size: DEFAULT_CACHE_MAX_FILE_SIZE,
        };
        let ghost all = pairs@;
        let mut i: usize = 0;
        proof {
            assert(all.skip(0) =~= all);
        }
        let len = pairs.len();
        while i < len
            invariant
                i <= len == all.len(),
                pairs@ == all,
                spec_cache_from_pairs(spec_cache_defaults(proxy_step), all)
                    == spec_cache_from_pairs(c, all.skip(i as int)),
            decreases len - i,
        {
            let ghost rest = all.skip(i as int);
            proof {
                assert(rest[0] == all[i as int]);
                assert(rest.drop_first() =~= all.skip(i + 1));
            }
            let key = &pairs[i].0;
            let val = &pairs[i].1;
            if crate::util::str_eq(key.as_str(), "lock") {
                if let Some(d) = parse_dec(val.as_str(), 255) {
                    c = Cache { lock: d as u8, ..c };
                }
            } else if crate::util::str_eq(key.as_str(), "max_file_size") {
                if let Some(v) = parse_byte_size(val.as_str()) {
                    c = Cache { max_file_size: v, ..c };
                }
            } else if crate::util::str_eq(key.as_str(), "eviction") {
                c = Cache { eviction: true, ..c };
            }
            i += 1;
        }
        proof {
            assert(all.skip(len as int) =~= Seq::<(String, String)>::empty());
        }
        Ok(c)
    }

    /// The phase this plugin attaches to.
    pub fn step(&self) -> (r: PluginStep)
        ensures
            r == self.proxy_step,
    {
        self.proxy_step
    }

    /// What this plugin does.
    pub fn category(&self) -> (r: PluginCategory)
        ensures
            r == PluginCategory::Cache,
    {
        PluginCategory::Cache
    }

    /// The request context once this plugin enabled cache participation.
    pub open spec fn spec_enabled_ctx(self, ctx: State) -> State {
        State {
            cache: CacheContext {
                enabled: true,
                lock_secs: if 1 <= self.lock <= 3 {
                    self.lock
                } else {
                    0u8
                },
                eviction: self.eviction,
                predictor: true,
                max_file_size: self.max_file_size,
            },
            ..ctx
        }
    }

    /// Runs the plugin on one request. Only GET and HEAD requests take
    /// part in caching: every other method passes through untouched. The
    /// plugin never short-circuits and never fails.
    pub fn handle(&self, method: Method, ctx: &mut State) -> (r: Result<bool, ProxyError>)
        ensures
            r matches Ok(done) && !done,
            method == Method::Get || method == Method::Head ==> *final(ctx)
                == self.spec_enabled_ctx(*old(ctx)),
            method != Method::Get && method != Method::Head ==> *final(ctx) == *old(ctx),
    {
        if !(matches!(method, Method::Get) || matches!(method, Method::Head)) {
            return Ok(false);
        }
        let lock_secs: u8 = if self.lock >= 1 && self.lock <= 3 {
            self.lock
        } else {
            0
        };
        ctx.cache = CacheContext {
            enabled: true,
            lock_secs,
            eviction: self.eviction,
            predictor: true,
            max_file_size: self.max_file_size,
        };
        Ok(false)
    }
}

/// A plugin in a chain: one variant per implemented category.
#[derive(Clone, Copy, PartialEq, Eq, Structural, Debug)]
pub enum Plugin {
    Cache(Cache),
}

impl Plugin {
    /// The phase this plugin attaches to.
    pub open spec fn spec_step(self) -> PluginStep {
        match self {
            Plugin::Cache(c) => c.proxy_step,
        }
    }

    /// What running this plugin does to the context, and whether it
    /// declares the request fully handled.
    pub open spec fn spec_handle(self, method: Method, ctx: State) -> (State, bool) {
        match self {
            Plugin::Cache(c) => (
                if method == Method::Get || method == Method::Head {
                    c.spec_enabled_ctx(ctx)
                } else {
                    ctx
                },
                false,
            ),
        }
    }

    /// The phase this plugin attaches to.
    pub fn step(&self) -> (r: PluginStep)
        ensures
            r == self.spec_step(),
    {
        match self {
            Plugin::Cache(c) => c.step(),
        }
    }

    /// Runs the plugin on one request.
    pub fn handle(&self, method: Method, ctx: &mut State) -> (r: Result<bool, ProxyError>)
        ensures
            r matches Ok(done) && (*final(ctx), done) == self.spec_handle(method, *old(ctx)),
    {
        match self {
            Plugin::Cache(c) => c.handle(method, ctx),
        }
    }
}

/// The chain outcome: plugins of the given phase run in order; a plugin
/// that declares the request handled stops the chain.
pub open spec fn spec_chain(
    plugins: Seq<Plugin>,
    step: PluginStep,
    method: Method,
    ctx: State,
) -> (State, bool)
    decreases plugins.len(),
{
    if plugins.len() == 0 {
        (ctx, false)
    } else {
        let p = plugins[0];
        if p.spec_step() == step {
            let next = p.spec_handle(method, ctx);
            if next.1 {
                (next.0, true)
            } else {
                spec_chain(plugins.drop_first(), step, method, next.0)
            }
        } else {
            spec_chain(plugins.drop_first(), step, method, ctx)
        }
    }
}

/// A chain touches nothing of the context but its cache wiring.
pub proof fn lemma_chain_frame(
    plugins: Seq<Plugin>,
    step: PluginStep,
    method: Method,
    ctx: State,
)
    ensures
        ({
            let c = spec_chain(plugins, step, method, ctx);
            c.0 == (State { cache: c.0.cache, ..ctx })
        }),
    decreases plugins.len(),
{
    if plugins.len() > 0 {
        let p = plugins[0];
        if p.spec_step() == step {
            let next = p.spec_handle(method, ctx);
            if !next.1 {
                lemma_chain_frame(plugins.drop_first(), step, method, next.0);
            }
        } else {
            lemma_chain_frame(plugins.drop_first(), step, method, ctx);
        }
    }
}

/// Runs the plugins of one phase in configured order; stops early when a
/// plugin declares the request handled, and reports that.
pub fn exec_plugins(
    plugins: &Vec<Plugin>,
    step: PluginStep,
    method: Method,
    ctx: &mut State,
) -> (r: Result<bool, ProxyError>)
    ensures
        r matches Ok(done) && (*final(ctx), done) == spec_chain(
            plugins@,
            step,
            method,
            *old(ctx),
        ),
{
    let ghost all = plugins@;
    let ghost goal = spec_chain(all, step, method, *old(ctx));
    let mut i: usize = 0;
    proof {
        assert(all.skip(0) =~= all);
    }
    let len = plugins.len();
    while i < len
        invariant
            i <= len == all.len(),
            plugins@ == all,
            goal == spec_chain(all.skip(i as int), step, method, *ctx),
        decreases len - i,
    {
        let ghost rest = all.skip(i as int);
        proof {
            assert(rest[0] == all[i as int]);
            assert(rest.drop_first() =~= all.skip(i + 1));
        }
        let p = &plugins[i];
        if p.step() == step {
            match p.handle(method, ctx) {
                Ok(done) => {
                    if done {
                        return Ok(true);
                    }
                },
                Err(e) => {
                    return Err(e);
                },
            }
        }
        i += 1;
    }
    proof {
        assert(all.skip(len as int) =~= Seq::<Plugin>::empty());
    }
    Ok(false)
}

} // verus!
