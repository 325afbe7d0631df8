//! Distributed-tracing configuration: the tracer service's settings are
//! parsed once from its endpoint's query string. The exporter itself and
//! its propagators are outside collaborators; this crate only decides
//! what they are configured with.

use vstd::prelude::*;
use crate::trusted::{duration_secs, parse_duration_secs, parse_url_query_pairs, url_query_pairs};
use crate::util::{concat_str, parse_dec, spec_parse_dec, str_eq};

verus! {

/// The tunable settings of one tracer service.
#[derive(Clone, Copy, PartialEq, Eq, Structural, Debug)]
pub struct TracerOptions {
    pub timeout_secs: u64,
    pub max_attributes: u32,
    pub max_events: u32,
    pub support_jaeger_propagator: bool,
    pub support_baggage_propagator: bool,
}

/// The settings before any query pair is read.
pub open spec fn spec_tracer_defaults() -> TracerOptions {
    TracerOptions {
        timeout_secs: 3u64,
        max_attributes: 16u32,
        max_events: 16u32,
        support_jaeger_propagator: false,
        support_baggage_propagator: false,
    }
}

/// One `key=value` query pair applied to the settings: `timeout` reads
/// as a duration, `max_attributes` and `max_events` as decimals, and
/// `jaeger` and `baggage` enable the matching propagator; malformed
/// values keep the previous setting and unknown keys are ignored.
pub open spec fn spec_apply_tracer_pair(
    o: TracerOptions,
    key: Seq<char>,
    value: Seq<char>,
) -> TracerOptions {
    if key == "timeout"@ {
        match duration_secs(value) {
            Some(v) => TracerOptions { timeout_secs: v, ..o },
            None => o,
        }
    } else if key == "max_attributes"@ {
        match spec_parse_dec(value, u32::MAX as u64) {
            Some(v) => TracerOptions { max_attributes: v as u32, ..o },
            None => o,
        }
    } else if key == "max_events"@ {
        match spec_parse_dec(value, u32::MAX as u64) {
            Some(v) => TracerOptions { max_events: v as u32, ..o },
            None => o,
        }
    } else if key == "jaeger"@ {
        TracerOptions { support_jaeger_propagator: true, ..o }
    } else if key == "baggage"@ {
        TracerOptions { support_baggage_propagator: true, ..o }
    } else {
        o
    }
}

/// The settings after every query pair is applied in order.
pub open spec fn spec_tracer_from_pairs(
    o: TracerOptions,
    pairs: Seq<(String, String)>,
) -> TracerOptions
    decreases pairs.len(),
{
    if pairs.len() == 0 {
        o
    } else {
        spec_tracer_from_pairs(
            spec_apply_tracer_pair(o, pairs[0].0@, pairs[0].1@),
            pairs.drop_first(),
        )
    }
}

/// What a tracer service built on this endpoint is configured with: the
/// defaults, adjusted by the endpoint's query pairs when the endpoint
/// reads as a URL.
pub open spec fn spec_tracer_options(endpoint: Seq<char>) -> TracerOptions {
    match url_query_pairs(endpoint) {
        Some(q) => spec_tracer_from_pairs(spec_tracer_defaults(), q),
        None => spec_tracer_defaults(),
    }
}

/// The background service that exports traces for one named server: its
/// settings, parsed once from the endpoint.
pub struct TracerService {
    pub name: String,
    pub endpoint: String,
    pub options: TracerOptions,
}

impl TracerService {
    /// Builds a tracer service: an endpoint that does not read as a URL
    /// keeps every default.
    pub fn new(name: &str, endpoint: &str) -> (r: TracerService)
        ensures
            r.name@ == name@,
            r.endpoint@ == endpoint@,
            r.options == spec_tracer_options(endpoint@),
    {
        let mut o = TracerOptions {
            timeout_secs: 3,
            max_attributes: 16,
            max_events: 16,
            support_jaeger_propagator: false,
            support_baggage_propagator: false,
        };
        match parse_url_query_pairs(endpoint) {
            Err(_) => {},
            Ok(pairs) => {
                let ghost all = pairs@;
                let mut i: usize = 0;
                proof {
                    assert(all.skip(0) =~= all);
                }
                let len = pairs.len();
                while i < len
                    invariant
                        i <= len == all.len(),
                        pairs@ == all,
                        spec_tracer_from_pairs(spec_tracer_defaults(), all)
                            == spec_tracer_from_pairs(o, all.skip(i as int)),
                    decreases len - i,
                {
                    let ghost rest = all.skip(i as int);
                    proof {
                        assert(rest[0] == all[i as int]);
                        assert(rest.drop_first() =~= all.skip(i + 1));
                    }
                    let key = &pairs[i].0;
                    let val = &pairs[i].1;
                    if str_eq(key.as_str(), "timeout") {
                        if let Some(v) = parse_duration_secs(val.as_str()) {
                            o = TracerOptions { timeout_secs: v, ..o };
                        }
                    } else if str_eq(key.as_str(), "max_attributes") {
                        if let Some(v) = parse_dec(val.as_str(), u32::MAX as u64) {
                            o = TracerOptions { max_attributes: v as u32, ..o };
                        }
                    } else if str_eq(key.as_str(), "max_events") {
                        if let Some(v) = parse_dec(val.as_str(), u32::MAX as u64) {
                            o = TracerOptions { max_events: v as u32, ..o };
                        }
                    } else if str_eq(key.as_str(), "jaeger") {
                        o = TracerOptions { support_jaeger_propagator: true, ..o };
                    } else if str_eq(key.as_str(), "baggage") {
                        o = TracerOptions { support_baggage_propagator: true, ..o };
                    }
                    i += 1;
                }
                proof {
                    assert(all.skip(len as int) =~= Seq::<(String, String)>::empty());
                }
            },
        }
        TracerService {
            name: String::from_str(name),
            endpoint: String::from_str(endpoint),
            options: o,
        }
    }
}

/// The exporter-facing service name of one server.
pub fn get_service_name(name: &str) -> (r: String)
    ensures
        r@ == "pingap-"@ + name@,
{
    concat_str("pingap-", name)
}

} // verus!
