use pingap::message::Method;
use pingap::plugin::{Cache, PluginCategory, PluginStep};
use pingap::state::State;

#[test]
fn cache_parses_its_configuration_string() {
    let c = Cache::new(
        "mem://cache?lock=2&max_file_size=1mb&eviction",
        PluginStep::RequestFilter,
    )
    .unwrap();
    assert_eq!(c.lock, 2);
    assert_eq!(c.max_file_size, 1_000_000);
    assert!(c.eviction);
    assert_eq!(c.step(), PluginStep::RequestFilter);
    assert_eq!(c.category(), PluginCategory::Cache);
}

#[test]
fn cache_defaults_and_unknown_keys() {
    let c = Cache::new("mem://cache?other=1", PluginStep::RequestFilter).unwrap();
    assert_eq!(c.lock, 0);
    assert_eq!(c.max_file_size, 30 * 1024);
    assert!(!c.eviction);
}

#[test]
fn cache_malformed_values_keep_defaults() {
    let c = Cache::new(
        "mem://cache?lock=abc&max_file_size=wat",
        PluginStep::RequestFilter,
    )
    .unwrap();
    assert_eq!(c.lock, 0);
    assert_eq!(c.max_file_size, 30 * 1024);
}

#[test]
fn cache_binary_size_unit() {
    let c = Cache::new("mem://cache?max_file_size=1kib", PluginStep::RequestFilter).unwrap();
    assert_eq!(c.max_file_size, 1024);
}

#[test]
fn cache_invalid_base_string_is_a_hard_error() {
    assert!(Cache::new("not a url at all", PluginStep::RequestFilter).is_err());
}

#[test]
fn post_requests_never_touch_the_cache() {
    let c = Cache::new("mem://cache?lock=1", PluginStep::RequestFilter).unwrap();
    let mut ctx = State::default();
    let r = c.handle(Method::Post, &mut ctx).unwrap();
    assert!(!r);
    assert!(!ctx.cache.enabled);
}

#[test]
fn get_requests_enable_the_cache() {
    let c = Cache::new(
        "mem://cache?lock=2&max_file_size=4096&eviction",
        PluginStep::RequestFilter,
    )
    .unwrap();
    let mut ctx = State::default();
    let r = c.handle(Method::Get, &mut ctx).unwrap();
    assert!(!r);
    assert!(ctx.cache.enabled);
    assert_eq!(ctx.cache.lock_secs, 2);
    assert!(ctx.cache.eviction);
    assert!(ctx.cache.predictor);
    assert_eq!(ctx.cache.max_file_size, 4096);
}

#[test]
fn head_requests_enable_the_cache() {
    let c = Cache::new("mem://cache", PluginStep::RequestFilter).unwrap();
    let mut ctx = State::default();
    c.handle(Method::Head, &mut ctx).unwrap();
    assert!(ctx.cache.enabled);
}

#[test]
fn out_of_range_lock_is_disabled() {
    let c = Cache::new("mem://cache?lock=9", PluginStep::RequestFilter).unwrap();
    assert_eq!(c.lock, 9);
    let mut ctx = State::default();
    c.handle(Method::Get, &mut ctx).unwrap();
    // only the three fixed durations enable the collapsing lock
    assert_eq!(ctx.cache.lock_secs, 0);
}
