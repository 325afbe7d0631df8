use pingap::plugin::Plugin;
use pingap::route::{Location, LocationConf, Rewrite};

fn conf(upstream: &str, host: &str, path: &str, weight: u32) -> LocationConf {
    LocationConf {
        upstream: upstream.to_string(),
        host: host.to_string(),
        path: path.to_string(),
        rewrite: None,
        weight,
        headers: Vec::new(),
        proxy_headers: Vec::new(),
        plugins: Vec::<Plugin>::new(),
    }
}

#[test]
fn exact_host_and_prefix_path_match() {
    let lo = Location::new("lo", conf("up", "example.test", "/api", 1));
    assert!(lo.matched("example.test", "/api/users"));
    assert!(lo.matched("example.test", "/api"));
    assert!(!lo.matched("other.test", "/api"));
    assert!(!lo.matched("example.test", "/web"));
}

#[test]
fn wildcard_host_matches_suffix() {
    let lo = Location::new("lo", conf("up", "*.example.test", "", 1));
    assert!(lo.matched("a.example.test", "/x"));
    assert!(lo.matched("b.c.example.test", "/"));
    assert!(!lo.matched("example.org", "/"));
}

#[test]
fn any_host_and_exact_path() {
    let lo = Location::new("lo", conf("up", "", "=/health", 1));
    assert!(lo.matched("whatever", "/health"));
    assert!(!lo.matched("whatever", "/health/x"));
}

#[test]
fn routing_is_deterministic() {
    let locations = vec![
        Location::new("a", conf("up", "example.test", "/a", 5)),
        Location::new("b", conf("up", "", "/", 1)),
    ];
    let first = pingap::route::route(&locations, "example.test", "/a/1");
    let second = pingap::route::route(&locations, "example.test", "/a/1");
    assert_eq!(first, Some(0));
    assert_eq!(first, second);
}

#[test]
fn heavier_location_wins() {
    // both match; the rule with weight 10 stands before the one with 5
    let sorted = pingap::route::sort_locations(vec![
        Location::new("light", conf("up", "", "/", 5)),
        Location::new("heavy", conf("up", "", "/", 10)),
    ]);
    assert_eq!(sorted[0].weight, 10);
    let r = pingap::route::route(&sorted, "h", "/p");
    assert_eq!(r, Some(0));
}

#[test]
fn sort_is_stable_for_equal_weights() {
    let sorted = pingap::route::sort_locations(vec![
        Location::new("first", conf("up", "", "/", 7)),
        Location::new("second", conf("up", "", "/", 7)),
        Location::new("top", conf("up", "", "/", 9)),
    ]);
    assert_eq!(sorted[0].name, "top");
    assert_eq!(sorted[1].name, "first");
    assert_eq!(sorted[2].name, "second");
}

#[test]
fn rewrite_preserves_query() {
    let mut c = conf("up", "", "/old", 1);
    c.rewrite = Some(Rewrite { from: "/old".to_string(), to: "/new".to_string() });
    let lo = Location::new("lo", c);
    let target = lo.rewrite_target("/old/path", "x=1").unwrap();
    assert_eq!(target, "/new/path?x=1");
}

#[test]
fn rewrite_without_query() {
    let mut c = conf("up", "", "/old", 1);
    c.rewrite = Some(Rewrite { from: "/old".to_string(), to: "/new".to_string() });
    let lo = Location::new("lo", c);
    assert_eq!(lo.rewrite("/old/a").unwrap(), "/new/a");
    // a path that does not start with the prefix is kept
    assert_eq!(lo.rewrite("/other").unwrap(), "/other");
}
