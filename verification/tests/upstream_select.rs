use pingap::upstream::{Strategy, Upstream, UpstreamConf};

fn round_robin(addrs: &[&str]) -> Upstream {
    let conf = UpstreamConf {
        addrs: addrs.iter().map(|a| a.to_string()).collect(),
        strategy: Strategy::RoundRobin,
    };
    Upstream::new("u", conf).unwrap()
}

fn consistent(addrs: &[&str]) -> Upstream {
    let conf = UpstreamConf {
        addrs: addrs.iter().map(|a| a.to_string()).collect(),
        strategy: Strategy::ConsistentHash,
    };
    Upstream::new("u", conf).unwrap()
}

#[test]
fn empty_upstream_is_an_error() {
    let conf = UpstreamConf { addrs: Vec::new(), strategy: Strategy::RoundRobin };
    assert!(Upstream::new("u", conf).is_err());
}

#[test]
fn round_robin_cycles_in_order() {
    let mut u = round_robin(&["a:1", "b:1"]);
    assert_eq!(u.new_http_peer("k").unwrap(), "a:1");
    assert_eq!(u.new_http_peer("k").unwrap(), "b:1");
    assert_eq!(u.new_http_peer("k").unwrap(), "a:1");
    assert_eq!(u.new_http_peer("k").unwrap(), "b:1");
}

#[test]
fn round_robin_is_fair_over_a_full_multiple() {
    // N = 6 selections over M = 3 healthy peers: each picked exactly twice
    let mut u = round_robin(&["a:1", "b:1", "c:1"]);
    let mut counts = [0usize; 3];
    for _ in 0..6 {
        let picked = u.new_http_peer("k").unwrap();
        let idx = u.peers.iter().position(|p| *p == picked).unwrap();
        counts[idx] += 1;
    }
    assert_eq!(counts, [2, 2, 2]);
}

#[test]
fn round_robin_skips_unhealthy_peers() {
    let mut u = round_robin(&["a:1", "b:1", "c:1"]);
    u.set_healthy(0, false);
    assert_eq!(u.new_http_peer("k").unwrap(), "b:1");
    assert_eq!(u.new_http_peer("k").unwrap(), "c:1");
    assert_eq!(u.new_http_peer("k").unwrap(), "b:1");
}

#[test]
fn no_healthy_peer_selects_nothing() {
    let mut u = round_robin(&["a:1", "b:1"]);
    u.set_healthy(0, false);
    u.set_healthy(1, false);
    assert!(u.new_http_peer("k").is_none());
}

#[test]
fn consistent_hash_is_stable_for_a_fixed_peer_set() {
    let mut u = consistent(&["a:1", "b:1", "c:1", "d:1"]);
    let first = u.new_http_peer("/some/request/key").unwrap();
    for _ in 0..10 {
        assert_eq!(u.new_http_peer("/some/request/key").unwrap(), first);
    }
}

#[test]
fn consistent_hash_remaps_only_the_lost_peer() {
    let mut u = consistent(&["a:1", "b:1", "c:1", "d:1"]);
    let keys: Vec<String> = (0..40).map(|i| format!("/key/{i}")).collect();
    let before: Vec<String> = keys.iter().map(|k| u.new_http_peer(k).unwrap()).collect();
    // peer 0 goes away: every key that was served elsewhere keeps its peer
    u.set_healthy(0, false);
    let mut remapped = 0usize;
    for (k, old) in keys.iter().zip(before.iter()) {
        let now = u.new_http_peer(k).unwrap();
        if *old == u.peers[0] {
            remapped += 1;
            assert_ne!(now, u.peers[0]);
        } else {
            assert_eq!(now, *old);
        }
    }
    // only keys of the lost peer moved, a bounded fraction of the whole
    assert!(remapped < keys.len());
}
