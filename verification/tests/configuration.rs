use pingap::plugin::Plugin;
use pingap::route::LocationConf;
use pingap::server::{
    build_server_confs, PingapConf, Server, ServerConf, ServerEntry,
};
use pingap::upstream::{Strategy, UpstreamConf};

fn location(upstream: &str) -> LocationConf {
    LocationConf {
        upstream: upstream.to_string(),
        host: String::new(),
        path: "/".to_string(),
        rewrite: None,
        weight: 4,
        headers: Vec::new(),
        proxy_headers: Vec::new(),
        plugins: Vec::<Plugin>::new(),
    }
}

fn upstream(addr: &str) -> UpstreamConf {
    UpstreamConf { addrs: vec![addr.to_string()], strategy: Strategy::RoundRobin }
}

#[test]
fn build_selects_locations_and_their_upstreams() {
    let conf = PingapConf {
        upstreams: vec![
            ("u1".to_string(), upstream("a:1")),
            ("u2".to_string(), upstream("b:1")),
        ],
        locations: vec![
            ("l1".to_string(), location("u1")),
            ("l2".to_string(), location("u2")),
        ],
        servers: vec![(
            "web".to_string(),
            ServerEntry {
                addr: "127.0.0.1:6188".to_string(),
                access_log: None,
                locations: Some(vec!["l2".to_string()]),
                threads: Some(2),
                tls_cert: None,
                tls_key: None,
            },
        )],
        error_template: String::new(),
    };
    let servers = build_server_confs(conf);
    assert_eq!(servers.len(), 1);
    let sc = &servers[0];
    assert_eq!(sc.name, "web");
    assert_eq!(sc.addr, "127.0.0.1:6188");
    assert_eq!(sc.threads, Some(2));
    assert!(!sc.admin);
    assert_eq!(sc.locations.len(), 1);
    assert_eq!(sc.locations[0].0, "l2");
    assert_eq!(sc.upstreams.len(), 1);
    assert_eq!(sc.upstreams[0].0, "u2");
    // the fallback template holds both placeholders
    assert!(sc.error_template.contains("{{version}}"));
    assert!(sc.error_template.contains("{{content}}"));
}

#[test]
fn build_decodes_tls_material_from_base64() {
    let conf = PingapConf {
        upstreams: Vec::new(),
        locations: Vec::new(),
        servers: vec![(
            "tls".to_string(),
            ServerEntry {
                addr: "127.0.0.1:443".to_string(),
                access_log: None,
                locations: None,
                threads: None,
                tls_cert: Some("aGk=".to_string()),
                tls_key: Some("###".to_string()),
            },
        )],
        error_template: "custom {{version}} {{content}}".to_string(),
    };
    let servers = build_server_confs(conf);
    assert_eq!(servers[0].tls_cert, Some(b"hi".to_vec()));
    // text that is not base64 decodes to nothing, as the loader tolerates
    assert_eq!(servers[0].tls_key, Some(Vec::new()));
    assert_eq!(servers[0].error_template, "custom {{version}} {{content}}");
}

#[test]
fn validate_accepts_resolvable_configuration() {
    let conf = ServerConf {
        admin: false,
        name: "s".to_string(),
        addr: "a".to_string(),
        access_log: None,
        upstreams: vec![("u1".to_string(), upstream("a:1"))],
        locations: vec![("l1".to_string(), location("u1"))],
        tls_cert: None,
        tls_key: None,
        threads: None,
        error_template: String::new(),
    };
    assert!(conf.validate().is_ok());
    assert!(Server::new(conf).is_ok());
}

#[test]
fn validate_rejects_dangling_upstream_reference() {
    let conf = ServerConf {
        admin: false,
        name: "s".to_string(),
        addr: "a".to_string(),
        access_log: None,
        upstreams: vec![("u1".to_string(), upstream("a:1"))],
        locations: vec![("l1".to_string(), location("missing"))],
        tls_cert: None,
        tls_key: None,
        threads: None,
        error_template: String::new(),
    };
    assert!(conf.validate().is_err());
    assert!(Server::new(conf).is_err());
}

#[test]
fn validate_rejects_upstream_without_peers() {
    let conf = ServerConf {
        admin: false,
        name: "s".to_string(),
        addr: "a".to_string(),
        access_log: None,
        upstreams: vec![(
            "u1".to_string(),
            UpstreamConf { addrs: Vec::new(), strategy: Strategy::RoundRobin },
        )],
        locations: vec![("l1".to_string(), location("u1"))],
        tls_cert: None,
        tls_key: None,
        threads: None,
        error_template: String::new(),
    };
    assert!(conf.validate().is_err());
    assert!(Server::new(conf).is_err());
}

#[test]
fn server_orders_locations_by_weight() {
    let mut light = location("u1");
    light.weight = 1;
    light.path = "/a".to_string();
    let mut heavy = location("u1");
    heavy.weight = 9;
    heavy.path = "/a".to_string();
    let conf = ServerConf {
        admin: false,
        name: "s".to_string(),
        addr: "a".to_string(),
        access_log: None,
        upstreams: vec![("u1".to_string(), upstream("a:1"))],
        locations: vec![("light".to_string(), light), ("heavy".to_string(), heavy)],
        tls_cert: None,
        tls_key: None,
        threads: None,
        error_template: String::new(),
    };
    let s = Server::new(conf).unwrap();
    assert_eq!(s.locations[0].name, "heavy");
    assert_eq!(s.locations[1].name, "light");
}
