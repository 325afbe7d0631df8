use pingap::errors::{ErrorKind, ErrorSource, ProxyError};
use pingap::message::{HttpRequest, HttpResponse, Method};
use pingap::plugin::Plugin;
use pingap::route::LocationConf;
use pingap::server::{Dispatched, Server, ServerConf};
use pingap::upstream::{Strategy, UpstreamConf};

fn one_server(addrs: &[&str], strategy: Strategy) -> Server {
    let conf = ServerConf {
        admin: false,
        name: "s".to_string(),
        addr: "127.0.0.1:6188".to_string(),
        access_log: None,
        upstreams: vec![(
            "up1".to_string(),
            UpstreamConf {
                addrs: addrs.iter().map(|a| a.to_string()).collect(),
                strategy,
            },
        )],
        locations: vec![(
            "lo1".to_string(),
            LocationConf {
                upstream: "up1".to_string(),
                host: "example.test".to_string(),
                path: "/".to_string(),
                rewrite: None,
                weight: 1,
                headers: Vec::new(),
                proxy_headers: Vec::new(),
                plugins: Vec::<Plugin>::new(),
            },
        )],
        tls_cert: None,
        tls_key: None,
        threads: None,
        error_template: pingap::server::default_error_template(),
    };
    Server::new(conf).unwrap()
}

fn request(host: &str, path: &str) -> HttpRequest {
    HttpRequest {
        method: Method::Get,
        host: host.to_string(),
        path: path.to_string(),
        query: String::new(),
        headers: Vec::new(),
        remote_addr: Some("10.1.1.1".to_string()),
    }
}

fn ok_reply(status: u16, body: &[&str]) -> Result<HttpResponse, ProxyError> {
    Ok(HttpResponse {
        status,
        headers: Vec::new(),
        body: body.iter().map(|b| b.to_string()).collect(),
    })
}

#[test]
fn two_requests_round_robin_a_then_b() {
    let mut s = one_server(&["a:3000", "b:3000"], Strategy::RoundRobin);
    let ctx = s.new_ctx();
    let out1 = s.handle_request(request("example.test", "/"), ctx, false, ok_reply(200, &["hi"]));
    assert_eq!(out1.log.upstream_address, "a:3000");
    assert_eq!(out1.log.status, Some(200));
    let ctx = s.new_ctx();
    let out2 = s.handle_request(request("example.test", "/"), ctx, false, ok_reply(200, &["hi"]));
    assert_eq!(out2.log.upstream_address, "b:3000");
    match out2.result {
        Dispatched::Responded { request, response } => {
            assert_eq!(response.status, 200);
            // the forwarded-client-address header was appended
            let xff = request
                .headers
                .iter()
                .find(|h| h.0 == "x-forwarded-for")
                .map(|h| h.1.clone());
            assert_eq!(xff, Some("10.1.1.1".to_string()));
        },
        _ => panic!("expected an upstream response"),
    }
}

#[test]
fn forwarded_for_is_appended_not_replaced() {
    let mut s = one_server(&["a:3000"], Strategy::RoundRobin);
    let ctx = s.new_ctx();
    let mut req = request("example.test", "/");
    req.headers.push(("x-forwarded-for".to_string(), "9.9.9.9".to_string()));
    let out = s.handle_request(req, ctx, false, ok_reply(200, &[]));
    match out.result {
        Dispatched::Responded { request, .. } => {
            let xff = request
                .headers
                .iter()
                .find(|h| h.0 == "x-forwarded-for")
                .map(|h| h.1.clone());
            assert_eq!(xff, Some("9.9.9.9, 10.1.1.1".to_string()));
        },
        _ => panic!("expected an upstream response"),
    }
}

#[test]
fn unmatched_request_fails_with_500() {
    let mut s = one_server(&["a:3000"], Strategy::RoundRobin);
    let ctx = s.new_ctx();
    let out = s.handle_request(request("other.test", "/"), ctx, false, ok_reply(200, &[]));
    match out.result {
        Dispatched::Failed { code, response } => {
            assert_eq!(code, 500);
            assert_eq!(response.status, 500);
            assert!(response.keepalive_disabled);
            assert_eq!(
                response.body,
                "<html><body><h1>0.1.0</h1><p>location not found</p></body></html>"
            );
            let ct = response.headers.iter().find(|h| h.0 == "content-type").unwrap();
            assert_eq!(ct.1, "text/html; charset=utf-8");
            let cl = response.headers.iter().find(|h| h.0 == "content-length").unwrap();
            assert_eq!(cl.1, response.body.len().to_string());
        },
        _ => panic!("expected a failure"),
    }
    assert_eq!(out.log.status, Some(500));
}

#[test]
fn no_healthy_peer_fails_with_503() {
    let mut s = one_server(&["a:3000"], Strategy::RoundRobin);
    s.upstreams[0].set_healthy(0, false);
    let ctx = s.new_ctx();
    let out = s.handle_request(request("example.test", "/"), ctx, false, ok_reply(200, &[]));
    match out.result {
        Dispatched::Failed { code, .. } => assert_eq!(code, 503),
        _ => panic!("expected a failure"),
    }
    assert_eq!(out.log.status, Some(503));
}

#[test]
fn upstream_error_fails_with_502() {
    let mut s = one_server(&["a:3000"], Strategy::RoundRobin);
    let ctx = s.new_ctx();
    let reply = Err(ProxyError {
        kind: ErrorKind::Other,
        source: ErrorSource::Upstream,
        message: "connect refused".to_string(),
    });
    let out = s.handle_request(request("example.test", "/"), ctx, false, reply);
    match out.result {
        Dispatched::Failed { code, .. } => assert_eq!(code, 502),
        _ => panic!("expected a failure"),
    }
}

#[test]
fn body_chunks_are_counted() {
    let mut s = one_server(&["a:3000"], Strategy::RoundRobin);
    let ctx = s.new_ctx();
    let out = s.handle_request(
        request("example.test", "/"),
        ctx,
        false,
        ok_reply(200, &["hello", " ", "world"]),
    );
    assert_eq!(out.log.response_body_size, 11);
}

#[test]
fn processing_returns_to_its_pre_burst_value() {
    let mut s = one_server(&["a:3000", "b:3000"], Strategy::RoundRobin);
    assert_eq!(s.processing, 0);
    for _ in 0..5 {
        let ctx = s.new_ctx();
        s.handle_request(request("example.test", "/"), ctx, false, ok_reply(200, &["x"]));
    }
    assert_eq!(s.processing, 0);
    assert_eq!(s.accepted, 5);
}

#[test]
fn admin_listener_diverts_every_request() {
    let conf = ServerConf {
        admin: true,
        name: "admin".to_string(),
        addr: "127.0.0.1:3018".to_string(),
        access_log: None,
        upstreams: Vec::new(),
        locations: Vec::new(),
        tls_cert: None,
        tls_key: None,
        threads: None,
        error_template: String::new(),
    };
    let mut s = Server::new(conf).unwrap();
    let ctx = s.new_ctx();
    let out = s.handle_request(request("x", "/"), ctx, false, ok_reply(200, &[]));
    assert!(matches!(out.result, Dispatched::Handled));
    assert_eq!(s.processing, 0);
}

#[test]
fn rewrite_applies_before_dispatch() {
    let mut conf_loc = LocationConf {
        upstream: "up1".to_string(),
        host: String::new(),
        path: "/old".to_string(),
        rewrite: Some(pingap::route::Rewrite {
            from: "/old".to_string(),
            to: "/new".to_string(),
        }),
        weight: 1,
        headers: Vec::new(),
        proxy_headers: Vec::new(),
        plugins: Vec::<Plugin>::new(),
    };
    conf_loc.weight = 1;
    let conf = ServerConf {
        admin: false,
        name: "s".to_string(),
        addr: "127.0.0.1:6188".to_string(),
        access_log: None,
        upstreams: vec![(
            "up1".to_string(),
            UpstreamConf { addrs: vec!["a:1".to_string()], strategy: Strategy::RoundRobin },
        )],
        locations: vec![("lo".to_string(), conf_loc)],
        tls_cert: None,
        tls_key: None,
        threads: None,
        error_template: String::new(),
    };
    let mut s = Server::new(conf).unwrap();
    let ctx = s.new_ctx();
    let mut req = request("h", "/old/path");
    req.query = "x=1".to_string();
    let out = s.handle_request(req, ctx, false, ok_reply(200, &[]));
    match out.result {
        Dispatched::Responded { request, .. } => {
            assert_eq!(request.path, "/new/path");
            assert_eq!(request.query, "x=1");
        },
        _ => panic!("expected an upstream response"),
    }
}

#[test]
fn invalid_rewrite_target_keeps_the_original_path() {
    let conf = ServerConf {
        admin: false,
        name: "s".to_string(),
        addr: "127.0.0.1:6188".to_string(),
        access_log: None,
        upstreams: vec![(
            "up1".to_string(),
            UpstreamConf { addrs: vec!["a:1".to_string()], strategy: Strategy::RoundRobin },
        )],
        locations: vec![(
            "lo".to_string(),
            LocationConf {
                upstream: "up1".to_string(),
                host: String::new(),
                path: "/old".to_string(),
                // a space makes the rewritten target structurally invalid
                rewrite: Some(pingap::route::Rewrite {
                    from: "/old".to_string(),
                    to: "/new path".to_string(),
                }),
                weight: 1,
                headers: Vec::new(),
                proxy_headers: Vec::new(),
                plugins: Vec::<Plugin>::new(),
            },
        )],
        tls_cert: None,
        tls_key: None,
        threads: None,
        error_template: String::new(),
    };
    let mut s = Server::new(conf).unwrap();
    let ctx = s.new_ctx();
    let out = s.handle_request(request("h", "/old/a"), ctx, false, ok_reply(200, &[]));
    match out.result {
        Dispatched::Responded { request, .. } => assert_eq!(request.path, "/old/a"),
        _ => panic!("expected an upstream response"),
    }
}

#[test]
fn location_headers_are_inserted_both_ways() {
    let conf = ServerConf {
        admin: false,
        name: "s".to_string(),
        addr: "127.0.0.1:6188".to_string(),
        access_log: None,
        upstreams: vec![(
            "up1".to_string(),
            UpstreamConf { addrs: vec!["a:1".to_string()], strategy: Strategy::RoundRobin },
        )],
        locations: vec![(
            "lo".to_string(),
            LocationConf {
                upstream: "up1".to_string(),
                host: String::new(),
                path: "/".to_string(),
                rewrite: None,
                weight: 1,
                headers: vec![("x-served-by".to_string(), "pingap".to_string())],
                proxy_headers: vec![("x-proxy".to_string(), "yes".to_string())],
                plugins: Vec::<Plugin>::new(),
            },
        )],
        tls_cert: None,
        tls_key: None,
        threads: None,
        error_template: String::new(),
    };
    let mut s = Server::new(conf).unwrap();
    let ctx = s.new_ctx();
    let out = s.handle_request(request("h", "/"), ctx, true, ok_reply(201, &[]));
    assert!(out.log.reused);
    match out.result {
        Dispatched::Responded { request, response } => {
            assert!(request.headers.iter().any(|h| h.0 == "x-proxy" && h.1 == "yes"));
            assert!(response.headers.iter().any(|h| h.0 == "x-served-by" && h.1 == "pingap"));
        },
        _ => panic!("expected an upstream response"),
    }
}
