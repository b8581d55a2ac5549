use liteginx::config::{IngressConf, IngressSpec, Kind, TlsConf};
use liteginx::errors::ProxyError;
use liteginx::routes::{Route, UpstreamTarget};

fn target(host: &str, port: u16) -> UpstreamTarget {
    UpstreamTarget { host: host.to_string(), port }
}

fn conf(name: &str, specs: Vec<IngressSpec>) -> IngressConf {
    IngressConf { name: name.to_string(), spec: specs, tls: TlsConf { enabled: false } }
}

fn http_spec(listen: u16, path: &str, rewrite: Option<&str>, targets: Vec<UpstreamTarget>) -> IngressSpec {
    IngressSpec {
        kind: Kind::Http,
        path: Some(path.to_string()),
        listen,
        rewrite: rewrite.map(|r| r.to_string()),
        targets,
    }
}

fn tcp_spec(listen: u16, targets: Vec<UpstreamTarget>) -> IngressSpec {
    IngressSpec { kind: Kind::Tcp, path: None, listen, rewrite: None, targets }
}

/// The ingress declarations the loader tests read: `/one` and `/two` (with a
/// rewrite to `/`) on port 80, and a TCP passthrough on port 4000.
fn fixture_configs() -> Vec<IngressConf> {
    vec![
        conf("one-ingress", vec![http_spec(80, "/one", None, vec![target("localhost", 3000)])]),
        conf("tcptest-ingress", vec![tcp_spec(4000, vec![target("localhost", 4001)])]),
        conf("two-ingress", vec![http_spec(80, "/two", Some("/"), vec![target("localhost", 3000)])]),
    ]
}

#[test]
fn test_load_http_test() {
    let configs = fixture_configs();
    let routes = Route::new(configs).expect("route build failed");

    let route = routes
        .iter()
        .find(|r| r.listen == 80 && r.endpoint_rules.iter().any(|e| e.path == "/one"))
        .expect("Missing one-ingress route");

    assert_eq!(route.listen, 80);
    assert_eq!(route.endpoint_rules.len(), 2);
    let ep = &route.endpoint_rules[0];
    assert_eq!(ep.path, "/one");
    assert!(ep.rewrite.is_none());

    assert_eq!(route.targets.len(), 1);
    let target = &route.targets[0];
    assert_eq!(target.host, "localhost");
    assert_eq!(target.port, 3000);
}

#[test]
fn load_http_with_rewrite_test() {
    let configs = fixture_configs();
    let routes = Route::new(configs).expect("route build failed");

    let route = routes
        .iter()
        .find(|r| r.listen == 80 && r.endpoint_rules.iter().any(|e| e.path == "/two"))
        .expect("Missing two-ingress route");

    assert_eq!(route.listen, 80);
    assert_eq!(route.endpoint_rules.len(), 2);
    let ep = &route.endpoint_rules[1];
    assert_eq!(ep.path, "/two");
    assert_eq!(ep.rewrite.as_deref(), Some("/"));

    assert_eq!(route.targets.len(), 1);
    let target = &route.targets[0];
    assert_eq!(target.host, "localhost");
    assert_eq!(target.port, 3000);
}

#[test]
fn load_tcp() {
    let configs = fixture_configs();
    let routes = Route::new(configs).expect("route build failed");

    let route = routes
        .iter()
        .find(|r| r.listen == 4000)
        .expect("Missing tcptest-ingress route");

    assert!(route.endpoints.is_none()); // No path or rewrite for TCP
    assert!(route.endpoint_rules.is_empty());

    assert_eq!(route.targets.len(), 1);
    let target = &route.targets[0];
    assert_eq!(target.host, "localhost");
    assert_eq!(target.port, 4001);
}

#[test]
fn one_route_per_distinct_port() {
    // Four rules over two ports merge into exactly two routes.
    let configs = vec![
        conf(
            "a",
            vec![
                http_spec(80, "/one", None, vec![target("localhost", 3000)]),
                tcp_spec(9000, vec![target("localhost", 9001)]),
            ],
        ),
        conf(
            "b",
            vec![
                http_spec(80, "/two", Some("/"), vec![target("localhost", 3001)]),
                tcp_spec(9000, vec![target("localhost", 9002)]),
            ],
        ),
    ];
    let routes = Route::new(configs).expect("route build failed");
    assert_eq!(routes.len(), 2);
    assert_eq!(routes[0].listen, 80);
    assert_eq!(routes[1].listen, 9000);
    assert_eq!(routes[1].targets.len(), 2);
}

#[test]
fn overlapping_target_kept_once() {
    // The same (host, port) pair declared by two rules for one port is merged once.
    let configs = vec![
        conf("a", vec![tcp_spec(4000, vec![target("localhost", 3000)])]),
        conf("b", vec![tcp_spec(4000, vec![target("localhost", 3000)])]),
    ];
    let routes = Route::new(configs).expect("route build failed");
    assert_eq!(routes.len(), 1);
    assert_eq!(routes[0].targets.len(), 1);
    assert_eq!(routes[0].targets[0].host, "localhost");
    assert_eq!(routes[0].targets[0].port, 3000);
}

#[test]
fn duplicate_target_within_one_rule_kept_once() {
    let configs = vec![conf(
        "a",
        vec![tcp_spec(4000, vec![target("localhost", 3000), target("localhost", 3000)])],
    )];
    let routes = Route::new(configs).expect("route build failed");
    assert_eq!(routes[0].targets.len(), 1);
}

#[test]
fn first_registered_path_wins() {
    let configs = vec![
        conf("a", vec![http_spec(80, "/one", None, vec![target("localhost", 3000)])]),
        conf("b", vec![http_spec(80, "/one", Some("/"), vec![target("localhost", 3001)])]),
    ];
    let routes = Route::new(configs).expect("route build failed");
    assert_eq!(routes.len(), 1);
    assert_eq!(routes[0].endpoint_rules.len(), 1);
    assert!(routes[0].endpoint_rules[0].rewrite.is_none());
    // The rejected registration's targets are still merged.
    assert_eq!(routes[0].targets.len(), 2);
}

#[test]
fn http_rule_with_empty_path_is_fatal() {
    let configs = vec![conf("a", vec![http_spec(80, "", None, vec![target("localhost", 3000)])])];
    let err = Route::new(configs).expect_err("empty path must be rejected");
    assert!(matches!(err, ProxyError::HttpSpecMissingPath));
}

#[test]
fn http_rule_with_braced_path_is_fatal() {
    // A brace would read as path-router syntax, not as a literal path.
    let configs = vec![conf(
        "a",
        vec![http_spec(80, "/users/{id}", None, vec![target("localhost", 3000)])],
    )];
    let err = Route::new(configs).expect_err("braced path must be rejected");
    assert!(matches!(err, ProxyError::HttpSpecInvalidPath));
    assert_eq!(err.message(), "http spec path holds braces");
}

#[test]
fn http_rule_without_path_is_fatal() {
    let configs = vec![conf(
        "a",
        vec![IngressSpec {
            kind: Kind::Http,
            path: None,
            listen: 80,
            rewrite: None,
            targets: vec![target("localhost", 3000)],
        }],
    )];
    let err = Route::new(configs).expect_err("missing path must be rejected");
    assert!(matches!(err, ProxyError::HttpSpecMissingPath));
}
