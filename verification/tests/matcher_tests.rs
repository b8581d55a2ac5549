use liteginx::config::{IngressConf, IngressSpec, Kind, TlsConf};
use liteginx::downstream::{process_chunk, ChunkAction};
use liteginx::helpers::{extract_path, http_404_response, match_prefix, rewrite_path};
use liteginx::routes::{Route, UpstreamTarget};

fn http_route(paths: Vec<(&str, Option<&str>)>) -> Route {
    let specs = paths
        .into_iter()
        .map(|(p, rw)| IngressSpec {
            kind: Kind::Http,
            path: Some(p.to_string()),
            listen: 80,
            rewrite: rw.map(|r| r.to_string()),
            targets: vec![UpstreamTarget { host: "localhost".to_string(), port: 3000 }],
        })
        .collect();
    let configs = vec![IngressConf {
        name: "test".to_string(),
        spec: specs,
        tls: TlsConf { enabled: false },
    }];
    Route::new(configs).expect("route build failed").remove(0)
}

fn tcp_route() -> Route {
    let configs = vec![IngressConf {
        name: "test".to_string(),
        spec: vec![IngressSpec {
            kind: Kind::Tcp,
            path: None,
            listen: 4000,
            rewrite: None,
            targets: vec![UpstreamTarget { host: "localhost".to_string(), port: 4001 }],
        }],
        tls: TlsConf { enabled: false },
    }];
    Route::new(configs).expect("route build failed").remove(0)
}

#[test]
fn extract_path_takes_second_token() {
    assert_eq!(extract_path(b"GET /two/extra HTTP/1.1\r\nHost: x\r\n\r\n"), b"two/extra".to_vec());
    assert_eq!(extract_path(b"GET / HTTP/1.1\r\n"), b"".to_vec());
    assert_eq!(extract_path(b"POST /one HTTP/1.1"), b"one".to_vec());
}

#[test]
fn extract_path_without_uri_is_empty() {
    assert_eq!(extract_path(b""), b"".to_vec());
    assert_eq!(extract_path(b"GET"), b"".to_vec());
    assert_eq!(extract_path(b"GET\r\n/one x"), b"".to_vec());
    // An URI that is not UTF-8 names the empty path.
    assert_eq!(extract_path(b"GET /\xff\xfe HTTP/1.1"), b"".to_vec());
}

#[test]
fn rewrite_path_replaces_first_occurrence_only() {
    let out = rewrite_path(b"a/two b/two", b"/two".to_vec(), b"/".to_vec());
    assert_eq!(out, b"a/ b/two".to_vec());
    // Bytes pass through unmodified when the pattern does not occur.
    let out = rewrite_path(b"GET /one", b"/zzz".to_vec(), b"/".to_vec());
    assert_eq!(out, b"GET /one".to_vec());
}

#[test]
fn longest_prefix_wins() {
    let route = http_route(vec![("/one", None), ("/one/deep", None), ("/", None)]);
    let router = route.endpoints.as_ref().expect("http route has a router");
    let hit = match_prefix(router, b"one/deep/x").expect("must match");
    assert_eq!(hit.path, "/one/deep");
    let hit = match_prefix(router, b"one/other").expect("must match");
    assert_eq!(hit.path, "/one");
    // The root registration answers only the empty path; an unregistered
    // segment matches nothing.
    assert!(match_prefix(router, b"unrelated").is_none());
    let hit = match_prefix(router, b"").expect("root answers the empty path");
    assert_eq!(hit.path, "/");
}

#[test]
fn match_ignores_trailing_slashes() {
    let route = http_route(vec![("/one", None)]);
    let router = route.endpoints.as_ref().expect("router");
    let hit = match_prefix(router, b"one///").expect("must match");
    assert_eq!(hit.path, "/one");
    assert!(match_prefix(router, b"on").is_none());
}

#[test]
fn path_precedence_and_rewrite() {
    // Registered: /one (no rewrite) and /two (rewrite "/") on port 80.
    let route = http_route(vec![("/one", None), ("/two", Some("/"))]);
    let router = route.endpoints.as_ref().expect("router");

    // GET /two/extra matches /two, and the request line becomes GET /extra.
    let hit = match_prefix(router, b"two/extra").expect("must match");
    assert_eq!(hit.path, "/two");
    match process_chunk(&route, b"GET /two/extra HTTP/1.1\r\n\r\n", "not found") {
        ChunkAction::Forward(b) => assert_eq!(b, b"GET /extra HTTP/1.1\r\n\r\n".to_vec()),
        ChunkAction::Respond(_) => panic!("must forward"),
    }

    // A request to /one matches /one with no rewrite applied.
    let hit = match_prefix(router, b"one").expect("must match");
    assert_eq!(hit.path, "/one");
    match process_chunk(&route, b"GET /one HTTP/1.1\r\n\r\n", "not found") {
        ChunkAction::Forward(b) => assert_eq!(b, b"GET /one HTTP/1.1\r\n\r\n".to_vec()),
        ChunkAction::Respond(_) => panic!("must forward"),
    }
}

#[test]
fn exact_match_rewrite_replaces_whole_path() {
    // An exact match on /two (rewrite "/") rewrites the request line to GET /.
    let route = http_route(vec![("/one", None), ("/two", Some("/"))]);
    match process_chunk(&route, b"GET /two HTTP/1.1\r\n\r\n", "not found") {
        ChunkAction::Forward(b) => assert_eq!(b, b"GET / HTTP/1.1\r\n\r\n".to_vec()),
        ChunkAction::Respond(_) => panic!("must forward"),
    }
}

#[test]
fn no_match_yields_404() {
    let route = http_route(vec![("/one", None), ("/two", Some("/"))]);
    match process_chunk(&route, b"GET /unregistered HTTP/1.1\r\n\r\n", "not found") {
        ChunkAction::Forward(_) => panic!("must respond"),
        ChunkAction::Respond(resp) => {
            let text = String::from_utf8(resp).expect("response is text");
            assert!(text.starts_with("HTTP/1.1 404 Not Found\r\n"));
            assert!(text.ends_with("{\"detail\":\"not found\"}"));
        },
    }
}

#[test]
fn http_404_response_is_exact() {
    assert_eq!(
        http_404_response("not found"),
        "HTTP/1.1 404 Not Found\r\nContent-Type: application/json\r\nContent-Length: 22\r\n\
         Connection: close\r\n\r\n{\"detail\":\"not found\"}"
    );
    // The configured message is carried, JSON-escaped.
    let custom = http_404_response("no \"route\"");
    assert!(custom.ends_with("{\"detail\":\"no \\\"route\\\"\"}"));
    let body = custom.split("\r\n\r\n").nth(1).expect("body");
    let len: usize = custom
        .split("Content-Length: ")
        .nth(1)
        .and_then(|s| s.split('\r').next())
        .and_then(|s| s.parse().ok())
        .expect("length header");
    assert_eq!(len, body.len());
}

#[test]
fn content_length_counts_bytes() {
    // A message long enough for a three-digit length, with a multi-byte char.
    let msg = "x".repeat(100) + "\u{e9}";
    let resp = http_404_response(&msg);
    let body = resp.split("\r\n\r\n").nth(1).expect("body");
    let len: usize = resp
        .split("Content-Length: ")
        .nth(1)
        .and_then(|s| s.split('\r').next())
        .and_then(|s| s.parse().ok())
        .expect("length header");
    assert_eq!(len, body.len());
    assert_eq!(len, 115);
}

#[test]
fn tcp_passthrough_forwards_unmodified() {
    let route = tcp_route();
    assert!(route.endpoints.is_none());
    let payload: Vec<u8> = (0u8..=255).collect();
    match process_chunk(&route, &payload, "not found") {
        ChunkAction::Forward(b) => assert_eq!(b, payload),
        ChunkAction::Respond(_) => panic!("passthrough must forward"),
    }
}
