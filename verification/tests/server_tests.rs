use liteginx::conf::Settings;
use liteginx::errors::ProxyError;
use liteginx::routes::{Route, UpstreamTarget};
use liteginx::upstream::{ConnState, UpstreamAction, UpstreamConnector};

fn settings(heartbeat: Option<&str>, retries: Option<u32>, msg: Option<&str>) -> Settings {
    Settings::new(
        "/tmp/conf".to_string(),
        heartbeat.map(|s| s.to_string()),
        retries,
        msg.map(|s| s.to_string()),
    )
}

fn two_target_route() -> Route {
    Route {
        listen: 4000,
        endpoints: None,
        endpoint_rules: Vec::new(),
        targets: vec![
            UpstreamTarget { host: "alpha".to_string(), port: 1 },
            UpstreamTarget { host: "beta".to_string(), port: 2 },
        ],
    }
}

#[test]
fn settings_defaults() {
    let s = settings(None, None, None);
    assert_eq!(s.effective_heartbeat(), "10s");
    assert_eq!(s.effective_max_retries(), 10);
    assert_eq!(s.effective_not_found(), "not found");
    let s = settings(Some("250ms"), Some(3), Some("gone"));
    assert_eq!(s.effective_heartbeat(), "250ms");
    assert_eq!(s.effective_max_retries(), 3);
    assert_eq!(s.effective_not_found(), "gone");
}

#[test]
fn connector_parses_heartbeat() {
    let c = UpstreamConnector::new(&settings(None, None, None)).expect("defaults parse");
    assert_eq!(c.heartbeat_secs, 10);
    assert_eq!(c.heartbeat_nanos, 0);
    assert_eq!(c.max_retries, 10);
    assert_eq!(c.attempt, 0);
    assert_eq!(c.state, ConnState::Dialing);

    let c = UpstreamConnector::new(&settings(Some("1s 500ms"), Some(2), None)).expect("parses");
    assert_eq!(c.heartbeat_secs, 1);
    assert_eq!(c.heartbeat_nanos, 500_000_000);

    let err = UpstreamConnector::new(&settings(Some("soon"), None, None))
        .expect_err("a word is not a duration");
    assert!(matches!(err, ProxyError::DurationError(_)));

    // A heartbeat string over twelve characters is refused up front: long
    // enough strings could drive the parser into its overflow edge.
    let err = UpstreamConnector::new(&settings(Some("1h 30m 10s 500ms"), None, None))
        .expect_err("an overlong heartbeat is refused");
    assert!(matches!(err, ProxyError::DurationError(_)));
}

#[test]
fn bounded_retry_dials_max_retries_plus_one_times() {
    // A never-reachable backend: every dial fails. With a budget of 3
    // retries the connector accepts exactly 4 dial results, then gives up.
    let mut c = UpstreamConnector::new(&settings(None, Some(3), None)).expect("parses");
    let mut dials = 0u32;
    loop {
        dials += 1;
        match c.on_dial_result(false) {
            UpstreamAction::RetryAfterHeartbeat => continue,
            UpstreamAction::GiveUp => break,
            UpstreamAction::Pump => panic!("a failed dial never pumps"),
        }
    }
    assert_eq!(dials, 4);
    assert_eq!(c.state, ConnState::Failed);
    assert!(matches!(
        c.refused_error("dial failed".to_string()),
        ProxyError::UpstreamConnectionRefused(_)
    ));
}

#[test]
fn successful_dial_pumps() {
    let mut c = UpstreamConnector::new(&settings(None, Some(3), None)).expect("parses");
    assert!(matches!(c.on_dial_result(false), UpstreamAction::RetryAfterHeartbeat));
    assert!(matches!(c.on_dial_result(true), UpstreamAction::Pump));
    assert_eq!(c.state, ConnState::Connected);
}

#[test]
fn empty_targets_refuse_the_connection() {
    let route = Route { listen: 1, endpoints: None, endpoint_rules: Vec::new(), targets: Vec::new() };
    let err = route.choose_target().expect_err("no targets");
    assert!(matches!(err, ProxyError::DownStreamServerEmptyTargets));
    assert_eq!(err.message(), "empty targets, cannot start downstream server");
}

#[test]
fn load_balancing_is_roughly_even() {
    let route = two_target_route();
    let trials = 1000;
    let mut alpha = 0;
    for _ in 0..trials {
        let t = route.choose_target().expect("targets exist");
        if t.host == "alpha" {
            alpha += 1;
        }
    }
    // Each of the two equally-weighted targets within tolerance of 50%.
    assert!(alpha >= 350 && alpha <= 650, "alpha picked {} of {}", alpha, trials);
}

#[test]
fn error_messages() {
    assert_eq!(ProxyError::Generic.message(), "generic error");
    assert_eq!(
        ProxyError::UpstreamConnectionRefused("x".to_string()).message(),
        "error connecting to upstream target"
    );
    assert_eq!(ProxyError::HttpSpecMissingPath.message(), "http spec missing mandatory field path");
    assert_eq!(ProxyError::DurationError("x".to_string()).message(), "invalid time format error");
}
