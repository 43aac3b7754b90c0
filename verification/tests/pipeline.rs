use std::collections::HashMap;
use std::time::Duration;

use revproxy::config::{Client, Config, Logging, Route, Server};
use revproxy::handler::{
    forward_outcome, gateway_error_response, not_found_response, plan_request, pool_overrides,
    Plan, Reply, UpstreamResponse,
};
use revproxy::routes::RouteTable;

fn route(id: &str, uri: &str, predicate: &str, strip: usize) -> Route {
    Route::new(id.to_string(), uri.to_string(), predicate.to_string(), strip)
}

fn hs(pairs: &[(&str, &str)]) -> Vec<(String, String)> {
    pairs.iter().map(|(n, v)| (n.to_string(), v.to_string())).collect()
}

#[test]
fn forwarded_request_is_rewritten() {
    let table = RouteTable::build(vec![route("api", "http://backend", "/api/*rest", 1)]);
    match plan_request(&table, "/api/users/42", &hs(&[])) {
        Plan::Forward { uri, route_index, .. } => {
            assert_eq!(uri, "http://backend/users/42");
            assert_eq!(route_index, 0);
        }
        Plan::NotFound => panic!("expected a match"),
    }
}

#[test]
fn unmatched_path_gets_404_with_empty_body() {
    let table = RouteTable::build(vec![route("api", "http://backend", "/api/*rest", 1)]);
    match plan_request(&table, "/unknown", &hs(&[])) {
        Plan::NotFound => {}
        Plan::Forward { .. } => panic!("expected no match"),
    }
    let resp = not_found_response();
    assert_eq!(resp.status, 404);
    assert_eq!(resp.body, "");
}

#[test]
fn refused_upstream_gets_502_with_description() {
    let description = "error trying to connect: connection refused".to_string();
    match forward_outcome(Err(description.clone())) {
        Reply::Synth(g) => {
            assert_eq!(g.status, 502);
            assert!(!g.body.is_empty());
            assert_eq!(g.body, description);
        }
        Reply::Relay(_) => panic!("expected a synthesized response"),
    }
    let direct = gateway_error_response("boom".to_string());
    assert_eq!(direct.status, 502);
    assert_eq!(direct.body, "boom");
}

#[test]
fn upstream_response_is_relayed_verbatim() {
    let upstream = UpstreamResponse { status: 204, headers: hs(&[("X-Id", "7")]) };
    match forward_outcome(Ok(upstream)) {
        Reply::Relay(u) => {
            assert_eq!(u.status, 204);
            assert_eq!(u.headers, hs(&[("X-Id", "7")]));
        }
        Reply::Synth(_) => panic!("expected the upstream response"),
    }
}

#[test]
fn hop_by_hop_headers_are_dropped_on_forward() {
    let table = RouteTable::build(vec![route("api", "http://backend", "/api/*rest", 1)]);
    let inbound = hs(&[("Connection", "keep-alive"), ("X-Custom", "value")]);
    match plan_request(&table, "/api/x", &inbound) {
        Plan::Forward { headers, .. } => {
            assert_eq!(headers, hs(&[("X-Custom", "value")]));
        }
        Plan::NotFound => panic!("expected a match"),
    }
}

#[test]
fn more_specific_route_wins_end_to_end() {
    let table = RouteTable::build(vec![
        route("broad", "http://one", "/a/*rest", 1),
        route("narrow", "http://two", "/a/b/*rest", 2),
    ]);
    match plan_request(&table, "/a/b/c", &hs(&[])) {
        Plan::Forward { uri, route_index, .. } => {
            assert_eq!(route_index, 1);
            assert_eq!(uri, "http://two/c");
        }
        Plan::NotFound => panic!("expected a match"),
    }
}

#[test]
fn pool_overrides_treat_zero_as_default() {
    let client = Client::new(0, None);
    assert_eq!(pool_overrides(&client), (None, None));
    let timeout = Duration::from_secs(30);
    let client = Client::new(8, Some(timeout));
    assert_eq!(pool_overrides(&client), (Some(8), Some(timeout)));
}

#[test]
fn config_splits_into_its_parts() {
    let mut levels = HashMap::new();
    levels.insert("root".to_string(), "info".to_string());
    let config = Config::new(
        Server::new(8080),
        Client::new(4, Some(Duration::from_secs(5))),
        Logging::new(levels.clone()),
        vec![route("api", "http://backend", "/api/*rest", 1)],
    );
    let (server, client, logging, routes) = config.into_parts();
    assert_eq!(server.port(), 8080);
    assert_eq!(client.pool_max_idle_per_host(), 4);
    assert_eq!(client.pool_idle_timeout(), Some(Duration::from_secs(5)));
    assert_eq!(logging.level(), &levels);
    assert_eq!(routes.len(), 1);
    assert_eq!(routes[0].predicate(), "/api/*rest");
    assert_eq!(routes[0].uri(), "http://backend");
    assert_eq!(routes[0].strip(), 1);
}
