use revproxy::config::Route;
use revproxy::routes::RouteTable;

fn route(id: &str, uri: &str, predicate: &str, strip: usize) -> Route {
    Route::new(id.to_string(), uri.to_string(), predicate.to_string(), strip)
}

#[test]
fn resolve_literal_match() {
    let table = RouteTable::build(vec![route("a", "http://a", "/users/list", 0)]);
    let m = table.resolve("/users/list").expect("should match");
    assert_eq!(m.route_index, 0);
    assert!(m.params.is_empty());
}

#[test]
fn resolve_no_match_is_none() {
    let table = RouteTable::build(vec![route("a", "http://a", "/api/*rest", 1)]);
    assert!(table.resolve("/unknown").is_none());
}

#[test]
fn resolve_empty_table_is_none() {
    let table = RouteTable::build(vec![]);
    assert!(table.resolve("/anything").is_none());
}

#[test]
fn resolve_more_literals_win() {
    // Two overlapping wildcard routes: the one with more literal segments
    // is the more specific and must win.
    let table = RouteTable::build(vec![
        route("broad", "http://one", "/a/*rest", 1),
        route("narrow", "http://two", "/a/b/*rest", 2),
    ]);
    let m = table.resolve("/a/b/c").expect("should match");
    assert_eq!(m.route_index, 1);
    assert_eq!(table.route(m.route_index).id(), "narrow");
}

#[test]
fn resolve_param_outranks_wildcard() {
    let table = RouteTable::build(vec![
        route("wild", "http://one", "/x/*w", 0),
        route("param", "http://two", "/x/:name", 0),
    ]);
    let m = table.resolve("/x/y").expect("should match");
    assert_eq!(m.route_index, 1);
}

#[test]
fn resolve_tie_goes_to_first_inserted() {
    let table = RouteTable::build(vec![
        route("first", "http://one", "/dup/:a", 0),
        route("second", "http://two", "/dup/:b", 0),
    ]);
    let m = table.resolve("/dup/v").expect("should match");
    assert_eq!(m.route_index, 0);
}

#[test]
fn resolve_named_captures() {
    let table = RouteTable::build(vec![route("r", "http://b", "/api/:user/*rest", 1)]);
    let m = table.resolve("/api/u1/a/b").expect("should match");
    let params: Vec<(String, String)> = m.params;
    assert_eq!(
        params,
        vec![
            ("user".to_string(), "u1".to_string()),
            ("rest".to_string(), "a/b".to_string()),
        ]
    );
}

#[test]
fn resolve_wildcard_takes_empty_remainder() {
    let table = RouteTable::build(vec![route("r", "http://b", "/api/*rest", 1)]);
    let m = table.resolve("/api").expect("should match");
    assert_eq!(m.route_index, 0);
    assert_eq!(m.params, vec![("rest".to_string(), String::new())]);
}

#[test]
fn resolve_param_needs_exactly_one_segment() {
    let table = RouteTable::build(vec![route("r", "http://b", "/a/:b", 0)]);
    assert!(table.resolve("/a/x/y").is_none());
    assert!(table.resolve("/a").is_none());
    assert!(table.resolve("/a/x").is_some());
}

#[test]
fn resolve_repeated_calls_agree() {
    let table = RouteTable::build(vec![
        route("broad", "http://one", "/a/*rest", 1),
        route("narrow", "http://two", "/a/b/*rest", 2),
    ]);
    let first = table.resolve("/a/b/c").expect("should match").route_index;
    let second = table.resolve("/a/b/c").expect("should match").route_index;
    assert_eq!(first, second);
}

#[test]
fn resolve_collapses_repeated_slashes() {
    let table = RouteTable::build(vec![route("r", "http://b", "/api/users", 0)]);
    assert!(table.resolve("//api///users/").is_some());
}
