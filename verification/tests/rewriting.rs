use revproxy::config::Route;
use revproxy::paths::{rewrite, split_segments};

fn route(uri: &str, strip: usize) -> Route {
    Route::new("r".to_string(), uri.to_string(), "/ignored".to_string(), strip)
}

#[test]
fn split_drops_empty_segments() {
    assert_eq!(split_segments("/api//users/"), vec!["api", "users"]);
    assert_eq!(split_segments("a/b"), vec!["a", "b"]);
}

#[test]
fn split_of_empty_and_slashes_is_empty() {
    assert!(split_segments("").is_empty());
    assert!(split_segments("/").is_empty());
    assert!(split_segments("///").is_empty());
}

#[test]
fn rewrite_strip_zero_appends_normalized_path() {
    let r = route("http://backend", 0);
    assert_eq!(rewrite("/api//users/42", &r), "http://backend/api/users/42");
}

#[test]
fn rewrite_strips_leading_segments() {
    let r = route("http://backend", 1);
    assert_eq!(rewrite("/api/users/42", &r), "http://backend/users/42");
}

#[test]
fn rewrite_strip_at_count_yields_base_only() {
    let r = route("http://backend", 2);
    assert_eq!(rewrite("/a/b", &r), "http://backend");
}

#[test]
fn rewrite_strip_beyond_count_yields_base_only() {
    let r = route("http://backend", 9);
    assert_eq!(rewrite("/a/b", &r), "http://backend");
}

#[test]
fn rewrite_of_empty_path_is_base_only() {
    let r = route("http://backend", 0);
    assert_eq!(rewrite("", &r), "http://backend");
    assert_eq!(rewrite("/", &r), "http://backend");
}
