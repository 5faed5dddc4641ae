use ws_relay::path::parse_path;
use ws_relay::path::RouteDecision;

fn expect_host(path: &str, token: &str) {
    match parse_path(path) {
        RouteDecision::Host(t) => assert_eq!(t, token),
        _ => panic!("expected a host route for {:?}", path),
    }
}

fn expect_client(path: &str, token: &str) {
    match parse_path(path) {
        RouteDecision::Client(t) => assert_eq!(t, token),
        _ => panic!("expected a client route for {:?}", path),
    }
}

#[test]
fn host_path_parses() {
    expect_host("/host/abc123", "abc123");
}

#[test]
fn client_path_parses() {
    expect_client("/client/abc123", "abc123");
}

#[test]
fn missing_leading_slash_still_parses() {
    expect_host("host/abc123", "abc123");
}

#[test]
fn trailing_slashes_are_trimmed() {
    expect_client("/client/abc123///", "abc123");
    expect_host("//host/xyz", "xyz");
}

#[test]
fn one_segment_is_malformed() {
    assert!(matches!(parse_path("/host"), RouteDecision::Malformed));
    assert!(matches!(parse_path("/abc123"), RouteDecision::Malformed));
}

#[test]
fn three_segments_are_malformed() {
    assert!(matches!(parse_path("/host/abc/extra"), RouteDecision::Malformed));
}

#[test]
fn empty_segment_is_malformed() {
    assert!(matches!(parse_path("/host//abc"), RouteDecision::Malformed));
}

#[test]
fn empty_and_slash_only_paths_are_malformed() {
    assert!(matches!(parse_path(""), RouteDecision::Malformed));
    assert!(matches!(parse_path("/"), RouteDecision::Malformed));
    assert!(matches!(parse_path("///"), RouteDecision::Malformed));
}

#[test]
fn unknown_role_is_rejected() {
    assert!(matches!(parse_path("/admin/abc123"), RouteDecision::UnknownRole));
}

#[test]
fn roles_are_case_sensitive() {
    assert!(matches!(parse_path("/HOST/abc123"), RouteDecision::UnknownRole));
}

#[test]
fn token_keeps_unicode_characters() {
    expect_host("/host/séance42", "séance42");
}
