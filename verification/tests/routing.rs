use listen_proxy::addr::{SocketAddr, SocketAddrV4};
use listen_proxy::config::{
    LbMethod, LocationAction, LocationConfig, LocationMatch, RuntimeHttpServer, RuntimeLocation,
    UpstreamConfig,
};
use listen_proxy::names::NameMap;
use listen_proxy::pattern::LocationRegex;
use listen_proxy::proxy::{
    decide, error_response, find_longest_prefix, full_response, handler_http, locate,
    match_location, RequestAction,
};
use listen_proxy::text::{same_text, starts_with};
use listen_proxy::upstream::RuntimeUpstream;

fn addr(port: u16) -> SocketAddr {
    SocketAddr::V4(SocketAddrV4 { octets: [127, 0, 0, 1], port })
}

fn location(path: &str, match_type: LocationMatch, action: LocationAction) -> RuntimeLocation {
    let mut headers = NameMap::new();
    headers.insert("X-Path".to_string(), path.to_string());
    let written = LocationConfig {
        path: path.to_string(),
        match_type,
        action,
        proxy_set_header: headers,
    };
    RuntimeLocation::from_config(&NameMap::new(), &written).unwrap()
}

fn to(path: &str, match_type: LocationMatch) -> RuntimeLocation {
    location(path, match_type, LocationAction::Proxy("backend_api".to_string()))
}

/// The path of the location that answers, with its kind.
fn answers(path: &str, locations: &[RuntimeLocation]) -> Option<(String, LocationMatch)> {
    match_location(path, locations).map(|one| (one.path.clone(), one.match_type))
}

fn group(servers: Vec<SocketAddr>, load_balancing: LbMethod) -> RuntimeUpstream {
    RuntimeUpstream::from_config(UpstreamConfig { servers, load_balancing })
}

fn http_server(locations: Vec<RuntimeLocation>) -> RuntimeHttpServer {
    RuntimeHttpServer { listen: addr(3000), server_name: String::new(), locations }
}

fn response(action: RequestAction) -> (u16, String) {
    match action {
        RequestAction::Respond(response) => (response.status, response.body),
        RequestAction::Forward { .. } => panic!("forwarded"),
    }
}

#[test]
fn exact_beats_prefix_and_regex() {
    let locations = [
        to("/api", LocationMatch::Prefix),
        to("^/api", LocationMatch::Regex),
        to("/api", LocationMatch::Exact),
        to("/api/v1", LocationMatch::Prefix),
    ];
    assert_eq!(answers("/api", &locations), Some(("/api".to_string(), LocationMatch::Exact)));
    assert_eq!(answers("/api/v1", &locations), Some(("^/api".to_string(), LocationMatch::Regex)));
}

#[test]
fn first_exact_location_answers() {
    let mut first = to("/a", LocationMatch::Exact);
    first.action = LocationAction::Static("first".to_string());
    let locations = [first, to("/a", LocationMatch::Exact)];
    let chosen = match_location("/a", &locations).unwrap();
    assert!(matches!(&chosen.action, LocationAction::Static(root) if root == "first"));
}

#[test]
fn longest_prefix_answers() {
    let locations = [
        to("/", LocationMatch::Prefix),
        to("/api/v1", LocationMatch::Prefix),
        to("/api", LocationMatch::Prefix),
    ];
    let path = |path: &str| answers(path, &locations).unwrap().0;
    assert_eq!(path("/api/v1/users"), "/api/v1");
    assert_eq!(path("/api/v2"), "/api");
    assert_eq!(path("/other"), "/");
    assert_eq!(find_longest_prefix("/api/v1/users", &locations), Some(1));
    assert_eq!(find_longest_prefix("other", &locations), None);
}

#[test]
fn first_of_equal_prefixes_answers() {
    let mut second = to("/api", LocationMatch::Prefix);
    second.action = LocationAction::Static("second".to_string());
    let locations = [to("/api", LocationMatch::Prefix), second];
    assert_eq!(find_longest_prefix("/api/x", &locations), Some(0));
    let chosen = match_location("/api/x", &locations).unwrap();
    assert!(matches!(chosen.action, LocationAction::Proxy(_)));
}

#[test]
fn prefixes_beyond_ascii() {
    let locations = [to("/é", LocationMatch::Prefix), to("/éa", LocationMatch::Prefix)];
    assert_eq!(find_longest_prefix("/éab", &locations), Some(1));
    assert_eq!(find_longest_prefix("/éb", &locations), Some(0));
    assert_eq!(find_longest_prefix("/è", &locations), None);
}

#[test]
fn first_regex_answers() {
    let locations = [
        to("/api/v1", LocationMatch::Prefix),
        to(r"\.png$", LocationMatch::Regex),
        to("^/api/v[0-9]+", LocationMatch::Regex),
    ];
    assert_eq!(
        answers("/api/v1/a.png", &locations),
        Some((r"\.png$".to_string(), LocationMatch::Regex))
    );
    assert_eq!(
        answers("/api/v1/users", &locations),
        Some(("^/api/v[0-9]+".to_string(), LocationMatch::Regex))
    );
    assert_eq!(answers("/api/v", &locations), None);
}

#[test]
fn regex_matches_anywhere() {
    let locations = [to("v[0-9]", LocationMatch::Regex)];
    assert!(match_location("/api/v7/users", &locations).is_some());
    assert!(match_location("/api/v/users", &locations).is_none());
}

#[test]
fn patterns_compile_or_tell_why_not() {
    assert!(LocationRegex::compile("^/a[0-9]$").is_ok());
    assert!(LocationRegex::compile("[").unwrap_err().contains("unclosed character class"));
}

#[test]
fn copy_of_a_location_matches_alike() {
    let copy = [to("^/a[0-9]$", LocationMatch::Regex).clone()];
    assert!(match_location("/a1", &copy).is_some());
    assert!(match_location("/a", &copy).is_none());
}

#[test]
fn regex_location_without_regex_is_passed_over() {
    let mut bare = to("^/a", LocationMatch::Regex);
    bare.regex = None;
    assert!(match_location("/a", &[bare]).is_none());
}

#[test]
fn nothing_matches() {
    let locations = [
        to("/api", LocationMatch::Exact),
        to("/api/v1", LocationMatch::Prefix),
        to("^/x$", LocationMatch::Regex),
    ];
    assert!(match_location("/api/", &locations).is_none());
    assert!(match_location("", &locations).is_none());
    assert!(match_location("/", &[]).is_none());
}

#[test]
fn location_for_a_given_regex_hit() {
    let locations = [
        to("/a", LocationMatch::Exact),
        to("/", LocationMatch::Prefix),
        to("b", LocationMatch::Regex),
    ];
    assert_eq!(locate("/a", &locations, Some(2)), Some(0));
    assert_eq!(locate("/x", &locations, Some(2)), Some(2));
    assert_eq!(locate("/x", &locations, None), Some(1));
    assert_eq!(locate("x", &locations, None), None);
}

#[test]
fn request_is_forwarded() {
    let server = http_server(vec![to("/api/v1", LocationMatch::Prefix)]);
    let mut upstreams = NameMap::new();
    upstreams.insert(
        "backend_api".to_string(),
        group(vec![addr(8081), addr(8082)], LbMethod::RoundRobin),
    );
    for port in [8081u16, 8082, 8081] {
        match handler_http("/api/v1/users", &server, &upstreams, addr(53000)) {
            RequestAction::Forward { target, proxy_set_header } => {
                assert_eq!(target, addr(port));
                assert_eq!(proxy_set_header.len(), 1);
                assert_eq!(proxy_set_header[0].name(), "x-path");
                assert_eq!(proxy_set_header[0].value(), "/api/v1");
            }
            RequestAction::Respond(_) => panic!("answered"),
        }
    }
}

#[test]
fn same_client_reaches_the_same_server() {
    let server = http_server(vec![to("/", LocationMatch::Prefix)]);
    let mut upstreams = NameMap::new();
    upstreams.insert(
        "backend_api".to_string(),
        group(vec![addr(8081), addr(8082), addr(8083)], LbMethod::IpHash),
    );
    let target = |port: u16| match handler_http("/", &server, &upstreams, addr(port)) {
        RequestAction::Forward { target, .. } => target,
        RequestAction::Respond(_) => panic!("answered"),
    };
    assert_eq!(target(1), target(2));
    assert_eq!(target(1), target(65535));
}

#[test]
fn unknown_upstream_is_a_bad_gateway() {
    let server = http_server(vec![to("/", LocationMatch::Prefix)]);
    let action = handler_http("/", &server, &NameMap::new(), addr(1));
    assert_eq!(response(action), (502, "bad gateway".to_string()));
}

#[test]
fn empty_upstream_answers_hello() {
    let server = http_server(vec![to("/", LocationMatch::Prefix)]);
    let mut upstreams = NameMap::new();
    upstreams.insert("backend_api".to_string(), group(vec![], LbMethod::RoundRobin));
    let action = handler_http("/", &server, &upstreams, addr(1));
    assert_eq!(response(action), (200, "hello".to_string()));
}

#[test]
fn static_location_names_its_path() {
    let root = LocationAction::Static("/var/www/html".to_string());
    let server = http_server(vec![location("/assets", LocationMatch::Prefix, root)]);
    let action = handler_http("/assets/app.js", &server, &NameMap::new(), addr(1));
    assert_eq!(response(action), (200, "static path /var/www/html".to_string()));
}

#[test]
fn no_location_answers_hello() {
    let server = http_server(vec![to("/api", LocationMatch::Prefix)]);
    let action = handler_http("/other", &server, &NameMap::new(), addr(1));
    assert_eq!(response(action), (200, "hello".to_string()));
}

#[test]
fn decisions_for_a_given_choice() {
    let proxied = to("/", LocationMatch::Prefix);
    assert_eq!(response(decide(None, None)).1, "hello");
    assert_eq!(response(decide(Some(&proxied), None)), (502, "bad gateway".to_string()));
    assert_eq!(response(decide(Some(&proxied), Some(None))), (200, "hello".to_string()));
    match decide(Some(&proxied), Some(Some(addr(9)))) {
        RequestAction::Forward { target, .. } => assert_eq!(target, addr(9)),
        RequestAction::Respond(_) => panic!("answered"),
    }
}

#[test]
fn plain_responses() {
    let response = full_response("hello".to_string());
    assert_eq!((response.status, response.body.as_str()), (200, "hello"));
    let response = error_response(404, "gone".to_string());
    assert_eq!((response.status, response.body.as_str()), (404, "gone"));
}

#[test]
fn comparisons_of_texts() {
    assert!(starts_with("/api/v1", "/api"));
    assert!(starts_with("/api", "/api"));
    assert!(starts_with("", ""));
    assert!(starts_with("日本語", "日本"));
    assert!(!starts_with("/api", "/api/"));
    assert!(!starts_with("日本", "日a"));
    assert!(same_text("é", "é") && !same_text("é", "e") && !same_text("a", "ab"));
}
