use hyper::header::{HeaderName, HeaderValue};
use hyper::HeaderMap;
use listen_proxy::addr::{SocketAddr, SocketAddrV4, SocketAddrV6};
use listen_proxy::config::{
    LocationAction, LocationConfig, LocationMatch, RuntimeLocation, RuntimeProxyHeader,
};
use listen_proxy::forward::{
    apply_proxy_headers, forward_headers, forward_headers_to, Forward, ForwardStage, ForwardStep,
    HeaderError,
};
use listen_proxy::headers::{has_room_for, FieldValue};
use listen_proxy::names::NameMap;
use listen_proxy::uri::UpstreamUri;

fn set(name: &str, value: &str) -> RuntimeProxyHeader {
    RuntimeProxyHeader::new(name.to_string(), value.to_string()).unwrap()
}

fn request(pairs: &[(&str, &str)]) -> HeaderMap {
    let mut map = HeaderMap::new();
    for (name, value) in pairs {
        map.append(
            HeaderName::from_bytes(name.as_bytes()).unwrap(),
            HeaderValue::from_bytes(value.as_bytes()).unwrap(),
        );
    }
    map
}

fn v4(octets: [u8; 4], port: u16) -> SocketAddr {
    SocketAddr::V4(SocketAddrV4 { octets, port })
}

fn v6(groups: [u16; 8], port: u16, scope_id: u32) -> SocketAddr {
    let mut octets = [0u8; 16];
    for (pair, group) in octets.chunks_mut(2).zip(groups) {
        pair.copy_from_slice(&group.to_be_bytes());
    }
    SocketAddr::V6(SocketAddrV6 { octets, port, flowinfo: 5, scope_id })
}

fn server() -> SocketAddr {
    v4([127, 0, 0, 1], 8081)
}

fn client() -> SocketAddr {
    v4([192, 168, 1, 10], 53000)
}

fn values(map: &HeaderMap, name: &str) -> Vec<Vec<u8>> {
    map.get_all(name).iter().map(|value| value.as_bytes().to_vec()).collect()
}

fn forwarded(sent: &[(&str, &str)], rules: &[RuntimeProxyHeader]) -> HeaderMap {
    let mut map = request(sent);
    forward_headers(&mut map, rules, server(), client()).unwrap();
    map
}

fn field(text: &str, sensitive: bool) -> FieldValue {
    FieldValue { bytes: text.as_bytes().to_vec(), sensitive }
}

#[test]
fn host_is_the_upstream_server() {
    let map = forwarded(&[("Host", "www.example.com"), ("Accept", "*/*")], &[]);
    assert_eq!(values(&map, "host"), vec![b"127.0.0.1:8081".to_vec()]);
    assert_eq!(values(&map, "accept"), vec![b"*/*".to_vec()]);
    assert_eq!(map.len(), 2);
}

#[test]
fn host_is_set_where_the_client_sent_none() {
    let map = forwarded(&[], &[]);
    assert_eq!(values(&map, "host"), vec![b"127.0.0.1:8081".to_vec()]);
    assert_eq!(map.len(), 1);
}

#[test]
fn dollar_host_is_the_original_host() {
    let rules = [set("Host", "$host"), set("X-Forwarded-Host", "$host")];
    let map = forwarded(&[("host", "www.example.com")], &rules);
    assert_eq!(values(&map, "host"), vec![b"www.example.com".to_vec()]);
    assert_eq!(values(&map, "x-forwarded-host"), vec![b"www.example.com".to_vec()]);
}

#[test]
fn sensitive_host_stays_sensitive() {
    let mut map = HeaderMap::new();
    let mut host = HeaderValue::from_static("www.example.com");
    host.set_sensitive(true);
    map.insert("host", host);
    let rules = [set("X-Host", "$host"), set("X-Ip", "$remote_addr"), set("X-Tag", "fixed")];
    forward_headers(&mut map, &rules, server(), client()).unwrap();
    assert_eq!(values(&map, "x-host"), vec![b"www.example.com".to_vec()]);
    assert!(map.get("x-host").unwrap().is_sensitive());
    for name in ["host", "x-ip", "x-tag"] {
        assert!(!map.get(name).unwrap().is_sensitive());
    }
}

#[test]
fn dollar_host_stands_for_nothing_without_a_host() {
    let rules = [set("Host", "$host"), set("X-Forwarded-Host", "$host")];
    let map = forwarded(&[], &rules);
    assert_eq!(values(&map, "host"), vec![b"127.0.0.1:8081".to_vec()]);
    assert!(values(&map, "x-forwarded-host").is_empty());
}

#[test]
fn first_of_several_hosts_is_the_original_one() {
    let map = forwarded(&[("Host", "a"), ("Host", "b")], &[set("X-Host", "$host")]);
    assert_eq!(values(&map, "x-host"), vec![b"a".to_vec()]);
    assert_eq!(values(&map, "host"), vec![b"127.0.0.1:8081".to_vec()]);
}

#[test]
fn dollar_remote_addr_is_the_client() {
    let map = forwarded(&[("x-real-ip", "forged")], &[set("X-Real-IP", "$remote_addr")]);
    assert_eq!(values(&map, "x-real-ip"), vec![b"192.168.1.10".to_vec()]);
}

#[test]
fn addresses_have_their_usual_texts() {
    let cases = [
        (v4([0, 10, 99, 255], 0), "0.10.99.255:0", "0.10.99.255"),
        (v4([100, 200, 9, 1], 65535), "100.200.9.1:65535", "100.200.9.1"),
        (v6([0, 0, 0, 0, 0, 0, 0, 1], 80, 0), "[::1]:80", "::1"),
        (v6([0xfe80, 0, 0, 0, 0, 0, 0, 0xab], 8081, 3), "[fe80::ab%3]:8081", "fe80::ab"),
        (v6([0x2001, 0xdb8, 1, 2, 3, 4, 5, 6], 1, 0), "[2001:db8:1:2:3:4:5:6]:1", "2001:db8:1:2:3:4:5:6"),
    ];
    for (addr, with_port, without_port) in cases {
        let mut map = request(&[]);
        forward_headers(&mut map, &[set("X-Real-IP", "$remote_addr")], addr, addr).unwrap();
        assert_eq!(values(&map, "host"), vec![with_port.as_bytes().to_vec()]);
        assert_eq!(values(&map, "x-real-ip"), vec![without_port.as_bytes().to_vec()]);
        let mut forward = Forward::start(None, addr).unwrap();
        let body = format!("failed to connect upstream {with_port}: refused");
        assert_eq!(told(forward.advance(Err("refused".to_string()))), (502, body));
    }
}

#[test]
fn headers_with_room_are_set() {
    let mut map = request(&[("Accept", "*/*")]);
    let rules = [set("X-A", "1"), set("X-B", "2")];
    assert!(has_room_for(&map, rules.len() + 1));
    assert!(!has_room_for(&map, 6554) && has_room_for(&map, 6553));
    assert!(!has_room_for(&map, usize::MAX));
    assert_eq!(forward_headers_to(&mut map, &rules, "example.com", client()), Ok(()));
    assert_eq!(map.keys_len(), 4);
    assert_eq!(values(&map, "host"), vec![b"example.com".to_vec()]);
}

#[test]
fn fixed_values_replace_all_earlier_ones() {
    let sent = [("X-Tag", "1"), ("X-Tag", "2"), ("Cookie", "a"), ("Cookie", "b")];
    let map = forwarded(&sent, &[set("x-tag", "fixed")]);
    assert_eq!(values(&map, "x-tag"), vec![b"fixed".to_vec()]);
    assert_eq!(values(&map, "cookie"), vec![b"a".to_vec(), b"b".to_vec()]);
}

#[test]
fn last_of_several_rules_counts() {
    let map = forwarded(&[], &[set("X-Tag", "1"), set("x-tag", "2")]);
    assert_eq!(values(&map, "x-tag"), vec![b"2".to_vec()]);
    let map = forwarded(&[], &[set("X-Tag", "1"), set("x-tag", "\n")]);
    assert_eq!(values(&map, "x-tag"), vec![b"1".to_vec()]);
}

#[test]
fn texts_that_are_no_values_are_passed_over() {
    let rules = [set("X-A", "line\nbreak"), set("X-B", "\u{7f}"), set("X-C", "tab\tand é")];
    let map = forwarded(&[("X-A", "kept")], &rules);
    assert_eq!(values(&map, "x-a"), vec![b"kept".to_vec()]);
    assert!(values(&map, "x-b").is_empty());
    assert_eq!(values(&map, "x-c"), vec!["tab\tand é".as_bytes().to_vec()]);
}

#[test]
fn empty_values_are_values() {
    let map = forwarded(&[("X-A", "1")], &[set("X-A", "")]);
    assert_eq!(values(&map, "x-a"), vec![Vec::<u8>::new()]);
}

#[test]
fn bad_upstream_host_changes_nothing() {
    let mut map = request(&[("Host", "a")]);
    let res = forward_headers_to(&mut map, &[set("X-A", "1")], "bad\nhost", client());
    assert_eq!(res, Err(HeaderError::InvalidHost));
    assert_eq!(map, request(&[("Host", "a")]));
}

#[test]
fn full_header_map_is_told() {
    let mut map = HeaderMap::new();
    let mut count = 0;
    while map
        .try_insert(
            HeaderName::from_bytes(format!("x-{count}").as_bytes()).unwrap(),
            HeaderValue::from_static("1"),
        )
        .is_ok()
    {
        count += 1;
    }
    assert!(count > 6553);
    assert!(!has_room_for(&map, 1) && has_room_for(&HeaderMap::new(), 6554));
    let res = forward_headers(&mut map, &[], server(), client());
    assert_eq!(res, Err(HeaderError::TooManyHeaders));
    assert_eq!(map.len(), count);
    assert!(values(&map, "host").is_empty());
}

#[test]
fn large_header_map_is_taken() {
    let rules: Vec<RuntimeProxyHeader> =
        (0..6553).map(|i| set(&format!("x-{i}"), &format!("{i}"))).collect();
    let map = forwarded(&[], &rules);
    assert_eq!(map.len(), 6554);
    assert_eq!(values(&map, "x-6552"), vec![b"6552".to_vec()]);
}

#[test]
fn headers_for_given_hosts() {
    let mut map = request(&[("Host", "sent")]);
    let rules = [set("X-Host", "$host"), set("X-Ip", "$remote_addr")];
    let res = apply_proxy_headers(
        &mut map,
        &rules,
        Some(field("given", true)),
        field("server", false),
        v4([1, 2, 3, 4], 9),
    );
    assert_eq!(res, Ok(()));
    assert_eq!(values(&map, "host"), vec![b"server".to_vec()]);
    assert!(!map.get("host").unwrap().is_sensitive());
    assert_eq!(values(&map, "x-host"), vec![b"given".to_vec()]);
    assert!(map.get("x-host").unwrap().is_sensitive());
    assert_eq!(values(&map, "x-ip"), vec![b"1.2.3.4".to_vec()]);
}

#[test]
fn configured_headers_reach_the_server() {
    let mut inherited = NameMap::new();
    inherited.insert("X-Real-IP".to_string(), "$remote_addr".to_string());
    inherited.insert("Host".to_string(), "$host".to_string());
    inherited.insert("X-Tag".to_string(), "server".to_string());
    let mut own = NameMap::new();
    own.insert("X-Tag".to_string(), "location".to_string());
    let written = LocationConfig {
        path: "/".to_string(),
        match_type: LocationMatch::Prefix,
        action: LocationAction::Proxy("backend_api".to_string()),
        proxy_set_header: own,
    };
    let location = RuntimeLocation::from_config(&inherited, &written).unwrap();
    let map = forwarded(&[("host", "www.example.com")], &location.proxy_set_header);
    assert_eq!(values(&map, "x-real-ip"), vec![b"192.168.1.10".to_vec()]);
    assert_eq!(values(&map, "host"), vec![b"www.example.com".to_vec()]);
    assert_eq!(values(&map, "x-tag"), vec![b"location".to_vec()]);
    assert_eq!(map.len(), 3);
}

#[test]
fn path_and_query_are_kept() {
    let forward =
        Forward::start(Some("/api/v1/users?id=1"), server()).unwrap();
    assert_eq!(forward.uri.as_str(), "/api/v1/users?id=1");
    assert_eq!(forward.stage, ForwardStage::Connecting);
    assert_eq!(forward.target, server());
    let uri = forward.uri.as_uri();
    assert_eq!(uri.path(), "/api/v1/users");
    assert_eq!(uri.query(), Some("id=1"));
    assert!(uri.host().is_none());
}

#[test]
fn missing_path_is_the_root() {
    let forward = Forward::start(None, server()).unwrap();
    assert_eq!(forward.uri.as_str(), "/");
    assert_eq!(forward.uri.as_uri().path(), "/");
}

#[test]
fn bad_path_is_a_bad_gateway() {
    let response = Forward::start(Some("/a b"), server()).unwrap_err();
    assert_eq!(response.status, 502);
    assert_eq!(response.body, "invalid upstream uri: invalid uri character");
    let response = Forward::start(Some(""), server()).unwrap_err();
    assert_eq!(response.body, "invalid upstream uri: empty string");
    let response = Forward::with_uri(Err("why".to_string()), server()).unwrap_err();
    assert_eq!((response.status, response.body.as_str()), (502, "invalid upstream uri: why"));
}

#[test]
fn request_targets() {
    let uri = UpstreamUri::parse("/a?b=c").unwrap();
    assert_eq!(uri.as_str(), "/a?b=c");
    assert_eq!(uri.as_uri().to_string(), "/a?b=c");
    assert_eq!(UpstreamUri::parse("/a b").unwrap_err(), "invalid uri character");
    let forward = Forward::with_uri(Ok(uri), server()).unwrap();
    assert_eq!((forward.uri.as_str(), forward.target), ("/a?b=c", server()));
}

fn start() -> Forward {
    Forward::start(Some("/"), server()).unwrap()
}

fn told(step: ForwardStep) -> (u16, String) {
    match step {
        ForwardStep::Respond(response) => (response.status, response.body),
        _ => panic!("no answer"),
    }
}

#[test]
fn answer_is_relayed_after_three_steps() {
    let mut forward = start();
    assert!(matches!(forward.advance(Ok(())), ForwardStep::Handshake));
    assert_eq!(forward.stage, ForwardStage::Handshaking);
    assert!(matches!(forward.advance(Ok(())), ForwardStep::Send));
    assert_eq!(forward.stage, ForwardStage::Sending);
    assert!(matches!(forward.advance(Ok(())), ForwardStep::Relay));
    assert_eq!(forward.stage, ForwardStage::Done);
}

#[test]
fn failed_connection_is_told() {
    let mut forward = start();
    let step = forward.advance(Err("connection refused".to_string()));
    let body = "failed to connect upstream 127.0.0.1:8081: connection refused";
    assert_eq!(told(step), (502, body.to_string()));
    assert_eq!(forward.stage, ForwardStage::Done);
}

#[test]
fn failed_handshake_is_told() {
    let mut forward = start();
    forward.advance(Ok(()));
    let step = forward.advance(Err("closed".to_string()));
    let body = "failed to handshake upstream 127.0.0.1:8081: closed";
    assert_eq!(told(step), (502, body.to_string()));
    assert_eq!(forward.stage, ForwardStage::Done);
}

#[test]
fn failed_request_is_told() {
    let mut forward = start();
    forward.advance(Ok(()));
    forward.advance(Ok(()));
    let step = forward.advance(Err("reset".to_string()));
    let body = "failed to send request to upstream 127.0.0.1:8081: reset";
    assert_eq!(told(step), (502, body.to_string()));
    assert_eq!(forward.stage, ForwardStage::Done);
}
