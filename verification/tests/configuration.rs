use listen_proxy::addr::{SocketAddr, SocketAddrV4};
use listen_proxy::config::{
    ConfigError, HttpConfig, HttpServerConfig, LbMethod, LocationAction, LocationConfig,
    LocationMatch, MainConfig, RuntimeConfig, RuntimeHttpConfig, RuntimeHttpServer,
    RuntimeLocation, RuntimeProxyHeader, RuntimeStreamConfig, StreamConfig, StreamServerConfig,
    StreamTarget, UpstreamConfig,
};
use listen_proxy::names::NameMap;

fn addr(port: u16) -> SocketAddr {
    SocketAddr::V4(SocketAddrV4 { octets: [127, 0, 0, 1], port })
}

fn headers(pairs: &[(&str, &str)]) -> NameMap<String> {
    let mut map = NameMap::new();
    for (name, value) in pairs {
        map.insert(name.to_string(), value.to_string());
    }
    map
}

fn location(path: &str, match_type: LocationMatch, action: LocationAction) -> LocationConfig {
    LocationConfig { path: path.to_string(), match_type, action, proxy_set_header: headers(&[]) }
}

fn proxy(name: &str) -> LocationAction {
    LocationAction::Proxy(name.to_string())
}

fn server(locations: Vec<LocationConfig>) -> HttpServerConfig {
    HttpServerConfig {
        listen: addr(3000),
        server_name: "www.example.com".to_string(),
        proxy_set_header: headers(&[]),
        locations,
    }
}

fn config(
    upstreams: &[&str],
    servers: Vec<HttpServerConfig>,
    streams: Vec<StreamTarget>,
) -> MainConfig {
    let mut groups = NameMap::new();
    for (i, name) in upstreams.iter().enumerate() {
        groups.insert(
            name.to_string(),
            UpstreamConfig {
                servers: vec![addr(8081 + i as u16)],
                load_balancing: LbMethod::RoundRobin,
            },
        );
    }
    MainConfig {
        worker_processes: 4,
        error_log: "error.log".to_string(),
        upstreams: groups,
        http: HttpConfig { include_mimes: true, servers },
        stream: StreamConfig {
            servers: streams
                .into_iter()
                .map(|target| StreamServerConfig { listen: addr(4000), target })
                .collect(),
        },
    }
}

fn set_headers(location: &RuntimeLocation) -> Vec<(String, String)> {
    location
        .proxy_set_header
        .iter()
        .map(|header| (header.name().to_string(), header.value().to_string()))
        .collect()
}

#[test]
fn known_references_pass() {
    let config = config(
        &["backend_api", "db"],
        vec![server(vec![
            location("/api", LocationMatch::Prefix, proxy("backend_api")),
            location("/assets", LocationMatch::Prefix, LocationAction::Static("/var/www".into())),
        ])],
        vec![StreamTarget::Upstream("db".to_string()), StreamTarget::Direct(addr(1))],
    );
    assert!(config.verify_configuration().is_ok());
}

#[test]
fn empty_configuration_passes() {
    assert!(config(&[], vec![], vec![]).verify_configuration().is_ok());
}

#[test]
fn unknown_upstream_of_a_location_is_refused() {
    let config = config(
        &["backend_api"],
        vec![server(vec![location("/api", LocationMatch::Prefix, proxy("backend"))])],
        vec![],
    );
    let error = config.verify_configuration().unwrap_err();
    assert_eq!(error.message(), "backend not upstream");
    assert!(matches!(error, ConfigError::UnknownUpstream { name } if name == "backend"));
}

#[test]
fn unknown_upstream_of_a_stream_is_refused() {
    let config = config(&["a"], vec![], vec![StreamTarget::Upstream("b".to_string())]);
    assert_eq!(config.verify_configuration().unwrap_err().message(), "b not upstream");
}

#[test]
fn last_unknown_upstream_is_named() {
    let both = config(
        &["a"],
        vec![
            server(vec![
                location("/1", LocationMatch::Prefix, proxy("first")),
                location("/2", LocationMatch::Prefix, proxy("second")),
                location("/3", LocationMatch::Prefix, proxy("a")),
            ]),
            server(vec![location("/4", LocationMatch::Prefix, proxy("third"))]),
        ],
        vec![StreamTarget::Upstream("a".to_string())],
    );
    assert_eq!(both.verify_configuration().unwrap_err().message(), "third not upstream");
    let stream = config(
        &["a"],
        vec![server(vec![location("/1", LocationMatch::Prefix, proxy("first"))])],
        vec![StreamTarget::Upstream("last".to_string()), StreamTarget::Direct(addr(1))],
    );
    assert_eq!(stream.verify_configuration().unwrap_err().message(), "last not upstream");
}

#[test]
fn kinds_of_locations() {
    let exact = location("/", LocationMatch::Exact, proxy("a"));
    assert!(exact.is_exact() && !exact.is_regex() && !exact.is_prefix());
    let regex = location("/", LocationMatch::Regex, proxy("a"));
    assert!(!regex.is_exact() && regex.is_regex() && !regex.is_prefix());
    let prefix = location("/", LocationMatch::Prefix, proxy("a"));
    assert!(!prefix.is_exact() && !prefix.is_regex() && prefix.is_prefix());
    for written in [exact, regex, prefix] {
        let built = RuntimeLocation::from_config(&headers(&[]), &written).unwrap();
        assert_eq!(built.is_exact(), written.is_exact());
        assert_eq!(built.is_regex(), written.is_regex());
        assert_eq!(built.is_prefix(), written.is_prefix());
    }
}

#[test]
fn only_regex_locations_are_compiled() {
    let prefix = location("/api/(v1", LocationMatch::Prefix, proxy("a"));
    let built = RuntimeLocation::from_config(&headers(&[]), &prefix).unwrap();
    assert!(built.regex.is_none());
    assert_eq!(built.path, "/api/(v1");
    let exact = location("[", LocationMatch::Exact, proxy("a"));
    assert!(RuntimeLocation::from_config(&headers(&[]), &exact).unwrap().regex.is_none());
    let regex = location("^/api/v[0-9]+$", LocationMatch::Regex, proxy("a"));
    assert!(RuntimeLocation::from_config(&headers(&[]), &regex).unwrap().regex.is_some());
}

#[test]
fn bad_regex_is_refused() {
    let regex = location("/api/(v1", LocationMatch::Regex, proxy("a"));
    let error = RuntimeLocation::from_config(&headers(&[]), &regex).unwrap_err();
    assert_eq!(error.message(), "invalid location regex: /api/(v1");
    match error {
        ConfigError::InvalidLocationRegex { path, cause } => {
            assert_eq!(path, "/api/(v1");
            assert!(cause.contains("unclosed group"));
        }
        _ => panic!("the regex is wrong"),
    }
}

#[test]
fn bad_header_name_is_refused() {
    let error = RuntimeProxyHeader::new("bad name".to_string(), "x".to_string()).unwrap_err();
    assert_eq!(error.message(), "invalid proxy_set_header name: bad name");
    match error {
        ConfigError::InvalidHeaderName { name, cause } => {
            assert_eq!(name, "bad name");
            assert_eq!(cause, "invalid HTTP header name");
        }
        _ => panic!("the name is wrong"),
    }
    assert!(RuntimeProxyHeader::new("".to_string(), "x".to_string()).is_err());
    assert!(RuntimeProxyHeader::new("höst".to_string(), "x".to_string()).is_err());
    assert!(RuntimeProxyHeader::new("x\u{7f}".to_string(), "x".to_string()).is_err());
    assert!(RuntimeProxyHeader::new("a".repeat(65536), "x".to_string()).is_err());
}

#[test]
fn header_names_are_lowered() {
    let header = RuntimeProxyHeader::new("X-Real-IP".to_string(), "$remote_addr".to_string());
    let header = header.unwrap();
    assert_eq!(header.name(), "x-real-ip");
    assert_eq!(header.value(), "$remote_addr");
    let copy = header.clone();
    assert_eq!((copy.name(), copy.value()), ("x-real-ip", "$remote_addr"));
    let odd = "!#$%&'*+-.^_`|~09AZaz";
    let header = RuntimeProxyHeader::new(odd.to_string(), String::new()).unwrap();
    assert_eq!(header.name(), "!#$%&'*+-.^_`|~09azaz");
    let longest = RuntimeProxyHeader::new("A".repeat(65535), String::new()).unwrap();
    assert_eq!(longest.name(), "a".repeat(65535));
}

#[test]
fn regex_fault_comes_before_header_fault() {
    let mut both = location("(", LocationMatch::Regex, proxy("a"));
    both.proxy_set_header = headers(&[("bad name", "x")]);
    let error = RuntimeLocation::from_config(&headers(&[]), &both).unwrap_err();
    assert!(matches!(error, ConfigError::InvalidLocationRegex { .. }));
}

#[test]
fn location_headers_override_those_of_the_server() {
    let mut written = location("/", LocationMatch::Prefix, proxy("a"));
    written.proxy_set_header = headers(&[("Host", "location"), ("X-Own", "1")]);
    let inherited = headers(&[("Host", "server"), ("X-Real-IP", "$remote_addr")]);
    let built = RuntimeLocation::from_config(&inherited, &written).unwrap();
    let mut set = set_headers(&built);
    set.sort();
    assert_eq!(
        set,
        vec![
            ("host".to_string(), "location".to_string()),
            ("x-own".to_string(), "1".to_string()),
            ("x-real-ip".to_string(), "$remote_addr".to_string()),
        ]
    );
}

#[test]
fn header_names_are_overridden_as_written() {
    let mut written = location("/", LocationMatch::Prefix, proxy("a"));
    written.proxy_set_header = headers(&[("Host", "location")]);
    let built = RuntimeLocation::from_config(&headers(&[("host", "server")]), &written).unwrap();
    assert_eq!(
        set_headers(&built),
        vec![
            ("host".to_string(), "server".to_string()),
            ("host".to_string(), "location".to_string()),
        ]
    );
}

#[test]
fn server_headers_are_checked_too() {
    let written = location("/", LocationMatch::Prefix, proxy("a"));
    let error = RuntimeLocation::from_config(&headers(&[("a b", "x")]), &written).unwrap_err();
    assert_eq!(error.message(), "invalid proxy_set_header name: a b");
    let mut own = location("/", LocationMatch::Prefix, proxy("a"));
    own.proxy_set_header = headers(&[("c d", "x")]);
    let error = RuntimeLocation::from_config(&headers(&[("a b", "x")]), &own).unwrap_err();
    assert_eq!(error.message(), "invalid proxy_set_header name: a b");
    let error = RuntimeLocation::from_config(&headers(&[("A", "x")]), &own).unwrap_err();
    assert_eq!(error.message(), "invalid proxy_set_header name: c d");
}

#[test]
fn location_with_a_given_regex() {
    let written = location("/x", LocationMatch::Prefix, LocationAction::Static("/www".into()));
    let built = RuntimeLocation::with_regex(&headers(&[("A", "b")]), &written, None).unwrap();
    assert_eq!(built.path, "/x");
    assert!(built.regex.is_none());
    assert!(matches!(&built.action, LocationAction::Static(root) if root == "/www"));
    assert_eq!(set_headers(&built), vec![("a".to_string(), "b".to_string())]);
}

#[test]
fn http_part_keeps_its_order() {
    let mut second = server(vec![location("/3", LocationMatch::Exact, proxy("c"))]);
    second.listen = addr(3001);
    second.server_name = "api.example.com".to_string();
    let built = RuntimeHttpConfig::from_config(HttpConfig {
        include_mimes: false,
        servers: vec![
            server(vec![
                location("/1", LocationMatch::Prefix, proxy("a")),
                location("/2", LocationMatch::Prefix, proxy("b")),
            ]),
            second,
        ],
    })
    .unwrap();
    assert!(!built.include_mimes);
    assert_eq!(built.servers.len(), 2);
    assert_eq!(built.servers[0].listen, addr(3000));
    assert_eq!(built.servers[0].locations[0].path, "/1");
    assert_eq!(built.servers[0].locations[1].path, "/2");
    assert_eq!(built.servers[1].listen, addr(3001));
    assert_eq!(built.servers[1].server_name, "api.example.com");
    assert!(built.servers[1].locations[0].is_exact());
}

#[test]
fn first_fault_of_the_http_part_is_told() {
    let servers = vec![
        server(vec![
            location("/1", LocationMatch::Prefix, proxy("a")),
            location("(2", LocationMatch::Regex, proxy("a")),
            location("(3", LocationMatch::Regex, proxy("a")),
        ]),
        server(vec![location("(4", LocationMatch::Regex, proxy("a"))]),
    ];
    let error = RuntimeHttpConfig::from_config(HttpConfig { include_mimes: true, servers });
    assert_eq!(error.unwrap_err().message(), "invalid location regex: (2");
    let one = server(vec![location("(5", LocationMatch::Regex, proxy("a"))]);
    let error = RuntimeHttpServer::from_config(one).unwrap_err();
    assert_eq!(error.message(), "invalid location regex: (5");
}

#[test]
fn stream_part_is_kept() {
    let built = RuntimeStreamConfig::from_config(StreamConfig {
        servers: vec![
            StreamServerConfig { listen: addr(1), target: StreamTarget::Direct(addr(2)) },
            StreamServerConfig {
                listen: addr(3),
                target: StreamTarget::Upstream("db".to_string()),
            },
        ],
    });
    assert_eq!(built.servers.len(), 2);
    assert_eq!(built.servers[0].listen, addr(1));
    assert!(matches!(built.servers[0].target, StreamTarget::Direct(to) if to == addr(2)));
    assert_eq!(built.servers[1].listen, addr(3));
    assert!(matches!(&built.servers[1].target, StreamTarget::Upstream(name) if name == "db"));
}

#[test]
fn sound_configuration_is_served() {
    let runtime = RuntimeConfig::try_from(config(
        &["a", "b"],
        vec![server(vec![
            location("/1", LocationMatch::Prefix, proxy("b")),
            location("^/2", LocationMatch::Regex, proxy("a")),
        ])],
        vec![StreamTarget::Upstream("a".to_string())],
    ))
    .unwrap();
    assert_eq!(runtime.worker_processes, 4);
    assert_eq!(runtime.error_log, "error.log");
    assert_eq!(runtime.upstreams.len(), 2);
    assert_eq!(runtime.upstreams.get("a").unwrap().servers, vec![addr(8081)]);
    assert_eq!(runtime.upstreams.get("b").unwrap().servers, vec![addr(8082)]);
    assert_eq!(runtime.upstreams.get("b").unwrap().load_balancing, LbMethod::RoundRobin);
    assert!(runtime.upstreams.get("c").is_none());
    assert!(runtime.http.include_mimes);
    assert_eq!(runtime.http.servers[0].locations.len(), 2);
    assert_eq!(runtime.stream.servers.len(), 1);
}

#[test]
fn faults_of_a_configuration() {
    let bad_regex = || location("(", LocationMatch::Regex, proxy("a"));
    let unknown = config(
        &["a"],
        vec![server(vec![bad_regex(), location("/", LocationMatch::Prefix, proxy("b"))])],
        vec![],
    );
    let error = RuntimeConfig::try_from(unknown).unwrap_err();
    assert_eq!(error.message(), "b not upstream");
    let broken = config(&["a"], vec![server(vec![bad_regex()])], vec![]);
    let error = RuntimeConfig::try_from(broken).unwrap_err();
    assert_eq!(error.message(), "invalid location regex: (");
}

#[test]
fn names_are_unique_and_ordered() {
    let mut map = NameMap::new();
    assert_eq!(map.len(), 0);
    map.insert("b".to_string(), 1);
    map.insert("a".to_string(), 2);
    map.insert("b".to_string(), 3);
    assert_eq!(map.len(), 2);
    assert_eq!(map.get("b"), Some(&3));
    assert_eq!(map.get("a"), Some(&2));
    assert_eq!(map.get("c"), None);
    assert!(map.contains_key("a") && !map.contains_key("A"));
    assert_eq!(map.pair_at(0), ("b", &3));
    let copy = map.clone();
    assert_eq!(copy.into_pairs(), vec![("b".to_string(), 3), ("a".to_string(), 2)]);
    assert_eq!(map.into_pairs(), vec![("b".to_string(), 3), ("a".to_string(), 2)]);
}
