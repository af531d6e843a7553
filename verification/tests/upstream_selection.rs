use listen_proxy::addr::{SocketAddr, SocketAddrV4, SocketAddrV6};
use listen_proxy::config::{LbMethod, UpstreamConfig};
use listen_proxy::upstream::RuntimeUpstream;

/// Reads an address of the form `a.b.c.d:port`.
fn addr(value: &str) -> SocketAddr {
    let (ip, port) = value
        .split_once(':')
        .expect("test socket addr should be valid");
    let mut octets = [0u8; 4];
    for (octet, text) in octets.iter_mut().zip(ip.split('.')) {
        *octet = text.parse().expect("test socket addr should be valid");
    }
    SocketAddr::V4(SocketAddrV4 {
        octets,
        port: port.parse().expect("test socket addr should be valid"),
    })
}

fn upstream(load_balancing: LbMethod) -> RuntimeUpstream {
    RuntimeUpstream::from_config(UpstreamConfig {
        servers: vec![
            addr("127.0.0.1:8081"),
            addr("127.0.0.1:8082"),
            addr("127.0.0.1:8083"),
        ],
        load_balancing,
    })
}

#[test]
fn print_round_robin_selection_result() {
    let upstream = upstream(LbMethod::RoundRobin);

    println!("round_robin selection result:");
    for i in 0..8 {
        let selected = upstream.select_server(None);
        println!("request #{i}: {selected:?}");
    }
}

#[test]
fn print_ip_hash_same_client_result() {
    let upstream = upstream(LbMethod::IpHash);
    let remote_addr = addr("192.168.1.10:53000");

    println!("ip_hash same client result:");
    for i in 0..8 {
        let selected = upstream.select_server(Some(remote_addr));
        println!("request #{i}, remote={remote_addr:?}: {selected:?}");
    }
}

#[test]
fn print_ip_hash_different_clients_result() {
    let upstream = upstream(LbMethod::IpHash);
    let clients = [
        addr("192.168.1.10:53000"),
        addr("192.168.1.11:53001"),
        addr("192.168.1.12:53002"),
        addr("10.0.0.8:41000"),
    ];

    println!("ip_hash different clients result:");
    for client in clients {
        let selected = upstream.select_server(Some(client));
        println!("remote={client:?}: {selected:?}");
    }
}

#[test]
fn print_empty_upstream_result() {
    let upstream = RuntimeUpstream::from_config(UpstreamConfig {
        servers: vec![],
        load_balancing: LbMethod::RoundRobin,
    });

    println!("empty upstream result: {:?}", upstream.select_server(None));
}

#[test]
fn round_robin_goes_round_the_servers() {
    let upstream = upstream(LbMethod::RoundRobin);
    let expected = [8081u16, 8082, 8083, 8081, 8082, 8083, 8081, 8082];
    for port in expected {
        let server = addr(&format!("127.0.0.1:{port}"));
        assert_eq!(upstream.select_server(None), Some(server));
    }
}

#[test]
fn round_robin_ignores_the_client() {
    let upstream = upstream(LbMethod::RoundRobin);
    let client = Some(addr("192.168.1.10:53000"));
    assert_eq!(upstream.select_server(client), Some(addr("127.0.0.1:8081")));
    assert_eq!(upstream.select_server(client), Some(addr("127.0.0.1:8082")));
}

#[test]
fn numbers_go_round_the_servers() {
    let upstream = upstream(LbMethod::RoundRobin);
    assert_eq!(upstream.select_numbered(0), Some(addr("127.0.0.1:8081")));
    assert_eq!(upstream.select_numbered(5), Some(addr("127.0.0.1:8083")));
    let last = upstream.select_numbered(usize::MAX);
    assert_eq!(last, Some(upstream.servers[usize::MAX % 3]));
}

#[test]
fn every_server_gets_one_of_as_many_requests() {
    let upstream = upstream(LbMethod::RoundRobin);
    upstream.select_server(None);
    let mut chosen = vec![];
    for _ in 0..3 {
        chosen.push(upstream.select_server(None).unwrap());
    }
    for server in &upstream.servers {
        assert_eq!(chosen.iter().filter(|one| *one == server).count(), 1);
    }
}

#[test]
fn least_conn_takes_the_first_server() {
    let upstream = upstream(LbMethod::LeastConn);
    for _ in 0..3 {
        assert_eq!(upstream.select_server(None), Some(addr("127.0.0.1:8081")));
    }
    assert_eq!(upstream.select_first(), Some(addr("127.0.0.1:8081")));
}

#[test]
fn ip_hash_keeps_a_client_on_its_server() {
    let upstream = upstream(LbMethod::IpHash);
    let first = upstream.select_server(Some(addr("192.168.1.10:53000")));
    assert!(first.is_some());
    for port in [1u16, 53000, 53001, 65535] {
        let again = upstream.select_server(Some(addr(&format!("192.168.1.10:{port}"))));
        assert_eq!(again, first);
    }
}

#[test]
fn groups_with_the_same_servers_hash_alike() {
    let first = upstream(LbMethod::IpHash);
    let second = upstream(LbMethod::IpHash);
    for host in 0..64 {
        let client = Some(addr(&format!("10.0.0.{host}:1000")));
        assert_eq!(first.select_server(client), second.select_server(client));
    }
}

#[test]
fn ip_hash_spreads_clients() {
    let upstream = RuntimeUpstream::from_config(UpstreamConfig {
        servers: vec![addr("127.0.0.1:8081"), addr("127.0.0.1:8082")],
        load_balancing: LbMethod::IpHash,
    });
    let mut counts = [0usize; 2];
    for network in 0..8 {
        for host in 0..64 {
            // Octets that differ in an even part only: their own parity would put
            // all of these clients on one server.
            let client = addr(&format!("10.0.{}.{}:1000", network * 2, host * 2));
            let server = upstream.select_server(Some(client)).unwrap();
            let index = upstream.servers.iter().position(|one| *one == server).unwrap();
            counts[index] += 1;
        }
    }
    assert!(counts[0] > 100 && counts[1] > 100);
}

#[test]
fn ip_hash_takes_ipv6_clients() {
    let upstream = upstream(LbMethod::IpHash);
    let mut octets = [0u8; 16];
    octets[15] = 1;
    let near = SocketAddr::V6(SocketAddrV6 { octets, port: 80, flowinfo: 0, scope_id: 0 });
    let far = SocketAddr::V6(SocketAddrV6 { octets, port: 81, flowinfo: 7, scope_id: 3 });
    assert!(upstream.select_server(Some(near)).is_some());
    assert_eq!(upstream.select_server(Some(near)), upstream.select_server(Some(far)));
}

#[test]
fn ip_hash_needs_a_client() {
    assert_eq!(upstream(LbMethod::IpHash).select_server(None), None);
}

#[test]
fn empty_groups_choose_nothing() {
    let client = Some(addr("192.168.1.10:53000"));
    for load_balancing in [LbMethod::RoundRobin, LbMethod::LeastConn, LbMethod::IpHash] {
        let upstream =
            RuntimeUpstream::from_config(UpstreamConfig { servers: vec![], load_balancing });
        assert_eq!(upstream.select_server(client), None);
        assert_eq!(upstream.select_server(None), None);
        assert_eq!(upstream.select_first(), None);
        assert_eq!(upstream.select_numbered(3), None);
    }
}

#[test]
fn client_key_holds_address_length_and_user_agent() {
    let key = RuntimeUpstream::key_from_addr_and_ua(addr("192.168.1.10:53000"), "curl/8");
    assert_eq!(
        key,
        vec![192, 168, 1, 10, 0, 0, 0, 6, b'c', b'u', b'r', b'l', b'/', b'8']
    );
    let long = "x".repeat(300);
    let key = RuntimeUpstream::key_from_addr_and_ua(addr("1.2.3.4:1"), &long);
    assert_eq!(key[..8], [1, 2, 3, 4, 0, 0, 1, 44]);
    assert_eq!(key.len(), 308);
}

#[test]
fn client_key_of_an_ipv6_client() {
    let octets = [1u8, 2, 3, 4, 5, 6, 7, 8, 9, 10, 11, 12, 13, 14, 15, 16];
    let client = SocketAddr::V6(SocketAddrV6 { octets, port: 9, flowinfo: 1, scope_id: 2 });
    let key = RuntimeUpstream::key_from_addr_and_ua(client, "é");
    assert_eq!(key[..16], octets);
    assert_eq!(key[16..], [0, 0, 0, 2, 0xc3, 0xa9]);
}

#[test]
fn client_key_tells_clients_apart() {
    let key = |client: &str, ua: &str| RuntimeUpstream::key_from_addr_and_ua(addr(client), ua);
    assert_eq!(key("1.2.3.4:1", "a"), key("1.2.3.4:2", "a"));
    assert_ne!(key("1.2.3.4:1", "a"), key("1.2.3.5:1", "a"));
    assert_ne!(key("1.2.3.4:1", "a"), key("1.2.3.4:1", "b"));
    assert_ne!(key("1.2.3.4:1", "a"), key("1.2.3.4:1", "aa"));
}
