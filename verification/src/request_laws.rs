//! What becomes of a request, as callers of the functions see it.
use crate::addr::{decimal, digit, ip_text, ipv6_text, socket_text, socket_v6_text};
use crate::addr::{IpAddr, SocketAddr};
use crate::config::{LocationAction, RuntimeHttpServer, RuntimeLocation, UpstreamConfig};
use crate::laws::{law_longest_prefix_answers, law_no_location_without_hit};
use crate::names::NameMap;
use crate::pattern::regex_is_match;
use crate::proxy::{decide, error_response, exact_hit, find_longest_prefix, first_exact};
use crate::proxy::{full_response, handler_http, is_first_hit, is_longest_prefix};
use crate::proxy::{lemma_first_hit, lemma_located_in_range, lemma_longest_prefix, locate};
use crate::proxy::{located, match_location, prefix_hit, regex_hit};
use crate::proxy::{PlainResponse, RequestAction};
use crate::upstream::{ip_hash, law_round_robin_is_fair, ticket_after, RuntimeUpstream};
use ahash::RandomState;
use std::sync::atomic::{AtomicUsize, Ordering};
use vstd::prelude::*;
use vstd::utf8::encode_utf8;

verus! {

// ---- The location that answers a request ----

/// A request for the path of an exact location gets the first exact location with
/// that path.
pub proof fn law_match_exact(
    path: &str,
    locations: &[RuntimeLocation],
    res: Option<&RuntimeLocation>,
    index: int,
)
    requires
        call_ensures(match_location, (path, locations), res),
        0 <= index < locations@.len(),
        locations@[index].match_type is Exact,
        locations@[index].path@ == path@,
        forall|i: int|
            0 <= i < index ==> !((#[trigger] locations@[i]).match_type is Exact
                && locations@[i].path@ == path@),
    ensures
        res == Some(&locations@[index]),
{
    let hit = |location: RuntimeLocation| exact_hit(location, path@);
    assert(is_first_hit(locations@, hit, index));
    lemma_first_hit(locations@, hit, index);
}

/// A request for whose path there is no exact location gets the first
/// regular-expression location whose expression matches the path.
pub proof fn law_match_regex(
    path: &str,
    locations: &[RuntimeLocation],
    res: Option<&RuntimeLocation>,
    index: int,
)
    requires
        call_ensures(match_location, (path, locations), res),
        forall|i: int|
            0 <= i < locations@.len() ==> !((#[trigger] locations@[i]).match_type is Exact
                && locations@[i].path@ == path@),
        0 <= index < locations@.len(),
        locations@[index].match_type is Regex,
        locations@[index].regex matches Some(regex) && regex_is_match(regex.pattern(), path@),
        forall|i: int|
            0 <= i < index && (#[trigger] locations@[i]).match_type is Regex ==> !(
            locations@[i].regex matches Some(regex) && regex_is_match(regex.pattern(), path@)),
    ensures
        res == Some(&locations@[index]),
{
    let hit = |location: RuntimeLocation| regex_hit(location, path@);
    assert(is_first_hit(locations@, hit, index));
    lemma_first_hit(locations@, hit, index);
    assert(first_exact(path@, locations@) is None);
}

/// A request whose path starts with that of a prefix location, the whole path
/// included, and which no exact location and no regular expression takes, gets a
/// prefix location: the one with the longest path that it starts with, and of
/// those the first.
pub proof fn law_match_prefix(
    path: &str,
    locations: &[RuntimeLocation],
    res: Option<&RuntimeLocation>,
    index: int,
)
    requires
        call_ensures(match_location, (path, locations), res),
        forall|i: int|
            0 <= i < locations@.len() ==> !((#[trigger] locations@[i]).match_type is Exact
                && locations@[i].path@ == path@),
        forall|i: int|
            0 <= i < locations@.len() && (#[trigger] locations@[i]).match_type is Regex ==> !(
            locations@[i].regex matches Some(regex) && regex_is_match(regex.pattern(), path@)),
        0 <= index < locations@.len(),
        locations@[index].match_type is Prefix,
        locations@[index].path@.is_prefix_of(path@),
    ensures
        exists|chosen: int|
            {
                &&& 0 <= chosen < locations@.len()
                &&& res == Some(&#[trigger] locations@[chosen])
                &&& locations@[chosen].match_type is Prefix
                &&& locations@[chosen].path@.is_prefix_of(path@)
                &&& locations@[chosen].path@.len() >= locations@[index].path@.len()
                &&& locations@[chosen].path@.len() == locations@[index].path@.len() ==> chosen
                    <= index
            },
{
    assert(prefix_hit(locations@[index], path@));
    law_longest_prefix_answers(path@, locations@, index);
    let chosen = located(path@, locations@)->0;
    assert(prefix_hit(locations@[chosen], path@));
    assert(res == Some(&locations@[chosen]));
}

/// A prefix location on its own answers a request for any path that starts with
/// its path.
pub proof fn law_match_single_prefix(
    path: &str,
    locations: &[RuntimeLocation],
    res: Option<&RuntimeLocation>,
)
    requires
        call_ensures(match_location, (path, locations), res),
        locations@.len() == 1,
        locations@[0].match_type is Prefix,
    ensures
        res == if locations@[0].path@.is_prefix_of(path@) {
            Some(&locations@[0])
        } else {
            None
        },
{
    if locations@[0].path@.is_prefix_of(path@) {
        law_match_prefix(path, locations, res, 0);
    } else {
        law_match_nothing(path, locations, res);
    }
}

/// A request gets no location exactly if no exact location has its path, no
/// regular expression matches it, and it starts with no prefix location's path.
pub proof fn law_match_nothing(
    path: &str,
    locations: &[RuntimeLocation],
    res: Option<&RuntimeLocation>,
)
    requires
        call_ensures(match_location, (path, locations), res),
    ensures
        res is None <==> forall|i: int|
            0 <= i < locations@.len() ==> {
                &&& (#[trigger] locations@[i]).match_type is Exact ==> locations@[i].path@ != path@
                &&& locations@[i].match_type is Regex ==> !(
                locations@[i].regex matches Some(regex) && regex_is_match(regex.pattern(), path@))
                &&& locations@[i].match_type is Prefix ==> !locations@[i].path@.is_prefix_of(path@)
            },
        res matches Some(location) ==> locations@.contains(*location),
{
    law_no_location_without_hit(path@, locations@);
    lemma_located_in_range(path@, locations@);
    if res is None {
        assert forall|i: int| 0 <= i < locations@.len() implies {
            &&& (#[trigger] locations@[i]).match_type is Exact ==> locations@[i].path@ != path@
            &&& locations@[i].match_type is Regex ==> !(
            locations@[i].regex matches Some(regex) && regex_is_match(regex.pattern(), path@))
            &&& locations@[i].match_type is Prefix ==> !locations@[i].path@.is_prefix_of(path@)
        } by {
            assert(!exact_hit(locations@[i], path@));
            assert(!regex_hit(locations@[i], path@));
            assert(!prefix_hit(locations@[i], path@));
        }
    }
}

/// The longest prefix is looked for among the prefix locations with whose path the
/// request's path starts, the whole path included: it is one of them, none of them
/// is longer, and none of the same length comes before it.
pub proof fn law_longest_prefix(
    path: &str,
    locations: &[RuntimeLocation],
    res: Option<usize>,
    index: int,
)
    requires
        call_ensures(find_longest_prefix, (path, locations), res),
        0 <= index < locations@.len(),
        locations@[index].match_type is Prefix,
        locations@[index].path@.is_prefix_of(path@),
    ensures
        res matches Some(chosen) && {
            &&& 0 <= chosen < locations@.len()
            &&& locations@[chosen as int].match_type is Prefix
            &&& locations@[chosen as int].path@.is_prefix_of(path@)
            &&& locations@[chosen as int].path@.len() >= locations@[index].path@.len()
            &&& locations@[chosen as int].path@.len() == locations@[index].path@.len() ==> chosen
                <= index
        },
{
    assert(prefix_hit(locations@[index], path@));
    let longest = crate::laws::lemma_longest_prefix_exists(
        path@,
        locations@,
        locations@.len() as int,
        index,
    );
    assert(locations@.take(locations@.len() as int) =~= locations@);
    lemma_longest_prefix(path@, locations@, longest);
    assert(prefix_hit(locations@[longest], path@));
}

/// The longest prefix that is found is a prefix location with whose path the
/// request's path starts.
pub proof fn law_longest_prefix_is_one(path: &str, locations: &[RuntimeLocation], res: Option<usize>)
    requires
        call_ensures(find_longest_prefix, (path, locations), res),
    ensures
        res matches Some(chosen) ==> {
            &&& 0 <= chosen < locations@.len()
            &&& locations@[chosen as int].match_type is Prefix
            &&& locations@[chosen as int].path@.is_prefix_of(path@)
        },
{
    if res is Some {
        assert(is_longest_prefix(path@, locations@, res->0 as int));
    }
}

/// Given the regular expression that matches, a request gets the first exact
/// location with its path, else that expression, else the longest prefix.
pub proof fn law_locate(
    path: &str,
    locations: &[RuntimeLocation],
    regex: Option<usize>,
    res: Option<usize>,
    prefix: Option<usize>,
)
    requires
        call_ensures(locate, (path, locations, regex), res),
        call_ensures(find_longest_prefix, (path, locations), prefix),
    ensures
        forall|i: int|
            0 <= i < locations@.len() && (#[trigger] locations@[i]).match_type is Exact
                && locations@[i].path@ == path@ ==> (res matches Some(chosen) && chosen <= i
                && locations@[chosen as int].match_type is Exact && locations@[chosen as int].path@
                == path@),
        (forall|i: int|
            0 <= i < locations@.len() ==> !((#[trigger] locations@[i]).match_type is Exact
                && locations@[i].path@ == path@)) ==> res == if regex is Some {
            regex
        } else {
            prefix
        },
{
    let hit = |location: RuntimeLocation| exact_hit(location, path@);
    assert forall|i: int|
        0 <= i < locations@.len() && (#[trigger] locations@[i]).match_type is Exact
            && locations@[i].path@ == path@ implies (res matches Some(chosen) && chosen <= i
        && locations@[chosen as int].match_type is Exact && locations@[chosen as int].path@
        == path@) by {
        assert(hit(locations@[i]));
        crate::laws::lemma_first_hit_exists(locations@, hit, i);
        assert(hit(locations@[first_exact(path@, locations@)->0]));
    }
    if forall|i: int|
        0 <= i < locations@.len() ==> !((#[trigger] locations@[i]).match_type is Exact
            && locations@[i].path@ == path@) {
        assert(first_exact(path@, locations@) is None);
    }
}

// ---- What is done with a request ----

/// An answer has the body it is made with, and the status of success or the given
/// one.
pub proof fn law_plain_answers(
    body: String,
    full: PlainResponse,
    status: u16,
    other_body: String,
    other: PlainResponse,
)
    requires
        call_ensures(full_response, (body,), full),
        call_ensures(error_response, (status, other_body), other),
    ensures
        full.status == 200,
        full.body@ == body@,
        other.status == status,
        other.body@ == other_body@,
{
}

/// A request without a location is greeted.
pub proof fn law_decide_nothing<'a>(
    selected: Option<Option<SocketAddr>>,
    res: RequestAction<'a>,
)
    requires
        call_ensures(decide, (None, selected), res),
    ensures
        res matches RequestAction::Respond(response) && response.status == 200
            && response.body@ == "hello"@,
{
}

/// At a location that serves files, a request is told where these are; at one that
/// forwards, it goes to the chosen server with all the headers of the location, or
/// is greeted if there is none, or is told of a bad gateway if there is no upstream.
pub proof fn law_decide<'a>(
    location: &'a RuntimeLocation,
    selected: Option<Option<SocketAddr>>,
    res: RequestAction<'a>,
)
    requires
        call_ensures(decide, (Some(location), selected), res),
    ensures
        location.action matches LocationAction::Static(root) ==> (
        res matches RequestAction::Respond(response) && response.status == 200 && response.body@
            == "static path "@ + root@),
        location.action is Proxy ==> match selected {
            Some(Some(server)) => res matches RequestAction::Forward { target, proxy_set_header }
                && target == server && proxy_set_header@ == location.proxy_set_header@,
            Some(None) => res matches RequestAction::Respond(response) && response.status == 200
                && response.body@ == "hello"@,
            None => res matches RequestAction::Respond(response) && response.status == 502
                && response.body@ == "bad gateway"@,
        },
{
}

/// A request is dealt with by the location that it matches: without one it is
/// greeted, and at a location that serves files it is told where these are. At one
/// that forwards it is told of a bad gateway if the upstream is not there, greeted
/// if that has no servers, and otherwise goes to one of these, with the headers of
/// the location: to the first, or to the one for the hash of the client's octets,
/// or to the one for the number that it draws.
pub proof fn law_request_outcome<'a>(
    path: &str,
    server: &'a RuntimeHttpServer,
    upstreams: &NameMap<RuntimeUpstream>,
    remote_addr: SocketAddr,
    res: RequestAction<'a>,
    locations: &[RuntimeLocation],
    matched: Option<&RuntimeLocation>,
)
    requires
        call_ensures(handler_http, (path, server, upstreams, remote_addr), res),
        locations@ == server.locations@,
        call_ensures(match_location, (path, locations), matched),
    ensures
        matched is None ==> (res matches RequestAction::Respond(response) && response.status == 200
            && response.body@ == "hello"@),
        matched matches Some(location) ==> match location.action {
            LocationAction::Static(root) => res matches RequestAction::Respond(response)
                && response.status == 200 && response.body@ == "static path "@ + root@,
            LocationAction::Proxy(name) => if !upstreams@.contains_key(name@) {
                res matches RequestAction::Respond(response) && response.status == 502
                    && response.body@ == "bad gateway"@
            } else if upstreams@[name@].servers@.len() == 0 {
                res matches RequestAction::Respond(response) && response.status == 200
                    && response.body@ == "hello"@
            } else {
                let upstream = upstreams@[name@];
                let count = upstream.servers@.len() as int;
                let octets = match remote_addr {
                    SocketAddr::V4(addr) => addr.octets@,
                    SocketAddr::V6(addr) => addr.octets@,
                };
                &&& res matches RequestAction::Forward { target, proxy_set_header }
                &&& proxy_set_header@ == location.proxy_set_header@
                &&& upstream.load_balancing is LeastConn ==> target == upstream.servers@[0]
                &&& upstream.load_balancing is IpHash ==> target == upstream.servers@[ip_hash(
                    upstream.state,
                    octets,
                ) as usize as int % count]
                &&& upstream.load_balancing is RoundRobin ==> exists|ticket: usize| #[trigger]
                    upstream.drawn(ticket) && target == upstream.servers@[ticket as int % count]
            },
        },
{
    lemma_located_in_range(path@, locations@);
}

// ---- The choice of a server ----

/// A group has the servers of its configuration, all of them and in order, and its
/// method.
pub proof fn law_group_has_its_servers(config: UpstreamConfig, res: RuntimeUpstream)
    requires
        call_ensures(RuntimeUpstream::from_config, (config,), res),
    ensures
        res.servers@ == config.servers@,
        res.load_balancing == config.load_balancing,
        call_ensures(AtomicUsize::new, (0usize,), res.round_robin_index),
        call_ensures(RandomState::with_seed, (0usize,), res.state),
{
}

/// A number is drawn by moving the counter of the group on by one.
pub proof fn law_draw_moves_on_by_one(upstream: RuntimeUpstream, ticket: usize)
    ensures
        upstream.drawn(ticket) <==> call_ensures(
            AtomicUsize::fetch_add,
            (&upstream.round_robin_index, 1usize, Ordering::Relaxed),
            ticket,
        ),
{
}

/// A group made from a configuration with servers chooses among these: the first;
/// or the one for the hash of the client's octets, if there is a client; or the one
/// for the number that is drawn. Without servers it chooses none.
pub proof fn law_group_chooses_its_servers(
    config: UpstreamConfig,
    upstream: RuntimeUpstream,
    remote_addr: Option<SocketAddr>,
    res: Option<SocketAddr>,
)
    requires
        call_ensures(RuntimeUpstream::from_config, (config,), upstream),
        call_ensures(RuntimeUpstream::select_server, (&upstream, remote_addr), res),
    ensures
        config.servers@.len() == 0 ==> res is None,
        config.servers@.len() > 0 && config.load_balancing is LeastConn ==> res == Some(
            config.servers@[0],
        ),
        config.servers@.len() > 0 && config.load_balancing is IpHash && remote_addr is None
            ==> res is None,
        config.servers@.len() > 0 && config.load_balancing is IpHash && remote_addr is Some
            ==> res == Some(
            config.servers@[ip_hash(
                upstream.state,
                match remote_addr->0 {
                    SocketAddr::V4(addr) => addr.octets@,
                    SocketAddr::V6(addr) => addr.octets@,
                },
            ) as usize as int % (config.servers@.len() as int)],
        ),
        config.servers@.len() > 0 && config.load_balancing is RoundRobin ==> exists|ticket: usize|
            #[trigger] upstream.drawn(ticket) && res == Some(
                config.servers@[ticket as int % (config.servers@.len() as int)],
            ),
{
}

/// A number stands for the server at its remainder, and without servers for none.
pub proof fn law_numbers_go_round(
    config: UpstreamConfig,
    upstream: RuntimeUpstream,
    number: usize,
    res: Option<SocketAddr>,
    first: Option<SocketAddr>,
)
    requires
        call_ensures(RuntimeUpstream::from_config, (config,), upstream),
        call_ensures(RuntimeUpstream::select_numbered, (&upstream, number), res),
        call_ensures(RuntimeUpstream::select_first, (&upstream,), first),
    ensures
        res is None <==> config.servers@.len() == 0,
        first is None <==> config.servers@.len() == 0,
        config.servers@.len() > 0 ==> {
            &&& res == Some(config.servers@[number as int % (config.servers@.len() as int)])
            &&& first == Some(config.servers@[0])
        },
{
}

/// As many numbers in a row as a configuration has servers choose every server of
/// the configuration.
pub proof fn law_every_configured_server_has_its_turn(
    config: UpstreamConfig,
    upstream: RuntimeUpstream,
    start: usize,
    position: int,
)
    requires
        call_ensures(RuntimeUpstream::from_config, (config,), upstream),
        0 <= position < config.servers@.len(),
        start + config.servers@.len() - 1 <= usize::MAX,
    ensures
        exists|number: usize|
            start <= number < start + config.servers@.len() && #[trigger] turn_of(
                upstream,
                number,
                config.servers@[position],
            ),
{
    let round = RuntimeUpstream { load_balancing: crate::config::LbMethod::RoundRobin, ..upstream };
    law_round_robin_is_fair(round, start, None, position);
    let draws = choose|draws: int|
        0 <= draws < round.servers@.len() && round.position_for(
            #[trigger] ticket_after(start, draws) as int,
        ) == position;
    let number = ticket_after(start, draws);
    vstd::arithmetic::div_mod::lemma_small_mod((start + draws) as nat, (usize::MAX + 1) as nat);
    assert(number == start + draws);
    assert(turn_of(upstream, number, config.servers@[position]));
}

/// Whether every choice for the number is the server.
pub open spec fn turn_of(upstream: RuntimeUpstream, number: usize, server: SocketAddr) -> bool {
    forall|res: Option<SocketAddr>| #[trigger]
        call_ensures(RuntimeUpstream::select_numbered, (&upstream, number), res) ==> res == Some(
            server,
        )
}

/// The key of a client is made of its octets, the length of its user agent in four
/// bytes, the most significant first, and the bytes of the user agent.
pub proof fn law_client_key(addr: SocketAddr, ua: &str, key: Vec<u8>)
    requires
        call_ensures(RuntimeUpstream::key_from_addr_and_ua, (addr, ua), key),
    ensures
        ({
            let octets = match addr {
                SocketAddr::V4(addr) => addr.octets@,
                SocketAddr::V6(addr) => addr.octets@,
            };
            let width = octets.len() as int;
            let bytes = encode_utf8(ua@);
            &&& key@.len() == width + 4 + bytes.len()
            &&& key@.take(width) == octets
            &&& key@[width] * 0x100_0000 + key@[width + 1] * 0x1_0000 + key@[width + 2] * 0x100
                + key@[width + 3] == bytes.len() % 0x1_0000_0000
            &&& key@.skip(width + 4) == bytes
        }),
{
    let octets = match addr {
        SocketAddr::V4(addr) => addr.octets@,
        SocketAddr::V6(addr) => addr.octets@,
    };
    let width = octets.len() as int;
    let bytes = encode_utf8(ua@);
    assert(key@.take(width) =~= octets);
    assert(key@.skip(width + 4) =~= bytes);
}

// ---- The texts of addresses ----

/// The IP address of a socket address has the octets of the socket address.
pub proof fn law_ip_of_socket(addr: SocketAddr, res: IpAddr)
    requires
        call_ensures(SocketAddr::ip, (&addr,), res),
    ensures
        match addr {
            SocketAddr::V4(addr) => res == IpAddr::V4(addr.octets),
            SocketAddr::V6(addr) => res == IpAddr::V6(addr.octets),
        },
        res == addr.spec_ip(),
{
}

/// A number below ten has one digit; any other has its last digit behind the digits
/// of its tenth.
pub proof fn law_decimal_digits(number: nat)
    ensures
        decimal(number).len() > 0,
        decimal(number).last() as int == 48 + number % 10,
        number < 10 ==> decimal(number).len() == 1,
        number >= 10 ==> decimal(number).drop_last() == decimal(number / 10),
{
    if number >= 10 {
        assert(decimal(number).drop_last() =~= decimal(number / 10));
    }
    assert(digit(number % 10) as int == 48 + number % 10);
}

/// An IPv4 address is written as its four octets with dots between them, and a
/// socket address as that, a colon and the port; an IPv6 address as std writes it.
pub proof fn law_address_texts(addr: SocketAddr)
    ensures
        addr matches SocketAddr::V4(v4) ==> {
            let ip = decimal(v4.octets@[0] as nat) + "."@ + decimal(v4.octets@[1] as nat) + "."@
                + decimal(v4.octets@[2] as nat) + "."@ + decimal(v4.octets@[3] as nat);
            &&& ip_text(addr.spec_ip()) == ip
            &&& socket_text(addr) == ip + ":"@ + decimal(v4.port as nat)
        },
        addr matches SocketAddr::V6(v6) ==> {
            &&& ip_text(addr.spec_ip()) == ipv6_text(v6.octets@)
            &&& socket_text(addr) == socket_v6_text(v6.octets@, v6.port, v6.flowinfo, v6.scope_id)
        },
{
}

} // verus!
