//! Upstream groups and the choice of a server among theirs.
use crate::addr::{IpAddr, SocketAddr};
use crate::config::{LbMethod, UpstreamConfig};
use crate::text::lemma_encode_injective;
use ahash::RandomState;
use std::sync::atomic::{AtomicUsize, Ordering};
use vstd::arithmetic::div_mod::{lemma_fundamental_div_mod, lemma_fundamental_div_mod_converse};
use vstd::arithmetic::div_mod::{lemma_mod_bound, lemma_mod_mod, lemma_small_mod};
use vstd::prelude::*;
use vstd::utf8::encode_utf8;

verus! {

/// `ahash::RandomState`, the keys of a hasher.
#[verifier::external_type_specification]
#[verifier::external_body]
pub struct ExRandomState(ahash::RandomState);

/// The hash of an IP address, given by its octets, under the keys of a hasher.
/// The keys are part of the value `state`: they are drawn once per process, so
/// another process has another `state`.
pub uninterp spec fn ip_hash(state: RandomState, octets: Seq<u8>) -> u64;

/// `RandomState::with_seed`. Nothing is claimed of the keys here: see
/// [`seeded_state`].
pub assume_specification [ RandomState::with_seed ](key: usize) -> RandomState;

/// Whether `RandomState::with_seed` gives `state` for the seed, and nothing else.
pub open spec fn is_seeded(state: RandomState, key: usize) -> bool {
    &&& call_ensures(RandomState::with_seed, (key,), state)
    &&& forall|other: RandomState| #[trigger]
        call_ensures(RandomState::with_seed, (key,), other) ==> other == state
}

/// Calls `RandomState::with_seed`. The contract claims that it gives the same keys
/// for the same seed each time. Which keys these are is not claimed: they also rest
/// on random numbers that are drawn once per process.
#[verifier::external_body]
fn seeded_state(key: usize) -> (res: RandomState)
    ensures
        is_seeded(res, key),
{
    RandomState::with_seed(key)
}

/// Calls `RandomState::hash_one` on an IP address. The contract claims that, under
/// given keys, the hash follows from the octets of the address alone.
#[verifier::external_body]
fn hash_ip(state: &RandomState, ip: IpAddr) -> (hash: u64)
    ensures
        hash == ip_hash(*state, ip.octets()),
{
    let ip = match ip {
        IpAddr::V4(octets) => core::net::IpAddr::from(octets),
        IpAddr::V6(octets) => core::net::IpAddr::from(octets),
    };
    state.hash_one(ip)
}

/// A group of servers at run time.
#[derive(Debug)]
pub struct RuntimeUpstream {
    pub servers: Vec<SocketAddr>,
    pub load_balancing: LbMethod,
    pub round_robin_index: AtomicUsize,
    pub state: RandomState,
}

impl RuntimeUpstream {
    /// Whether the group has the servers and the method of its configuration, a
    /// counter made with zero, and hash keys made from the seed zero.
    pub open spec fn built_from(&self, config: UpstreamConfig) -> bool {
        &&& self.servers == config.servers
        &&& self.load_balancing == config.load_balancing
        &&& call_ensures(AtomicUsize::new, (0usize,), self.round_robin_index)
        &&& is_seeded(self.state, 0)
    }

    /// Whether the group goes round its servers.
    pub open spec fn goes_round(&self) -> bool {
        self.load_balancing is RoundRobin && self.servers@.len() > 0
    }

    /// Whether `ticket` is what the counter of the group gave when it was moved on
    /// by one.
    pub open spec fn drawn(&self, ticket: usize) -> bool {
        call_ensures(
            AtomicUsize::fetch_add,
            (&self.round_robin_index, 1usize, Ordering::Relaxed),
            ticket,
        )
    }

    /// The server that a request gets which drew the number `ticket` from the
    /// counter of the group.
    pub open spec fn selection(&self, ticket: usize, remote_addr: Option<SocketAddr>) -> Option<
        SocketAddr,
    > {
        if self.servers@.len() == 0 {
            None
        } else {
            match self.load_balancing {
                LbMethod::RoundRobin => Some(self.server_for(ticket)),
                LbMethod::LeastConn => Some(self.servers@[0]),
                LbMethod::IpHash => match remote_addr {
                    Some(addr) => Some(
                        self.server_for(ip_hash(self.state, addr.spec_ip().octets()) as usize),
                    ),
                    None => None,
                },
            }
        }
    }

    /// The position of the server for a number: numbers go round the servers.
    pub open spec fn position_for(&self, number: int) -> int {
        number % (self.servers@.len() as int)
    }

    /// The server for a number.
    pub open spec fn server_for(&self, number: usize) -> SocketAddr {
        self.servers@[self.position_for(number as int)]
    }

    /// A group with the servers and the method of its configuration. The contract
    /// says what its counter is made with, and not where it stands: requests move
    /// it on through shared references.
    pub fn from_config(config: UpstreamConfig) -> (res: Self)
        ensures
            res.built_from(config),
            res.servers@ == config.servers@,
            res.load_balancing == config.load_balancing,
    {
        RuntimeUpstream {
            servers: config.servers,
            load_balancing: config.load_balancing,
            round_robin_index: AtomicUsize::new(0),
            state: seeded_state(0),
        }
    }

    /// Chooses a server for a request from `remote_addr`. In a group that goes
    /// round its servers, the request gets the server for the number that it draws
    /// from the counter of the group. All requests share the counter, so which
    /// number that is rests on the others.
    pub fn select_server(&self, remote_addr: Option<SocketAddr>) -> (res: Option<SocketAddr>)
        ensures
            exists|ticket: usize|
                res == #[trigger] self.selection(ticket, remote_addr) && (self.goes_round()
                    ==> self.drawn(ticket)),
    {
        if self.servers.is_empty() {
            assert(self.selection(0, remote_addr) is None);
            return None;
        }
        match self.load_balancing {
            LbMethod::RoundRobin => {
                let res = self.select_round_robin();
                proof {
                    let ticket = choose|ticket: usize|
                        res == Some(#[trigger] self.server_for(ticket)) && self.drawn(ticket);
                    assert(res == self.selection(ticket, remote_addr));
                }
                res
            },
            LbMethod::LeastConn => {
                assert(self.selection(0, remote_addr) == Some(self.servers@[0]));
                self.select_first()
            },
            LbMethod::IpHash => match remote_addr {
                Some(addr) => {
                    let res = self.select_ip_hash(addr.ip());
                    assert(res == self.selection(0, remote_addr));
                    res
                },
                None => {
                    assert(self.selection(0, remote_addr) is None);
                    None
                },
            },
        }
    }

    /// Chooses the server for the number that is drawn from the shared counter.
    fn select_round_robin(&self) -> (res: Option<SocketAddr>)
        requires
            self.servers@.len() > 0,
        ensures
            exists|ticket: usize|
                res == Some(#[trigger] self.server_for(ticket)) && self.drawn(ticket),
    {
        let ticket: usize = self.round_robin_index.fetch_add(1, Ordering::Relaxed);
        self.select_numbered(ticket)
    }

    /// Chooses the server for the hash of a client's address.
    fn select_ip_hash(&self, remote_ip: IpAddr) -> (res: Option<SocketAddr>)
        ensures
            res == if self.servers@.len() == 0 {
                None
            } else {
                Some(self.server_for(ip_hash(self.state, remote_ip.octets()) as usize))
            },
    {
        if self.servers.is_empty() {
            return None;
        }
        let hash: u64 = hash_ip(&self.state, remote_ip);
        self.select_numbered(hash as usize)
    }

    /// Chooses the server for a number, if there are servers.
    pub fn select_numbered(&self, number: usize) -> (res: Option<SocketAddr>)
        ensures
            res == if self.servers@.len() == 0 {
                None
            } else {
                Some(self.server_for(number))
            },
    {
        if self.servers.is_empty() {
            return None;
        }
        let index: usize = number % self.servers.len();
        Some(self.servers[index])
    }

    /// Chooses the first server, if there are servers.
    pub fn select_first(&self) -> (res: Option<SocketAddr>)
        ensures
            res == if self.servers@.len() == 0 {
                None
            } else {
                Some(self.servers@[0])
            },
    {
        if self.servers.is_empty() {
            None
        } else {
            Some(self.servers[0])
        }
    }

    /// A key for a client: the octets of its address, then the length of its user
    /// agent in four bytes, then the bytes of the user agent.
    pub fn key_from_addr_and_ua(addr: SocketAddr, ua: &str) -> (key: Vec<u8>)
        ensures
            key@ == client_key(addr.spec_ip(), ua@),
    {
        let ua_bytes: &[u8] = ua.as_bytes();
        let length: u64 = (ua_bytes.len() as u64) % 0x1_0000_0000;
        let mut key: Vec<u8> = Vec::new();
        match addr.ip() {
            IpAddr::V4(octets) => key.extend_from_slice(octets.as_slice()),
            IpAddr::V6(octets) => key.extend_from_slice(octets.as_slice()),
        }
        assert(key@ =~= addr.spec_ip().octets());
        key.push((length / 0x100_0000) as u8);
        key.push((length / 0x1_0000 % 0x100) as u8);
        key.push((length / 0x100 % 0x100) as u8);
        key.push((length % 0x100) as u8);
        assert(key@ =~= addr.spec_ip().octets() + length_bytes(encode_utf8(ua@).len()));
        key.extend_from_slice(ua_bytes);
        assert(key@ =~= client_key(addr.spec_ip(), ua@));
        key
    }
}

/// A length in four bytes, the most significant first, without what does not
/// fit into them.
pub open spec fn length_bytes(length: nat) -> Seq<u8> {
    let kept = length % 0x1_0000_0000;
    seq![
        (kept / 0x100_0000) as u8,
        (kept / 0x1_0000 % 0x100) as u8,
        (kept / 0x100 % 0x100) as u8,
        (kept % 0x100) as u8,
    ]
}

/// The key of a client with the given address and user agent.
pub open spec fn client_key(ip: IpAddr, ua: Seq<char>) -> Seq<u8> {
    ip.octets() + length_bytes(encode_utf8(ua).len()) + encode_utf8(ua)
}

/// Among addresses of one family, clients with the same key have the same
/// address and the same user agent.
pub proof fn law_client_key_is_unambiguous(
    first_ip: IpAddr,
    first_ua: Seq<char>,
    second_ip: IpAddr,
    second_ua: Seq<char>,
)
    requires
        first_ip is V4 <==> second_ip is V4,
        client_key(first_ip, first_ua) == client_key(second_ip, second_ua),
    ensures
        first_ip == second_ip,
        first_ua == second_ua,
{
    let first = client_key(first_ip, first_ua);
    let second = client_key(second_ip, second_ua);
    let width = first_ip.octets().len() as int;
    assert(first_ip.octets() =~= first.take(width));
    assert(second_ip.octets() =~= second.take(width));
    assert(encode_utf8(first_ua) =~= first.skip(width + 4));
    assert(encode_utf8(second_ua) =~= second.skip(width + 4));
    lemma_encode_injective(first_ua, second_ua);
    match (first_ip, second_ip) {
        (IpAddr::V4(a), IpAddr::V4(b)) => {
            assert(a =~= b);
        },
        (IpAddr::V6(a), IpAddr::V6(b)) => {
            assert(a =~= b);
        },
        _ => {},
    }
}

/// The number that a counter which steps by one gives some steps after it gave
/// `ticket`. It starts over after its largest number.
pub open spec fn ticket_after(ticket: usize, draws: int) -> usize {
    ((ticket + draws) % (usize::MAX + 1)) as usize
}

/// Whether a counter which steps by one goes through so many steps from `ticket`
/// on without starting over at a number that breaks the turns: it does not start
/// over, or the number of servers divides the number of its values.
pub open spec fn turns_unbroken(ticket: usize, draws: int, servers: int) -> bool {
    ticket + draws <= usize::MAX || (usize::MAX + 1) % servers == 0
}

/// Under round robin, the number that comes next, in a counter which steps by one,
/// stands for the next server, and after the last for the first.
pub proof fn law_round_robin_takes_turns(
    upstream: RuntimeUpstream,
    ticket: usize,
    remote_addr: Option<SocketAddr>,
)
    requires
        upstream.load_balancing is RoundRobin,
        upstream.servers@.len() > 0,
        turns_unbroken(ticket, 1, upstream.servers@.len() as int),
    ensures
        ({
            let count = upstream.servers@.len() as int;
            let here = upstream.position_for(ticket as int);
            let next = if here + 1 < count {
                here + 1
            } else {
                0
            };
            &&& 0 <= here < count
            &&& upstream.selection(ticket, remote_addr) == Some(upstream.servers@[here])
            &&& upstream.selection(ticket_after(ticket, 1), remote_addr) == Some(
                upstream.servers@[next],
            )
        }),
{
    let count = upstream.servers@.len() as int;
    lemma_next_position(ticket as int, count);
    lemma_ticket_position(ticket, 1, count);
}

/// Under round robin, as many numbers in a row as there are servers, in a counter
/// which steps by one, reach every server, each by exactly one of the numbers.
pub proof fn law_round_robin_is_fair(
    upstream: RuntimeUpstream,
    start: usize,
    remote_addr: Option<SocketAddr>,
    position: int,
)
    requires
        upstream.load_balancing is RoundRobin,
        0 <= position < upstream.servers@.len(),
        turns_unbroken(start, upstream.servers@.len() - 1, upstream.servers@.len() as int),
    ensures
        exists|draws: int|
            0 <= draws < upstream.servers@.len() && upstream.position_for(
                #[trigger] ticket_after(start, draws) as int,
            ) == position && upstream.selection(ticket_after(start, draws), remote_addr) == Some(
                upstream.servers@[position],
            ),
        forall|a: int, b: int|
            0 <= a < b < upstream.servers@.len() ==> upstream.position_for(
                #[trigger] ticket_after(start, a) as int,
            ) != upstream.position_for(#[trigger] ticket_after(start, b) as int),
{
    let count = upstream.servers@.len() as int;
    let first = start as int % count;
    lemma_mod_bound(start as int, count);
    let draws = if position >= first {
        position - first
    } else {
        position - first + count
    };
    lemma_steps_reach(start as int, count, draws, position);
    lemma_ticket_position(start, draws, count);
    assert(upstream.position_for(ticket_after(start, draws) as int) == position);
    assert forall|a: int, b: int| 0 <= a < b < count implies upstream.position_for(
        #[trigger] ticket_after(start, a) as int,
    ) != upstream.position_for(#[trigger] ticket_after(start, b) as int) by {
        lemma_ticket_position(start, a, count);
        lemma_ticket_position(start, b, count);
        lemma_steps_differ(start + a, start + b, count);
    }
}

/// Under IP hash, requests from one IP address get the same server, from
/// whatever port they come and whatever other requests there are.
pub proof fn law_ip_hash_keeps_client(
    upstream: RuntimeUpstream,
    first: SocketAddr,
    second: SocketAddr,
    first_ticket: usize,
    second_ticket: usize,
)
    requires
        upstream.load_balancing is IpHash,
        first.spec_ip() == second.spec_ip(),
    ensures
        upstream.selection(first_ticket, Some(first)) == upstream.selection(
            second_ticket,
            Some(second),
        ),
{
}

/// Groups with the same servers choose the same server for a client by IP hash:
/// their hash keys are made from one seed.
pub proof fn law_groups_hash_alike(
    first: RuntimeUpstream,
    first_config: UpstreamConfig,
    second: RuntimeUpstream,
    second_config: UpstreamConfig,
    remote_addr: SocketAddr,
    first_ticket: usize,
    second_ticket: usize,
)
    requires
        first.built_from(first_config),
        second.built_from(second_config),
        first_config.servers@ == second_config.servers@,
        first_config.load_balancing is IpHash,
        second_config.load_balancing is IpHash,
    ensures
        first.state == second.state,
        first.selection(first_ticket, Some(remote_addr)) == second.selection(
            second_ticket,
            Some(remote_addr),
        ),
{
}

/// A server is chosen exactly if the group has servers and, under IP hash, the
/// client's address is known; and it is one of the group.
pub proof fn law_selection_is_a_server(
    upstream: RuntimeUpstream,
    ticket: usize,
    remote_addr: Option<SocketAddr>,
)
    ensures
        upstream.selection(ticket, remote_addr) is Some <==> upstream.servers@.len() > 0 && (
        upstream.load_balancing is IpHash ==> remote_addr is Some),
        upstream.selection(ticket, remote_addr) matches Some(server)
            ==> upstream.servers@.contains(server),
{
    let count = upstream.servers@.len() as int;
    if count > 0 {
        lemma_mod_bound(ticket as int, count);
        if remote_addr is Some {
            let hash = ip_hash(upstream.state, remote_addr->0.spec_ip().octets());
            lemma_mod_bound(hash as usize as int, count);
        }
    }
}

/// Where the turns are unbroken, the counter's numbers have the remainders of
/// numbers that never start over.
proof fn lemma_ticket_position(ticket: usize, draws: int, count: int)
    requires
        0 < count,
        0 <= draws,
        turns_unbroken(ticket, draws, count),
    ensures
        ticket_after(ticket, draws) as int % count == (ticket + draws) % count,
{
    let values = usize::MAX + 1;
    let number = ticket + draws;
    lemma_mod_bound(number, values);
    if number <= usize::MAX {
        lemma_small_mod(number as nat, values as nat);
    } else {
        lemma_fundamental_div_mod(values, count);
        assert(values / count > 0) by (nonlinear_arith)
            requires
                values == count * (values / count),
                values > 0,
                count > 0,
        ;
        lemma_mod_mod(number, count, values / count);
    }
}

/// The remainder of the next number.
proof fn lemma_next_position(number: int, count: int)
    requires
        0 <= number,
        0 < count,
    ensures
        0 <= number % count < count,
        (number + 1) % count == if number % count + 1 < count {
            number % count + 1
        } else {
            0
        },
{
    lemma_mod_bound(number, count);
    if number % count + 1 < count {
        lemma_steps_reach(number, count, 1, number % count + 1);
    } else {
        lemma_steps_reach(number, count, 1, 0);
    }
}

/// The remainder some steps further, if these lead to it at once or past the end.
proof fn lemma_steps_reach(number: int, count: int, step: int, position: int)
    requires
        0 <= number,
        0 < count,
        0 <= position < count,
        number % count + step == position || number % count + step == position + count,
    ensures
        (number + step) % count == position,
{
    lemma_fundamental_div_mod(number, count);
    let quotient = number / count;
    if number % count + step == position {
        assert(number + step == quotient * count + position) by (nonlinear_arith)
            requires
                number == count * quotient + number % count,
                number % count + step == position,
        ;
        lemma_fundamental_div_mod_converse(number + step, count, quotient, position);
    } else {
        assert(number + step == (quotient + 1) * count + position) by (nonlinear_arith)
            requires
                number == count * quotient + number % count,
                number % count + step == position + count,
        ;
        lemma_fundamental_div_mod_converse(number + step, count, quotient + 1, position);
    }
}

/// Numbers that are less than `count` apart have different remainders.
proof fn lemma_steps_differ(a: int, b: int, count: int)
    requires
        0 <= a < b < a + count,
    ensures
        a % count != b % count,
{
    lemma_fundamental_div_mod(a, count);
    lemma_fundamental_div_mod(b, count);
    if a % count == b % count {
        let apart = b / count - a / count;
        assert(b - a == count * apart) by (nonlinear_arith)
            requires
                a == count * (a / count) + a % count,
                b == count * (b / count) + b % count,
                a % count == b % count,
                apart == b / count - a / count,
        ;
        assert(apart <= 0 ==> count * apart <= 0) by (nonlinear_arith)
            requires
                count > 0,
        ;
        assert(apart >= 1 ==> count * apart >= count) by (nonlinear_arith)
            requires
                count > 0,
        ;
    }
}

} // verus!
