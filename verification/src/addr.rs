//! Socket addresses as plain values, and their texts.
use vstd::prelude::*;

verus! {

/// An IP address, by its octets in network order.
#[derive(Clone, Copy, Debug, PartialEq, Eq)]
pub enum IpAddr {
    V4([u8; 4]),
    V6([u8; 16]),
}

impl IpAddr {
    /// The octets of the address: four, or sixteen.
    pub open spec fn octets(self) -> Seq<u8> {
        match self {
            IpAddr::V4(octets) => octets@,
            IpAddr::V6(octets) => octets@,
        }
    }
}

/// An address to listen on or to connect to.
#[derive(Clone, Copy, Debug, PartialEq, Eq)]
pub enum SocketAddr {
    V4(SocketAddrV4),
    V6(SocketAddrV6),
}

/// An IPv4 address and a port.
#[derive(Clone, Copy, Debug, PartialEq, Eq)]
pub struct SocketAddrV4 {
    pub octets: [u8; 4],
    pub port: u16,
}

/// An IPv6 address and a port, with the flow information and the scope that
/// go with an IPv6 endpoint.
#[derive(Clone, Copy, Debug, PartialEq, Eq)]
pub struct SocketAddrV6 {
    pub octets: [u8; 16],
    pub port: u16,
    pub flowinfo: u32,
    pub scope_id: u32,
}

/// A digit.
pub open spec fn digit(value: nat) -> char {
    ('0' as u32 + value) as char
}

/// A number in decimal digits.
pub open spec fn decimal(number: nat) -> Seq<char>
    decreases number,
{
    if number < 10 {
        seq![digit(number)]
    } else {
        decimal(number / 10).push(digit(number % 10))
    }
}

/// The octets of an IPv4 address in decimal digits, with dots between them.
pub open spec fn dotted(octets: Seq<u8>) -> Seq<char> {
    decimal(octets[0] as nat) + "."@ + decimal(octets[1] as nat) + "."@ + decimal(
        octets[2] as nat,
    ) + "."@ + decimal(octets[3] as nat)
}

/// The text of an IPv6 address, given by its octets, as `to_string` of
/// `core::net::IpAddr` gives it.
pub uninterp spec fn ipv6_text(octets: Seq<u8>) -> Seq<char>;

/// The text of an IPv6 socket address, as `to_string` of `core::net::SocketAddr`
/// gives it.
pub uninterp spec fn socket_v6_text(
    octets: Seq<u8>,
    port: u16,
    flowinfo: u32,
    scope_id: u32,
) -> Seq<char>;

/// The text of an IP address.
pub open spec fn ip_text(ip: IpAddr) -> Seq<char> {
    match ip {
        IpAddr::V4(octets) => dotted(octets@),
        IpAddr::V6(octets) => ipv6_text(octets@),
    }
}

/// The text of a socket address.
pub open spec fn socket_text(addr: SocketAddr) -> Seq<char> {
    match addr {
        SocketAddr::V4(addr) => dotted(addr.octets@) + ":"@ + decimal(addr.port as nat),
        SocketAddr::V6(addr) => socket_v6_text(
            addr.octets@,
            addr.port,
            addr.flowinfo,
            addr.scope_id,
        ),
    }
}

/// Calls `to_string` of `core::net::IpAddr`. The contract claims that the text of
/// an IPv4 address is its octets in decimal digits, with dots between them, and
/// that the text of an IPv6 address follows from its octets alone.
#[verifier::external_body]
pub(crate) fn ip_to_string(ip: IpAddr) -> (res: String)
    ensures
        match ip {
            IpAddr::V4(octets) => res@ == dotted(octets@),
            IpAddr::V6(octets) => res@ == ipv6_text(octets@),
        },
{
    let ip = match ip {
        IpAddr::V4(octets) => core::net::IpAddr::from(octets),
        IpAddr::V6(octets) => core::net::IpAddr::from(octets),
    };
    ip.to_string()
}

/// Calls `to_string` of `core::net::SocketAddr`. The contract claims that the text
/// of an IPv4 socket address is that of its IP address, a colon, and the port in
/// decimal digits, and that the text of an IPv6 one follows from its parts alone.
#[verifier::external_body]
pub(crate) fn socket_to_string(addr: SocketAddr) -> (res: String)
    ensures
        match addr {
            SocketAddr::V4(addr) => res@ == dotted(addr.octets@) + ":"@ + decimal(
                addr.port as nat,
            ),
            SocketAddr::V6(addr) => res@ == socket_v6_text(
                addr.octets@,
                addr.port,
                addr.flowinfo,
                addr.scope_id,
            ),
        },
{
    let addr = match addr {
        SocketAddr::V4(addr) => core::net::SocketAddr::from((addr.octets, addr.port)),
        SocketAddr::V6(addr) => core::net::SocketAddr::V6(
            core::net::SocketAddrV6::new(
                addr.octets.into(),
                addr.port,
                addr.flowinfo,
                addr.scope_id,
            ),
        ),
    };
    addr.to_string()
}

impl SocketAddr {
    /// The IP address of a socket address.
    pub open spec fn spec_ip(self) -> IpAddr {
        match self {
            SocketAddr::V4(addr) => IpAddr::V4(addr.octets),
            SocketAddr::V6(addr) => IpAddr::V6(addr.octets),
        }
    }

    /// The IP address, without the port.
    pub fn ip(&self) -> (ip: IpAddr)
        ensures
            ip == self.spec_ip(),
    {
        match *self {
            SocketAddr::V4(addr) => IpAddr::V4(addr.octets),
            SocketAddr::V6(addr) => IpAddr::V6(addr.octets),
        }
    }
}

} // verus!
