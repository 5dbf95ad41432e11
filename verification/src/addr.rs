//! Network addresses as plain numbers.
//!
//! An IPv4 address is the `u32` and an IPv6 address the `u128` whose big-endian bytes are the
//! address's octets.
use vstd::prelude::*;

verus! {

/// An IP address of either family.
#[derive(Clone, Copy, Debug, PartialEq, Eq, Structural)]
pub enum IpAddr {
    V4(u32),
    V6(u128),
}

/// An IPv4 address and a port.
#[derive(Clone, Copy, Debug, PartialEq, Eq, Structural)]
pub struct SocketAddrV4 {
    pub ip: u32,
    pub port: u16,
}

/// An IPv6 address and a port, with the flow information and scope that IPv6 sockets carry.
#[derive(Clone, Copy, Debug, PartialEq, Eq, Structural)]
pub struct SocketAddrV6 {
    pub ip: u128,
    pub port: u16,
    pub flowinfo: u32,
    pub scope_id: u32,
}

/// The address of one end of a UDP conversation.
#[derive(Clone, Copy, Debug, PartialEq, Eq, Structural)]
pub enum SocketAddr {
    V4(SocketAddrV4),
    V6(SocketAddrV6),
}

/// The first address of `::ffff:0:0/96`, the block that embeds the IPv4 addresses in IPv6.
pub const IPV4_MAPPED_BASE: u128 = 0xffff_0000_0000;

/// A socket address as a tuple of numbers: whether it is IPv6, address, port, flow information
/// and scope.
pub type AddrKey = (bool, u128, u16, u32, u32);

/// A remote socket address together with the local IP address, where one matters.
pub type RouteKey = (AddrKey, Option<(bool, u128)>);

impl IpAddr {
    /// The address as a tuple of numbers.
    pub open spec fn key_spec(self) -> (bool, u128) {
        match self {
            IpAddr::V4(ip) => (false, ip as u128),
            IpAddr::V6(ip) => (true, ip),
        }
    }

    /// The address as a tuple of numbers.
    pub fn key(&self) -> (k: (bool, u128))
        ensures
            k == self.key_spec(),
    {
        match *self {
            IpAddr::V4(ip) => (false, ip as u128),
            IpAddr::V6(ip) => (true, ip),
        }
    }
}

impl SocketAddr {
    /// The address as a tuple of numbers.
    pub open spec fn key_spec(self) -> AddrKey {
        match self {
            SocketAddr::V4(a) => (false, a.ip as u128, a.port, 0, 0),
            SocketAddr::V6(a) => (true, a.ip, a.port, a.flowinfo, a.scope_id),
        }
    }

    /// The address as a tuple of numbers.
    pub fn key(&self) -> (k: AddrKey)
        ensures
            k == self.key_spec(),
    {
        match *self {
            SocketAddr::V4(a) => (false, a.ip as u128, a.port, 0, 0),
            SocketAddr::V6(a) => (true, a.ip, a.port, a.flowinfo, a.scope_id),
        }
    }

    /// Whether this is an IPv6 address.
    pub fn is_ipv6(&self) -> (r: bool)
        ensures
            r == (self is V6),
    {
        match self {
            SocketAddr::V4(_) => false,
            SocketAddr::V6(_) => true,
        }
    }
}

/// The IPv6 form of an address: an IPv6 address is its own, an IPv4 address `a.b.c.d` becomes
/// the mapped `::ffff:a.b.c.d` on the same port.
pub open spec fn ipv6_form(x: SocketAddr) -> SocketAddrV6 {
    match x {
        SocketAddr::V6(a) => a,
        SocketAddr::V4(a) => SocketAddrV6 {
            ip: (IPV4_MAPPED_BASE + a.ip) as u128,
            port: a.port,
            flowinfo: 0,
            scope_id: 0,
        },
    }
}

/// Converts an address to the family that a dual-stack IPv6 socket speaks.
pub fn ensure_ipv6(x: SocketAddr) -> (r: SocketAddrV6)
    ensures
        r == ipv6_form(x),
{
    match x {
        SocketAddr::V6(a) => a,
        SocketAddr::V4(a) => SocketAddrV6 {
            ip: IPV4_MAPPED_BASE + a.ip as u128,
            port: a.port,
            flowinfo: 0,
            scope_id: 0,
        },
    }
}

/// The local address that a client of `remote` binds to: the wildcard address of the same
/// family, on a port of the system's choice.
pub open spec fn wildcard_for(remote: SocketAddr) -> SocketAddr {
    match remote {
        SocketAddr::V4(_) => SocketAddr::V4(SocketAddrV4 { ip: 0, port: 0 }),
        SocketAddr::V6(_) => SocketAddr::V6(
            SocketAddrV6 { ip: 0, port: 0, flowinfo: 0, scope_id: 0 },
        ),
    }
}

/// Chooses the local address to bind when connecting to `remote`.
pub fn bind_addr_for(remote: SocketAddr) -> (r: SocketAddr)
    ensures
        r == wildcard_for(remote),
{
    match remote {
        SocketAddr::V4(_) => SocketAddr::V4(SocketAddrV4 { ip: 0, port: 0 }),
        SocketAddr::V6(_) => SocketAddr::V6(
            SocketAddrV6 { ip: 0, port: 0, flowinfo: 0, scope_id: 0 },
        ),
    }
}

/// How the UDP socket of an endpoint is to be set up.
#[derive(Clone, Copy, Debug, PartialEq, Eq, Structural)]
pub struct SocketSetup {
    /// Open an IPv6 socket rather than an IPv4 one.
    pub ipv6: bool,
    /// Try to let the socket reach IPv4 peers too. Failure to do so is not an error.
    pub dual_stack: bool,
    /// The local address to bind.
    pub bind: SocketAddr,
}

/// Plans the UDP socket for an endpoint bound to the local address `addr`: of the address's own
/// family, dual-stack if that is IPv6, never dual-stack if it is IPv4.
pub fn socket_setup(addr: SocketAddr) -> (r: SocketSetup)
    ensures
        r.ipv6 == (addr is V6),
        r.dual_stack == (addr is V6),
        r.bind == addr,
{
    SocketSetup { ipv6: addr.is_ipv6(), dual_stack: addr.is_ipv6(), bind: addr }
}

/// Conversion to IPv6 is a projection: converting a converted address changes nothing.
pub proof fn law_ipv6_form_idempotent(x: SocketAddr)
    ensures
        ipv6_form(SocketAddr::V6(ipv6_form(x))) == ipv6_form(x),
{
}

/// Distinct IPv4 addresses stay distinct when converted to IPv6, and land in the mapped block.
pub proof fn law_ipv6_form_keeps_ipv4_apart(x: SocketAddrV4, y: SocketAddrV4)
    ensures
        ipv6_form(SocketAddr::V4(x)) == ipv6_form(SocketAddr::V4(y)) <==> x == y,
        IPV4_MAPPED_BASE <= ipv6_form(SocketAddr::V4(x)).ip <= IPV4_MAPPED_BASE + u32::MAX,
        ipv6_form(SocketAddr::V4(x)).port == x.port,
{
}

/// A client is bound to an address of the family of its peer, so the peer is always reachable
/// from it.
pub proof fn law_bind_address_has_the_family_of_the_peer(remote: SocketAddr)
    ensures
        wildcard_for(remote) is V6 <==> remote is V6,
{
}

/// Two socket addresses have the same key only if they are the same address.
pub proof fn law_addr_keys_are_unique(x: SocketAddr, y: SocketAddr)
    ensures
        x.key_spec() == y.key_spec() <==> x == y,
{
}

/// Two IP addresses have the same key only if they are the same address.
pub proof fn law_ip_keys_are_unique(x: IpAddr, y: IpAddr)
    ensures
        x.key_spec() == y.key_spec() <==> x == y,
{
}

/// The IPv6 form of an IPv6 address is the address, bit for bit. That of an IPv4 address has
/// `ffff` in front of the address's 32 bits, the same port, and neither flow information nor scope.
pub proof fn law_ipv6_form_keeps_the_address(six: SocketAddrV6, four: SocketAddrV4)
    ensures
        ipv6_form(SocketAddr::V6(six)) == six,
        ipv6_form(SocketAddr::V4(four)).ip == 0xffff_0000_0000 + four.ip,
        ipv6_form(SocketAddr::V4(four)).port == four.port,
        ipv6_form(SocketAddr::V4(four)).flowinfo == 0,
        ipv6_form(SocketAddr::V4(four)).scope_id == 0,
{
}

/// The address that a client binds to says nothing but the family: no address, no port, no flow
/// information and no scope, whatever the peer's are.
pub proof fn law_bind_address_is_unspecified(remote: SocketAddr)
    ensures
        match wildcard_for(remote) {
            SocketAddr::V4(a) => remote is V4 && a.ip == 0 && a.port == 0,
            SocketAddr::V6(a) => {
                remote is V6 && a.ip == 0 && a.port == 0 && a.flowinfo == 0 && a.scope_id == 0
            },
        },
{
}

} // verus!
