//! Internet addresses as numbers.

use vstd::prelude::*;

use crate::bytes;

verus! {

/// An IPv4 address; `bits` reads its four octets as one number.
#[derive(Clone, Copy, Debug, PartialEq, Eq, Hash, Structural)]
pub struct Ipv4Addr {
    pub bits: u32,
}

/// An IPv6 address; `bits` reads its sixteen octets as one number.
#[derive(Clone, Copy, Debug, PartialEq, Eq, Hash, Structural)]
pub struct Ipv6Addr {
    pub bits: u128,
}

/// An address of either family.
#[derive(Clone, Copy, Debug, PartialEq, Eq, Hash, Structural)]
pub enum IpAddr {
    V4(Ipv4Addr),
    V6(Ipv6Addr),
}

/// An IPv4 address with a port.
#[derive(Clone, Copy, Debug, PartialEq, Eq, Hash, Structural)]
pub struct SocketAddrV4 {
    pub ip: Ipv4Addr,
    pub port: u16,
}

/// An IPv6 address with a port, a flow label and a scope.
#[derive(Clone, Copy, Debug, PartialEq, Eq, Hash, Structural)]
pub struct SocketAddrV6 {
    pub ip: Ipv6Addr,
    pub port: u16,
    pub flowinfo: u32,
    pub scope_id: u32,
}

/// An address with a port.
#[derive(Clone, Copy, Debug, PartialEq, Eq, Hash, Structural)]
pub enum SocketAddr {
    V4(SocketAddrV4),
    V6(SocketAddrV6),
}

/// An IP address and the length of its subnet's prefix.
pub type IpWithPrefix = (IpAddr, u8);

impl Ipv4Addr {
    /// The address whose octets are `a.b.c.d`.
    pub fn new(a: u8, b: u8, c: u8, d: u8) -> (ip: Ipv4Addr)
        ensures
            ip.bits == 0x100_0000 * a + 0x1_0000 * b + 0x100 * c + d,
    {
        Ipv4Addr { bits: a as u32 * 0x100_0000 + b as u32 * 0x1_0000 + c as u32 * 0x100 + d as u32 }
    }

    /// The four octets, in the order in which they are written.
    pub fn octets(&self) -> (octets: Vec<u8>)
        ensures
            octets@ == bytes::be_bytes(self.bits as nat, 4),
            octets.len() == 4,
    {
        bytes::to_be_bytes(self.bits as u128, 4)
    }

    /// The address with these four octets.
    pub fn from_octets(octets: &[u8]) -> (ip: Ipv4Addr)
        requires
            octets@.len() == 4,
        ensures
            ip.bits == bytes::be_value(octets@),
    {
        proof {
            bytes::be_value_written_back(octets@);
            bytes::lemma_byte_range_values();
        }
        Ipv4Addr { bits: bytes::from_be_bytes(octets) as u32 }
    }
}

impl Ipv6Addr {
    /// The address whose sixteen-bit groups are `a:b:c:d:e:f:g:h`.
    pub fn new(a: u16, b: u16, c: u16, d: u16, e: u16, f: u16, g: u16, h: u16) -> (ip: Ipv6Addr)
        ensures
            ip.bits == h + 0x1_0000 * (g + 0x1_0000 * (f + 0x1_0000 * (e + 0x1_0000 * (d + 0x1_0000
                * (c + 0x1_0000 * (b + 0x1_0000 * a)))))),
    {
        let high: u128 = ((a as u128 * 0x1_0000 + b as u128) * 0x1_0000 + c as u128) * 0x1_0000
            + d as u128;
        let low: u128 = ((e as u128 * 0x1_0000 + f as u128) * 0x1_0000 + g as u128) * 0x1_0000
            + h as u128;
        Ipv6Addr { bits: high * 0x1_0000_0000_0000_0000 + low }
    }

    /// The sixteen octets, in the order in which they are written.
    pub fn octets(&self) -> (octets: Vec<u8>)
        ensures
            octets@ == bytes::be_bytes(self.bits as nat, 16),
            octets.len() == 16,
    {
        bytes::to_be_bytes(self.bits, 16)
    }

    /// The address with these sixteen octets.
    pub fn from_octets(octets: &[u8]) -> (ip: Ipv6Addr)
        requires
            octets@.len() == 16,
        ensures
            ip.bits == bytes::be_value(octets@),
    {
        Ipv6Addr { bits: bytes::from_be_bytes(octets) }
    }
}

impl IpAddr {
    /// The all-zero address of its family.
    pub open spec fn spec_is_unspecified(&self) -> bool {
        match self {
            IpAddr::V4(v4) => v4.bits == 0,
            IpAddr::V6(v6) => v6.bits == 0,
        }
    }

    #[verifier::when_used_as_spec(spec_is_unspecified)]
    pub fn is_unspecified(&self) -> (unspecified: bool)
        ensures
            unspecified == self.spec_is_unspecified(),
    {
        match self {
            IpAddr::V4(v4) => v4.bits == 0,
            IpAddr::V6(v6) => v6.bits == 0,
        }
    }

    /// The longest prefix that a subnet of this family can have.
    pub open spec fn spec_max_prefix_len(&self) -> u8 {
        match self {
            IpAddr::V4(_) => 32,
            IpAddr::V6(_) => 128,
        }
    }

    #[verifier::when_used_as_spec(spec_max_prefix_len)]
    pub fn max_prefix_len(&self) -> (len: u8)
        ensures
            len == self.spec_max_prefix_len(),
    {
        match self {
            IpAddr::V4(_) => 32,
            IpAddr::V6(_) => 128,
        }
    }
}

impl SocketAddr {
    /// An address with a port; flow label and scope of an IPv6 address are zero.
    pub open spec fn spec_new(ip: IpAddr, port: u16) -> SocketAddr {
        match ip {
            IpAddr::V4(ip) => SocketAddr::V4(SocketAddrV4 { ip, port }),
            IpAddr::V6(ip) => SocketAddr::V6(
                SocketAddrV6 { ip, port, flowinfo: 0, scope_id: 0 },
            ),
        }
    }

    #[verifier::when_used_as_spec(spec_new)]
    pub fn new(ip: IpAddr, port: u16) -> (addr: SocketAddr)
        ensures
            addr == SocketAddr::spec_new(ip, port),
    {
        match ip {
            IpAddr::V4(ip) => SocketAddr::V4(SocketAddrV4 { ip, port }),
            IpAddr::V6(ip) => SocketAddr::V6(
                SocketAddrV6 { ip, port, flowinfo: 0, scope_id: 0 },
            ),
        }
    }

    pub open spec fn spec_ip(&self) -> IpAddr {
        match self {
            SocketAddr::V4(v4) => IpAddr::V4(v4.ip),
            SocketAddr::V6(v6) => IpAddr::V6(v6.ip),
        }
    }

    #[verifier::when_used_as_spec(spec_ip)]
    pub fn ip(&self) -> (ip: IpAddr)
        ensures
            ip == self.spec_ip(),
    {
        match self {
            SocketAddr::V4(v4) => IpAddr::V4(v4.ip),
            SocketAddr::V6(v6) => IpAddr::V6(v6.ip),
        }
    }

    pub open spec fn spec_port(&self) -> u16 {
        match self {
            SocketAddr::V4(v4) => v4.port,
            SocketAddr::V6(v6) => v6.port,
        }
    }

    #[verifier::when_used_as_spec(spec_port)]
    pub fn port(&self) -> (port: u16)
        ensures
            port == self.spec_port(),
    {
        match self {
            SocketAddr::V4(v4) => v4.port,
            SocketAddr::V6(v6) => v6.port,
        }
    }
}

/// An address and a port are what they were put together from.
pub proof fn socket_addr_keeps_ip_and_port(ip: IpAddr, port: u16)
    ensures
        SocketAddr::spec_new(ip, port).spec_ip() == ip,
        SocketAddr::spec_new(ip, port).spec_port() == port,
{
}

/// An IPv4 address spells its octets, the first one highest.
pub proof fn ipv4_octets_spell_the_address(
    a: u8,
    b: u8,
    c: u8,
    d: u8,
    ip: Ipv4Addr,
    octets: Vec<u8>,
    written: &[u8],
    back: Ipv4Addr,
)
    requires
        call_ensures(Ipv4Addr::new, (a, b, c, d), ip),
        call_ensures(Ipv4Addr::octets, (&ip,), octets),
        written@.len() == 4,
        call_ensures(Ipv4Addr::from_octets, (written,), back),
    ensures
        ip.bits == 0x100_0000 * a + 0x1_0000 * b + 0x100 * c + d,
        octets@ == seq![a, b, c, d],
        back.bits == 0x100_0000 * written@[0] + 0x1_0000 * written@[1] + 0x100 * written@[2]
            + written@[3],
        written@ == octets@ ==> back == ip,
{
    bytes::four_bytes_spell(written@);
    let made = seq![a, b, c, d];
    bytes::four_bytes_spell(made);
    bytes::be_value_written_back(made);
    assert(octets@ =~= made);
}

/// An IPv6 address spells its groups, the first one highest, and reads back from
/// its octets.
pub proof fn ipv6_octets_read_back(
    a: u16,
    b: u16,
    c: u16,
    d: u16,
    e: u16,
    f: u16,
    g: u16,
    h: u16,
    ip: Ipv6Addr,
    octets: Vec<u8>,
    written: &[u8],
    back: Ipv6Addr,
)
    requires
        call_ensures(Ipv6Addr::new, (a, b, c, d, e, f, g, h), ip),
        call_ensures(Ipv6Addr::octets, (&ip,), octets),
        written@ == octets@,
        call_ensures(Ipv6Addr::from_octets, (written,), back),
    ensures
        ip.bits == h + 0x1_0000 * (g + 0x1_0000 * (f + 0x1_0000 * (e + 0x1_0000 * (d + 0x1_0000 * (c
            + 0x1_0000 * (b + 0x1_0000 * a)))))),
        octets@.len() == 16,
        octets@[15] == ip.bits % 256,
        bytes::be_value(octets@) == ip.bits,
        back == ip,
{
    bytes::lemma_byte_range_values();
    bytes::be_bytes_read_back(ip.bits as nat, 16);
}

/// Only the address of all zeros is unspecified; a prefix is at most as long as
/// the address.
pub proof fn unspecified_is_all_zeros(ip: IpAddr, unspecified: bool, len: u8)
    requires
        call_ensures(IpAddr::is_unspecified, (&ip,), unspecified),
        call_ensures(IpAddr::max_prefix_len, (&ip,), len),
    ensures
        ip matches IpAddr::V4(v4) ==> unspecified == (v4.bits == 0) && len == 32,
        ip matches IpAddr::V6(v6) ==> unspecified == (v6.bits == 0) && len == 128,
{
}

/// An address with a port gives both back, whatever else it carries, and a new
/// one carries nothing else.
pub proof fn socket_addr_has_ip_and_port(
    addr: SocketAddr,
    ip: IpAddr,
    port: u16,
    other_ip: IpAddr,
    other_port: u16,
    made: SocketAddr,
)
    requires
        call_ensures(SocketAddr::ip, (&addr,), ip),
        call_ensures(SocketAddr::port, (&addr,), port),
        call_ensures(SocketAddr::new, (other_ip, other_port), made),
    ensures
        addr matches SocketAddr::V4(v4) ==> ip == IpAddr::V4(v4.ip) && port == v4.port,
        addr matches SocketAddr::V6(v6) ==> ip == IpAddr::V6(v6.ip) && port == v6.port,
        other_ip matches IpAddr::V4(v4) ==> made == SocketAddr::V4(
            SocketAddrV4 { ip: v4, port: other_port },
        ),
        other_ip matches IpAddr::V6(v6) ==> made == SocketAddr::V6(
            SocketAddrV6 { ip: v6, port: other_port, flowinfo: 0, scope_id: 0 },
        ),
{
}

/// The octets of an IPv6 address are its bits from the highest to the lowest: any 16
/// of them make the address that they spell.
pub proof fn ipv6_octets_spell_the_address(octets: &[u8], ip: Ipv6Addr)
    requires
        octets@.len() == 16,
        call_ensures(Ipv6Addr::from_octets, (octets,), ip),
    ensures
        bytes::be_value(octets@) == ip.bits,
{
}

} // verus!
