//! Internet addresses as plain integers.

use vstd::prelude::*;

use crate::bytes::{be_bytes, lemma_be_bytes_len};

verus! {

/// An IPv4 address: its four octets as one number, the first octet the most
/// significant.
#[derive(Debug, Clone, Copy, PartialEq, Eq, Hash, Structural)]
pub struct Ipv4Addr {
    pub bits: u32,
}

/// An IPv6 address: its sixteen octets as one number, the first octet the most
/// significant.
#[derive(Debug, Clone, Copy, PartialEq, Eq, Hash, Structural)]
pub struct Ipv6Addr {
    pub bits: u128,
}

/// An address of either family.
#[derive(Debug, Clone, Copy, PartialEq, Eq, Hash, Structural)]
pub enum IpAddr {
    V4(Ipv4Addr),
    V6(Ipv6Addr),
}

/// An address with a port number. An IPv6 one carries the flow information and
/// the scope that a socket needs besides.
#[derive(Debug, Clone, Copy, PartialEq, Eq, Hash, Structural)]
#[allow(inconsistent_fields)]
pub enum SocketAddr {
    V4 { ip: Ipv4Addr, port: u16 },
    V6 { ip: Ipv6Addr, port: u16, flowinfo: u32, scope_id: u32 },
}

/// The number that four octets spell, the first the most significant.
pub open spec fn v4_bits(a: u8, b: u8, c: u8, d: u8) -> nat {
    (a * 0x100_0000 + b * 0x1_0000 + c * 0x100 + d) as nat
}

impl Ipv4Addr {
    /// The address `a.b.c.d`.
    pub fn new(a: u8, b: u8, c: u8, d: u8) -> (r: Self)
        ensures
            r.bits == a * 0x100_0000 + b * 0x1_0000 + c * 0x100 + d,
            r.bits == v4_bits(a, b, c, d),
    {
        Ipv4Addr {
            bits: a as u32 * 0x100_0000 + b as u32 * 0x1_0000 + c as u32 * 0x100 + d as u32,
        }
    }

    /// `0.0.0.0`.
    pub fn unspecified() -> (r: Self)
        ensures
            r.bits == 0,
    {
        Ipv4Addr { bits: 0 }
    }

    /// The octets in the order in which they are written.
    pub fn octets(&self) -> (r: [u8; 4])
        ensures
            r@ == be_bytes(self.bits as nat, 4),
    {
        reveal_with_fuel(be_bytes, 5);
        let b: u32 = self.bits;
        let r: [u8; 4] = [
            (b / 0x100_0000) as u8,
            (b / 0x1_0000 % 256) as u8,
            (b / 0x100 % 256) as u8,
            (b % 256) as u8,
        ];
        assert(r@ =~= be_bytes(self.bits as nat, 4));
        r
    }
}

/// The number that eight 16-bit groups spell, the first the most significant.
pub open spec fn v6_bits(groups: Seq<u16>) -> nat
    decreases groups.len(),
{
    if groups.len() == 0 {
        0
    } else {
        v6_bits(groups.drop_last()) * 0x1_0000 + groups.last() as nat
    }
}

impl Ipv6Addr {
    /// The address that the eight groups spell.
    pub fn new(a: u16, b: u16, c: u16, d: u16, e: u16, f: u16, g: u16, h: u16) -> (r: Self)
        ensures
            r.bits == v6_bits(seq![a, b, c, d, e, f, g, h]),
            r.bits / 0x1_0000_0000_0000_0000 == a * 0x1_0000_0000_0000 + b * 0x1_0000_0000 + c
                * 0x1_0000 + d,
            r.bits % 0x1_0000_0000_0000_0000 == e * 0x1_0000_0000_0000 + f * 0x1_0000_0000 + g
                * 0x1_0000 + h,
    {
        proof {
            let s = seq![a, b, c, d, e, f, g, h];
            assert(s.drop_last() =~= seq![a, b, c, d, e, f, g]);
            assert(s.drop_last().drop_last() =~= seq![a, b, c, d, e, f]);
            assert(seq![a, b, c, d, e, f].drop_last() =~= seq![a, b, c, d, e]);
            assert(seq![a, b, c, d, e].drop_last() =~= seq![a, b, c, d]);
            assert(seq![a, b, c, d].drop_last() =~= seq![a, b, c]);
            assert(seq![a, b, c].drop_last() =~= seq![a, b]);
            assert(seq![a, b].drop_last() =~= seq![a]);
            assert(seq![a].drop_last() =~= Seq::<u16>::empty());
            reveal_with_fuel(v6_bits, 9);
        }
        let hi: u64 = a as u64 * 0x1_0000_0000_0000 + b as u64 * 0x1_0000_0000 + c as u64
            * 0x1_0000 + d as u64;
        let lo: u64 = e as u64 * 0x1_0000_0000_0000 + f as u64 * 0x1_0000_0000 + g as u64
            * 0x1_0000 + h as u64;
        Ipv6Addr { bits: hi as u128 * 0x1_0000_0000_0000_0000 + lo as u128 }
    }

    /// `::`.
    pub fn unspecified() -> (r: Self)
        ensures
            r.bits == 0,
    {
        Ipv6Addr { bits: 0 }
    }

    /// The octets in the order in which they are sent.
    pub fn octets(&self) -> (r: [u8; 16])
        ensures
            r@ == be_bytes(self.bits as nat, 16),
    {
        let mut r: [u8; 16] = [0; 16];
        let mut rest: u128 = self.bits;
        let mut i: usize = 16;
        assert(r@.subrange(16, 16) =~= Seq::<u8>::empty());
        assert(be_bytes(rest as nat, 16) + r@.subrange(16, 16) =~= be_bytes(rest as nat, 16));
        while i > 0
            invariant
                i <= 16,
                r@.len() == 16,
                be_bytes(self.bits as nat, 16) == be_bytes(rest as nat, i as nat) + r@.subrange(
                    i as int,
                    16,
                ),
            decreases i,
        {
            let ghost before = r@;
            i = i - 1;
            r[i] = (rest % 256) as u8;
            proof {
                let digit = (rest % 256) as u8;
                assert(r@.subrange(i as int, 16) =~= seq![digit] + before.subrange(i + 1, 16));
                assert(be_bytes(rest as nat, (i + 1) as nat) == be_bytes(
                    (rest / 256) as nat,
                    i as nat,
                ).push(digit));
                assert(be_bytes((rest / 256) as nat, i as nat).push(digit) + before.subrange(
                    i + 1,
                    16,
                ) =~= be_bytes((rest / 256) as nat, i as nat) + r@.subrange(i as int, 16));
            }
            rest = rest / 256;
        }
        assert(be_bytes(rest as nat, 0) + r@.subrange(0, 16) =~= r@);
        r
    }
}

impl IpAddr {
    /// `127.0.0.0/8`, or `::1`.
    pub open spec fn loopback(self) -> bool {
        match self {
            IpAddr::V4(a) => a.bits / 0x100_0000 == 127,
            IpAddr::V6(a) => a.bits == 1,
        }
    }

    /// The all-zero address of its family.
    pub open spec fn unspecified(self) -> bool {
        match self {
            IpAddr::V4(a) => a.bits == 0,
            IpAddr::V6(a) => a.bits == 0,
        }
    }

    pub fn is_loopback(&self) -> (r: bool)
        ensures
            r == self.loopback(),
    {
        match self {
            IpAddr::V4(a) => a.bits / 0x100_0000 == 127,
            IpAddr::V6(a) => a.bits == 1,
        }
    }

    pub fn is_unspecified(&self) -> (r: bool)
        ensures
            r == self.unspecified(),
    {
        match self {
            IpAddr::V4(a) => a.bits == 0,
            IpAddr::V6(a) => a.bits == 0,
        }
    }
}

impl SocketAddr {
    /// The address part.
    pub open spec fn addr(self) -> IpAddr {
        match self {
            SocketAddr::V4 { ip, .. } => IpAddr::V4(ip),
            SocketAddr::V6 { ip, .. } => IpAddr::V6(ip),
        }
    }

    /// The port part.
    pub open spec fn port_number(self) -> u16 {
        match self {
            SocketAddr::V4 { port, .. } => port,
            SocketAddr::V6 { port, .. } => port,
        }
    }

    /// `ip` with `port`; an IPv6 address gets no flow information and no scope.
    pub fn new(ip: IpAddr, port: u16) -> (r: Self)
        ensures
            r.addr() == ip,
            r.port_number() == port,
            r matches SocketAddr::V6 { flowinfo, scope_id, .. } ==> flowinfo == 0 && scope_id == 0,
    {
        match ip {
            IpAddr::V4(ip) => SocketAddr::V4 { ip, port },
            IpAddr::V6(ip) => SocketAddr::V6 { ip, port, flowinfo: 0, scope_id: 0 },
        }
    }

    pub fn ip(&self) -> (r: IpAddr)
        ensures
            r == self.addr(),
    {
        match *self {
            SocketAddr::V4 { ip, .. } => IpAddr::V4(ip),
            SocketAddr::V6 { ip, .. } => IpAddr::V6(ip),
        }
    }

    pub fn port(&self) -> (r: u16)
        ensures
            r == self.port_number(),
    {
        match *self {
            SocketAddr::V4 { port, .. } => port,
            SocketAddr::V6 { port, .. } => port,
        }
    }
}

/// An IPv4 address is loopback when its first octet is 127, an IPv6 address
/// when its octets spell 1; an address is unspecified when its octets spell 0.
pub proof fn law_special_addresses(a: IpAddr)
    ensures
        a matches IpAddr::V4(v) ==> {
            &&& a.loopback() <==> be_bytes(v.bits as nat, 4)[0] == 127
            &&& a.loopback() <==> 0x7F00_0000 <= v.bits <= 0x7FFF_FFFF
            &&& a.unspecified() <==> v.bits == 0
        },
        a matches IpAddr::V6(v) ==> {
            &&& a.loopback() <==> v.bits == 1
            &&& a.unspecified() <==> v.bits == 0
        },
{
    broadcast use lemma_be_bytes_len;

    if let IpAddr::V4(v) = a {
        let x4: nat = v.bits as nat;
        let x3: nat = x4 / 256;
        let x2: nat = x3 / 256;
        let x1: nat = x2 / 256;
        assert(x1 == x4 / 0x100_0000 && x1 < 256);
        assert(be_bytes(x1, 1) == be_bytes(x1 / 256, 0).push(x1 as u8));
        assert(be_bytes(x1, 1)[0] == x1);
        assert(be_bytes(x2, 2) == be_bytes(x1, 1).push((x2 % 256) as u8));
        assert(be_bytes(x3, 3) == be_bytes(x2, 2).push((x3 % 256) as u8));
        assert(be_bytes(x4, 4) == be_bytes(x3, 3).push((x4 % 256) as u8));
    }
}

/// A socket address has the address and the port it was written with, whatever
/// else it carries.
pub proof fn law_socket_parts(ip4: Ipv4Addr, ip6: Ipv6Addr, port: u16, flowinfo: u32, scope_id: u32)
    ensures
        (SocketAddr::V4 { ip: ip4, port }).addr() == IpAddr::V4(ip4),
        (SocketAddr::V4 { ip: ip4, port }).port_number() == port,
        (SocketAddr::V6 { ip: ip6, port, flowinfo, scope_id }).addr() == IpAddr::V6(ip6),
        (SocketAddr::V6 { ip: ip6, port, flowinfo, scope_id }).port_number() == port,
{
}

/// The octets of an IPv4 address are those it was made of.
pub proof fn law_v4_octets(a: u8, b: u8, c: u8, d: u8)
    ensures
        be_bytes(v4_bits(a, b, c, d), 4) == seq![a, b, c, d],
        v4_bits(a, b, c, d) <= u32::MAX,
{
    let x1: nat = a as nat;
    let x2: nat = x1 * 256 + b as nat;
    let x3: nat = x2 * 256 + c as nat;
    let x4: nat = x3 * 256 + d as nat;
    assert(x4 == v4_bits(a, b, c, d));
    assert(x4 / 256 == x3 && x4 % 256 == d);
    assert(x3 / 256 == x2 && x3 % 256 == c);
    assert(x2 / 256 == x1 && x2 % 256 == b);
    assert(x1 / 256 == 0 && x1 % 256 == a);
    assert(be_bytes(0, 0) =~= Seq::<u8>::empty());
    assert(be_bytes(x1, 1) == be_bytes(0, 0).push(a));
    assert(be_bytes(x2, 2) == be_bytes(x1, 1).push(b));
    assert(be_bytes(x3, 3) == be_bytes(x2, 2).push(c));
    assert(be_bytes(x4, 4) == be_bytes(x3, 3).push(d));
    assert(be_bytes(x4, 4) =~= seq![a, b, c, d]);
}

/// The octets of an IPv6 address are those of its groups, two for each.
pub proof fn law_v6_octets(groups: Seq<u16>, last: u16)
    ensures
        be_bytes(v6_bits(Seq::empty()), 0) == Seq::<u8>::empty(),
        be_bytes(v6_bits(groups.push(last)), 2 * groups.len() + 2) == be_bytes(
            v6_bits(groups),
            2 * groups.len(),
        ) + seq![(last / 256) as u8, (last % 256) as u8],
{
    reveal_with_fuel(be_bytes, 3);
    assert(groups.push(last).drop_last() =~= groups);
    let x = v6_bits(groups);
    let y = v6_bits(groups.push(last));
    let n = 2 * groups.len();
    assert(y == x * 0x1_0000 + last);
    assert(y / 256 / 256 == x);
    assert(be_bytes(y, n + 2) == be_bytes(y / 256, n + 1).push((y % 256) as u8));
    assert(be_bytes(y / 256, n + 1) == be_bytes(x, n).push((y / 256 % 256) as u8));
    assert(be_bytes(y, n + 2) =~= be_bytes(x, n) + seq![(last / 256) as u8, (last % 256) as u8]);
}

} // verus!
