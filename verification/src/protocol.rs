//! The protocols that captured packets are told apart by.

use vstd::prelude::*;

verus! {

/// What a packet carries above its addresses.
#[derive(Debug, Clone, Copy, PartialEq, Eq, Hash, Structural)]
pub enum Protocol {
    Tcp,
    Udp,
    Icmpv4,
    Icmpv6,
    Igmp,
    Arp,
}

impl Protocol {
    /// The IANA number; ARP is not carried over IP and has none.
    pub open spec fn iana(self) -> Option<u8> {
        match self {
            Protocol::Tcp => Some(6),
            Protocol::Udp => Some(17),
            Protocol::Icmpv4 => Some(1),
            Protocol::Icmpv6 => Some(58),
            Protocol::Igmp => Some(2),
            Protocol::Arp => None,
        }
    }

    pub fn number(self) -> (r: Option<u8>)
        ensures
            r == self.iana(),
    {
        match self {
            Protocol::Tcp => Some(6),
            Protocol::Udp => Some(17),
            Protocol::Icmpv4 => Some(1),
            Protocol::Icmpv6 => Some(58),
            Protocol::Igmp => Some(2),
            Protocol::Arp => None,
        }
    }

    /// The protocol with the given IANA number, if it is one of these.
    pub fn from_number(number: u8) -> (r: Option<Self>)
        ensures
            match r {
                Some(p) => p.iana() == Some(number),
                None => forall|p: Protocol| #[trigger] p.iana() != Some(number),
            },
    {
        match number {
            6 => Some(Protocol::Tcp),
            17 => Some(Protocol::Udp),
            1 => Some(Protocol::Icmpv4),
            58 => Some(Protocol::Icmpv6),
            2 => Some(Protocol::Igmp),
            _ => None,
        }
    }
}

/// No two protocols share a number.
pub proof fn law_number_identifies_protocol(a: Protocol, b: Protocol)
    requires
        a.iana() == b.iana(),
    ensures
        a == b,
{
}

/// The numbers are those that IANA assigned, and only ARP has none.
pub proof fn law_assigned_numbers(p: Protocol)
    ensures
        p.iana() == Some(1u8) <==> p is Icmpv4,
        p.iana() == Some(2u8) <==> p is Igmp,
        p.iana() == Some(6u8) <==> p is Tcp,
        p.iana() == Some(17u8) <==> p is Udp,
        p.iana() == Some(58u8) <==> p is Icmpv6,
        p.iana() is None <==> p is Arp,
{
}

} // verus!
