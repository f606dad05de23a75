//! Whether a flow leaves the host or enters it.

use vstd::prelude::*;

use crate::addr::{IpAddr, Ipv4Addr, Ipv6Addr};

verus! {

/// The direction of a flow as seen from the capturing host.
#[derive(Debug, Clone, Copy, PartialEq, Eq, Structural)]
pub enum FlowDirection {
    Incoming,
    Outgoing,
}

/// The direction of a flow from `src` to `dst`, where `own` are the addresses
/// of the capturing interface.
///
/// Between two loopback addresses the greater port is taken to be the client's.
/// Otherwise the flow is outgoing if it comes from an own address, or from the
/// unspecified address and goes to no own address; it is incoming in all other
/// cases. Nothing is said when no own address is known.
pub open spec fn direction_of(
    src: IpAddr,
    dst: IpAddr,
    src_port: Option<u16>,
    dst_port: Option<u16>,
    own: Seq<IpAddr>,
) -> Option<FlowDirection> {
    if src.loopback() && dst.loopback() && src_port is Some && dst_port is Some {
        Some(
            if src_port->0 > dst_port->0 {
                FlowDirection::Outgoing
            } else {
                FlowDirection::Incoming
            },
        )
    } else if own.len() == 0 {
        None
    } else if own.contains(src) || (src.unspecified() && !own.contains(dst)) {
        Some(FlowDirection::Outgoing)
    } else {
        Some(FlowDirection::Incoming)
    }
}

fn is_local(own: &[IpAddr], ip: &IpAddr) -> (r: bool)
    ensures
        r == own@.contains(*ip),
{
    let mut i: usize = 0;
    while i < own.len()
        invariant
            i <= own.len(),
            forall|j: int| 0 <= j < i ==> own@[j] != *ip,
        decreases own.len() - i,
    {
        if own[i] == *ip {
            return true;
        }
        i = i + 1;
    }
    false
}

/// Classify a flow; see `direction_of`.
pub fn get_direction(
    src_ip: &IpAddr,
    dst_ip: &IpAddr,
    src_port: Option<u16>,
    dst_port: Option<u16>,
    my_interface_addresses: &[IpAddr],
) -> (r: Option<FlowDirection>)
    ensures
        r == direction_of(*src_ip, *dst_ip, src_port, dst_port, my_interface_addresses@),
{
    if src_ip.is_loopback() && dst_ip.is_loopback() {
        if let (Some(sport), Some(dport)) = (src_port, dst_port) {
            return Some(
                if sport > dport {
                    FlowDirection::Outgoing
                } else {
                    FlowDirection::Incoming
                },
            );
        }
    }
    if my_interface_addresses.len() == 0 {
        return None;
    }
    Some(
        if is_local(my_interface_addresses, src_ip) {
            FlowDirection::Outgoing
        } else if !src_ip.is_unspecified() {
            FlowDirection::Incoming
        } else if !is_local(my_interface_addresses, dst_ip) {
            FlowDirection::Outgoing
        } else {
            FlowDirection::Incoming
        },
    )
}

/// A direction is missing exactly when there is nothing to tell it by: no own
/// address, and not a loopback flow with two ports.
pub proof fn law_direction_known(
    src: IpAddr,
    dst: IpAddr,
    src_port: Option<u16>,
    dst_port: Option<u16>,
    own: Seq<IpAddr>,
)
    ensures
        direction_of(src, dst, src_port, dst_port, own) is None <==> own.len() == 0 && !(
        src.loopback() && dst.loopback() && src_port is Some && dst_port is Some),
{
}

/// The two directions of one loopback conversation are told apart: reversing a
/// flow between different ports reverses its direction.
pub proof fn law_loopback_reversal(
    src: IpAddr,
    dst: IpAddr,
    sport: u16,
    dport: u16,
    own: Seq<IpAddr>,
)
    requires
        src.loopback(),
        dst.loopback(),
        sport != dport,
    ensures
        direction_of(src, dst, Some(sport), Some(dport), own) != direction_of(
            dst,
            src,
            Some(dport),
            Some(sport),
            own,
        ),
{
}

/// A conversation between an own address that is not loopback and a foreign
/// one that is not unspecified goes out one way and comes in the other.
pub proof fn law_remote_reversal(
    local: IpAddr,
    remote: IpAddr,
    local_port: Option<u16>,
    remote_port: Option<u16>,
    own: Seq<IpAddr>,
)
    requires
        own.contains(local),
        !own.contains(remote),
        !local.loopback(),
        !remote.unspecified(),
    ensures
        direction_of(local, remote, local_port, remote_port, own) == Some(FlowDirection::Outgoing),
        direction_of(remote, local, remote_port, local_port, own) == Some(FlowDirection::Incoming),
{
}

/// The ports of a flow tell its direction: both ends are loopback, and both
/// ports are known.
pub open spec fn told_by_ports(
    src: IpAddr,
    dst: IpAddr,
    ports: (Option<u16>, Option<u16>),
) -> bool {
    src.loopback() && dst.loopback() && ports.0 is Some && ports.1 is Some
}

/// Where the ports do not tell the direction, as they never do off loopback,
/// all that counts is whether own addresses are known and whether the two ends
/// are among them: not the ports, not the other own addresses, not how often or
/// where an address is listed.
pub proof fn law_direction_by_membership(
    src: IpAddr,
    dst: IpAddr,
    ports: (Option<u16>, Option<u16>),
    other_ports: (Option<u16>, Option<u16>),
    own: Seq<IpAddr>,
    other: Seq<IpAddr>,
)
    requires
        !told_by_ports(src, dst, ports),
        !told_by_ports(src, dst, other_ports),
        own.len() == 0 <==> other.len() == 0,
        own.contains(src) == other.contains(src),
        own.contains(dst) == other.contains(dst),
    ensures
        direction_of(src, dst, ports.0, ports.1, own) == direction_of(
            src,
            dst,
            other_ports.0,
            other_ports.1,
            other,
        ),
{
}

/// Between two loopback addresses with both ports known, the own addresses do
/// not count at all.
pub proof fn law_loopback_ignores_own(
    src: IpAddr,
    dst: IpAddr,
    sport: u16,
    dport: u16,
    own: Seq<IpAddr>,
    other: Seq<IpAddr>,
)
    requires
        src.loopback(),
        dst.loopback(),
    ensures
        direction_of(src, dst, Some(sport), Some(dport), own) == direction_of(
            src,
            dst,
            Some(sport),
            Some(dport),
            other,
        ),
{
}

/// Between two loopback addresses with both ports known, a flow is outgoing
/// exactly when its source port is the greater one, and incoming otherwise.
pub proof fn law_loopback_by_ports(
    src: IpAddr,
    dst: IpAddr,
    sport: u16,
    dport: u16,
    own: Seq<IpAddr>,
)
    requires
        src.loopback(),
        dst.loopback(),
    ensures
        direction_of(src, dst, Some(sport), Some(dport), own) == Some(FlowDirection::Outgoing)
            <==> sport > dport,
        direction_of(src, dst, Some(sport), Some(dport), own) == Some(FlowDirection::Incoming)
            <==> sport <= dport,
{
}

/// Where the ports do not tell the direction and own addresses are known, what
/// an own address sends is outgoing; what another address sends is incoming;
/// and what the unspecified address sends, if it is not an own one, is incoming
/// exactly when it goes to an own address.
pub proof fn law_direction_by_sender(
    src: IpAddr,
    dst: IpAddr,
    ports: (Option<u16>, Option<u16>),
    own: Seq<IpAddr>,
)
    requires
        !(src.loopback() && dst.loopback() && ports.0 is Some && ports.1 is Some),
        own.len() > 0,
    ensures
        ({
            let d = direction_of(src, dst, ports.0, ports.1, own);
            let all_zero = src == IpAddr::V4(Ipv4Addr { bits: 0 }) || src == IpAddr::V6(
                Ipv6Addr { bits: 0 },
            );
            &&& d is Some
            &&& (exists|i: int| 0 <= i < own.len() && own[i] == src) ==> d == Some(
                FlowDirection::Outgoing,
            )
            &&& (forall|i: int| 0 <= i < own.len() ==> own[i] != src) && !all_zero ==> d == Some(
                FlowDirection::Incoming,
            )
            &&& (forall|i: int| 0 <= i < own.len() ==> own[i] != src) && all_zero ==> (d == Some(
                FlowDirection::Incoming,
            ) <==> exists|i: int| 0 <= i < own.len() && own[i] == dst)
        }),
{
    if own.contains(src) {
        let i = choose|i: int| 0 <= i < own.len() && own[i] == src;
        assert(own[i] == src);
    }
}

} // verus!
