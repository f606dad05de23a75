//! What the agent knows of the network interfaces of its host.

use vstd::prelude::*;

use crate::addr::IpAddr;

verus! {

/// A network interface as the capture layer lists it.
#[derive(Debug, Clone)]
pub struct Interface {
    pub name: String,
    pub desc: Option<String>,
    pub addresses: Vec<IpAddr>,
}

/// The framing of captured packets, by the family of its data link type.
#[derive(Debug, Clone, Copy, PartialEq, Eq, Structural)]
pub enum LinkType {
    Null,
    Ethernet,
    RawIp,
    Loop,
    IPv4,
    IPv6,
    LinuxSll,
    LinuxSll2,
    Unsupported,
}

/// The numbers by which a capture names the data link types that can be parsed.
pub const DLT_NULL: i32 = 0;

pub const DLT_ETHERNET: i32 = 1;

pub const DLT_RAW: i32 = 12;

pub const DLT_LOOP: i32 = 108;

pub const DLT_LINUX_SLL: i32 = 113;

pub const DLT_IPV4: i32 = 228;

pub const DLT_IPV6: i32 = 229;

pub const DLT_LINUX_SLL2: i32 = 276;

impl LinkType {
    /// The family of a data link type.
    pub open spec fn of_datalink(datalink: i32) -> LinkType {
        if datalink == DLT_NULL {
            LinkType::Null
        } else if datalink == DLT_ETHERNET {
            LinkType::Ethernet
        } else if datalink == DLT_RAW {
            LinkType::RawIp
        } else if datalink == DLT_LOOP {
            LinkType::Loop
        } else if datalink == DLT_IPV4 {
            LinkType::IPv4
        } else if datalink == DLT_IPV6 {
            LinkType::IPv6
        } else if datalink == DLT_LINUX_SLL {
            LinkType::LinuxSll
        } else if datalink == DLT_LINUX_SLL2 {
            LinkType::LinuxSll2
        } else {
            LinkType::Unsupported
        }
    }

    pub fn from_pcap(datalink: i32) -> (r: LinkType)
        ensures
            r == LinkType::of_datalink(datalink),
    {
        match datalink {
            DLT_NULL => LinkType::Null,
            DLT_ETHERNET => LinkType::Ethernet,
            DLT_RAW => LinkType::RawIp,
            DLT_LOOP => LinkType::Loop,
            DLT_IPV4 => LinkType::IPv4,
            DLT_IPV6 => LinkType::IPv6,
            DLT_LINUX_SLL => LinkType::LinuxSll,
            DLT_LINUX_SLL2 => LinkType::LinuxSll2,
            _ => LinkType::Unsupported,
        }
    }

    /// Whether packets of this framing can be parsed as what they are.
    pub fn is_supported(&self) -> (r: bool)
        ensures
            r == (*self != LinkType::Unsupported),
    {
        !matches!(self, LinkType::Unsupported)
    }

    /// The "cooked" framing of Linux, which a capture on every interface at
    /// once delivers.
    pub open spec fn cooked(self) -> bool {
        self == LinkType::LinuxSll || self == LinkType::LinuxSll2
    }

    pub fn is_cooked(&self) -> (r: bool)
        ensures
            r == self.cooked(),
    {
        matches!(self, LinkType::LinuxSll | LinkType::LinuxSll2)
    }
}

/// The position of the first interface called `name`.
pub open spec fn first_named(devices: Seq<Interface>, name: Seq<char>) -> Option<int>
    decreases devices.len(),
{
    if devices.len() == 0 {
        None
    } else if let Some(i) = first_named(devices.drop_last(), name) {
        Some(i)
    } else if devices.last().name@ == name {
        Some(devices.len() - 1)
    } else {
        None
    }
}

/// `first_named` is what its name says: a match with none before it, or no
/// match at all.
pub proof fn lemma_first_named(devices: Seq<Interface>, name: Seq<char>)
    ensures
        match first_named(devices, name) {
            Some(i) => {
                &&& 0 <= i < devices.len()
                &&& devices[i].name@ == name
                &&& forall|j: int| 0 <= j < i ==> #[trigger] devices[j].name@ != name
            },
            None => forall|j: int| 0 <= j < devices.len() ==> #[trigger] devices[j].name@ != name,
        },
    decreases devices.len(),
{
    if devices.len() > 0 {
        lemma_first_named(devices.drop_last(), name);
        assert forall|j: int| 0 <= j < devices.len() - 1 implies #[trigger] devices[j]
            == devices.drop_last()[j] by {}
    }
}

/// Find the first interface called `name`.
pub fn find_interface(devices: &Vec<Interface>, name: &String) -> (r: Option<usize>)
    ensures
        match r {
            Some(i) => first_named(devices@, name@) == Some(i as int),
            None => first_named(devices@, name@) is None,
        },
{
    let mut i: usize = 0;
    while i < devices.len()
        invariant
            i <= devices.len(),
            forall|j: int| 0 <= j < i ==> #[trigger] devices@[j].name@ != name@,
        decreases devices.len() - i,
    {
        if devices[i].name == *name {
            proof {
                lemma_first_named(devices@, name@);
            }
            return Some(i);
        }
        i = i + 1;
    }
    proof {
        lemma_first_named(devices@, name@);
    }
    None
}

/// The addresses of all `devices`, one device after the other.
pub open spec fn all_addresses(devices: Seq<Interface>) -> Seq<IpAddr>
    decreases devices.len(),
{
    if devices.len() == 0 {
        Seq::empty()
    } else {
        all_addresses(devices.drop_last()) + devices.last().addresses@
    }
}

/// The addresses that count as the agent's own while it captures on the
/// interface called `name`: those of every interface when the capture is
/// cooked, else those of the first interface of that name, if there is one.
pub open spec fn own_addresses(
    devices: Seq<Interface>,
    name: Seq<char>,
    link_type: LinkType,
) -> Seq<IpAddr> {
    if link_type.cooked() {
        all_addresses(devices)
    } else {
        match first_named(devices, name) {
            Some(i) => devices[i].addresses@,
            None => Seq::empty(),
        }
    }
}

fn append_addresses(out: &mut Vec<IpAddr>, more: &Vec<IpAddr>)
    ensures
        final(out)@ == old(out)@ + more@,
{
    let mut i: usize = 0;
    while i < more.len()
        invariant
            i <= more.len(),
            out@ == old(out)@ + more@.take(i as int),
        decreases more.len() - i,
    {
        out.push(more[i]);
        assert(more@.take(i + 1) =~= more@.take(i as int).push(more@[i as int]));
        i = i + 1;
    }
    assert(more@.take(more@.len() as int) =~= more@);
}

/// The agent's own addresses, out of the `devices`; see `own_addresses`.
fn addresses_among(
    devices: &Vec<Interface>,
    interface_name: &String,
    link_type: LinkType,
) -> (r: Vec<IpAddr>)
    ensures
        r@ == own_addresses(devices@, interface_name@, link_type),
{
    let mut addresses: Vec<IpAddr> = Vec::new();
    if link_type.is_cooked() {
        let mut i: usize = 0;
        assert(devices@.take(0) =~= Seq::<Interface>::empty());
        while i < devices.len()
            invariant
                i <= devices.len(),
                addresses@ == all_addresses(devices@.take(i as int)),
            decreases devices.len() - i,
        {
            append_addresses(&mut addresses, &devices[i].addresses);
            assert(devices@.take(i + 1).drop_last() =~= devices@.take(i as int));
            i = i + 1;
        }
        assert(devices@.take(devices@.len() as int) =~= devices@);
    } else if let Some(i) = find_interface(devices, interface_name) {
        proof {
            lemma_first_named(devices@, interface_name@);
        }
        append_addresses(&mut addresses, &devices[i].addresses);
    }
    addresses
}

/// The agent's own addresses, out of the interfaces that were `listed`; none if
/// the listing failed.
pub fn interface_addresses<E>(
    listed: &Result<Vec<Interface>, E>,
    interface_name: &String,
    link_type: LinkType,
) -> (r: Vec<IpAddr>)
    ensures
        r@ == (match *listed {
            Ok(devices) => own_addresses(devices@, interface_name@, link_type),
            Err(_) => Seq::empty(),
        }),
        r@ == known_addresses(
            match *listed {
                Ok(devices) => Some(devices@),
                Err(_) => None,
            },
            interface_name@,
            link_type,
        ),
{
    match listed {
        Ok(devices) => addresses_among(devices, interface_name, link_type),
        Err(_) => Vec::new(),
    }
}

/// Listing one group of interfaces after another lists their addresses one
/// after another, and a single interface has the addresses it has.
pub proof fn law_all_addresses(a: Seq<Interface>, b: Seq<Interface>, one: Interface)
    ensures
        all_addresses(a + b) == all_addresses(a) + all_addresses(b),
        all_addresses(seq![one]) == one.addresses@,
        all_addresses(Seq::empty()) == Seq::<IpAddr>::empty(),
    decreases b.len(),
{
    reveal_with_fuel(all_addresses, 2);
    assert(seq![one].drop_last() =~= Seq::<Interface>::empty());
    assert(Seq::<IpAddr>::empty() + one.addresses@ =~= one.addresses@);
    if b.len() == 0 {
        assert(a + b =~= a);
        assert(all_addresses(a) + all_addresses(b) =~= all_addresses(a));
    } else {
        law_all_addresses(a, b.drop_last(), one);
        assert((a + b).drop_last() =~= a + b.drop_last());
        assert(all_addresses(a) + (all_addresses(b.drop_last()) + b.last().addresses@) =~= (
        all_addresses(a) + all_addresses(b.drop_last())) + b.last().addresses@);
    }
}

/// A cooked capture owns the addresses of every interface; any other owns those
/// of the interface with the captured name that is listed first, and none if
/// there is no such interface.
pub proof fn law_own_addresses(
    devices: Seq<Interface>,
    name: Seq<char>,
    link_type: LinkType,
    i: int,
)
    ensures
        link_type is LinuxSll || link_type is LinuxSll2 ==> own_addresses(
            devices,
            name,
            link_type,
        ) == all_addresses(devices),
        !(link_type is LinuxSll || link_type is LinuxSll2) && 0 <= i < devices.len()
            && devices[i].name@ == name && (forall|j: int|
            0 <= j < i ==> (#[trigger] devices[j]).name@ != name) ==> own_addresses(
            devices,
            name,
            link_type,
        ) == devices[i].addresses@,
        !(link_type is LinuxSll || link_type is LinuxSll2) && (forall|j: int|
            0 <= j < devices.len() ==> (#[trigger] devices[j]).name@ != name) ==> own_addresses(
            devices,
            name,
            link_type,
        ).len() == 0,
{
    lemma_first_named(devices, name);
    if first_named(devices, name) is Some {
        let f = first_named(devices, name)->0;
        assert(devices[f].name@ == name);
    }
}

/// The framing that each data link type number stands for.
pub proof fn law_datalink_numbers(n: i32)
    ensures
        LinkType::of_datalink(n) is Null <==> n == 0,
        LinkType::of_datalink(n) is Ethernet <==> n == 1,
        LinkType::of_datalink(n) is RawIp <==> n == 12,
        LinkType::of_datalink(n) is Loop <==> n == 108,
        LinkType::of_datalink(n) is LinuxSll <==> n == 113,
        LinkType::of_datalink(n) is IPv4 <==> n == 228,
        LinkType::of_datalink(n) is IPv6 <==> n == 229,
        LinkType::of_datalink(n) is LinuxSll2 <==> n == 276,
{
}

/// The own addresses that are known when the interfaces were listed, or were
/// not.
pub open spec fn known_addresses(
    listed: Option<Seq<Interface>>,
    name: Seq<char>,
    link_type: LinkType,
) -> Seq<IpAddr> {
    match listed {
        Some(devices) => own_addresses(devices, name, link_type),
        None => Seq::empty(),
    }
}

/// No listing, no addresses; and every address that is known belongs to a
/// listed interface.
pub proof fn law_known_addresses(
    devices: Seq<Interface>,
    name: Seq<char>,
    link_type: LinkType,
    a: IpAddr,
)
    ensures
        known_addresses(None, name, link_type).len() == 0,
        known_addresses(Some(devices), name, link_type) == own_addresses(devices, name, link_type),
        known_addresses(Some(devices), name, link_type).contains(a) ==> exists|i: int|
            0 <= i < devices.len() && (#[trigger] devices[i]).addresses@.contains(a),
{
    if own_addresses(devices, name, link_type).contains(a) {
        if link_type.cooked() {
            lemma_address_listed(devices, a);
        } else {
            lemma_first_named(devices, name);
            let f = first_named(devices, name)->0;
            assert(devices[f].addresses@.contains(a));
        }
    }
}

proof fn lemma_address_listed(devices: Seq<Interface>, a: IpAddr)
    requires
        all_addresses(devices).contains(a),
    ensures
        exists|i: int| 0 <= i < devices.len() && (#[trigger] devices[i]).addresses@.contains(a),
    decreases devices.len(),
{
    let init = devices.drop_last();
    let before = all_addresses(init);
    let last = devices.last().addresses@;
    let j = choose|j: int| 0 <= j < all_addresses(devices).len() && all_addresses(devices)[j] == a;
    if j < before.len() {
        assert(before[j] == a);
        lemma_address_listed(init, a);
        let i = choose|i: int|
            0 <= i < init.len() && (#[trigger] init[i]).addresses@.contains(a);
        assert(devices[i].addresses@.contains(a));
    } else {
        assert(last[j - before.len()] == a);
        assert(devices[devices.len() - 1].addresses@.contains(a));
    }
}

} // verus!
