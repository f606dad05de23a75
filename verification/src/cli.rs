//! The settings of the agent, and the answers that may be missing from them.

use vstd::prelude::*;
use vstd::string::*;

use crate::addr::SocketAddr;
use crate::device::{find_interface, first_named, lemma_first_named, Interface};
use crate::text::{law_trimmed, trimmed, white_space};

verus! {

/// What the command line said.
#[derive(Debug, Clone)]
pub struct Args {
    /// Network interface to capture on.
    pub interface: Option<Interface>,
    /// Collector address.
    pub collector: Option<SocketAddr>,
    /// Filter expression applied to the capture.
    pub filter: Option<String>,
    /// IPFIX observation domain.
    pub odid: u32,
    /// Enable debug logging.
    pub verbose: bool,
}

/// Settings with nothing missing.
#[derive(Debug, Clone)]
pub struct Config {
    pub interface: Interface,
    pub collector: SocketAddr,
    pub filter: Option<String>,
    pub odid: u32,
    pub verbose: bool,
}

/// The settings, or what has to be asked for next.
#[derive(Debug, Clone)]
pub enum Resolution {
    Ready(Config),
    AskInterface(Args),
    AskCollector(Args),
}

impl Args {
    /// The settings if nothing is missing, else what to ask for.
    pub open spec fn resolution(self) -> Resolution {
        match (self.interface, self.collector) {
            (None, _) => Resolution::AskInterface(self),
            (_, None) => Resolution::AskCollector(self),
            (Some(interface), Some(collector)) => Resolution::Ready(
                Config {
                    interface,
                    collector,
                    filter: self.filter,
                    odid: self.odid,
                    verbose: self.verbose,
                },
            ),
        }
    }

    /// Complete settings, or the first thing that is missing: the interface is
    /// asked for before the collector.
    pub fn resolve(self) -> (r: Resolution)
        ensures
            r == (match (self.interface, self.collector) {
                (Some(interface), Some(collector)) => Resolution::Ready(
                    Config {
                        interface,
                        collector,
                        filter: self.filter,
                        odid: self.odid,
                        verbose: self.verbose,
                    },
                ),
                (None, _) => Resolution::AskInterface(self),
                (Some(_), None) => Resolution::AskCollector(self),
            }),
            r == self.resolution(),
    {
        if self.interface.is_none() {
            return Resolution::AskInterface(self);
        }
        match self.collector {
            None => Resolution::AskCollector(self),
            Some(collector) => match self.interface {
                Some(interface) => Resolution::Ready(
                    Config {
                        interface,
                        collector,
                        filter: self.filter,
                        odid: self.odid,
                        verbose: self.verbose,
                    },
                ),
                None => Resolution::AskInterface(self),
            },
        }
    }

    /// The settings with the interface that was asked for.
    pub fn with_interface(self, interface: Interface) -> (r: Self)
        ensures
            r == (Args { interface: Some(interface), ..self }),
    {
        Args { interface: Some(interface), ..self }
    }

    /// The settings with the collector that was asked for.
    pub fn with_collector(self, collector: SocketAddr) -> (r: Self)
        ensures
            r == (Args { collector: Some(collector), ..self }),
    {
        Args { collector: Some(collector), ..self }
    }
}

/// Put `s` between two fixed pieces of text.
fn around(before: &str, s: &str, after: &str) -> (r: String)
    ensures
        r@ == before@ + s@ + after@,
{
    let mut r: String = String::new();
    r.append(before);
    r.append(s);
    r.append(after);
    assert(r@ =~= before@ + s@ + after@);
    r
}

/// The interface called `name`, out of those that were `listed`. An error says
/// why there is none: the listing failed with the given message, or no
/// interface has the name.
pub fn parse_interface(name: &String, listed: Result<Vec<Interface>, String>) -> (r: Result<
    Interface,
    String,
>)
    ensures
        match listed {
            Err(e) => r matches Err(m) && m@ == "failed to list interfaces: "@ + e@,
            Ok(devices) => match first_named(devices@, name@) {
                Some(i) => r == Ok::<Interface, String>(devices@[i]),
                None => r matches Err(m) && m@ == "interface '"@ + name@ + "' not found"@,
            },
        },
        outcome_of(r) == interface_of(
            name@,
            match listed {
                Ok(devices) => Ok(devices@),
                Err(e) => Err(e@),
            },
        ),
{
    match listed {
        Err(e) => {
            let mut m: String = String::new();
            m.append("failed to list interfaces: ");
            m.append(e.as_str());
            assert(m@ =~= "failed to list interfaces: "@ + e@);
            Err(m)
        },
        Ok(devices) => {
            proof {
                lemma_first_named(devices@, name@);
            }
            match find_interface(&devices, name) {
                Some(i) => {
                    let mut devices: Vec<Interface> = devices;
                    Ok(devices.swap_remove(i))
                },
                None => Err(around("interface '", name.as_str(), "' not found")),
            }
        },
    }
}

/// The collector that `s` names, given the addresses that it `resolved` to: the
/// first of them. An error says why there is none.
pub fn parse_collector(s: &str, resolved: Result<Vec<SocketAddr>, String>) -> (r: Result<
    SocketAddr,
    String,
>)
    ensures
        match resolved {
            Err(e) => r matches Err(m) && m@ == "cannot resolve collector address '"@ + s@ + "': "@
                + e@,
            Ok(addrs) => if addrs@.len() > 0 {
                r == Ok::<SocketAddr, String>(addrs@[0])
            } else {
                r matches Err(m) && m@ == "no address resolved for '"@ + s@ + "'"@
            },
        },
        outcome_of(r) == collector_of(
            s@,
            match resolved {
                Ok(addrs) => Ok(addrs@),
                Err(e) => Err(e@),
            },
        ),
{
    match resolved {
        Err(e) => {
            let mut m: String = around("cannot resolve collector address '", s, "': ");
            m.append(e.as_str());
            Err(m)
        },
        Ok(addrs) => if addrs.len() > 0 {
            Ok(addrs[0])
        } else {
            Err(around("no address resolved for '", s, "'"))
        },
    }
}

/// The filter that is applied: the given one without the white space around
/// it, unless nothing is left.
pub fn effective_filter(filter: &Option<String>) -> (r: Option<String>)
    ensures
        match *filter {
            Some(f) => if trimmed(f@).len() > 0 {
                r matches Some(e) && e@ == trimmed(f@)
            } else {
                r is None
            },
            None => r is None,
        },
        text_of(r) == applied_filter(text_of(*filter)),
{
    match filter {
        Some(f) => {
            let t: &str = f.as_str().trim();
            if t.is_empty() {
                None
            } else {
                Some(t.to_owned())
            }
        },
        None => None,
    }
}

/// The text that is there, if any.
pub open spec fn text_of(s: Option<String>) -> Option<Seq<char>> {
    match s {
        Some(s) => Some(s@),
        None => None,
    }
}

/// An outcome with the text of its error.
pub open spec fn outcome_of<T>(r: Result<T, String>) -> Result<T, Seq<char>> {
    match r {
        Ok(t) => Ok(t),
        Err(m) => Err(m@),
    }
}

/// The filter that is applied when `filter` is given.
pub open spec fn applied_filter(filter: Option<Seq<char>>) -> Option<Seq<char>> {
    match filter {
        Some(f) if trimmed(f).len() > 0 => Some(trimmed(f)),
        _ => None,
    }
}

/// The collector that `s` names when it was resolved as `resolved`.
pub open spec fn collector_of(
    s: Seq<char>,
    resolved: Result<Seq<SocketAddr>, Seq<char>>,
) -> Result<SocketAddr, Seq<char>> {
    match resolved {
        Err(e) => Err("cannot resolve collector address '"@ + s + "': "@ + e),
        Ok(addrs) => if addrs.len() > 0 {
            Ok(addrs[0])
        } else {
            Err("no address resolved for '"@ + s + "'"@)
        },
    }
}

/// The interface called `name` when the interfaces were listed as `listed`.
pub open spec fn interface_of(
    name: Seq<char>,
    listed: Result<Seq<Interface>, Seq<char>>,
) -> Result<Interface, Seq<char>> {
    match listed {
        Err(e) => Err("failed to list interfaces: "@ + e),
        Ok(devices) => match first_named(devices, name) {
            Some(i) => Ok(devices[i]),
            None => Err("interface '"@ + name + "' not found"@),
        },
    }
}

/// Settings are complete exactly when interface and collector are there; the
/// interface is asked for first; and what is given comes through as it is.
pub proof fn law_resolution(a: Args, interface: Interface, collector: SocketAddr)
    ensures
        a.resolution() is Ready <==> a.interface is Some && a.collector is Some,
        a.resolution() is AskInterface <==> a.interface is None,
        a.resolution() is AskCollector <==> a.interface is Some && a.collector is None,
        a.resolution() matches Resolution::AskInterface(b) ==> b == a,
        a.resolution() matches Resolution::AskCollector(b) ==> b == a,
        ({
            let full = Args { interface: Some(interface), collector: Some(collector), ..a };
            &&& full.resolution() is Ready
            &&& full.resolution()->Ready_0.interface == interface
            &&& full.resolution()->Ready_0.collector == collector
            &&& full.resolution()->Ready_0.filter == a.filter
            &&& full.resolution()->Ready_0.odid == a.odid
            &&& full.resolution()->Ready_0.verbose == a.verbose
        }),
{
}

/// A filter is applied exactly when it holds something other than white space.
/// What is applied has none at either end and is a stretch of what was given,
/// with nothing but white space before and after it.
pub proof fn law_filter(f: Seq<char>)
    ensures
        applied_filter(None) is None,
        applied_filter(Some(f)) is Some <==> exists|i: int|
            0 <= i < f.len() && !white_space(#[trigger] f[i]),
        applied_filter(Some(f)) matches Some(e) ==> {
            &&& e.len() > 0
            &&& !white_space(e.first()) && !white_space(e.last())
            &&& exists|i: int, j: int|
                0 <= i <= j <= f.len() && e == #[trigger] f.subrange(i, j) && (forall|k: int|
                    0 <= k < i || j <= k < f.len() ==> white_space(#[trigger] f[k]))
        },
{
    law_trimmed(f);
    let (i, j) = choose|i: int, j: int|
        0 <= i <= j <= f.len() && trimmed(f) == #[trigger] f.subrange(i, j) && (forall|k: int|
            0 <= k < i || j <= k < f.len() ==> white_space(#[trigger] f[k]));
    if trimmed(f).len() > 0 {
        assert(f[i] == trimmed(f).first());
    }
}

/// A collector is found exactly when at least one address came back, and is the
/// one that came first.
pub proof fn law_collector(
    s: Seq<char>,
    resolved: Result<Seq<SocketAddr>, Seq<char>>,
    a: SocketAddr,
)
    ensures
        collector_of(s, resolved) == Ok::<SocketAddr, Seq<char>>(a) <==> resolved is Ok
            && resolved->Ok_0.len() > 0 && resolved->Ok_0.first() == a,
        resolved is Ok && resolved->Ok_0.len() == 0 ==> collector_of(s, resolved) == Err::<
            SocketAddr,
            Seq<char>,
        >("no address resolved for '"@ + s + "'"@),
        resolved matches Err(e) ==> collector_of(s, resolved) == Err::<SocketAddr, Seq<char>>(
            "cannot resolve collector address '"@ + s + "': "@ + e,
        ),
{
}

/// The interface found has the name asked for, and none listed before it has;
/// none is found exactly when none has the name or there is no listing.
pub proof fn law_interface(name: Seq<char>, devices: Seq<Interface>, e: Seq<char>)
    ensures
        interface_of(name, Err(e)) == Err::<Interface, Seq<char>>(
            "failed to list interfaces: "@ + e,
        ),
        interface_of(name, Ok(devices)) is Ok ==> exists|i: int|
            0 <= i < devices.len() && interface_of(name, Ok(devices)) == Ok::<
                Interface,
                Seq<char>,
            >(#[trigger] devices[i]) && devices[i].name@ == name && (forall|j: int|
                0 <= j < i ==> (#[trigger] devices[j]).name@ != name),
        interface_of(name, Ok(devices)) is Err <==> forall|j: int|
            0 <= j < devices.len() ==> (#[trigger] devices[j]).name@ != name,
        interface_of(name, Ok(devices)) matches Err(m) ==> m == "interface '"@ + name
            + "' not found"@,
{
    lemma_first_named(devices, name);
    if let Some(i) = first_named(devices, name) {
        assert(devices[i].name@ == name);
    }
}

} // verus!
