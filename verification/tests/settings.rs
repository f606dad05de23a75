use sniffnet_agent::addr::{IpAddr, Ipv4Addr, SocketAddr};
use sniffnet_agent::cli::{effective_filter, parse_collector, parse_interface, Args, Resolution};
use sniffnet_agent::device::Interface;
use sniffnet_agent::logger::{
    color_code, detect_color, init_logger, Level, LevelFilter, Logger,
};
use sniffnet_agent::text::parse_choice;

fn interface(name: &str) -> Interface {
    Interface {
        name: name.to_string(),
        desc: None,
        addresses: vec![],
    }
}

fn address(d: u8) -> SocketAddr {
    SocketAddr::new(IpAddr::V4(Ipv4Addr::new(10, 0, 0, d)), 4739)
}

fn args() -> Args {
    Args {
        interface: None,
        collector: None,
        filter: Some("udp".to_string()),
        odid: 5,
        verbose: true,
    }
}

#[test]
fn what_is_missing_is_asked_for_in_order() {
    let args = match args().resolve() {
        Resolution::AskInterface(a) => a.with_interface(interface("eth0")),
        _ => panic!("the interface comes first"),
    };
    let args = match args.resolve() {
        Resolution::AskCollector(a) => a.with_collector(address(1)),
        _ => panic!("the collector comes second"),
    };
    match args.resolve() {
        Resolution::Ready(c) => {
            assert_eq!(c.interface.name, "eth0");
            assert_eq!(c.collector, address(1));
            assert_eq!(c.filter, Some("udp".to_string()));
            assert_eq!(c.odid, 5);
            assert!(c.verbose);
        }
        _ => panic!("nothing is missing"),
    }
}

#[test]
fn interface_by_name() {
    let listed = || Ok(vec![interface("lo"), interface("eth0"), interface("wlan0")]);
    assert_eq!(
        parse_interface(&"eth0".to_string(), listed()).unwrap().name,
        "eth0"
    );
    assert_eq!(
        parse_interface(&"eth1".to_string(), listed()).unwrap_err(),
        "interface 'eth1' not found"
    );
    assert_eq!(
        parse_interface(&"eth0".to_string(), Err("denied".to_string())).unwrap_err(),
        "failed to list interfaces: denied"
    );
}

#[test]
fn collector_is_the_first_address() {
    assert_eq!(
        parse_collector("c:1", Ok(vec![address(1), address(2)])),
        Ok(address(1))
    );
    assert_eq!(
        parse_collector("c:1", Ok(vec![])),
        Err("no address resolved for 'c:1'".to_string())
    );
    assert_eq!(
        parse_collector("c:1", Err("no such host".to_string())),
        Err("cannot resolve collector address 'c:1': no such host".to_string())
    );
}

#[test]
fn filter_is_trimmed_and_dropped_when_blank() {
    assert_eq!(effective_filter(&None), None);
    assert_eq!(effective_filter(&Some(" \t\u{3000}\n".to_string())), None);
    assert_eq!(
        effective_filter(&Some("  udp port 53 \u{a0}".to_string())),
        Some("udp port 53".to_string())
    );
}

#[test]
fn choices_are_counted_from_one() {
    assert_eq!(parse_choice("1", 3), Some(0));
    assert_eq!(parse_choice(" +3\n", 3), Some(2));
    assert_eq!(parse_choice("007", 10), Some(6));
    assert_eq!(parse_choice("0", 3), None);
    assert_eq!(parse_choice("4", 3), None);
    assert_eq!(parse_choice("", 3), None);
    assert_eq!(parse_choice("+", 3), None);
    assert_eq!(parse_choice("-1", 3), None);
    assert_eq!(parse_choice("1 2", 3), None);
    assert_eq!(parse_choice("99999999999999999999999999", 3), None);
}

#[test]
fn verbosity_sets_the_level() {
    assert_eq!(
        init_logger(false, None, true),
        (Logger { colored: true }, LevelFilter::Info)
    );
    assert_eq!(
        init_logger(true, Some(1), true),
        (Logger { colored: false }, LevelFilter::Debug)
    );
}

#[test]
fn colour_needs_a_terminal_and_no_objection() {
    assert!(detect_color(None, true));
    assert!(detect_color(Some(0), true));
    assert!(!detect_color(Some(1), true));
    assert!(!detect_color(None, false));
}

#[test]
fn lines_and_levels() {
    let plain = Logger { colored: false };
    let colored = Logger { colored: true };
    assert_eq!(
        plain.log(LevelFilter::Info, "T", Level::Warn, "hello"),
        Some("[T] WARN hello".to_string())
    );
    assert_eq!(
        colored.log(LevelFilter::Trace, "T", Level::Debug, "hello"),
        Some("[T] \x1b[36mDEBUG\x1b[0m hello".to_string())
    );
    assert_eq!(plain.log(LevelFilter::Info, "T", Level::Debug, "hello"), None);
    assert!(!plain.enabled(Level::Error, LevelFilter::Off));
    assert!(plain.enabled(Level::Trace, LevelFilter::Trace));
    assert_eq!(color_code(Level::Error), "\x1b[31m");
    assert_eq!(color_code(Level::Warn), "\x1b[33m");
    assert_eq!(color_code(Level::Info), "\x1b[32m");
    assert_eq!(color_code(Level::Trace), "\x1b[35m");
}
