use xmodem_transfer::cli::{parse_port, Args, Invocation};
use xmodem_transfer::text::{decimal_text, hex4_text, is_text};

fn parse(args: &[&str]) -> Invocation {
    let args: Vec<String> = args.iter().map(|a| a.to_string()).collect();
    Args::parse(&args)
}

fn run(args: &[&str]) -> (String, u16, bool) {
    match parse(args) {
        Invocation::Run(args) => (args.host, args.port, args.open_browser),
        _ => panic!("nothing to run"),
    }
}

#[test]
fn defaults_of_the_command_line() {
    assert_eq!(run(&[]), ("127.0.0.1".into(), 8080, true));
}

#[test]
fn options_are_read() {
    assert_eq!(
        run(&["--host", "0.0.0.0", "--port", "9000", "--no-open"]),
        ("0.0.0.0".into(), 9000, false)
    );
    assert_eq!(run(&["-H", "::1", "-p", "+80"]), ("::1".into(), 80, true));
    assert_eq!(run(&["-p", "1", "-p", "2"]).1, 2);
    assert_eq!(run(&["-H", "--no-open"]), ("--no-open".into(), 8080, true));
}

#[test]
fn missing_and_bad_values_change_nothing() {
    assert_eq!(run(&["--port"]), ("127.0.0.1".into(), 8080, true));
    assert_eq!(run(&["--no-open", "--host"]), ("127.0.0.1".into(), 8080, false));
    assert_eq!(run(&["-p", "70000", "--no-open"]), ("127.0.0.1".into(), 8080, false));
    assert_eq!(run(&["-p", "80a"]).1, 8080);
}

#[test]
fn help_and_unknown_arguments() {
    assert!(matches!(parse(&["-p", "1", "-h", "x"]), Invocation::Help));
    assert!(matches!(parse(&["--help"]), Invocation::Help));
    assert!(matches!(parse(&["--no-open", "-x", "-h"]), Invocation::Unknown(a) if a == "-x"));
}

#[test]
fn port_numbers() {
    assert_eq!(parse_port("0"), Some(0));
    assert_eq!(parse_port("65535"), Some(65535));
    assert_eq!(parse_port("65536"), None);
    assert_eq!(parse_port("99999999999999999999"), None);
    assert_eq!(parse_port("000000080"), Some(80));
    assert_eq!(parse_port("+7"), Some(7));
    for bad in ["", "+", "-1", " 1", "1 ", "++1", "１", "0x10"] {
        assert_eq!(parse_port(bad), None);
        assert!(bad.parse::<u16>().is_err());
    }
}

#[test]
fn address_to_listen_on() {
    match parse(&["-p", "443"]) {
        Invocation::Run(args) => assert_eq!(args.address(), "127.0.0.1:443"),
        _ => panic!("nothing to run"),
    }
}

#[test]
fn numbers_as_text() {
    for n in [0, 9, 10, 99, 100, 12345, u64::MAX] {
        assert_eq!(decimal_text(n), n.to_string());
    }
    for n in [0, 9, 10, 0xABCD, 0x00F0, u16::MAX] {
        assert_eq!(hex4_text(n), format!("{n:04X}"));
    }
    for n in [0u16, 80, 65535] {
        assert_eq!(parse_port(&decimal_text(n as u64)), Some(n));
    }
    assert!(is_text(&"a".to_string(), "a"));
    assert!(!is_text(&"a".to_string(), "b"));
}
