use mavlink_extras::echo::{Addr, AddrError, Format};

fn parse_error(text: &str) -> String {
    match Addr::from_str(text) {
        Err(AddrError::BaudRate(error)) => error.to_string(),
        _ => panic!("the baud rate is not a number"),
    }
}

#[test]
fn sockets_have_a_scheme() {
    match Addr::from_str("tcp://127.0.0.1:5760") {
        Ok(Addr::Tcp(addr)) => assert_eq!(addr, "127.0.0.1:5760"),
        _ => panic!("the scheme is known"),
    }
    match Addr::from_str("udp://[::1]:14550") {
        Ok(Addr::Udp(addr)) => assert_eq!(addr, "[::1]:14550"),
        _ => panic!("the scheme is known"),
    }
    match Addr::from_str("udp://") {
        Ok(Addr::Udp(addr)) => assert_eq!(addr, ""),
        _ => panic!("the scheme is known"),
    }
}

#[test]
fn serial_ports_have_a_baud_rate() {
    for (text, expected_path, expected_rate) in [
        ("/dev/ttyUSB0:57600", "/dev/ttyUSB0", 57600),
        (":0", "", 0),
        ("COM\u{e9}:+00115200", "COM\u{e9}", 115200),
        ("a:4294967295", "a", u32::MAX),
    ] {
        match Addr::from_str(text) {
            Ok(Addr::Serial { path, baud_rate }) => {
                assert_eq!(path, expected_path);
                assert_eq!(baud_rate, expected_rate);
            }
            _ => panic!("the port has a baud rate"),
        }
    }
}

#[test]
fn colon_is_expected() {
    assert!(matches!(Addr::from_str("/dev/ttyUSB0"), Err(AddrError::NoColon)));
    assert!(matches!(Addr::from_str(""), Err(AddrError::NoColon)));
    assert_eq!(AddrError::no_colon_text(), "expected ':' in serial address");
}

#[test]
fn baud_rate_is_a_number() {
    assert_eq!(parse_error("a:"), "cannot parse integer from empty string");
    assert_eq!(parse_error("a:x"), "invalid digit found in string");
    assert_eq!(parse_error("a:+"), "invalid digit found in string");
    assert_eq!(parse_error("a:-1"), "invalid digit found in string");
    assert_eq!(parse_error("a: 1"), "invalid digit found in string");
    assert_eq!(parse_error("a:1:2"), "invalid digit found in string");
    assert_eq!(parse_error("http://a:1"), "invalid digit found in string");
    assert_eq!(parse_error("a:4294967296"), "number too large to fit in target type");
}

#[test]
fn formats_are_chosen() {
    assert_eq!(Format::new(false, false), Format::DebugPretty);
    assert_eq!(Format::new(false, true), Format::Debug);
    assert_eq!(Format::new(true, false), Format::JsonPretty);
    assert_eq!(Format::new(true, true), Format::Json);
}
