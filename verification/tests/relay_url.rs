use std::str::FromStr;
use wormhole_transit::relay_url::RelayUrl;

fn parsed(url: &str) -> Result<(String, u16), &'static str> {
    RelayUrl::from_str(url).map(|u| (u.host, u.port))
}

#[test]
fn well_formed_url() {
    assert_eq!(
        parsed("tcp:transit.magic-wormhole.io:4001"),
        Ok(("transit.magic-wormhole.io".to_string(), 4001))
    );
    let url: RelayUrl = "tcp:localhost:1".parse().unwrap();
    assert_eq!((url.host.as_str(), url.port), ("localhost", 1));
}

#[test]
fn unusual_hosts_and_ports() {
    assert_eq!(parsed("tcp::0"), Ok(("".to_string(), 0)));
    assert_eq!(parsed("tcp:h\u{f6}st:+65535"), Ok(("h\u{f6}st".to_string(), 65535)));
    assert_eq!(parsed("tcp:h:0000000000000000080"), Ok(("h".to_string(), 80)));
}

#[test]
fn wrong_ports() {
    for url in [
        "tcp:h:", "tcp:h:+", "tcp:h:-0", "tcp:h:65536", "tcp:h:99999999999999999999", "tcp:h: 1",
        "tcp:h:1 ", "tcp:h:1a", "tcp:h:++1", "tcp:h:1_0", "tcp:h:\u{661}",
    ] {
        assert_eq!(parsed(url), Err("Cannot parse relay url port"));
    }
}

#[test]
fn wrong_format() {
    for url in [
        "", "tcp", "tcp:h", "tcp:h:1:2", "udp:h:1", "TCP:h:1", " tcp:h:1", ":h:1", "tcp:::1:1",
    ] {
        assert_eq!(parsed(url), Err("Incorrect relay server url format"));
    }
}

#[test]
fn ports_are_read_as_the_standard_library_reads_them() {
    for text in ["0", "7", "+7", "-7", "", "+", "65535", "65536", "007", "1.0", "0x10"] {
        let expected: Option<u16> = text.parse().ok();
        let url = format!("tcp:host:{}", text);
        assert_eq!(parsed(&url).ok().map(|u| u.1), expected);
    }
}

#[test]
fn url_round_trip() {
    for port in [0u16, 9, 10, 99, 100, 4001, 65535] {
        let url = format!("tcp:relay.example:{}", port);
        assert_eq!(parsed(&url), Ok(("relay.example".to_string(), port)));
    }
}
