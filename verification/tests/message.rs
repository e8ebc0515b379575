use wormhole_transit::hints::{Ability, DirectHint, Hint, TransitType};
use wormhole_transit::message::{PeerMessage, TransitAck};
use wormhole_transit::priority::Priority;
use wormhole_transit::text::json_string_text;

fn priority(number: f32) -> Priority {
    let text = serde_json::Value::from(number).to_string();
    Priority::new(number.to_bits(), &text).unwrap()
}

#[test]
fn test_transit() {
    let abilities = vec![Ability::DirectTcpV1, Ability::RelayV1];
    let hints = vec![
        Hint::new_direct(priority(0.0), "192.168.1.8", 46295),
        Hint::new_relay(vec![DirectHint {
            priority: priority(2.0),
            hostname: "magic-wormhole-transit.debian.net".to_string(),
            port: 4001,
        }]),
    ];
    let t = PeerMessage::new_transit(abilities, hints);
    assert_eq!(t.serialize(), "{\"transit\":{\"abilities-v1\":[{\"type\":\"direct-tcp-v1\"},{\"type\":\"relay-v1\"}],\"hints-v1\":[{\"hostname\":\"192.168.1.8\",\"port\":46295,\"priority\":0.0,\"type\":\"direct-tcp-v1\"},{\"hints\":[{\"hostname\":\"magic-wormhole-transit.debian.net\",\"port\":4001,\"priority\":2.0,\"type\":\"direct-tcp-v1\"}],\"type\":\"relay-v1\"}]}}")
}

#[test]
fn empty_transit_message() {
    let t = PeerMessage::new_transit(vec![], vec![]);
    assert_eq!(
        t.serialize(),
        "{\"transit\":{\"abilities-v1\":[],\"hints-v1\":[]}}"
    );
}

#[test]
fn unknown_ability_and_empty_relay() {
    let t = TransitType {
        abilities_v1: vec![Ability::Other],
        hints_v1: vec![Hint::new_relay(vec![])],
    };
    assert_eq!(
        t.serialize(),
        "{\"abilities-v1\":[{\"type\":\"other\"}],\"hints-v1\":[{\"hints\":[],\"type\":\"relay-v1\"}]}"
    );
}

#[test]
fn relay_with_two_hosts() {
    let relay = Hint::new_relay(vec![
        DirectHint {
            priority: priority(1.5),
            hostname: "a".to_string(),
            port: 1,
        },
        DirectHint {
            priority: priority(-0.25),
            hostname: "b".to_string(),
            port: 65535,
        },
    ]);
    assert_eq!(
        relay.serialize(),
        "{\"hints\":[{\"hostname\":\"a\",\"port\":1,\"priority\":1.5,\"type\":\"direct-tcp-v1\"},{\"hostname\":\"b\",\"port\":65535,\"priority\":-0.25,\"type\":\"direct-tcp-v1\"}],\"type\":\"relay-v1\"}"
    );
}

#[test]
fn messages_are_json() {
    let hostname = "q\"uo\\te\u{1}\n\u{e9}\u{1f980}";
    let t = PeerMessage::new_transit(
        Ability::all_abilities(),
        vec![Hint::new_direct(priority(1e30), hostname, 8080)],
    );
    let value: serde_json::Value = serde_json::from_str(&t.serialize()).unwrap();
    let hint = &value["transit"]["hints-v1"][0];
    assert_eq!(hint["hostname"].as_str(), Some(hostname));
    assert_eq!(hint["port"].as_u64(), Some(8080));
    assert_eq!(hint["priority"].as_f64().map(|p| p as f32), Some(1e30f32));
    assert_eq!(hint["type"].as_str(), Some("direct-tcp-v1"));
    assert_eq!(value.to_string(), t.serialize());
}

#[test]
fn strings_are_written_as_serde_json_writes_them() {
    for code in 0u32..0x300 {
        let text = format!("<{}>", char::from_u32(code).unwrap());
        assert_eq!(
            json_string_text(&text),
            serde_json::Value::from(text.as_str()).to_string()
        );
    }
    assert_eq!(json_string_text(""), "\"\"");
}

#[test]
fn acknowledgement() {
    assert_eq!(
        TransitAck::new("ok", "deadbeaf").serialize(),
        "{\"ack\":\"ok\",\"sha256\":\"deadbeaf\"}"
    );
}

#[test]
fn priorities() {
    assert_eq!(Priority::zero().as_str(), "0.0");
    assert_eq!(Priority::zero(), priority(0.0));
    assert_eq!(priority(2.5).to_bits(), 2.5f32.to_bits());
    for number in [f32::NAN, f32::INFINITY, f32::NEG_INFINITY] {
        assert_eq!(priority(number).as_str(), "null");
        assert!(Priority::new(number.to_bits(), "0.0").is_none());
    }
    assert!(Priority::new(1.0f32.to_bits(), "-1.0").is_none());
    assert!(Priority::new((-1.0f32).to_bits(), "1.0").is_none());
    assert!(Priority::new(1.0f32.to_bits(), "null").is_none());
}

#[test]
fn priorities_are_written_as_json_numbers() {
    let is_number = |text: &str| {
        let bits = if text.starts_with('-') { 0x8000_0001 } else { 1 };
        let accepted = Priority::new(bits, text).is_some();
        let json = serde_json::from_str::<serde_json::Value>(text);
        let spaces = text.starts_with(' ') || text.ends_with(' ');
        assert_eq!(accepted, json.map_or(false, |v| v.is_number()) && !spaces);
        accepted
    };
    for text in [
        "0", "-0", "10", "0.0", "-0.0", "1.50", "0e5", "1e5", "1E+5", "2.5e-7", "-12.25E3",
    ] {
        assert!(is_number(text));
    }
    for text in [
        "", "-", "+1", ".", "..", "e", "01", "-01", "1.", ".5", "1.e5", "1e", "1e+", "1e+-2", "--1",
        "1.2.3", "1e5.0", "1e5e5", "1,2", "1}", "0x1", " 1", "1 ", "nul", "NaN",
    ] {
        assert!(!is_number(text));
    }
}

#[test]
fn priorities_are_compared_as_numbers() {
    let numbers = [
        0.0,
        -0.0,
        1.0,
        -1.0,
        0.1,
        f32::MIN_POSITIVE,
        1e-45,
        -1e-45,
        f32::MAX,
        f32::MIN,
        f32::INFINITY,
        f32::NEG_INFINITY,
        f32::NAN,
        -f32::NAN,
        f32::from_bits(0x7f80_0001),
    ];
    for a in numbers {
        for b in numbers {
            assert_eq!(priority(a) == priority(b), a == b);
            assert_eq!(priority(a) != priority(b), a != b);
            let hint = |number: f32| Hint::new_direct(priority(number), "h", 1);
            assert_eq!(hint(a) == hint(b), a == b);
        }
    }
}

#[test]
fn different_messages_are_written_differently() {
    let message = |hostname: &str, port: u16, abilities: Vec<Ability>| {
        let hints = vec![Hint::new_direct(Priority::zero(), hostname, port)];
        PeerMessage::new_transit(abilities, hints).serialize()
    };
    let messages = [
        message("a", 1, vec![]),
        message("a", 11, vec![]),
        message("b", 1, vec![]),
        message("a\",\"port\":1", 1, vec![]),
        message("a\\", 1, vec![]),
        message("a", 1, vec![Ability::RelayV1]),
        message("a", 1, vec![Ability::RelayV1, Ability::DirectTcpV1]),
        message("a", 1, vec![Ability::DirectTcpV1, Ability::RelayV1]),
    ];
    for i in 0..messages.len() {
        for j in 0..i {
            assert_ne!(messages[i], messages[j]);
        }
    }
    assert_ne!(
        TransitAck::new("ok", "a").serialize(),
        TransitAck::new("ok\",\"sha256\":\"a", "").serialize()
    );
}
