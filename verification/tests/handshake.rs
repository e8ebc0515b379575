use wormhole_transit::error::TransitError;
use wormhole_transit::handshake::{
    generate_transit_side, make_receive_handshake, make_relay_handshake, make_send_handshake,
    receiver_hello_message, relay_request_message, sender_hello_message, transit_side, Handshake,
    HandshakeAction, HandshakeKeys, Role, Transit,
};
use wormhole_transit::hints::HostType;
use wormhole_transit::keys::{derive_key_from_purpose, make_record_keys};

const SENDER: &str = "transit sender df67f98b57b6009f674ac8ea789aa2a494e4c52582da55d38857d56518b81bba ready\n\n";
const RECEIVER: &str = "transit receiver c83f7ef38f8b2e0a2495966db3c137772e81c475f54f45483fb1e5dc500db6dc ready\n\n";
const RELAY: &str = "please relay 2bb809ffd25339e827f73497f80f9d4419708192bc8282ab3d28e530fc7599e7 for side 0011\n";

fn key() -> Vec<u8> {
    (0u8..32).collect()
}

enum End {
    Done(Transit),
    Fail(TransitError),
    Starved,
}

/// Runs a handshake on a stream with these bytes: what was sent, the end, and what is unread.
fn run(handshake: Handshake, stream: &[u8]) -> (Vec<u8>, End, Vec<u8>) {
    let mut sent = vec![];
    let mut taken = 0;
    let mut action = handshake.next(&[]);
    loop {
        match action {
            HandshakeAction::Send(bytes, rest) => {
                sent.extend(bytes);
                action = rest.next(&[]);
            }
            HandshakeAction::Receive(count, rest) => {
                if stream.len() < taken + count {
                    return (sent, End::Starved, stream[taken..].to_vec());
                }
                action = rest.next(&stream[taken..taken + count]);
                taken += count;
            }
            HandshakeAction::Done(transit) => {
                return (sent, End::Done(transit), stream[taken..].to_vec());
            }
            HandshakeAction::Fail(error) => {
                return (sent, End::Fail(error), stream[taken..].to_vec());
            }
        }
    }
}

fn start(role: Role, host_type: HostType) -> Handshake {
    Handshake::new(role, host_type, &key(), "0011")
}

#[test]
fn derived_keys() {
    assert_eq!(
        derive_key_from_purpose(&key(), "transit_sender")[..4],
        [0xdf, 0x67, 0xf9, 0x8b]
    );
    let (skey, rkey) = make_record_keys(&key());
    assert_eq!(
        hex::encode(&skey),
        "a879f7c8206df95eba1f8a887203e3ceaa5238b43455859c34e02f34eb797d37"
    );
    assert_eq!(
        hex::encode(&rkey),
        "438fe439c794bdc524ba4f5935b03fdfef305e8dbc6369a839f0ea09d09ef2ef"
    );
}

#[test]
fn handshake_lines() {
    assert_eq!(make_send_handshake(&key()), SENDER);
    assert_eq!(make_receive_handshake(&key()), RECEIVER);
    assert_eq!(make_relay_handshake(&key(), "0011"), RELAY);
    assert_eq!(make_send_handshake(&key()).len(), 87);
    assert_eq!(make_receive_handshake(&key()).len(), 89);
}

#[test]
fn lines_for_given_keys() {
    assert_eq!(sender_hello_message(&[0, 255]), "transit sender 00ff ready\n\n");
    assert_eq!(receiver_hello_message(&[10]), "transit receiver 0a ready\n\n");
    assert_eq!(relay_request_message(&[1], "s"), "please relay 01 for side s\n");
}

#[test]
fn transit_sides() {
    assert_eq!(transit_side(&[0, 1, 2, 3, 252, 253, 254, 255]), "00010203fcfdfeff");
    let side = generate_transit_side();
    assert_eq!(side.len(), 16);
    assert!(side.chars().all(|c| c.is_ascii_digit() || ('a'..='f').contains(&c)));
}

#[test]
fn random_sides_differ() {
    let sides: Vec<String> = (0..4).map(|_| generate_transit_side()).collect();
    assert!(sides.iter().any(|side| *side != sides[0]));
}

#[test]
fn direct_sides_connect() {
    let (sent, end, unread) = run(
        start(Role::Sender, HostType::Direct),
        format!("{}more", RECEIVER).as_bytes(),
    );
    assert_eq!(sent, SENDER.as_bytes());
    assert_eq!(unread, b"more");
    let (sent, other, unread) = run(
        start(Role::Receiver, HostType::Direct),
        format!("{}go\nmore", SENDER).as_bytes(),
    );
    assert_eq!(sent, RECEIVER.as_bytes());
    assert_eq!(unread, b"more");
    match (end, other) {
        (End::Done(a), End::Done(b)) => {
            assert_eq!(a.skey, make_record_keys(&key()).0);
            assert_eq!(a.rkey, make_record_keys(&key()).1);
            assert_eq!(a.skey, b.skey);
            assert_eq!(a.rkey, b.rkey);
        }
        _ => panic!("the sides did not connect"),
    }
}

#[test]
fn sides_connect_through_a_relay() {
    let (sent, end, _) = run(
        start(Role::Sender, HostType::Relay),
        format!("ok\n{}", RECEIVER).as_bytes(),
    );
    assert_eq!(sent, format!("{}{}", RELAY, SENDER).as_bytes());
    assert!(matches!(end, End::Done(_)));
    let (sent, end, _) = run(
        start(Role::Receiver, HostType::Relay),
        format!("ok\n{}go\n", SENDER).as_bytes(),
    );
    assert_eq!(sent, format!("{}{}", RELAY, RECEIVER).as_bytes());
    assert!(matches!(end, End::Done(_)));
}

#[test]
fn a_relay_that_refuses() {
    let (sent, end, unread) = run(start(Role::Sender, HostType::Relay), b"no\nmore");
    assert_eq!(sent, RELAY.as_bytes());
    assert!(matches!(end, End::Fail(TransitError::RelayHandshakeFailed)));
    assert_eq!(unread, b"more");
}

#[test]
fn a_receiver_that_is_not_chosen() {
    let (_, end, _) = run(
        start(Role::Receiver, HostType::Direct),
        format!("{}no\n", SENDER).as_bytes(),
    );
    assert!(matches!(end, End::Fail(TransitError::HandshakeFailed)));
    let (_, end, unread) = run(
        start(Role::Receiver, HostType::Direct),
        format!("{}go", SENDER).as_bytes(),
    );
    assert!(matches!(end, End::Starved));
    assert_eq!(unread, b"go");
}

#[test]
fn same_roles_do_not_connect() {
    let (_, end, _) = run(
        start(Role::Sender, HostType::Direct),
        format!("{}go\n", SENDER).as_bytes(),
    );
    assert!(matches!(end, End::Fail(TransitError::HandshakeFailed)));
    let (_, end, _) = run(
        start(Role::Receiver, HostType::Direct),
        format!("{}go\n", RECEIVER).as_bytes(),
    );
    assert!(matches!(end, End::Fail(TransitError::HandshakeFailed)));
}

#[test]
fn other_keys_do_not_connect() {
    let mut other = key();
    other[0] ^= 1;
    let line = make_receive_handshake(&other);
    let (_, end, _) = run(start(Role::Sender, HostType::Direct), line.as_bytes());
    assert!(matches!(end, End::Fail(TransitError::HandshakeFailed)));
}

#[test]
fn handshake_with_given_keys() {
    let keys = HandshakeKeys {
        sender: vec![1; 32],
        receiver: vec![2; 32],
        relay_token: vec![3; 32],
        skey: vec![4; 32],
        rkey: vec![5; 32],
    };
    let stream = format!("transit receiver {} ready\n\n", "02".repeat(32));
    let (sent, end, _) = run(
        Handshake::with_keys(Role::Sender, HostType::Direct, keys, "x"),
        stream.as_bytes(),
    );
    assert_eq!(
        sent,
        format!("transit sender {} ready\n\n", "01".repeat(32)).as_bytes()
    );
    match end {
        End::Done(transit) => {
            assert_eq!(transit.skey, vec![4; 32]);
            assert_eq!(transit.rkey, vec![5; 32]);
        }
        _ => panic!("the handshake did not complete"),
    }
}

#[test]
fn error_messages() {
    assert_eq!(TransitError::RelayHandshakeFailed.message(), "relay handshake failed");
    assert_eq!(TransitError::HandshakeFailed.message(), "handshake failed");
    assert_eq!(
        TransitError::AllHandshakesFailed.message(),
        "All handshakes failed or timed out"
    );
    assert_eq!(TransitError::UnexpectedEof.message(), "unexpected end of file");
    assert_eq!(
        TransitError::RecordReadFailed.message(),
        "cannot read from the tcp connection"
    );
    assert_eq!(TransitError::KeyUnwrapFailed.message(), "key unwrap failed");
    assert_eq!(TransitError::DecryptionFailed.message(), "decryption failed");
}
