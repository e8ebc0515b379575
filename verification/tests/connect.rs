use wormhole_transit::connect::{init, Attempt, Outcome, Race, RaceStep, TransitConnector};
use wormhole_transit::error::TransitError;
use wormhole_transit::handshake::HandshakeAction;
use wormhole_transit::hints::{
    build_direct_hints, build_relay_hints, get_direct_relay_hosts, Ability, DirectHint, Hint,
    HostType, Interface, TransitType,
};
use wormhole_transit::priority::Priority;
use wormhole_transit::relay_url::RelayUrl;

fn host(name: &str, port: u16) -> DirectHint {
    DirectHint {
        priority: Priority::zero(),
        hostname: name.to_string(),
        port,
    }
}

fn interfaces() -> Vec<Interface> {
    vec![
        Interface {
            loopback: true,
            addresses: vec!["127.0.0.1".to_string(), "::1".to_string()],
        },
        Interface {
            loopback: false,
            addresses: vec!["192.168.1.8".to_string(), "fe80::1".to_string()],
        },
        Interface {
            loopback: false,
            addresses: vec![],
        },
        Interface {
            loopback: false,
            addresses: vec!["10.0.0.1".to_string()],
        },
    ]
}

fn relay() -> RelayUrl {
    RelayUrl {
        host: "relay.example".to_string(),
        port: 4001,
    }
}

fn own_hints() -> Vec<Hint> {
    vec![
        Hint::new_direct(Priority::zero(), "192.168.1.8", 7),
        Hint::new_direct(Priority::zero(), "fe80::1", 7),
        Hint::new_direct(Priority::zero(), "10.0.0.1", 7),
        Hint::new_relay(vec![host("relay.example", 4001)]),
    ]
}

fn peer() -> TransitType {
    TransitType {
        abilities_v1: vec![Ability::Other],
        hints_v1: vec![
            Hint::new_direct(Priority::zero(), "a", 1),
            Hint::new_relay(vec![host("r", 2), host("s", 3)]),
            Hint::new_direct(Priority::zero(), "b", 4),
            Hint::new_relay(vec![host("unused", 5)]),
        ],
    }
}

#[test]
fn abilities() {
    assert_eq!(
        Ability::all_abilities(),
        vec![Ability::DirectTcpV1, Ability::RelayV1]
    );
}

#[test]
fn hints_to_this_machine() {
    let mut expected = own_hints();
    expected.truncate(3);
    assert_eq!(build_direct_hints(&interfaces(), 7), expected);
    assert_eq!(build_direct_hints(&vec![], 7), vec![]);
}

#[test]
fn hints_to_the_relay() {
    assert_eq!(
        build_relay_hints(&relay()),
        vec![Hint::new_relay(vec![host("relay.example", 4001)])]
    );
}

#[test]
fn hints_follow_abilities() {
    let hints = |abilities: Vec<Ability>| {
        let connector = init(abilities.clone(), &relay(), 7, &interfaces());
        assert_eq!(connector.our_side_ttype().abilities_v1, abilities);
        connector.our_side_ttype().hints_v1.len()
    };
    assert_eq!(hints(vec![]), 0);
    assert_eq!(hints(vec![Ability::Other]), 0);
    assert_eq!(hints(vec![Ability::RelayV1]), 1);
    assert_eq!(hints(vec![Ability::DirectTcpV1]), 3);
    assert_eq!(hints(vec![Ability::RelayV1, Ability::DirectTcpV1]), 4);
    let connector = init(Ability::all_abilities(), &relay(), 7, &interfaces());
    assert_eq!(connector.our_side_ttype().hints_v1, own_hints());
}

#[test]
fn hosts_of_a_peer() {
    let peer = peer();
    let (direct, relay) = get_direct_relay_hosts(&peer);
    assert_eq!(
        direct,
        vec![
            (HostType::Direct, &host("a", 1)),
            (HostType::Direct, &host("b", 4)),
        ]
    );
    assert_eq!(
        relay,
        vec![
            (HostType::Relay, &host("r", 2)),
            (HostType::Relay, &host("s", 3)),
        ]
    );
}

#[test]
fn hints_lead_to_the_side_that_gave_them() {
    let connector = init(Ability::all_abilities(), &relay(), 7, &interfaces());
    let (direct, relay) = get_direct_relay_hosts(connector.our_side_ttype());
    assert_eq!(
        direct,
        vec![
            (HostType::Direct, &host("192.168.1.8", 7)),
            (HostType::Direct, &host("fe80::1", 7)),
            (HostType::Direct, &host("10.0.0.1", 7)),
        ]
    );
    assert_eq!(relay, vec![(HostType::Relay, &host("relay.example", 4001))]);
}

#[test]
fn addresses_of_hosts() {
    assert_eq!(host("example.com", 0).address(), "example.com:0");
    assert_eq!(host("10.0.0.1", 65535).address(), "10.0.0.1:65535");
    assert_eq!(host("h", 4090).address(), "h:4090");
}

fn connector() -> TransitConnector {
    init(Ability::all_abilities(), &relay(), 7, &interfaces())
}

#[test]
fn all_is_tried() {
    let peer = peer();
    let (attempts, _) = connector().sender_connect(&peer);
    let tried: Vec<String> = attempts
        .iter()
        .map(|attempt| match attempt {
            Attempt::Connect(HostType::Direct, hint) => format!("direct {}", hint.address()),
            Attempt::Connect(HostType::Relay, hint) => format!("relay {}", hint.address()),
            Attempt::Listen(port) => format!("listen {}", port),
        })
        .collect();
    assert_eq!(
        tried,
        vec!["direct a:1", "direct b:4", "relay r:2", "relay s:3", "listen 7"]
    );
    let (attempts, _) = connector().receiver_connect(&peer);
    assert_eq!(attempts.len(), 5);
}

fn first_line(race: &Race, attempt: &Attempt) -> String {
    match race.handshake(attempt, &[9u8; 32], "s").next(&[]) {
        HandshakeAction::Send(bytes, _) => String::from_utf8(bytes).unwrap(),
        _ => panic!("a handshake starts with a line"),
    }
}

#[test]
fn handshakes_of_attempts() {
    let peer = peer();
    let (attempts, race) = connector().sender_connect(&peer);
    for i in [0, 1, 4] {
        assert!(first_line(&race, &attempts[i]).starts_with("transit sender "));
    }
    for i in [2, 3] {
        assert!(first_line(&race, &attempts[i]).starts_with("please relay "));
        assert!(first_line(&race, &attempts[i]).ends_with(" for side s\n"));
    }
    let (attempts, race) = connector().receiver_connect(&peer);
    for i in [0, 1, 4] {
        assert!(first_line(&race, &attempts[i]).starts_with("transit receiver "));
    }
    let race = after_failures(race, 2);
    assert!(first_line(&race, &attempts[4]).starts_with("transit receiver "));
}

#[test]
fn listening_goes_on_until_it_succeeds() {
    let hint = host("h", 1);
    assert!(Attempt::Listen(1).goes_on_after(Outcome::Failed));
    assert!(!Attempt::Listen(1).goes_on_after(Outcome::Succeeded));
    assert!(!Attempt::Connect(HostType::Direct, &hint).goes_on_after(Outcome::Failed));
    assert!(!Attempt::Connect(HostType::Relay, &hint).goes_on_after(Outcome::Succeeded));
}

fn after_failures(race: Race, failures: usize) -> Race {
    let mut race = race;
    for _ in 0..failures {
        race = match race.next(Outcome::Failed) {
            RaceStep::Wait(race) => race,
            _ => panic!("the race is over too early"),
        };
    }
    race
}

#[test]
fn the_first_success_wins() {
    let peer = peer();
    for failures in 0..5 {
        let (_, race) = connector().sender_connect(&peer);
        match after_failures(race, failures).next(Outcome::Succeeded) {
            RaceStep::Connected(cancelled, bytes) => {
                assert_eq!(cancelled, 4 - failures);
                assert_eq!(bytes, b"go\n");
            }
            _ => panic!("the race is not won"),
        }
        let (_, race) = connector().receiver_connect(&peer);
        match after_failures(race, failures).next(Outcome::Succeeded) {
            RaceStep::Connected(cancelled, bytes) => {
                assert_eq!(cancelled, 4 - failures);
                assert!(bytes.is_empty());
            }
            _ => panic!("the race is not won"),
        }
    }
}

#[test]
fn all_attempts_fail() {
    let peer = peer();
    let (_, race) = connector().sender_connect(&peer);
    match after_failures(race, 4).next(Outcome::Failed) {
        RaceStep::Failed(error) => {
            assert_eq!(error, TransitError::AllHandshakesFailed);
            assert_eq!(error.message(), "All handshakes failed or timed out");
        }
        _ => panic!("the race is not over"),
    }
}

#[test]
fn a_picked_connection_completes_the_handshake_of_the_peer() {
    let key = [9u8; 32];
    let peer = peer();
    // The first attempt leads to the peer itself, the third to a relay.
    for i in [0, 2] {
        let (attempts, race) = connector().sender_connect(&peer);
        let mut stream = vec![];
        let mut action = race.handshake(&attempts[i], &key, "s").next(&[]);
        if let Attempt::Connect(HostType::Relay, _) = attempts[i] {
            stream.extend(b"ok\n");
            action = match action {
                HandshakeAction::Send(_, rest) => rest.next(&[]),
                _ => panic!("the relay is asked first"),
            };
            action = match action {
                HandshakeAction::Receive(3, rest) => rest.next(b"ok\n"),
                _ => panic!("the relay answers"),
            };
        }
        match action {
            HandshakeAction::Send(bytes, _) => stream.extend(bytes),
            _ => panic!("a side introduces itself"),
        }
        match race.next(Outcome::Succeeded) {
            RaceStep::Connected(_, bytes) => stream.extend(bytes),
            _ => panic!("the race is not won"),
        }
        let (attempts, race) = connector().receiver_connect(&peer);
        let mut taken = 0;
        let mut action = race.handshake(&attempts[i], &key, "r").next(&[]);
        loop {
            action = match action {
                HandshakeAction::Send(_, rest) => rest.next(&[]),
                HandshakeAction::Receive(count, rest) => {
                    taken += count;
                    rest.next(&stream[taken - count..taken])
                }
                HandshakeAction::Done(_) => break,
                HandshakeAction::Fail(error) => panic!("{}", error.message()),
            };
        }
        assert_eq!(taken, stream.len());
    }
}
