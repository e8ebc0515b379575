//! How a connection to the peer is sought: every way at once, and the first that works wins.
use crate::error::TransitError;
use crate::handshake::{go_message, handshake_keys, Handshake, HandshakeKeysView, Role};
use crate::handshake_laws::{
    exchange, heard_first, law_relay_makes_no_difference, law_sides_connect, peer_of, said_first,
    ExchangeResult,
};
use crate::hints::{
    build_direct_hints, build_relay_hints, direct_hints, direct_hosts, get_direct_relay_hosts,
    hint_views, host_views, interface_hints, interface_views, own_hint, relay_hints, relay_hosts,
    Ability, DirectHint, DirectHintView, Hint, HintView, Host, HostType, Interface, InterfaceView,
    TransitType, TransitTypeView,
};
use crate::relay_url::RelayUrl;
use std::sync::Arc;
use vstd::prelude::*;

verus! {

/// A side that waits for its peer on a port of this machine.
pub struct TransitConnector {
    port: u16,
    our_side_ttype: Arc<TransitType>,
}

/// The hints that a side gives: one to each of its addresses, and one to the relay, each kind
/// only if the side has that ability.
pub open spec fn own_hints(
    abilities: Seq<Ability>,
    host: Seq<char>,
    relay_port: u16,
    port: u16,
    interfaces: Seq<InterfaceView>,
) -> Seq<HintView> {
    let direct = if abilities.contains(Ability::DirectTcpV1) {
        direct_hints(interfaces, port)
    } else {
        seq![]
    };
    let relay = if abilities.contains(Ability::RelayV1) {
        relay_hints(host, relay_port)
    } else {
        seq![]
    };
    direct + relay
}

fn has_ability(abilities: &Vec<Ability>, ability: Ability) -> (found: bool)
    ensures
        found == abilities@.contains(ability),
{
    let mut i: usize = 0;
    while i < abilities.len()
        invariant
            i <= abilities@.len(),
            forall|j: int| 0 <= j < i ==> abilities@[j] != ability,
        decreases abilities@.len() - i,
    {
        if abilities[i] == ability {
            return true;
        }
        i = i + 1;
    }
    false
}

/// Makes ready to be reached: `port` is where this side listens, and `interfaces` are those
/// of this machine.
pub fn init(
    abilities: Vec<Ability>,
    relay_url: &RelayUrl,
    port: u16,
    interfaces: &Vec<Interface>,
) -> (connector: TransitConnector)
    ensures
        connector@.port == port,
        connector@.our_side_ttype.abilities_v1 == abilities@,
        connector@.our_side_ttype.hints_v1 == own_hints(
            abilities@,
            relay_url.host@,
            relay_url.port,
            port,
            interface_views(interfaces@),
        ),
{
    let mut our_hints: Vec<Hint> = Vec::new();
    if has_ability(&abilities, Ability::DirectTcpV1) {
        let mut direct = build_direct_hints(interfaces, port);
        our_hints.append(&mut direct);
    }
    let ghost first = hint_views(our_hints@);
    assert(first =~= if abilities@.contains(Ability::DirectTcpV1) {
        direct_hints(interface_views(interfaces@), port)
    } else {
        seq![]
    });
    if has_ability(&abilities, Ability::RelayV1) {
        let mut relay = build_relay_hints(relay_url);
        let ghost second = hint_views(relay@);
        our_hints.append(&mut relay);
        assert(hint_views(our_hints@) =~= first + second);
    }
    let ttype = TransitType { abilities_v1: abilities, hints_v1: our_hints };
    assert(ttype@.hints_v1 =~= own_hints(
        abilities@,
        relay_url.host@,
        relay_url.port,
        port,
        interface_views(interfaces@),
    ));
    TransitConnector { port, our_side_ttype: Arc::new(ttype) }
}

/// The contents of [`TransitConnector`].
pub struct TransitConnectorView {
    /// Where this side listens.
    pub port: u16,
    /// What this side tells its peer.
    pub our_side_ttype: TransitTypeView,
}

impl View for TransitConnector {
    type V = TransitConnectorView;

    closed spec fn view(&self) -> TransitConnectorView {
        TransitConnectorView { port: self.port, our_side_ttype: self.our_side_ttype@ }
    }
}

impl TransitConnector {
    /// What this side tells its peer.
    pub fn our_side_ttype(&self) -> (ttype: &Arc<TransitType>)
        ensures
            ttype@ == self@.our_side_ttype,
    {
        &self.our_side_ttype
    }
}

/// One way of reaching the peer.
pub enum Attempt<'a> {
    /// Connect to this host.
    Connect(HostType, &'a DirectHint),
    /// Wait on this port until the peer has connected and its handshake is complete.
    Listen(u16),
}

/// The contents of [`Attempt`].
pub enum AttemptView {
    Connect(HostType, DirectHintView),
    Listen(u16),
}

impl<'a> View for Attempt<'a> {
    type V = AttemptView;

    open spec fn view(&self) -> AttemptView {
        match self {
            Attempt::Connect(host_type, hint) => AttemptView::Connect(*host_type, hint@),
            Attempt::Listen(port) => AttemptView::Listen(*port),
        }
    }
}

impl AttemptView {
    /// How the other end of the stream is reached. Whoever connects to this side is the peer
    /// itself.
    pub open spec fn host_type(self) -> HostType {
        match self {
            AttemptView::Connect(host_type, _) => host_type,
            AttemptView::Listen(_) => HostType::Direct,
        }
    }
}

impl<'a> Attempt<'a> {
    /// How the other end of the stream is reached.
    fn host_type(&self) -> (host_type: HostType)
        ensures
            host_type == self@.host_type(),
    {
        match self {
            Attempt::Connect(host_type, _) => *host_type,
            Attempt::Listen(_) => HostType::Direct,
        }
    }

    /// Whether the attempt goes on after one handshake has ended in this way. To wait for the
    /// peer is over only when a handshake is complete: whoever else connects is passed over.
    pub fn goes_on_after(&self, outcome: Outcome) -> (goes_on: bool)
        ensures
            goes_on == (self@ is Listen && outcome == Outcome::Failed),
    {
        match self {
            Attempt::Connect(_, _) => false,
            Attempt::Listen(_) => outcome == Outcome::Failed,
        }
    }
}

/// The attempt to connect to a host.
pub open spec fn to_host(host: Host) -> AttemptView {
    AttemptView::Connect(host.0, host.1)
}

/// All that is tried to reach a peer with these hints: each of its own hosts, then each host
/// of its relay; and last, to wait for the peer on `port`.
pub open spec fn attempts_for(hints: Seq<HintView>, port: u16) -> Seq<AttemptView> {
    (direct_hosts(hints) + relay_hosts(hints)).map_values(|host: Host| to_host(host)).push(
        AttemptView::Listen(port),
    )
}

/// The contents of a list of attempts.
pub open spec fn attempt_views(attempts: Seq<Attempt>) -> Seq<AttemptView> {
    attempts.map_values(|attempt: Attempt| attempt@)
}

fn attempts<'a>(ttype: &'a TransitType, port: u16) -> (attempts: Vec<Attempt<'a>>)
    ensures
        attempt_views(attempts@) == attempts_for(ttype@.hints_v1, port),
{
    let (mut hosts, mut relays) = get_direct_relay_hosts(ttype);
    let ghost all = direct_hosts(ttype@.hints_v1) + relay_hosts(ttype@.hints_v1);
    hosts.append(&mut relays);
    assert(host_views(hosts@) =~= all);
    let ghost expected = all.map_values(|host: Host| to_host(host));
    let mut attempts: Vec<Attempt<'a>> = Vec::new();
    let mut i: usize = 0;
    while i < hosts.len()
        invariant
            i <= hosts@.len(),
            host_views(hosts@) == all,
            expected == all.map_values(|host: Host| to_host(host)),
            attempt_views(attempts@) =~= expected.take(i as int),
        decreases hosts@.len() - i,
    {
        let ghost done = attempt_views(attempts@);
        let (host_type, hint) = hosts[i];
        assert(all[i as int] == (host_type, hint@));
        attempts.push(Attempt::Connect(host_type, hint));
        assert(attempt_views(attempts@) =~= done.push(expected[i as int]));
        i = i + 1;
        assert(attempt_views(attempts@) =~= expected.take(i as int));
    }
    assert(expected.take(i as int) =~= expected);
    attempts.push(Attempt::Listen(port));
    assert(attempt_views(attempts@) =~= expected.push(AttemptView::Listen(port)));
    attempts
}

impl TransitConnector {
    /// Begins to connect to a peer, as the sending side: what is to be tried, all at once, and
    /// the race between those attempts.
    pub fn sender_connect<'a>(&self, other_side_ttype: &'a TransitType) -> (plan: (
        Vec<Attempt<'a>>,
        Race,
    ))
        ensures
            attempt_views(plan.0@) == attempts_for(other_side_ttype@.hints_v1, self@.port),
            plan.1@ == (RaceView { role: Role::Sender, pending: plan.0@.len() }),
    {
        let attempts = attempts(other_side_ttype, self.port);
        assert(attempt_views(attempts@).len() > 0);
        let race = Race { role: Role::Sender, pending: attempts.len() };
        (attempts, race)
    }

    /// Begins to connect to a peer, as the receiving side: what is to be tried, all at once,
    /// and the race between those attempts.
    pub fn receiver_connect<'a>(&self, other_side_ttype: &'a TransitType) -> (plan: (
        Vec<Attempt<'a>>,
        Race,
    ))
        ensures
            attempt_views(plan.0@) == attempts_for(other_side_ttype@.hints_v1, self@.port),
            plan.1@ == (RaceView { role: Role::Receiver, pending: plan.0@.len() }),
    {
        let attempts = attempts(other_side_ttype, self.port);
        assert(attempt_views(attempts@).len() > 0);
        let race = Race { role: Role::Receiver, pending: attempts.len() };
        (attempts, race)
    }
}

/// The race between the attempts of one side that have neither succeeded nor failed.
pub struct Race {
    role: Role,
    pending: usize,
}

/// The contents of [`Race`].
pub struct RaceView {
    pub role: Role,
    /// How many attempts are still under way.
    pub pending: nat,
}

impl View for Race {
    type V = RaceView;

    closed spec fn view(&self) -> RaceView {
        RaceView { role: self.role, pending: self.pending as nat }
    }
}

/// How one attempt has ended.
#[derive(Clone, Copy, Debug, PartialEq, Eq, Structural)]
pub enum Outcome {
    /// Its handshake is complete.
    Succeeded,
    /// It did not get that far.
    Failed,
}

/// What is to be done after an attempt has ended.
pub enum RaceStep {
    /// Wait for the next attempt to end.
    Wait(Race),
    /// Use the stream of this attempt: cancel so many others, and put these bytes on the
    /// stream.
    Connected(usize, Vec<u8>),
    /// Give up.
    Failed(TransitError),
}

/// The contents of [`RaceStep`].
pub enum RaceStepView {
    Wait(RaceView),
    Connected(nat, Seq<u8>),
    Failed(TransitError),
}

impl View for RaceStep {
    type V = RaceStepView;

    open spec fn view(&self) -> RaceStepView {
        match self {
            RaceStep::Wait(race) => RaceStepView::Wait(race@),
            RaceStep::Connected(cancelled, bytes) => RaceStepView::Connected(
                *cancelled as nat,
                bytes@,
            ),
            RaceStep::Failed(error) => RaceStepView::Failed(*error),
        }
    }
}

/// What a side puts on the stream that it has picked. It is for the sending side to tell the
/// other that this is the one.
pub open spec fn parting_message(role: Role) -> Seq<u8> {
    match role {
        Role::Sender => go_message(),
        Role::Receiver => seq![],
    }
}

/// What is to be done after one attempt has ended.
pub open spec fn race_step(race: RaceView, outcome: Outcome) -> RaceStepView {
    match outcome {
        Outcome::Succeeded => RaceStepView::Connected(
            (race.pending - 1) as nat,
            parting_message(race.role),
        ),
        Outcome::Failed => if race.pending <= 1 {
            RaceStepView::Failed(TransitError::AllHandshakesFailed)
        } else {
            RaceStepView::Wait(RaceView { pending: (race.pending - 1) as nat, ..race })
        },
    }
}

impl Race {
    #[verifier::type_invariant]
    spec fn well_formed(self) -> bool {
        self.pending > 0
    }

    /// The handshake on a stream that an attempt of this side has led to: that of the side for
    /// which this is the race.
    pub fn handshake(&self, attempt: &Attempt, key: &[u8], tside: &str) -> (handshake: Handshake)
        ensures
            handshake@ == Handshake::initial(
                self@.role,
                attempt@.host_type(),
                handshake_keys(key@),
                tside@,
            ),
            handshake_keys(key@).well_formed(),
    {
        Handshake::new(self.role, attempt.host_type(), key, tside)
    }

    /// Goes on after one attempt has ended.
    pub fn next(&self, outcome: Outcome) -> (step: RaceStep)
        ensures
            self@.pending > 0,
            step@ == race_step(self@, outcome),
    {
        proof {
            use_type_invariant(self);
        }
        match outcome {
            Outcome::Succeeded => {
                let bytes = match self.role {
                    Role::Sender => "go\n".as_bytes_vec(),
                    Role::Receiver => Vec::new(),
                };
                assert(bytes@ =~= parting_message(self.role));
                RaceStep::Connected(self.pending - 1, bytes)
            },
            Outcome::Failed => if self.pending == 1 {
                RaceStep::Failed(TransitError::AllHandshakesFailed)
            } else {
                RaceStep::Wait(Race { role: self.role, pending: self.pending - 1 })
            },
        }
    }
}

/// What the race comes to when its attempts end one after the other in this way.
pub open spec fn settle(race: RaceView, outcomes: Seq<Outcome>) -> RaceStepView
    decreases outcomes.len(),
{
    if outcomes.len() == 0 {
        RaceStepView::Wait(race)
    } else {
        match race_step(race, outcomes[0]) {
            RaceStepView::Wait(rest) => settle(rest, outcomes.drop_first()),
            step => step,
        }
    }
}

/// The first attempt to succeed is the one that is used, and all that are then still under
/// way are cancelled. The sending side, and it alone, says so on the stream.
pub proof fn law_first_success_wins(race: RaceView, outcomes: Seq<Outcome>, i: int)
    requires
        0 <= i < outcomes.len(),
        i < race.pending,
        outcomes[i] == Outcome::Succeeded,
        forall|j: int| 0 <= j < i ==> #[trigger] outcomes[j] == Outcome::Failed,
    ensures
        settle(race, outcomes) == RaceStepView::Connected(
            (race.pending - 1 - i) as nat,
            parting_message(race.role),
        ),
    decreases i,
{
    if i > 0 {
        assert(outcomes[0] == Outcome::Failed);
        let rest = RaceView { pending: (race.pending - 1) as nat, ..race };
        assert forall|j: int| 0 <= j < i - 1 implies #[trigger] outcomes.drop_first()[j]
            == Outcome::Failed by {
            assert(outcomes[j + 1] == Outcome::Failed);
        }
        law_first_success_wins(rest, outcomes.drop_first(), i - 1);
    }
}

/// The first `n` attempts to end have all failed.
pub open spec fn all_failed(outcomes: Seq<Outcome>, n: nat) -> bool {
    &&& outcomes.len() >= n
    &&& forall|j: int| 0 <= j < n ==> #[trigger] outcomes[j] == Outcome::Failed
}

/// A side gives up if and only if each of its attempts has failed.
pub proof fn law_fails_only_if_all_fail(race: RaceView, outcomes: Seq<Outcome>)
    requires
        race.pending > 0,
    ensures
        settle(race, outcomes) == RaceStepView::Failed(TransitError::AllHandshakesFailed)
            <==> all_failed(outcomes, race.pending),
        settle(race, outcomes) is Failed ==> settle(race, outcomes) == RaceStepView::Failed(
            TransitError::AllHandshakesFailed,
        ),
    decreases race.pending,
{
    if outcomes.len() > 0 && outcomes[0] == Outcome::Failed && race.pending > 1 {
        let rest = RaceView { pending: (race.pending - 1) as nat, ..race };
        let tail = outcomes.drop_first();
        law_fails_only_if_all_fail(rest, tail);
        if all_failed(tail, rest.pending) {
            assert forall|j: int| 0 <= j < race.pending implies #[trigger] outcomes[j]
                == Outcome::Failed by {
                if j > 0 {
                    assert(tail[j - 1] == Outcome::Failed);
                }
            }
        }
        if all_failed(outcomes, race.pending) {
            assert forall|j: int| 0 <= j < rest.pending implies #[trigger] tail[j]
                == Outcome::Failed by {
                assert(outcomes[j + 1] == Outcome::Failed);
            }
        }
    }
}

/// The host that a peer finds at one address.
pub open spec fn address_host(address: Seq<char>, port: u16) -> Host {
    (HostType::Direct, own_hint(address, port))
}

/// The hosts that a peer finds at the addresses of an interface.
pub open spec fn interface_hosts(interface: InterfaceView, port: u16) -> Seq<Host> {
    if interface.loopback {
        seq![]
    } else {
        interface.addresses.map_values(|a: Seq<char>| address_host(a, port))
    }
}

/// A peer that is told the hints of a side finds in them exactly that side's addresses, each
/// with the port where it listens and none that leads back to it, and its relay; either only
/// if the side has that ability.
pub proof fn law_hints_lead_to_us(
    abilities: Seq<Ability>,
    host: Seq<char>,
    relay_port: u16,
    port: u16,
    interfaces: Seq<InterfaceView>,
)
    ensures
        ({
            let hints = own_hints(abilities, host, relay_port, port, interfaces);
            &&& direct_hosts(hints) == if abilities.contains(Ability::DirectTcpV1) {
                interfaces.flat_map(|i: InterfaceView| interface_hosts(i, port))
            } else {
                seq![]
            }
            &&& relay_hosts(hints) == if abilities.contains(Ability::RelayV1) {
                seq![(HostType::Relay, own_hint(host, relay_port))]
            } else {
                seq![]
            }
        }),
{
    let direct = if abilities.contains(Ability::DirectTcpV1) {
        direct_hints(interfaces, port)
    } else {
        seq![]
    };
    let relay = if abilities.contains(Ability::RelayV1) {
        relay_hints(host, relay_port)
    } else {
        seq![]
    };
    lemma_direct_hints_are_direct(interfaces, port);
    lemma_relay_after_direct(direct, relay);
    lemma_direct_hosts_concat(direct, relay);
    reveal_with_fuel(relay_hosts, 2);
    reveal_with_fuel(Seq::filter_map, 2);
    if abilities.contains(Ability::RelayV1) {
        assert(relay.drop_last() =~= seq![]);
        assert(direct_hosts(relay) =~= seq![]);
        assert(relay_hosts(relay) =~= seq![(HostType::Relay, own_hint(host, relay_port))]);
    }
    assert(direct_hosts(direct) + direct_hosts(relay) =~= direct_hosts(direct));
    lemma_direct_hosts_of_interfaces(interfaces, port);
}

/// Hints to this machine name no relay.
pub proof fn lemma_direct_hints_are_direct(interfaces: Seq<InterfaceView>, port: u16)
    ensures
        forall|i: int|
            0 <= i < direct_hints(interfaces, port).len() ==> (#[trigger] direct_hints(
                interfaces,
                port,
            )[i]) is DirectTcpV1,
    decreases interfaces.len(),
{
    let each = |i: InterfaceView| interface_hints(i, port);
    if interfaces.len() == 0 {
        assert(interfaces.map_values(each) =~= seq![]);
    } else {
        lemma_direct_hints_are_direct(interfaces.drop_last(), port);
        interfaces.drop_last().lemma_flat_map_push(each, interfaces.last());
        assert(interfaces.drop_last().push(interfaces.last()) =~= interfaces);
    }
}

/// Hosts of relays are those of what follows hints that name no relay.
proof fn lemma_relay_after_direct(direct: Seq<HintView>, rest: Seq<HintView>)
    requires
        forall|i: int| 0 <= i < direct.len() ==> (#[trigger] direct[i]) is DirectTcpV1,
    ensures
        relay_hosts(direct + rest) == relay_hosts(rest),
    decreases direct.len(),
{
    if direct.len() == 0 {
        assert(direct + rest =~= rest);
    } else {
        assert((direct + rest).drop_first() =~= direct.drop_first() + rest);
        assert((direct + rest)[0] == direct[0]);
        lemma_relay_after_direct(direct.drop_first(), rest);
    }
}

/// The peer's own hosts in two lists of hints are those in the first, then those in the
/// second.
proof fn lemma_direct_hosts_concat(a: Seq<HintView>, b: Seq<HintView>)
    ensures
        direct_hosts(a + b) == direct_hosts(a) + direct_hosts(b),
    decreases b.len(),
{
    if b.len() == 0 {
        assert(a + b =~= a);
        assert(direct_hosts(a) + direct_hosts(b) =~= direct_hosts(a));
    } else {
        assert((a + b).drop_last() =~= a + b.drop_last());
        lemma_direct_hosts_concat(a, b.drop_last());
        assert(direct_hosts(a + b) =~= direct_hosts(a) + direct_hosts(b));
    }
}

/// The hosts in the hints to this machine are its addresses.
proof fn lemma_direct_hosts_of_interfaces(interfaces: Seq<InterfaceView>, port: u16)
    ensures
        direct_hosts(direct_hints(interfaces, port)) == interfaces.flat_map(
            |i: InterfaceView| interface_hosts(i, port),
        ),
    decreases interfaces.len(),
{
    let hints = |i: InterfaceView| interface_hints(i, port);
    let hosts = |i: InterfaceView| interface_hosts(i, port);
    if interfaces.len() == 0 {
        assert(interfaces.map_values(hints) =~= seq![]);
        assert(interfaces.map_values(hosts) =~= seq![]);
    } else {
        let init = interfaces.drop_last();
        let last = interfaces.last();
        lemma_direct_hosts_of_interfaces(init, port);
        init.lemma_flat_map_push(hints, last);
        init.lemma_flat_map_push(hosts, last);
        assert(init.push(last) =~= interfaces);
        lemma_direct_hosts_concat(direct_hints(init, port), interface_hints(last, port));
        if !last.loopback {
            lemma_direct_hosts_of_addresses(last.addresses, port);
        }
    }
}

proof fn lemma_direct_hosts_of_addresses(addresses: Seq<Seq<char>>, port: u16)
    ensures
        direct_hosts(
            addresses.map_values(|a: Seq<char>| HintView::DirectTcpV1(own_hint(a, port))),
        ) == addresses.map_values(|a: Seq<char>| address_host(a, port)),
    decreases addresses.len(),
{
    let hints = addresses.map_values(|a: Seq<char>| HintView::DirectTcpV1(own_hint(a, port)));
    let hosts = addresses.map_values(|a: Seq<char>| address_host(a, port));
    if addresses.len() > 0 {
        let init = addresses.drop_last();
        lemma_direct_hosts_of_addresses(init, port);
        assert(hints.drop_last() =~= init.map_values(
            |a: Seq<char>| HintView::DirectTcpV1(own_hint(a, port)),
        ));
        assert(hosts =~= init.map_values(|a: Seq<char>| address_host(a, port)).push(
            address_host(addresses.last(), port),
        ));
    }
    assert(direct_hosts(hints) =~= hosts);
}

/// Once a side has picked a connection to a peer with the same keys, all that it has put on
/// the stream for the peer, down to its last message, completes the handshake of that peer;
/// and the peer reads no further. A relay in between keeps the request to itself, and answers
/// both sides first.
pub proof fn law_picked_connection_completes(
    role: Role,
    host_type: HostType,
    keys: HandshakeKeysView,
    tside: Seq<char>,
    peer_tside: Seq<char>,
    heard: Seq<u8>,
    rest: Seq<u8>,
)
    requires
        keys.well_formed(),
    ensures
        ({
            let this = Handshake::initial(role, host_type, keys, tside);
            let peer = Handshake::initial(peer_of(role), host_type, keys, peer_tside);
            let sent = exchange(this, heard_first(host_type) + heard).sent;
            let to_peer = sent.skip(said_first(host_type, keys, tside).len() as int);
            let at_peer = exchange(
                peer,
                heard_first(host_type) + (to_peer + parting_message(role) + rest),
            );
            &&& sent == said_first(host_type, keys, tside) + to_peer
            &&& at_peer.result == ExchangeResult::Done(keys.transit())
            &&& at_peer.unread == rest
        }),
{
    law_sides_connect(keys, tside, peer_tside, heard, rest);
    law_sides_connect(keys, peer_tside, tside, heard, rest);
    law_relay_makes_no_difference(role, host_type, keys, tside, heard);
    let direct = exchange(Handshake::initial(role, HostType::Direct, keys, tside), heard).sent;
    let sent = exchange(
        Handshake::initial(role, host_type, keys, tside),
        heard_first(host_type) + heard,
    ).sent;
    assert(sent.skip(said_first(host_type, keys, tside).len() as int) =~= direct);
    assert(direct + Seq::<u8>::empty() =~= direct);
    law_relay_makes_no_difference(
        peer_of(role),
        host_type,
        keys,
        peer_tside,
        direct + parting_message(role) + rest,
    );
}

} // verus!
