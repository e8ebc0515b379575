//! Where a side can be reached, as the two sides tell each other.
use crate::priority::{is_priority_text, zero_priority, Priority, PriorityView};
use crate::relay_url::RelayUrl;
use crate::text::{decimal, decimal_text};
use vstd::prelude::*;

verus! {

/// A way of connecting that a side knows how to use.
#[derive(Clone, Copy, Debug, PartialEq, Eq, Structural)]
pub enum Ability {
    DirectTcpV1,
    RelayV1,
    /// A way that this library does not know.
    Other,
}

impl Ability {
    /// The ways that this library knows how to use.
    pub fn all_abilities() -> (abilities: Vec<Ability>)
        ensures
            abilities@ == seq![Ability::DirectTcpV1, Ability::RelayV1],
    {
        let mut abilities: Vec<Ability> = Vec::new();
        abilities.push(Ability::DirectTcpV1);
        abilities.push(Ability::RelayV1);
        assert(abilities@ =~= seq![Ability::DirectTcpV1, Ability::RelayV1]);
        abilities
    }
}

/// A host that can be connected to.
#[derive(Debug, PartialEq)]
pub struct DirectHint {
    pub priority: Priority,
    pub hostname: String,
    pub port: u16,
}

/// The contents of [`DirectHint`].
pub struct DirectHintView {
    pub priority: PriorityView,
    pub hostname: Seq<char>,
    pub port: u16,
}

impl View for DirectHint {
    type V = DirectHintView;

    open spec fn view(&self) -> DirectHintView {
        DirectHintView { priority: self.priority@, hostname: self.hostname@, port: self.port }
    }
}

/// The hosts of one relay.
#[derive(Debug, PartialEq)]
pub struct RelayHint {
    pub hints: Vec<DirectHint>,
}

/// The contents of [`RelayHint`].
pub struct RelayHintView {
    pub hints: Seq<DirectHintView>,
}

impl View for RelayHint {
    type V = RelayHintView;

    open spec fn view(&self) -> RelayHintView {
        RelayHintView { hints: self.hints@.map_values(|h: DirectHint| h@) }
    }
}

/// One way of reaching a side.
#[derive(Debug, PartialEq)]
pub enum Hint {
    DirectTcpV1(DirectHint),
    RelayV1(RelayHint),
}

/// The contents of [`Hint`].
pub enum HintView {
    DirectTcpV1(DirectHintView),
    RelayV1(RelayHintView),
}

impl View for Hint {
    type V = HintView;

    open spec fn view(&self) -> HintView {
        match self {
            Hint::DirectTcpV1(hint) => HintView::DirectTcpV1(hint@),
            Hint::RelayV1(hint) => HintView::RelayV1(hint@),
        }
    }
}

impl Hint {
    /// The host `hostname`, at `port`.
    pub fn new_direct(priority: Priority, hostname: &str, port: u16) -> (hint: Hint)
        ensures
            hint@ == HintView::DirectTcpV1(
                DirectHintView { priority: priority@, hostname: hostname@, port },
            ),
            hint matches Hint::DirectTcpV1(host) && host.priority == priority && host.hostname@
                == hostname@ && host.port == port,
    {
        Hint::DirectTcpV1(DirectHint { priority, hostname: hostname.to_owned(), port })
    }

    /// The relay with the hosts `h`.
    pub fn new_relay(h: Vec<DirectHint>) -> (hint: Hint)
        ensures
            hint@ == HintView::RelayV1(
                RelayHintView { hints: h@.map_values(|d: DirectHint| d@) },
            ),
            hint == Hint::RelayV1(RelayHint { hints: h }),
    {
        Hint::RelayV1(RelayHint { hints: h })
    }
}

impl DirectHint {
    /// The host and the port in one, as a name that can be looked up.
    pub fn address(&self) -> (address: String)
        ensures
            address@ == self@.hostname + ":"@ + decimal(self@.port as nat),
    {
        let port = decimal_text(self.port);
        self.hostname.clone().concat(":").concat(port.as_str())
    }
}

/// All that a side tells the other about how it can be reached.
#[derive(Debug, PartialEq)]
pub struct TransitType {
    pub abilities_v1: Vec<Ability>,
    pub hints_v1: Vec<Hint>,
}

/// The contents of [`TransitType`].
pub struct TransitTypeView {
    pub abilities_v1: Seq<Ability>,
    pub hints_v1: Seq<HintView>,
}

impl View for TransitType {
    type V = TransitTypeView;

    open spec fn view(&self) -> TransitTypeView {
        TransitTypeView {
            abilities_v1: self.abilities_v1@,
            hints_v1: self.hints_v1@.map_values(|h: Hint| h@),
        }
    }
}

/// Its priority is written as JSON writes a number.
pub open spec fn valid_direct_hint(hint: DirectHintView) -> bool {
    is_priority_text(hint.priority.bits, hint.priority.text)
}

/// Each of its priorities is written as JSON writes a number.
pub open spec fn valid_relay_hint(relay: RelayHintView) -> bool {
    forall|i: int| 0 <= i < relay.hints.len() ==> valid_direct_hint(#[trigger] relay.hints[i])
}

/// Each of its priorities is written as JSON writes a number.
pub open spec fn valid_hint(hint: HintView) -> bool {
    match hint {
        HintView::DirectTcpV1(direct) => valid_direct_hint(direct),
        HintView::RelayV1(relay) => valid_relay_hint(relay),
    }
}

/// Each of its priorities is written as JSON writes a number.
pub open spec fn valid_transit_type(ttype: TransitTypeView) -> bool {
    forall|i: int| 0 <= i < ttype.hints_v1.len() ==> valid_hint(#[trigger] ttype.hints_v1[i])
}

/// How a host is reached.
#[derive(Clone, Copy, Debug, PartialEq, Eq, Structural)]
pub enum HostType {
    /// The host is the peer itself.
    Direct,
    /// The host is a relay, which joins the two sides.
    Relay,
}

/// A network interface of this machine.
#[derive(Debug)]
pub struct Interface {
    /// Whether it leads back to this machine.
    pub loopback: bool,
    /// The addresses that this machine has on it, as text.
    pub addresses: Vec<String>,
}

/// The contents of [`Interface`].
pub struct InterfaceView {
    pub loopback: bool,
    pub addresses: Seq<Seq<char>>,
}

impl View for Interface {
    type V = InterfaceView;

    open spec fn view(&self) -> InterfaceView {
        InterfaceView {
            loopback: self.loopback,
            addresses: self.addresses@.map_values(|a: String| a@),
        }
    }
}

/// The hint to a host of this side: these all have the priority zero.
pub open spec fn own_hint(hostname: Seq<char>, port: u16) -> DirectHintView {
    DirectHintView { priority: zero_priority(), hostname, port }
}

/// The hints to this machine by way of one interface.
pub open spec fn interface_hints(interface: InterfaceView, port: u16) -> Seq<HintView> {
    if interface.loopback {
        seq![]
    } else {
        interface.addresses.map_values(
            |a: Seq<char>| HintView::DirectTcpV1(own_hint(a, port)),
        )
    }
}

/// The hints to this machine, interface by interface.
pub open spec fn direct_hints(interfaces: Seq<InterfaceView>, port: u16) -> Seq<HintView> {
    interfaces.flat_map(|i: InterfaceView| interface_hints(i, port))
}

/// The hint to the relay.
pub open spec fn relay_hints(host: Seq<char>, port: u16) -> Seq<HintView> {
    seq![HintView::RelayV1(RelayHintView { hints: seq![own_hint(host, port)] })]
}

/// The contents of a list of hints.
pub open spec fn hint_views(hints: Seq<Hint>) -> Seq<HintView> {
    hints.map_values(|h: Hint| h@)
}

/// The contents of a list of interfaces.
pub open spec fn interface_views(interfaces: Seq<Interface>) -> Seq<InterfaceView> {
    interfaces.map_values(|i: Interface| i@)
}

/// Makes a hint to `port` for each address of this machine, but for those that lead back to
/// it.
pub fn build_direct_hints(interfaces: &Vec<Interface>, port: u16) -> (hints: Vec<Hint>)
    ensures
        hint_views(hints@) == direct_hints(interface_views(interfaces@), port),
{
    let mut hints: Vec<Hint> = Vec::new();
    let ghost views = interface_views(interfaces@);
    let ghost each = |i: InterfaceView| interface_hints(i, port);
    let mut i: usize = 0;
    assert(views.take(0).map_values(each) =~= seq![]);
    assert(hint_views(hints@) =~= views.take(0).flat_map(each));
    while i < interfaces.len()
        invariant
            i <= interfaces@.len(),
            views == interface_views(interfaces@),
            each == (|i: InterfaceView| interface_hints(i, port)),
            hint_views(hints@) == views.take(i as int).flat_map(each),
        decreases interfaces@.len() - i,
    {
        let interface = &interfaces[i];
        let ghost before = hint_views(hints@);
        if !interface.loopback {
            let mut j: usize = 0;
            while j < interface.addresses.len()
                invariant
                    j <= interface.addresses@.len(),
                    !interface.loopback,
                    hint_views(hints@) == before + interface_hints(interface@, port).take(
                        j as int,
                    ),
                decreases interface.addresses@.len() - j,
            {
                let ghost all = interface_hints(interface@, port);
                let ghost done = hint_views(hints@);
                let hint = Hint::new_direct(
                    Priority::zero(),
                    interface.addresses[j].as_str(),
                    port,
                );
                assert(interface@.addresses[j as int] == interface.addresses@[j as int]@);
                assert(hint@ == all[j as int]);
                hints.push(hint);
                assert(hint_views(hints@) =~= done.push(all[j as int]));
                j = j + 1;
                assert(hint_views(hints@) =~= before + interface_hints(interface@, port).take(
                    j as int,
                ));
            }
            assert(interface_hints(interface@, port).take(j as int) =~= interface_hints(
                interface@,
                port,
            ));
        }
        proof {
            views.lemma_flat_map_take_append(each, i as int);
            assert(views[i as int] == interface@);
            assert(hint_views(hints@) =~= before + each(views[i as int]));
        }
        i = i + 1;
    }
    assert(views.take(i as int) =~= views);
    hints
}

/// Makes the hint to the relay at `relay_url`.
pub fn build_relay_hints(relay_url: &RelayUrl) -> (hints: Vec<Hint>)
    ensures
        hint_views(hints@) == relay_hints(relay_url.host@, relay_url.port),
{
    let mut hosts: Vec<DirectHint> = Vec::new();
    hosts.push(
        DirectHint {
            priority: Priority::zero(),
            hostname: relay_url.host.clone(),
            port: relay_url.port,
        },
    );
    let mut hints: Vec<Hint> = Vec::new();
    assert(hosts@.map_values(|d: DirectHint| d@) =~= seq![
        own_hint(relay_url.host@, relay_url.port),
    ]);
    hints.push(Hint::new_relay(hosts));
    assert(hint_views(hints@) =~= relay_hints(relay_url.host@, relay_url.port));
    hints
}

/// A host together with how it is reached.
pub type Host = (HostType, DirectHintView);

/// The peer's own hosts, in the order of its hints.
pub open spec fn direct_hosts(hints: Seq<HintView>) -> Seq<Host> {
    hints.filter_map(|hint: HintView| direct_host(hint))
}

/// The host of a hint, if it is the peer's own.
pub open spec fn direct_host(hint: HintView) -> Option<Host> {
    match hint {
        HintView::DirectTcpV1(host) => Some((HostType::Direct, host)),
        HintView::RelayV1(_) => None,
    }
}

/// The hosts of the first relay among the hints. There are no others: any further relay is
/// passed over.
pub open spec fn relay_hosts(hints: Seq<HintView>) -> Seq<Host>
    decreases hints.len(),
{
    if hints.len() == 0 {
        seq![]
    } else {
        match hints[0] {
            HintView::RelayV1(relay) => relay.hints.map_values(
                |host: DirectHintView| (HostType::Relay, host),
            ),
            HintView::DirectTcpV1(_) => relay_hosts(hints.drop_first()),
        }
    }
}

/// The contents of a list of hosts.
pub open spec fn host_views(hosts: Seq<(HostType, &DirectHint)>) -> Seq<Host> {
    hosts.map_values(|host: (HostType, &DirectHint)| (host.0, host.1@))
}

/// Lists the hosts that the peer can be reached at: its own, and those of its relay.
pub fn get_direct_relay_hosts<'a>(ttype: &'a TransitType) -> (hosts: (
    Vec<(HostType, &'a DirectHint)>,
    Vec<(HostType, &'a DirectHint)>,
))
    ensures
        host_views(hosts.0@) == direct_hosts(ttype@.hints_v1),
        host_views(hosts.1@) == relay_hosts(ttype@.hints_v1),
{
    let ghost hints = ttype@.hints_v1;
    let ghost pick = |hint: HintView| direct_host(hint);
    let mut direct: Vec<(HostType, &'a DirectHint)> = Vec::new();
    let mut i: usize = 0;
    assert(host_views(direct@) =~= hints.take(0).filter_map(pick));
    while i < ttype.hints_v1.len()
        invariant
            i <= ttype.hints_v1@.len(),
            hints == ttype@.hints_v1,
            pick == (|hint: HintView| direct_host(hint)),
            host_views(direct@) == hints.take(i as int).filter_map(pick),
        decreases ttype.hints_v1@.len() - i,
    {
        let ghost before = host_views(direct@);
        proof {
            hints.lemma_filter_map_take_succ(pick, i as int);
        }
        if let Hint::DirectTcpV1(host) = &ttype.hints_v1[i] {
            direct.push((HostType::Direct, host));
            assert(host_views(direct@) =~= before + seq![(HostType::Direct, host@)]);
        }
        i = i + 1;
        assert(host_views(direct@) =~= hints.take(i as int).filter_map(pick));
    }
    assert(hints.take(i as int) =~= hints);
    (direct, first_relay_hosts(ttype))
}

fn first_relay_hosts<'a>(ttype: &'a TransitType) -> (hosts: Vec<(HostType, &'a DirectHint)>)
    ensures
        host_views(hosts@) == relay_hosts(ttype@.hints_v1),
{
    let ghost hints = ttype@.hints_v1;
    let mut hosts: Vec<(HostType, &'a DirectHint)> = Vec::new();
    let mut i: usize = 0;
    assert(hints.skip(0) =~= hints);
    while i < ttype.hints_v1.len()
        invariant
            i <= ttype.hints_v1@.len(),
            hints == ttype@.hints_v1,
            hosts@.len() == 0,
            relay_hosts(hints) == relay_hosts(hints.skip(i as int)),
        decreases ttype.hints_v1@.len() - i,
    {
        assert(hints.skip(i as int).drop_first() =~= hints.skip(i + 1));
        if let Hint::RelayV1(relay) = &ttype.hints_v1[i] {
            let ghost all = relay@.hints.map_values(
                |host: DirectHintView| (HostType::Relay, host),
            );
            assert(all == relay_hosts(hints));
            let mut j: usize = 0;
            while j < relay.hints.len()
                invariant
                    j <= relay.hints@.len(),
                    all == relay@.hints.map_values(
                        |host: DirectHintView| (HostType::Relay, host),
                    ),
                    host_views(hosts@) =~= all.take(j as int),
                decreases relay.hints@.len() - j,
            {
                let ghost done = host_views(hosts@);
                assert(relay@.hints[j as int] == relay.hints@[j as int]@);
                hosts.push((HostType::Relay, &relay.hints[j]));
                assert(host_views(hosts@) =~= done.push(all[j as int]));
                j = j + 1;
                assert(host_views(hosts@) =~= all.take(j as int));
            }
            assert(all.take(j as int) =~= all);
            return hosts;
        }
        i = i + 1;
    }
    assert(host_views(hosts@) =~= seq![]);
    hosts
}

} // verus!
