//! That the contents which contracts speak of are what the values hold.
use crate::connect::{attempt_views, Attempt, AttemptView, RaceStep, RaceStepView};
use crate::handshake::{HandshakeAction, HandshakeActionView, HandshakeKeys, Transit};
use crate::hints::{
    hint_views, host_views, interface_views, DirectHint, Hint, HintView, HostType, Interface,
    RelayHint, TransitType,
};
use crate::message::texts;
use crate::record::{RecordAction, RecordActionView};
use vstd::prelude::*;

verus! {

/// The contents of a host are its fields.
pub proof fn law_direct_hint_view(hint: DirectHint)
    ensures
        hint@.hostname == hint.hostname@,
        hint@.port == hint.port,
        hint@.priority == hint.priority@,
{
}

/// The contents of a relay are its hosts, in their order.
pub proof fn law_relay_hint_view(hint: RelayHint)
    ensures
        hint@.hints.len() == hint.hints@.len(),
        forall|i: int| 0 <= i < hint.hints@.len() ==> #[trigger] hint@.hints[i] == hint.hints@[i]@,
{
}

/// The contents of a hint are those of what it holds, and of the same kind.
pub proof fn law_hint_view(hint: Hint)
    ensures
        hint matches Hint::DirectTcpV1(host) ==> hint@ == HintView::DirectTcpV1(host@),
        hint matches Hint::RelayV1(relay) ==> hint@ == HintView::RelayV1(relay@),
{
}

/// The contents of what a side tells are its abilities and its hints, in their order.
pub proof fn law_transit_type_view(ttype: TransitType)
    ensures
        ttype@.abilities_v1 == ttype.abilities_v1@,
        ttype@.hints_v1.len() == ttype.hints_v1@.len(),
        forall|i: int|
            0 <= i < ttype.hints_v1@.len() ==> #[trigger] ttype@.hints_v1[i]
                == ttype.hints_v1@[i]@,
{
}

/// The contents of an interface are its fields.
pub proof fn law_interface_view(interface: Interface)
    ensures
        interface@.loopback == interface.loopback,
        interface@.addresses.len() == interface.addresses@.len(),
        forall|i: int|
            0 <= i < interface.addresses@.len() ==> #[trigger] interface@.addresses[i]
                == interface.addresses@[i]@,
{
}

/// The contents of a list are those of its items, in their order.
pub proof fn law_list_views(
    hints: Seq<Hint>,
    interfaces: Seq<Interface>,
    hosts: Seq<(HostType, &DirectHint)>,
    attempts: Seq<Attempt>,
    items: Seq<String>,
)
    ensures
        hint_views(hints).len() == hints.len(),
        forall|i: int| 0 <= i < hints.len() ==> #[trigger] hint_views(hints)[i] == hints[i]@,
        interface_views(interfaces).len() == interfaces.len(),
        forall|i: int|
            0 <= i < interfaces.len() ==> #[trigger] interface_views(interfaces)[i]
                == interfaces[i]@,
        host_views(hosts).len() == hosts.len(),
        forall|i: int|
            #![trigger host_views(hosts)[i]]
            0 <= i < hosts.len() ==> host_views(hosts)[i].0 == hosts[i].0 && host_views(hosts)[i].1
                == hosts[i].1@,
        attempt_views(attempts).len() == attempts.len(),
        forall|i: int|
            0 <= i < attempts.len() ==> #[trigger] attempt_views(attempts)[i] == attempts[i]@,
        texts(items).len() == items.len(),
        forall|i: int| 0 <= i < items.len() ==> #[trigger] texts(items)[i] == items[i]@,
{
}

/// The contents of an attempt are its host, or its port.
pub proof fn law_attempt_view(attempt: Attempt)
    ensures
        attempt matches Attempt::Connect(host_type, hint) ==> attempt@ == AttemptView::Connect(
            host_type,
            hint@,
        ),
        attempt matches Attempt::Listen(port) ==> attempt@ == AttemptView::Listen(port),
{
}

/// The contents of what is to be done in a race, for a handshake or for a record are of the
/// same kind, and those of what it holds.
pub proof fn law_action_views(step: RaceStep, action: HandshakeAction, record: RecordAction)
    ensures
        step matches RaceStep::Wait(race) ==> step@ == RaceStepView::Wait(race@),
        step matches RaceStep::Connected(cancelled, bytes) ==> step@ == RaceStepView::Connected(
            cancelled as nat,
            bytes@,
        ),
        step matches RaceStep::Failed(error) ==> step@ == RaceStepView::Failed(error),
        action matches HandshakeAction::Send(bytes, rest) ==> action@
            == HandshakeActionView::Send(bytes@, rest@),
        action matches HandshakeAction::Receive(count, rest) ==> action@
            == HandshakeActionView::Receive(count as nat, rest@),
        action matches HandshakeAction::Done(transit) ==> action@ == HandshakeActionView::Done(
            transit@,
        ),
        action matches HandshakeAction::Fail(error) ==> action@ == HandshakeActionView::Fail(
            error,
        ),
        record matches RecordAction::Read(count, reader) ==> record@ == RecordActionView::Read(
            count as nat,
            reader@,
        ),
        record matches RecordAction::Done(packet) ==> record@ == RecordActionView::Done(packet@),
{
}

/// The contents of keys are these keys, each in its place.
pub proof fn law_key_views(keys: HandshakeKeys, transit: Transit)
    ensures
        keys@.sender == keys.sender@,
        keys@.receiver == keys.receiver@,
        keys@.relay_token == keys.relay_token@,
        keys@.skey == keys.skey@,
        keys@.rkey == keys.rkey@,
        transit@.skey == transit.skey@,
        transit@.rkey == transit.rkey@,
{
}

} // verus!
