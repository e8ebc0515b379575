//! Where hints lead to, entry by entry: what a side tells its peer, and what the peer tries.
use crate::connect::{attempts_for, own_hints, to_host, AttemptView};
use crate::hints::{
    direct_hints, direct_host, direct_hosts, interface_hints, relay_hints, relay_hosts, Ability,
    DirectHintView, HintView, HostType, InterfaceView,
};
use vstd::prelude::*;

verus! {

/// How many addresses the first `k` interfaces have that do not lead back to this machine.
pub open spec fn addresses_before(interfaces: Seq<InterfaceView>, k: int) -> int
    decreases k,
{
    if k <= 0 {
        0
    } else {
        addresses_before(interfaces, k - 1) + if interfaces[k - 1].loopback {
            0
        } else {
            interfaces[k - 1].addresses.len() as int
        }
    }
}

/// The host `hint` leads to `hostname` at `port`, with the priority zero.
pub open spec fn leads_to(hint: DirectHintView, hostname: Seq<char>, port: u16) -> bool {
    &&& hint.hostname == hostname
    &&& hint.port == port
    &&& hint.priority.bits == 0
    &&& hint.priority.text == "0.0"@
}

/// The hint is a direct one that leads to `hostname` at `port`, with the priority zero.
pub open spec fn leads_directly_to(hint: HintView, hostname: Seq<char>, port: u16) -> bool {
    hint matches HintView::DirectTcpV1(host) && leads_to(host, hostname, port)
}

/// The hint names a relay with one host, `hostname` at `port`, with the priority zero.
pub open spec fn leads_by_relay_to(hint: HintView, hostname: Seq<char>, port: u16) -> bool {
    hint matches HintView::RelayV1(relay) && relay.hints.len() == 1 && leads_to(
        relay.hints[0],
        hostname,
        port,
    )
}

/// The interface at `k` has an address at `j`, and does not lead back to this machine.
pub open spec fn is_address(interfaces: Seq<InterfaceView>, k: int, j: int) -> bool {
    &&& 0 <= k < interfaces.len()
    &&& !interfaces[k].loopback
    &&& 0 <= j < interfaces[k].addresses.len()
}

/// There is one direct hint for each address of each interface that does not lead back to this
/// machine, in their order: it names that address, and the port that this side listens on.
pub proof fn law_direct_hints(interfaces: Seq<InterfaceView>, port: u16)
    ensures
        direct_hints(interfaces, port).len() == addresses_before(
            interfaces,
            interfaces.len() as int,
        ),
        forall|k: int, j: int|
            #[trigger] is_address(interfaces, k, j) ==> {
                &&& 0 <= addresses_before(interfaces, k) + j < direct_hints(interfaces, port).len()
                &&& leads_directly_to(
                    direct_hints(interfaces, port)[addresses_before(interfaces, k) + j],
                    interfaces[k].addresses[j],
                    port,
                )
            },
    decreases interfaces.len(),
{
    let each = |i: InterfaceView| interface_hints(i, port);
    let all = direct_hints(interfaces, port);
    if interfaces.len() == 0 {
        assert(interfaces.map_values(each) =~= seq![]);
    } else {
        let init = interfaces.drop_last();
        let last = interfaces.last();
        let n = interfaces.len() - 1;
        law_direct_hints(init, port);
        init.lemma_flat_map_push(each, last);
        assert(init.push(last) =~= interfaces);
        assert(all == direct_hints(init, port) + interface_hints(last, port));
        lemma_addresses_before_init(interfaces, n);
        assert forall|k: int, j: int|
            #[trigger] is_address(interfaces, k, j) implies 0 <= addresses_before(interfaces, k) + j
            < all.len() && leads_directly_to(
            all[addresses_before(interfaces, k) + j],
            interfaces[k].addresses[j],
            port,
        ) by {
            lemma_addresses_before_init(interfaces, k);
            if k < n {
                assert(is_address(init, k, j));
            } else {
                assert(interface_hints(last, port)[j] == all[addresses_before(interfaces, k) + j]);
            }
        }
    }
}

proof fn lemma_addresses_before_init(interfaces: Seq<InterfaceView>, k: int)
    requires
        0 <= k < interfaces.len(),
    ensures
        addresses_before(interfaces.drop_last(), k) == addresses_before(interfaces, k),
    decreases k,
{
    if k > 0 {
        lemma_addresses_before_init(interfaces, k - 1);
    }
}

/// There is one hint to the relay, with one host: that of the URL, at its port.
pub proof fn law_relay_hints(host: Seq<char>, port: u16)
    ensures
        relay_hints(host, port).len() == 1,
        leads_by_relay_to(relay_hints(host, port)[0], host, port),
{
}

/// A side tells its peer each of its addresses, with the port that it listens on, if and only
/// if it can connect directly; and after those its relay, if and only if it can use one.
pub proof fn law_own_hints(
    abilities: Seq<Ability>,
    host: Seq<char>,
    relay_port: u16,
    port: u16,
    interfaces: Seq<InterfaceView>,
)
    ensures
        ({
            let hints = own_hints(abilities, host, relay_port, port, interfaces);
            let direct = if abilities.contains(Ability::DirectTcpV1) {
                addresses_before(interfaces, interfaces.len() as int)
            } else {
                0
            };
            let relay: int = if abilities.contains(Ability::RelayV1) {
                1
            } else {
                0
            };
            &&& hints.len() == direct + relay
            &&& direct > 0 ==> forall|k: int, j: int|
                #[trigger] is_address(interfaces, k, j) ==> leads_directly_to(
                    hints[addresses_before(interfaces, k) + j],
                    interfaces[k].addresses[j],
                    port,
                )
            &&& relay == 1 ==> leads_by_relay_to(hints[direct], host, relay_port)
        }),
{
    let hints = own_hints(abilities, host, relay_port, port, interfaces);
    law_direct_hints(interfaces, port);
    law_relay_hints(host, relay_port);
    if abilities.contains(Ability::DirectTcpV1) {
        assert forall|k: int, j: int|
            #[trigger] is_address(interfaces, k, j) implies leads_directly_to(
            hints[addresses_before(interfaces, k) + j],
            interfaces[k].addresses[j],
            port,
        ) by {
            let at = addresses_before(interfaces, k) + j;
            assert(hints[at] == direct_hints(interfaces, port)[at]);
        }
    }
}

/// How many of the first `i` hints are direct.
pub open spec fn direct_before(hints: Seq<HintView>, i: int) -> int
    decreases i,
{
    if i <= 0 {
        0
    } else {
        direct_before(hints, i - 1) + if hints[i - 1] is DirectTcpV1 {
            1int
        } else {
            0
        }
    }
}

/// The hint at `i` names a relay, and none before it does.
pub open spec fn is_first_relay(hints: Seq<HintView>, i: int) -> bool {
    &&& 0 <= i < hints.len()
    &&& hints[i] is RelayV1
    &&& forall|j: int| 0 <= j < i ==> (#[trigger] hints[j]) is DirectTcpV1
}

/// No hint names a relay.
pub open spec fn has_no_relay(hints: Seq<HintView>) -> bool {
    forall|j: int| 0 <= j < hints.len() ==> (#[trigger] hints[j]) is DirectTcpV1
}

proof fn lemma_direct_before_init(hints: Seq<HintView>, i: int)
    requires
        0 <= i < hints.len(),
    ensures
        direct_before(hints.drop_last(), i) == direct_before(hints, i),
    decreases i,
{
    if i > 0 {
        lemma_direct_before_init(hints, i - 1);
    }
}

proof fn lemma_direct_before_grows(hints: Seq<HintView>, i: int, j: int)
    requires
        0 <= i <= j <= hints.len(),
    ensures
        0 <= direct_before(hints, i) <= direct_before(hints, j),
        i < j && hints[i] is DirectTcpV1 ==> direct_before(hints, i) < direct_before(hints, j),
    decreases j,
{
    if i < j {
        lemma_direct_before_grows(hints, i, j - 1);
    } else if i > 0 {
        lemma_direct_before_grows(hints, i - 1, i - 1);
    }
}

/// The peer's own hosts are those of its direct hints, all of them, in their order and marked
/// as direct.
pub proof fn law_direct_hosts(hints: Seq<HintView>)
    ensures
        direct_hosts(hints).len() == direct_before(hints, hints.len() as int),
        forall|i: int|
            #![trigger hints[i]]
            0 <= i < hints.len() ==> (hints[i] matches HintView::DirectTcpV1(host) ==> {
                &&& 0 <= direct_before(hints, i) < direct_hosts(hints).len()
                &&& direct_hosts(hints)[direct_before(hints, i)].0 == HostType::Direct
                &&& direct_hosts(hints)[direct_before(hints, i)].1 == host
            }),
    decreases hints.len(),
{
    let pick = |hint: HintView| direct_host(hint);
    if hints.len() > 0 {
        let init = hints.drop_last();
        law_direct_hosts(init);
        lemma_direct_before_init(hints, hints.len() - 1);
        assert(direct_hosts(hints) == hints.filter_map(pick));
        assert(direct_hosts(init) == init.filter_map(pick));
        assert forall|i: int|
            #![trigger hints[i]]
            0 <= i < hints.len() implies (hints[i] matches HintView::DirectTcpV1(host) ==> 0
            <= direct_before(hints, i) < direct_hosts(hints).len() && direct_hosts(
            hints,
        )[direct_before(hints, i)].0 == HostType::Direct && direct_hosts(
            hints,
        )[direct_before(hints, i)].1 == host) by {
            lemma_direct_before_init(hints, i);
            if i < init.len() {
                assert(init[i] == hints[i]);
            }
        }
    }
}

/// The hosts of the peer's relay are those of the first relay among its hints, all of them, in
/// their order and marked as a relay's. There are none where no hint names a relay.
pub proof fn law_relay_hosts(hints: Seq<HintView>, first: int)
    ensures
        is_first_relay(hints, first) ==> {
            let relay = hints[first]->RelayV1_0.hints;
            &&& relay_hosts(hints).len() == relay.len()
            &&& forall|j: int|
                #![trigger relay_hosts(hints)[j]]
                0 <= j < relay.len() ==> relay_hosts(hints)[j].0 == HostType::Relay && relay_hosts(
                    hints,
                )[j].1 == relay[j]
        },
        has_no_relay(hints) ==> relay_hosts(hints).len() == 0,
    decreases hints.len(),
{
    if hints.len() > 0 && hints[0] is DirectTcpV1 {
        let rest = hints.drop_first();
        law_relay_hosts(rest, first - 1);
        if is_first_relay(hints, first) {
            assert forall|j: int| 0 <= j < first - 1 implies (
            #[trigger] rest[j]) is DirectTcpV1 by {
                assert(hints[j + 1] is DirectTcpV1);
            }
            assert(is_first_relay(rest, first - 1));
        }
        if has_no_relay(hints) {
            assert forall|j: int| 0 <= j < rest.len() implies (
            #[trigger] rest[j]) is DirectTcpV1 by {
                assert(hints[j + 1] is DirectTcpV1);
            }
        }
    }
}

/// Every direct host that the peer told of is tried, and every host of its first relay, each
/// once and in this order; besides these, this side listens. Nothing else is tried.
pub proof fn law_attempts(hints: Seq<HintView>, port: u16, first: int)
    ensures
        ({
            let attempts = attempts_for(hints, port);
            let direct = direct_before(hints, hints.len() as int);
            &&& attempts.len() > 0
            &&& attempts[attempts.len() - 1] == AttemptView::Listen(port)
            &&& forall|i: int|
                #![trigger hints[i]]
                0 <= i < hints.len() ==> (hints[i] matches HintView::DirectTcpV1(host) ==> {
                    &&& 0 <= direct_before(hints, i) < attempts.len()
                    &&& attempts[direct_before(hints, i)] == AttemptView::Connect(
                        HostType::Direct,
                        host,
                    )
                })
            &&& is_first_relay(hints, first) ==> {
                let relay = hints[first]->RelayV1_0.hints;
                &&& attempts.len() == direct + relay.len() + 1
                &&& forall|j: int|
                    #![trigger relay[j]]
                    0 <= j < relay.len() ==> attempts[direct + j] == AttemptView::Connect(
                        HostType::Relay,
                        relay[j],
                    )
            }
            &&& has_no_relay(hints) ==> attempts.len() == direct + 1
        }),
{
    let attempts = attempts_for(hints, port);
    let direct = direct_before(hints, hints.len() as int);
    let hosts = direct_hosts(hints) + relay_hosts(hints);
    law_direct_hosts(hints);
    law_relay_hosts(hints, first);
    lemma_direct_before_grows(hints, 0, hints.len() as int);
    assert forall|i: int|
        #![trigger hints[i]]
        0 <= i < hints.len() implies (hints[i] matches HintView::DirectTcpV1(host) ==> 0
        <= direct_before(hints, i) < attempts.len() && attempts[direct_before(hints, i)]
        == AttemptView::Connect(HostType::Direct, host)) by {
        if hints[i] is DirectTcpV1 {
            assert(hosts[direct_before(hints, i)] == direct_hosts(hints)[direct_before(hints, i)]);
            assert(attempts[direct_before(hints, i)] == to_host(hosts[direct_before(hints, i)]));
        }
    }
    if is_first_relay(hints, first) {
        let relay = hints[first]->RelayV1_0.hints;
        assert forall|j: int|
            #![trigger relay[j]]
            0 <= j < relay.len() implies attempts[direct + j] == AttemptView::Connect(
            HostType::Relay,
            relay[j],
        ) by {
            assert(hosts[direct + j] == relay_hosts(hints)[j]);
            assert(attempts[direct + j] == to_host(hosts[direct + j]));
        }
    }
}

/// A stream to a host leads where the host does, and one that the peer has opened leads to the
/// peer itself.
pub proof fn law_attempt_host_type(host_type: HostType, host: DirectHintView, port: u16)
    ensures
        AttemptView::Connect(host_type, host).host_type() == host_type,
        AttemptView::Listen(port).host_type() == HostType::Direct,
{
}

/// Some attempt is to connect to `hostname` at `port`, which is a host of this type.
pub open spec fn tries(
    attempts: Seq<AttemptView>,
    host_type: HostType,
    hostname: Seq<char>,
    port: u16,
) -> bool {
    exists|n: int|
        0 <= n < attempts.len() && (#[trigger] attempts[n] matches AttemptView::Connect(t, host)
            && t == host_type && host.hostname == hostname && host.port == port)
}

/// A peer that is told what a side tells tries every address of that side which does not lead
/// back to it, at the port where that side listens, if the side can connect directly; and its
/// relay, if it can use one. So two sides that can reach each other do meet.
pub proof fn law_peer_tries_our_addresses(
    abilities: Seq<Ability>,
    host: Seq<char>,
    relay_port: u16,
    port: u16,
    interfaces: Seq<InterfaceView>,
    peer_port: u16,
)
    ensures
        ({
            let attempts = attempts_for(
                own_hints(abilities, host, relay_port, port, interfaces),
                peer_port,
            );
            &&& abilities.contains(Ability::DirectTcpV1) ==> forall|k: int, j: int|
                #[trigger] is_address(interfaces, k, j) ==> tries(
                    attempts,
                    HostType::Direct,
                    interfaces[k].addresses[j],
                    port,
                )
            &&& abilities.contains(Ability::RelayV1) ==> tries(
                attempts,
                HostType::Relay,
                host,
                relay_port,
            )
        }),
{
    let hints = own_hints(abilities, host, relay_port, port, interfaces);
    let attempts = attempts_for(hints, peer_port);
    law_own_hints(abilities, host, relay_port, port, interfaces);
    law_direct_hints(interfaces, port);
    let direct = if abilities.contains(Ability::DirectTcpV1) {
        addresses_before(interfaces, interfaces.len() as int)
    } else {
        0
    };
    law_attempts(hints, peer_port, direct);
    if abilities.contains(Ability::DirectTcpV1) {
        assert forall|k: int, j: int|
            #[trigger] is_address(interfaces, k, j) implies tries(
            attempts,
            HostType::Direct,
            interfaces[k].addresses[j],
            port,
        ) by {
            let at = addresses_before(interfaces, k) + j;
            assert(leads_directly_to(hints[at], interfaces[k].addresses[j], port));
            assert(attempts[direct_before(hints, at)] is Connect);
        }
    }
    if abilities.contains(Ability::RelayV1) {
        assert forall|j: int| 0 <= j < direct implies (#[trigger] hints[j]) is DirectTcpV1 by {
            crate::connect::lemma_direct_hints_are_direct(interfaces, port);
            assert(hints[j] == direct_hints(interfaces, port)[j]);
        }
        assert(is_first_relay(hints, direct));
        let relay = hints[direct]->RelayV1_0.hints;
        assert(leads_to(relay[0], host, relay_port));
        assert(attempts[direct_before(hints, hints.len() as int) + 0] is Connect);
    }
}

} // verus!
