//! What two sides can rely on when they run the handshake.
use crate::error::TransitError;
use crate::handshake::{
    advance, go_message, law_hello_lengths, lemma_hello_ascii, ok_reply, receiver_hello,
    relay_request, sender_hello, Handshake, HandshakeActionView, HandshakeKeysView,
    HandshakeView, Role, StepView, TransitView, REPLY_LENGTH,
};
use crate::hints::HostType;
use crate::text::{hex_text, lemma_ascii_byte_len, lemma_hex_text_injective};
use vstd::prelude::*;
use vstd::utf8::encode_utf8;

verus! {

/// How a handshake ended.
pub enum ExchangeResult {
    Done(TransitView),
    Fail(TransitError),
    /// The stream ended before all that the handshake asked for was there.
    Starved,
}

/// All that one side did on one stream.
pub struct Exchange {
    /// What it put on the stream.
    pub sent: Seq<u8>,
    /// What it left on the stream.
    pub unread: Seq<u8>,
    pub result: ExchangeResult,
}

/// Every step leaves fewer steps.
pub proof fn lemma_advance_shrinks(state: HandshakeView)
    ensures
        match advance(state) {
            HandshakeActionView::Send(_, rest) => rest.steps.len() < state.steps.len(),
            HandshakeActionView::Receive(_, rest) => rest.steps.len() < state.steps.len(),
            _ => true,
        },
    decreases state.steps.len(),
{
    if state.steps.len() > 0 {
        if let StepView::Check(bytes, error) = state.steps[0] {
            lemma_advance_shrinks(
                HandshakeView {
                    steps: state.steps.drop_first(),
                    heard: seq![],
                    transit: state.transit,
                },
            );
        }
    }
}

/// Runs a handshake to its end, where `stream` is all that the other end puts on the stream.
pub open spec fn exchange(state: HandshakeView, stream: Seq<u8>) -> Exchange
    decreases state.steps.len(),
{
    proof {
        lemma_advance_shrinks(state);
    }
    match advance(state) {
        HandshakeActionView::Send(bytes, rest) => {
            let tail = exchange(rest, stream);
            Exchange { sent: bytes + tail.sent, ..tail }
        },
        HandshakeActionView::Receive(count, rest) => if count <= stream.len() {
            exchange(rest.hear(stream.take(count as int)), stream.skip(count as int))
        } else {
            Exchange { sent: seq![], unread: stream, result: ExchangeResult::Starved }
        },
        HandshakeActionView::Done(transit) => Exchange {
            sent: seq![],
            unread: stream,
            result: ExchangeResult::Done(transit),
        },
        HandshakeActionView::Fail(error) => Exchange {
            sent: seq![],
            unread: stream,
            result: ExchangeResult::Fail(error),
        },
    }
}

impl HandshakeView {
    /// The handshake without its next step.
    pub open spec fn after_step(self) -> HandshakeView {
        HandshakeView { steps: self.steps.drop_first(), ..self }
    }
}

proof fn lemma_exchange_send(state: HandshakeView, stream: Seq<u8>)
    requires
        state.steps.len() > 0,
        state.steps[0] is Send,
    ensures
        exchange(state, stream) == (Exchange {
            sent: state.steps[0]->Send_0 + exchange(state.after_step(), stream).sent,
            ..exchange(state.after_step(), stream)
        }),
{
}

proof fn lemma_exchange_receive(state: HandshakeView, stream: Seq<u8>)
    requires
        state.steps.len() > 0,
        state.steps[0] is Receive,
    ensures
        ({
            let count = state.steps[0]->Receive_0;
            exchange(state, stream) == if count <= stream.len() {
                exchange(
                    state.after_step().hear(stream.take(count as int)),
                    stream.skip(count as int),
                )
            } else {
                Exchange { sent: seq![], unread: stream, result: ExchangeResult::Starved }
            }
        }),
{
}

proof fn lemma_exchange_check(state: HandshakeView, stream: Seq<u8>)
    requires
        state.steps.len() > 0,
        state.steps[0] is Check,
    ensures
        exchange(state, stream) == if state.heard == state.steps[0]->Check_0 {
            exchange(HandshakeView { heard: seq![], ..state.after_step() }, stream)
        } else {
            Exchange {
                sent: seq![],
                unread: stream,
                result: ExchangeResult::Fail(state.steps[0]->Check_1),
            }
        },
{
    let checked = HandshakeView { heard: seq![], ..state.after_step() };
    assert(state.heard == state.steps[0]->Check_0 ==> advance(state) == advance(checked));
}

proof fn lemma_exchange_end(state: HandshakeView, stream: Seq<u8>)
    requires
        state.steps.len() == 0,
    ensures
        exchange(state, stream) == (Exchange {
            sent: seq![],
            unread: stream,
            result: ExchangeResult::Done(state.transit),
        }),
{
}

/// The line that a side introduces itself with.
pub open spec fn hello(role: Role, keys: HandshakeKeysView) -> Seq<u8> {
    match role {
        Role::Sender => encode_utf8(sender_hello(keys.sender)),
        Role::Receiver => encode_utf8(receiver_hello(keys.receiver)),
    }
}

/// What a side wants to hear from its peer: the peer's line and, on the receiving side, that
/// this is the connection to use.
pub open spec fn wanted(role: Role, keys: HandshakeKeysView) -> Seq<u8> {
    match role {
        Role::Sender => hello(Role::Receiver, keys),
        Role::Receiver => hello(Role::Sender, keys) + go_message(),
    }
}

/// What the handshake of one side with its peer comes to, once no relay is in between.
pub open spec fn peer_outcome(role: Role, keys: HandshakeKeysView, stream: Seq<u8>) -> Exchange {
    let size = wanted(role, keys).len() as int;
    if stream.len() < size {
        Exchange {
            sent: hello(role, keys),
            unread: if role is Receiver && stream.len() >= size - REPLY_LENGTH {
                stream.skip(size - REPLY_LENGTH)
            } else {
                stream
            },
            result: ExchangeResult::Starved,
        }
    } else {
        Exchange {
            sent: hello(role, keys),
            unread: stream.skip(size),
            result: if stream.take(size) == wanted(role, keys) {
                ExchangeResult::Done(keys.transit())
            } else {
                ExchangeResult::Fail(TransitError::HandshakeFailed)
            },
        }
    }
}

/// Without a relay, a side introduces itself, and the handshake completes if and only if the
/// stream starts with exactly what this side wants to hear. It reads no further than that.
pub proof fn law_direct_exchange(
    role: Role,
    keys: HandshakeKeysView,
    tside: Seq<char>,
    stream: Seq<u8>,
)
    requires
        keys.well_formed(),
    ensures
        exchange(Handshake::initial(role, HostType::Direct, keys, tside), stream) == peer_outcome(
            role,
            keys,
            stream,
        ),
{
    let start = Handshake::initial(role, HostType::Direct, keys, tside);
    law_hello_lengths(keys.sender);
    law_hello_lengths(keys.receiver);
    lemma_reply_lengths();
    let s1 = start.after_step();
    lemma_exchange_send(start, stream);
    let s2 = s1.after_step();
    lemma_exchange_receive(s1, stream);
    match role {
        Role::Sender => {
            if stream.len() >= 89 {
                let s3 = s2.hear(stream.take(89));
                assert(s3.heard =~= stream.take(89));
                lemma_exchange_check(s3, stream.skip(89));
                lemma_exchange_end(
                    HandshakeView { heard: seq![], ..s3.after_step() },
                    stream.skip(89),
                );
            }
        },
        Role::Receiver => {
            if stream.len() >= 87 {
                let s3 = s2.hear(stream.take(87));
                lemma_exchange_receive(s3, stream.skip(87));
                if stream.len() >= 90 {
                    let s4 = s3.after_step().hear(stream.skip(87).take(3));
                    assert(s4.heard =~= stream.take(90));
                    assert(stream.skip(87).skip(3) =~= stream.skip(90));
                    lemma_exchange_check(s4, stream.skip(90));
                    lemma_exchange_end(
                        HandshakeView { heard: seq![], ..s4.after_step() },
                        stream.skip(90),
                    );
                }
            }
        },
    }
    assert(exchange(start, stream).sent =~= hello(role, keys));
}

/// Through a relay, a side first asks the relay. It introduces itself to its peer only where
/// the relay answers `ok`, and from there on all is as it is without a relay.
pub proof fn law_relay_exchange(
    role: Role,
    keys: HandshakeKeysView,
    tside: Seq<char>,
    stream: Seq<u8>,
)
    requires
        keys.well_formed(),
    ensures
        ({
            let run = exchange(Handshake::initial(role, HostType::Relay, keys, tside), stream);
            let request = encode_utf8(relay_request(keys.relay_token, tside));
            if stream.len() < ok_reply().len() {
                run == (Exchange {
                    sent: request,
                    unread: stream,
                    result: ExchangeResult::Starved,
                })
            } else if stream.take(ok_reply().len() as int) != ok_reply() {
                run == (Exchange {
                    sent: request,
                    unread: stream.skip(ok_reply().len() as int),
                    result: ExchangeResult::Fail(TransitError::RelayHandshakeFailed),
                })
            } else {
                let direct = exchange(
                    Handshake::initial(role, HostType::Direct, keys, tside),
                    stream.skip(ok_reply().len() as int),
                );
                run == (Exchange { sent: request + direct.sent, ..direct })
            }
        }),
{
    let start = Handshake::initial(role, HostType::Relay, keys, tside);
    let direct = Handshake::initial(role, HostType::Direct, keys, tside);
    let request = encode_utf8(relay_request(keys.relay_token, tside));
    lemma_reply_lengths();
    let s1 = start.after_step();
    lemma_exchange_send(start, stream);
    lemma_exchange_receive(s1, stream);
    assert(request + Seq::<u8>::empty() =~= request);
    if stream.len() >= 3 {
        let s2 = s1.after_step().hear(stream.take(3));
        assert(s2.heard =~= stream.take(3));
        lemma_exchange_check(s2, stream.skip(3));
        let s3 = HandshakeView { heard: seq![], ..s2.after_step() };
        assert(s3.steps =~= direct.steps);
    }
}

proof fn lemma_reply_lengths()
    ensures
        ok_reply().len() == REPLY_LENGTH,
        go_message().len() == REPLY_LENGTH,
{
    reveal_strlit("ok\n");
    reveal_strlit("go\n");
    lemma_ascii_byte_len("ok\n"@);
    lemma_ascii_byte_len("go\n"@);
}

/// Two sides with the same keys, on one stream without a relay: what either puts on the
/// stream is what the other wants to hear, once the sending side has added that this is the
/// connection to use. Both end with the same keys for records, and whatever is put on the
/// stream after the handshake is still there to be read.
pub proof fn law_sides_connect(
    keys: HandshakeKeysView,
    sender_side: Seq<char>,
    receiver_side: Seq<char>,
    any: Seq<u8>,
    rest: Seq<u8>,
)
    requires
        keys.well_formed(),
    ensures
        ({
            let sender = Handshake::initial(Role::Sender, HostType::Direct, keys, sender_side);
            let receiver = Handshake::initial(
                Role::Receiver,
                HostType::Direct,
                keys,
                receiver_side,
            );
            let at_sender = exchange(sender, exchange(receiver, any).sent + rest);
            let at_receiver = exchange(
                receiver,
                exchange(sender, any).sent + go_message() + rest,
            );
            &&& at_sender.result == ExchangeResult::Done(keys.transit())
            &&& at_sender.unread == rest
            &&& at_receiver.result == ExchangeResult::Done(keys.transit())
            &&& at_receiver.unread == rest
        }),
{
    law_direct_exchange(Role::Sender, keys, sender_side, any);
    law_direct_exchange(Role::Receiver, keys, receiver_side, any);
    let to_sender = hello(Role::Receiver, keys) + rest;
    let to_receiver = hello(Role::Sender, keys) + go_message() + rest;
    law_direct_exchange(Role::Sender, keys, sender_side, to_sender);
    law_direct_exchange(Role::Receiver, keys, receiver_side, to_receiver);
    let n = wanted(Role::Sender, keys).len() as int;
    assert(to_sender.take(n) =~= wanted(Role::Sender, keys));
    assert(to_sender.skip(n) =~= rest);
    let m = wanted(Role::Receiver, keys).len() as int;
    assert(to_receiver.take(m) =~= wanted(Role::Receiver, keys));
    assert(to_receiver.skip(m) =~= rest);
}

/// The same through a relay that answers `ok` to both sides and then passes on what each of
/// them puts on its stream after the request.
pub proof fn law_sides_connect_through_relay(
    keys: HandshakeKeysView,
    sender_side: Seq<char>,
    receiver_side: Seq<char>,
    rest: Seq<u8>,
)
    requires
        keys.well_formed(),
    ensures
        ({
            let sender = Handshake::initial(Role::Sender, HostType::Relay, keys, sender_side);
            let receiver = Handshake::initial(
                Role::Receiver,
                HostType::Relay,
                keys,
                receiver_side,
            );
            let at_sender = exchange(
                sender,
                ok_reply() + hello(Role::Receiver, keys) + rest,
            );
            let at_receiver = exchange(
                receiver,
                ok_reply() + hello(Role::Sender, keys) + go_message() + rest,
            );
            &&& at_sender == (Exchange {
                sent: encode_utf8(relay_request(keys.relay_token, sender_side)) + hello(
                    Role::Sender,
                    keys,
                ),
                unread: rest,
                result: ExchangeResult::Done(keys.transit()),
            })
            &&& at_receiver == (Exchange {
                sent: encode_utf8(relay_request(keys.relay_token, receiver_side)) + hello(
                    Role::Receiver,
                    keys,
                ),
                unread: rest,
                result: ExchangeResult::Done(keys.transit()),
            })
        }),
{
    let n = ok_reply().len() as int;
    let to_sender = ok_reply() + hello(Role::Receiver, keys) + rest;
    let to_receiver = ok_reply() + hello(Role::Sender, keys) + go_message() + rest;
    law_sides_connect(keys, sender_side, receiver_side, seq![], rest);
    law_direct_exchange(Role::Sender, keys, sender_side, seq![]);
    law_direct_exchange(Role::Receiver, keys, receiver_side, seq![]);
    law_relay_exchange(Role::Sender, keys, sender_side, to_sender);
    law_relay_exchange(Role::Receiver, keys, receiver_side, to_receiver);
    assert(to_sender.take(n) =~= ok_reply());
    assert(to_receiver.take(n) =~= ok_reply());
    assert(to_sender.skip(n) =~= hello(Role::Receiver, keys) + rest);
    assert(to_receiver.skip(n) =~= hello(Role::Sender, keys) + go_message() + rest);
    law_direct_exchange(Role::Sender, keys, sender_side, to_sender.skip(n));
    law_direct_exchange(Role::Receiver, keys, receiver_side, to_receiver.skip(n));
}

/// What a side hears before anything of its peer: the answer of the relay, if there is one.
pub open spec fn heard_first(host_type: HostType) -> Seq<u8> {
    match host_type {
        HostType::Direct => seq![],
        HostType::Relay => ok_reply(),
    }
}

/// What a side puts on the stream that does not reach its peer: the request to the relay, if
/// there is one.
pub open spec fn said_first(
    host_type: HostType,
    keys: HandshakeKeysView,
    tside: Seq<char>,
) -> Seq<u8> {
    match host_type {
        HostType::Direct => seq![],
        HostType::Relay => encode_utf8(relay_request(keys.relay_token, tside)),
    }
}

/// Once a relay has agreed, it makes no difference that it is in between: `stream` is what the
/// peer puts on the stream, whichever way that comes.
pub proof fn law_relay_makes_no_difference(
    role: Role,
    host_type: HostType,
    keys: HandshakeKeysView,
    tside: Seq<char>,
    stream: Seq<u8>,
)
    requires
        keys.well_formed(),
    ensures
        ({
            let direct = exchange(Handshake::initial(role, HostType::Direct, keys, tside), stream);
            exchange(
                Handshake::initial(role, host_type, keys, tside),
                heard_first(host_type) + stream,
            ) == (Exchange { sent: said_first(host_type, keys, tside) + direct.sent, ..direct })
        }),
{
    let all = heard_first(host_type) + stream;
    let direct = exchange(Handshake::initial(role, HostType::Direct, keys, tside), stream);
    match host_type {
        HostType::Direct => {
            assert(all =~= stream);
            assert(said_first(host_type, keys, tside) + direct.sent =~= direct.sent);
        },
        HostType::Relay => {
            law_relay_exchange(role, keys, tside, all);
            let n = ok_reply().len() as int;
            assert(all.take(n) =~= ok_reply());
            assert(all.skip(n) =~= stream);
        },
    }
}

/// The side at the other end.
pub open spec fn peer_of(role: Role) -> Role {
    match role {
        Role::Sender => Role::Receiver,
        Role::Receiver => Role::Sender,
    }
}

/// A side completes the handshake with a peer that introduces itself by the line for other
/// keys only where that peer's handshake key is the one that this side wants to hear of. This
/// holds with and without a relay.
pub proof fn law_accepts_only_same_key(
    role: Role,
    host_type: HostType,
    mine: HandshakeKeysView,
    theirs: HandshakeKeysView,
    tside: Seq<char>,
    rest: Seq<u8>,
)
    requires
        mine.well_formed(),
        theirs.well_formed(),
    ensures
        ({
            let run = exchange(
                Handshake::initial(role, host_type, mine, tside),
                heard_first(host_type) + (hello(peer_of(role), theirs) + rest),
            );
            run.result is Done ==> match role {
                Role::Sender => mine.receiver == theirs.receiver,
                Role::Receiver => mine.sender == theirs.sender,
            }
        }),
{
    let peer = peer_of(role);
    let stream = hello(peer, theirs) + rest;
    law_relay_makes_no_difference(role, host_type, mine, tside, stream);
    law_direct_exchange(role, mine, tside, stream);
    law_hello_lengths(mine.sender);
    law_hello_lengths(mine.receiver);
    law_hello_lengths(theirs.sender);
    law_hello_lengths(theirs.receiver);
    if exchange(Handshake::initial(role, HostType::Direct, mine, tside), stream).result is Done {
        let n = hello(peer, mine).len() as int;
        let w = wanted(role, mine);
        assert(hello(peer, mine) =~= w.take(n));
        assert(hello(peer, theirs) =~= stream.take(w.len() as int).take(n));
        match role {
            Role::Sender => {
                vstd::utf8::encode_utf8_decode_utf8(receiver_hello(mine.receiver));
                vstd::utf8::encode_utf8_decode_utf8(receiver_hello(theirs.receiver));
                let k = "transit receiver "@.len() as int;
                let end = k + 2 * mine.receiver.len();
                assert(receiver_hello(mine.receiver).subrange(k, end) =~= hex_text(mine.receiver));
                assert(receiver_hello(theirs.receiver).subrange(k, end) =~= hex_text(
                    theirs.receiver,
                ));
                lemma_hex_text_injective(mine.receiver, theirs.receiver);
            },
            Role::Receiver => {
                vstd::utf8::encode_utf8_decode_utf8(sender_hello(mine.sender));
                vstd::utf8::encode_utf8_decode_utf8(sender_hello(theirs.sender));
                let k = "transit sender "@.len() as int;
                let end = k + 2 * mine.sender.len();
                assert(sender_hello(mine.sender).subrange(k, end) =~= hex_text(mine.sender));
                assert(sender_hello(theirs.sender).subrange(k, end) =~= hex_text(theirs.sender));
                lemma_hex_text_injective(mine.sender, theirs.sender);
            },
        }
    }
}

/// A side never completes the handshake with another side of the same role, whatever keys
/// that one holds, and with or without a relay: two senders, or two receivers, do not connect.
pub proof fn law_same_roles_do_not_connect(
    role: Role,
    host_type: HostType,
    mine: HandshakeKeysView,
    theirs: HandshakeKeysView,
    tside: Seq<char>,
    rest: Seq<u8>,
)
    requires
        mine.well_formed(),
        theirs.well_formed(),
    ensures
        !(exchange(
            Handshake::initial(role, host_type, mine, tside),
            heard_first(host_type) + (hello(role, theirs) + rest),
        ).result is Done),
{
    let stream = hello(role, theirs) + rest;
    law_relay_makes_no_difference(role, host_type, mine, tside, stream);
    law_direct_exchange(role, mine, tside, stream);
    lemma_hello_names_role(mine);
    lemma_hello_names_role(theirs);
    let size = wanted(role, mine).len() as int;
    if stream.len() >= size && stream.take(size) == wanted(role, mine) {
        assert(stream.take(size)[8] == hello(role, theirs)[8]);
        assert(false);
    }
}

proof fn lemma_hello_names_role(keys: HandshakeKeysView)
    requires
        keys.well_formed(),
    ensures
        hello(Role::Sender, keys).len() > 8,
        hello(Role::Receiver, keys).len() > 8,
        hello(Role::Sender, keys)[8] == 's' as u8,
        hello(Role::Receiver, keys)[8] == 'r' as u8,
{
    lemma_hello_ascii(keys.sender);
    lemma_hello_ascii(keys.receiver);
    vstd::utf8::is_ascii_chars_encode_utf8(sender_hello(keys.sender));
    vstd::utf8::is_ascii_chars_encode_utf8(receiver_hello(keys.receiver));
    reveal_strlit("transit sender ");
    reveal_strlit("transit receiver ");
    assert(sender_hello(keys.sender)[8] == 's');
    assert(receiver_hello(keys.receiver)[8] == 'r');
}

} // verus!
