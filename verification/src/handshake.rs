//! The handshake by which the two sides recognise each other on a fresh stream.
//!
//! Each side proves to the other that it holds the shared key, by a line that only that key
//! gives. A side that goes through a relay first asks the relay to be joined with its peer.
use crate::error::TransitError;
use crate::hints::HostType;
use crate::keys::{
    derive_key_from_purpose, derived_key, make_record_keys, receiver_record_key,
    sender_record_key, KEY_LENGTH,
};
use crate::text::{hex_encode, hex_text, lemma_ascii_byte_len, lemma_hex_text_ascii};
use vstd::prelude::*;
use vstd::slice::slice_to_vec;
use vstd::utf8::{encode_utf8, is_ascii_chars};

verus! {

/// Number of bytes in the line that the sending side starts with.
pub const SENDER_HELLO_LENGTH: usize = 87;

/// Number of bytes in the line that the receiving side starts with.
pub const RECEIVER_HELLO_LENGTH: usize = 89;

/// Number of bytes in `ok` and `go`, each with its line end.
pub const REPLY_LENGTH: usize = 3;

/// What the sending side says first, where `sub_key` is its handshake key.
pub open spec fn sender_hello(sub_key: Seq<u8>) -> Seq<char> {
    "transit sender "@ + hex_text(sub_key) + " ready\n\n"@
}

/// What the receiving side says first, where `sub_key` is its handshake key.
pub open spec fn receiver_hello(sub_key: Seq<u8>) -> Seq<char> {
    "transit receiver "@ + hex_text(sub_key) + " ready\n\n"@
}

/// What a relay is asked, where `sub_key` is the key by which it finds the two sides and
/// `tside` is what it tells them apart by.
pub open spec fn relay_request(sub_key: Seq<u8>, tside: Seq<char>) -> Seq<char> {
    "please relay "@ + hex_text(sub_key) + " for side "@ + tside + "\n"@
}

/// Writes the line of the sending side.
pub fn sender_hello_message(sub_key: &[u8]) -> (msg: String)
    requires
        2 * sub_key@.len() <= isize::MAX,
    ensures
        msg@ == sender_hello(sub_key@),
{
    let encoded = hex_encode(sub_key);
    "transit sender ".to_owned().concat(encoded.as_str()).concat(" ready\n\n")
}

/// Writes the line of the receiving side.
pub fn receiver_hello_message(sub_key: &[u8]) -> (msg: String)
    requires
        2 * sub_key@.len() <= isize::MAX,
    ensures
        msg@ == receiver_hello(sub_key@),
{
    let encoded = hex_encode(sub_key);
    "transit receiver ".to_owned().concat(encoded.as_str()).concat(" ready\n\n")
}

/// Writes the line that a relay is asked with.
pub fn relay_request_message(sub_key: &[u8], tside: &str) -> (msg: String)
    requires
        2 * sub_key@.len() <= isize::MAX,
    ensures
        msg@ == relay_request(sub_key@, tside@),
{
    let encoded = hex_encode(sub_key);
    "please relay ".to_owned().concat(encoded.as_str()).concat(" for side ").concat(tside).concat(
        "\n",
    )
}

/// Writes the line of the sending side for the shared key `key`.
pub fn make_send_handshake(key: &[u8]) -> (msg: String)
    ensures
        msg@ == sender_hello(derived_key(key@, "transit_sender"@)),
        encode_utf8(msg@).len() == SENDER_HELLO_LENGTH,
{
    let sub_key = derive_key_from_purpose(key, "transit_sender");
    proof {
        law_hello_lengths(sub_key@);
    }
    sender_hello_message(sub_key.as_slice())
}

/// Writes the line of the receiving side for the shared key `key`.
pub fn make_receive_handshake(key: &[u8]) -> (msg: String)
    ensures
        msg@ == receiver_hello(derived_key(key@, "transit_receiver"@)),
        encode_utf8(msg@).len() == RECEIVER_HELLO_LENGTH,
{
    let sub_key = derive_key_from_purpose(key, "transit_receiver");
    proof {
        law_hello_lengths(sub_key@);
    }
    receiver_hello_message(sub_key.as_slice())
}

/// Writes the line that a relay is asked with for the shared key `key`.
pub fn make_relay_handshake(key: &[u8], tside: &str) -> (msg: String)
    ensures
        msg@ == relay_request(derived_key(key@, "transit_relay_token"@), tside@),
{
    let sub_key = derive_key_from_purpose(key, "transit_relay_token");
    relay_request_message(sub_key.as_slice(), tside)
}

/// Either line is ASCII, and its length follows from that of the key.
pub proof fn lemma_hello_ascii(sub_key: Seq<u8>)
    ensures
        is_ascii_chars(sender_hello(sub_key)),
        is_ascii_chars(receiver_hello(sub_key)),
        sender_hello(sub_key).len() == 23 + 2 * sub_key.len(),
        receiver_hello(sub_key).len() == 25 + 2 * sub_key.len(),
{
    reveal_strlit("transit sender ");
    reveal_strlit("transit receiver ");
    reveal_strlit(" ready\n\n");
    lemma_hex_text_ascii(sub_key);
    let hex = hex_text(sub_key);
    assert(is_ascii_chars("transit sender "@));
    assert(is_ascii_chars("transit receiver "@));
    assert(is_ascii_chars(" ready\n\n"@));
    assert(is_ascii_chars("transit sender "@ + hex));
    assert(is_ascii_chars("transit receiver "@ + hex));
}

/// For a derived key, the line of the sending side has exactly 87 bytes and that of the
/// receiving side exactly 89.
pub proof fn law_hello_lengths(sub_key: Seq<u8>)
    requires
        sub_key.len() == KEY_LENGTH,
    ensures
        encode_utf8(sender_hello(sub_key)).len() == SENDER_HELLO_LENGTH,
        encode_utf8(receiver_hello(sub_key)).len() == RECEIVER_HELLO_LENGTH,
{
    lemma_hello_ascii(sub_key);
    lemma_ascii_byte_len(sender_hello(sub_key));
    lemma_ascii_byte_len(receiver_hello(sub_key));
}

/// Calls `rand::random`.
///
/// Nothing is claimed of the eight bytes: any can come.
#[verifier::external_body]
fn random_bytes() -> [u8; 8] {
    rand::random()
}

/// The text for eight bytes by which a relay tells the two sides apart.
pub fn transit_side(bytes: &[u8; 8]) -> (tside: String)
    ensures
        tside@ == hex_text(bytes@),
{
    hex_encode(bytes.as_slice())
}

/// Picks at random what a relay tells the two sides apart by: eight bytes, in hexadecimal.
pub fn generate_transit_side() -> (tside: String)
    ensures
        exists|bytes: Seq<u8>| bytes.len() == 8 && tside@ == #[trigger] hex_text(bytes),
{
    let bytes = random_bytes();
    transit_side(&bytes)
}

/// Which side of the transfer this is.
#[derive(Clone, Copy, Debug, PartialEq, Eq, Structural)]
pub enum Role {
    /// The side that sends the files, and that picks the connection to use.
    Sender,
    /// The side that receives the files.
    Receiver,
}

/// All the keys that a handshake works with.
pub struct HandshakeKeys {
    /// Handshake key of the sending side.
    pub sender: Vec<u8>,
    /// Handshake key of the receiving side.
    pub receiver: Vec<u8>,
    /// Key by which a relay finds the two sides.
    pub relay_token: Vec<u8>,
    /// Key for records of the sending side.
    pub skey: Vec<u8>,
    /// Key for records of the receiving side.
    pub rkey: Vec<u8>,
}

/// The contents of [`HandshakeKeys`].
pub struct HandshakeKeysView {
    pub sender: Seq<u8>,
    pub receiver: Seq<u8>,
    pub relay_token: Seq<u8>,
    pub skey: Seq<u8>,
    pub rkey: Seq<u8>,
}

impl View for HandshakeKeys {
    type V = HandshakeKeysView;

    open spec fn view(&self) -> HandshakeKeysView {
        HandshakeKeysView {
            sender: self.sender@,
            receiver: self.receiver@,
            relay_token: self.relay_token@,
            skey: self.skey@,
            rkey: self.rkey@,
        }
    }
}

impl HandshakeKeysView {
    /// Each key has the length of a derived key.
    pub open spec fn well_formed(self) -> bool {
        &&& self.sender.len() == KEY_LENGTH
        &&& self.receiver.len() == KEY_LENGTH
        &&& self.relay_token.len() == KEY_LENGTH
        &&& self.skey.len() == KEY_LENGTH
        &&& self.rkey.len() == KEY_LENGTH
    }

    /// The keys for records.
    pub open spec fn transit(self) -> TransitView {
        TransitView { skey: self.skey, rkey: self.rkey }
    }
}

/// The keys that follow from the shared key.
pub open spec fn handshake_keys(key: Seq<u8>) -> HandshakeKeysView {
    HandshakeKeysView {
        sender: derived_key(key, "transit_sender"@),
        receiver: derived_key(key, "transit_receiver"@),
        relay_token: derived_key(key, "transit_relay_token"@),
        skey: sender_record_key(key),
        rkey: receiver_record_key(key),
    }
}

impl HandshakeKeys {
    /// Derives the keys from the shared key.
    pub fn derive(key: &[u8]) -> (keys: HandshakeKeys)
        ensures
            keys@ == handshake_keys(key@),
            keys@.well_formed(),
    {
        let (skey, rkey) = make_record_keys(key);
        HandshakeKeys {
            sender: derive_key_from_purpose(key, "transit_sender"),
            receiver: derive_key_from_purpose(key, "transit_receiver"),
            relay_token: derive_key_from_purpose(key, "transit_relay_token"),
            skey,
            rkey,
        }
    }
}

/// What a completed handshake leaves: the keys for the records on the stream.
pub struct Transit {
    /// Key for records of the sending side.
    pub skey: Vec<u8>,
    /// Key for records of the receiving side.
    pub rkey: Vec<u8>,
}

/// The contents of [`Transit`].
pub struct TransitView {
    pub skey: Seq<u8>,
    pub rkey: Seq<u8>,
}

impl View for Transit {
    type V = TransitView;

    open spec fn view(&self) -> TransitView {
        TransitView { skey: self.skey@, rkey: self.rkey@ }
    }
}

/// One step of a handshake.
enum Step {
    /// Put these bytes on the stream.
    Send(Vec<u8>),
    /// Take this many bytes from the stream.
    Receive(usize),
    /// Compare all that was taken since the last comparison with these bytes; fail with this
    /// error where it differs.
    Check(Vec<u8>, TransitError),
}

/// The contents of [`Step`].
pub enum StepView {
    Send(Seq<u8>),
    Receive(nat),
    Check(Seq<u8>, TransitError),
}

impl View for Step {
    type V = StepView;

    closed spec fn view(&self) -> StepView {
        match self {
            Step::Send(bytes) => StepView::Send(bytes@),
            Step::Receive(count) => StepView::Receive(*count as nat),
            Step::Check(bytes, error) => StepView::Check(bytes@, *error),
        }
    }
}

/// The bytes of the answer of a relay that has agreed.
pub open spec fn ok_reply() -> Seq<u8> {
    encode_utf8("ok\n"@)
}

/// The bytes by which the sending side tells the receiving side to use this connection.
pub open spec fn go_message() -> Seq<u8> {
    encode_utf8("go\n"@)
}

/// The steps by which a side is joined with its peer by a relay.
pub open spec fn relay_steps(keys: HandshakeKeysView, tside: Seq<char>) -> Seq<StepView> {
    seq![
        StepView::Send(encode_utf8(relay_request(keys.relay_token, tside))),
        StepView::Receive(REPLY_LENGTH as nat),
        StepView::Check(ok_reply(), TransitError::RelayHandshakeFailed),
    ]
}

/// The steps by which a side and its peer recognise each other.
pub open spec fn peer_steps(role: Role, keys: HandshakeKeysView) -> Seq<StepView> {
    match role {
        Role::Sender => seq![
            StepView::Send(encode_utf8(sender_hello(keys.sender))),
            StepView::Receive(RECEIVER_HELLO_LENGTH as nat),
            StepView::Check(
                encode_utf8(receiver_hello(keys.receiver)),
                TransitError::HandshakeFailed,
            ),
        ],
        Role::Receiver => seq![
            StepView::Send(encode_utf8(receiver_hello(keys.receiver))),
            StepView::Receive(SENDER_HELLO_LENGTH as nat),
            StepView::Receive(REPLY_LENGTH as nat),
            StepView::Check(
                encode_utf8(sender_hello(keys.sender)) + go_message(),
                TransitError::HandshakeFailed,
            ),
        ],
    }
}

/// All the steps of one side on a fresh stream.
pub open spec fn handshake_steps(
    role: Role,
    host_type: HostType,
    keys: HandshakeKeysView,
    tside: Seq<char>,
) -> Seq<StepView> {
    match host_type {
        HostType::Direct => peer_steps(role, keys),
        HostType::Relay => relay_steps(keys, tside) + peer_steps(role, keys),
    }
}

/// A handshake that is under way on one stream.
pub struct Handshake {
    /// The steps that are left, the next one last.
    steps: Vec<Step>,
    /// What was taken from the stream since the last comparison.
    heard: Vec<u8>,
    transit: Transit,
}

/// The contents of [`Handshake`].
pub struct HandshakeView {
    /// The steps that are left, the next one first.
    pub steps: Seq<StepView>,
    /// What was taken from the stream since the last comparison.
    pub heard: Seq<u8>,
    /// The keys that a completed handshake leaves.
    pub transit: TransitView,
}

/// The contents of `steps`, which hold the next step last.
spec fn remaining(steps: Seq<Step>) -> Seq<StepView> {
    steps.map_values(|step: Step| step@).reverse()
}

impl View for Handshake {
    type V = HandshakeView;

    closed spec fn view(&self) -> HandshakeView {
        HandshakeView {
            steps: remaining(self.steps@),
            heard: self.heard@,
            transit: self.transit@,
        }
    }
}

impl HandshakeView {
    /// The handshake after `input` was taken from the stream.
    pub open spec fn hear(self, input: Seq<u8>) -> HandshakeView {
        HandshakeView { heard: self.heard + input, ..self }
    }
}

/// What is to be done next for a handshake.
pub enum HandshakeAction {
    /// Put these bytes on the stream, then go on with no input.
    Send(Vec<u8>, Handshake),
    /// Take this many bytes from the stream, then go on with them.
    Receive(usize, Handshake),
    /// The handshake is complete.
    Done(Transit),
    /// The handshake has failed.
    Fail(TransitError),
}

/// The contents of [`HandshakeAction`].
pub enum HandshakeActionView {
    Send(Seq<u8>, HandshakeView),
    Receive(nat, HandshakeView),
    Done(TransitView),
    Fail(TransitError),
}

impl View for HandshakeAction {
    type V = HandshakeActionView;

    open spec fn view(&self) -> HandshakeActionView {
        match self {
            HandshakeAction::Send(bytes, rest) => HandshakeActionView::Send(bytes@, rest@),
            HandshakeAction::Receive(count, rest) => HandshakeActionView::Receive(
                *count as nat,
                rest@,
            ),
            HandshakeAction::Done(transit) => HandshakeActionView::Done(transit@),
            HandshakeAction::Fail(error) => HandshakeActionView::Fail(*error),
        }
    }
}

/// What a handshake asks for next: it makes the comparisons that come first, and stops at the
/// first that fails.
pub open spec fn advance(state: HandshakeView) -> HandshakeActionView
    decreases state.steps.len(),
{
    if state.steps.len() == 0 {
        HandshakeActionView::Done(state.transit)
    } else {
        let rest = HandshakeView { steps: state.steps.drop_first(), ..state };
        match state.steps[0] {
            StepView::Send(bytes) => HandshakeActionView::Send(bytes, rest),
            StepView::Receive(count) => HandshakeActionView::Receive(count, rest),
            StepView::Check(bytes, error) => if state.heard == bytes {
                advance(HandshakeView { heard: seq![], ..rest })
            } else {
                HandshakeActionView::Fail(error)
            },
        }
    }
}

impl Handshake {
    /// The handshake before its first step.
    pub open spec fn initial(
        role: Role,
        host_type: HostType,
        keys: HandshakeKeysView,
        tside: Seq<char>,
    ) -> HandshakeView {
        HandshakeView {
            steps: handshake_steps(role, host_type, keys, tside),
            heard: seq![],
            transit: keys.transit(),
        }
    }

    /// A handshake of the side `role` for the shared key `key`, on a stream to a host of the
    /// given type; `tside` is what a relay tells the two sides apart by.
    pub fn new(role: Role, host_type: HostType, key: &[u8], tside: &str) -> (handshake: Handshake)
        ensures
            handshake@ == Handshake::initial(role, host_type, handshake_keys(key@), tside@),
            handshake_keys(key@).well_formed(),
    {
        let keys = HandshakeKeys::derive(key);
        Handshake::with_keys(role, host_type, keys, tside)
    }

    /// A handshake of the side `role` with these keys, on a stream to a host of the given
    /// type; `tside` is what a relay tells the two sides apart by.
    pub fn with_keys(
        role: Role,
        host_type: HostType,
        keys: HandshakeKeys,
        tside: &str,
    ) -> (handshake: Handshake)
        requires
            keys@.well_formed(),
        ensures
            handshake@ == Handshake::initial(role, host_type, keys@, tside@),
    {
        let sender = sender_hello_message(keys.sender.as_slice());
        let receiver = receiver_hello_message(keys.receiver.as_slice());
        let mut steps: Vec<Step> = Vec::new();
        match role {
            Role::Sender => {
                steps.push(Step::Check(receiver.as_bytes_vec(), TransitError::HandshakeFailed));
                steps.push(Step::Receive(RECEIVER_HELLO_LENGTH));
                steps.push(Step::Send(sender.as_bytes_vec()));
            },
            Role::Receiver => {
                let mut expected = sender.as_bytes_vec();
                let mut go = "go\n".as_bytes_vec();
                expected.append(&mut go);
                steps.push(Step::Check(expected, TransitError::HandshakeFailed));
                steps.push(Step::Receive(REPLY_LENGTH));
                steps.push(Step::Receive(SENDER_HELLO_LENGTH));
                steps.push(Step::Send(receiver.as_bytes_vec()));
            },
        }
        if host_type == HostType::Relay {
            let request = relay_request_message(keys.relay_token.as_slice(), tside);
            steps.push(
                Step::Check("ok\n".as_bytes_vec(), TransitError::RelayHandshakeFailed),
            );
            steps.push(Step::Receive(REPLY_LENGTH));
            steps.push(Step::Send(request.as_bytes_vec()));
        }
        let handshake = Handshake {
            steps,
            heard: Vec::new(),
            transit: Transit { skey: keys.skey, rkey: keys.rkey },
        };
        assert(handshake@.steps =~= handshake_steps(role, host_type, keys@, tside@));
        assert(handshake@.heard =~= seq![]);
        handshake
    }

    /// Goes on with the handshake. `input` is what was taken from the stream because of the
    /// last action, and empty where that was not to receive.
    pub fn next(self, input: &[u8]) -> (action: HandshakeAction)
        ensures
            action@ == advance(self@.hear(input@)),
    {
        let Handshake { mut steps, mut heard, transit } = self;
        let ghost action = advance(self@.hear(input@));
        let mut taken = slice_to_vec(input);
        heard.append(&mut taken);
        while steps.len() > 0
            invariant
                action == advance(self@.hear(input@)),
                advance(
                    HandshakeView {
                        steps: remaining(steps@),
                        heard: heard@,
                        transit: transit@,
                    },
                ) == action,
            decreases steps.len(),
        {
            let ghost before = remaining(steps@);
            if let Some(step) = steps.pop() {
                assert(remaining(steps@) =~= before.drop_first());
                assert(before[0] == step@);
                match step {
                    Step::Send(bytes) => {
                        return HandshakeAction::Send(bytes, Handshake { steps, heard, transit });
                    },
                    Step::Receive(count) => {
                        return HandshakeAction::Receive(
                            count,
                            Handshake { steps, heard, transit },
                        );
                    },
                    Step::Check(bytes, error) => {
                        if heard == bytes {
                            assert(heard@ =~= bytes@);
                            heard = Vec::new();
                            assert(heard@ =~= seq![]);
                        } else {
                            return HandshakeAction::Fail(error);
                        }
                    },
                }
            }
        }
        HandshakeAction::Done(transit)
    }
}

} // verus!
