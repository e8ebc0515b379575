//! The messages that the two sides send each other as JSON.
use crate::hints::{
    valid_direct_hint, valid_hint, valid_relay_hint, valid_transit_type, Ability, DirectHint,
    DirectHintView, Hint, HintView, RelayHint, RelayHintView, TransitType, TransitTypeView,
};
use crate::json_laws::{
    ability_value, ack_value, hint_value, host_value, law_ability_is_read, law_ack_is_read,
    law_host_is_read, law_message_is_read, law_relay_is_read,
    law_transit_type_is_read, message_value, relay_value, transit_value,
};
use crate::json_reader::means;
use crate::text::{decimal, decimal_text, json_string, json_string_text};
use vstd::prelude::*;

verus! {

/// `items`, one after the other, with a comma between each two.
pub open spec fn comma_separated(items: Seq<Seq<char>>) -> Seq<char>
    decreases items.len(),
{
    if items.len() == 0 {
        seq![]
    } else if items.len() == 1 {
        items[0]
    } else {
        comma_separated(items.drop_last()) + ","@ + items.last()
    }
}

/// The JSON array of `items`.
pub open spec fn json_array(items: Seq<Seq<char>>) -> Seq<char> {
    "["@ + comma_separated(items) + "]"@
}

/// The name of an ability.
pub open spec fn ability_name(ability: Ability) -> Seq<char> {
    match ability {
        Ability::DirectTcpV1 => "direct-tcp-v1"@,
        Ability::RelayV1 => "relay-v1"@,
        Ability::Other => "other"@,
    }
}

/// An ability as JSON.
pub open spec fn ability_json(ability: Ability) -> Seq<char> {
    "{\"type\":\""@ + ability_name(ability) + "\"}"@
}

/// A host as JSON.
pub open spec fn direct_hint_json(hint: DirectHintView) -> Seq<char> {
    "{\"hostname\":"@ + json_string(hint.hostname) + ",\"port\":"@ + decimal(hint.port as nat)
        + ",\"priority\":"@ + hint.priority.text + ",\"type\":\"direct-tcp-v1\"}"@
}

/// A relay as JSON.
pub open spec fn relay_hint_json(hint: RelayHintView) -> Seq<char> {
    "{\"hints\":"@ + json_array(hint.hints.map_values(|h: DirectHintView| direct_hint_json(h)))
        + ",\"type\":\"relay-v1\"}"@
}

/// A hint as JSON.
pub open spec fn hint_json(hint: HintView) -> Seq<char> {
    match hint {
        HintView::DirectTcpV1(direct) => direct_hint_json(direct),
        HintView::RelayV1(relay) => relay_hint_json(relay),
    }
}

/// What a side tells about how it can be reached, as JSON.
pub open spec fn transit_json(ttype: TransitTypeView) -> Seq<char> {
    "{\"abilities-v1\":"@ + json_array(
        ttype.abilities_v1.map_values(|a: Ability| ability_json(a)),
    ) + ",\"hints-v1\":"@ + json_array(ttype.hints_v1.map_values(|h: HintView| hint_json(h)))
        + "}"@
}

/// The contents of a list of texts.
pub open spec fn texts(items: Seq<String>) -> Seq<Seq<char>> {
    items.map_values(|item: String| item@)
}

/// Writes a JSON array.
fn array_text(items: &Vec<String>) -> (text: String)
    ensures
        text@ == json_array(texts(items@)),
{
    let ghost all = texts(items@);
    let mut text = "[".to_owned();
    let mut i: usize = 0;
    assert(text@ + seq![] =~= "["@ + comma_separated(all.take(0)));
    while i < items.len()
        invariant
            i <= items@.len(),
            all == texts(items@),
            text@ == "["@ + comma_separated(all.take(i as int)),
        decreases items@.len() - i,
    {
        let ghost before = text@;
        if i > 0 {
            text.append(",");
        }
        text.append(items[i].as_str());
        assert(all[i as int] == items@[i as int]@);
        assert(all.take(i + 1).drop_last() =~= all.take(i as int));
        assert(all.take(i + 1).last() == all[i as int]);
        if i == 0 {
            assert(all.take(0) =~= seq![]);
        }
        i = i + 1;
        assert(text@ =~= "["@ + comma_separated(all.take(i as int)));
    }
    assert(all.take(i as int) =~= all);
    text.append("]");
    text
}

impl Ability {
    /// Writes an ability as JSON.
    pub fn serialize(&self) -> (text: String)
        ensures
            text@ == ability_json(*self),
            means(text@, ability_value(*self)),
    {
        proof {
            law_ability_is_read(*self);
        }
        let name = match self {
            Ability::DirectTcpV1 => "direct-tcp-v1",
            Ability::RelayV1 => "relay-v1",
            Ability::Other => "other",
        };
        "{\"type\":\"".to_owned().concat(name).concat("\"}")
    }
}

impl DirectHint {
    /// Writes a host as JSON.
    pub fn serialize(&self) -> (text: String)
        ensures
            text@ == direct_hint_json(self@),
            valid_direct_hint(self@),
            means(text@, host_value(self@)),
    {
        let hostname = json_string_text(self.hostname.as_str());
        let port = decimal_text(self.port);
        let priority = self.priority.as_str();
        proof {
            law_host_is_read(self@);
        }
        "{\"hostname\":".to_owned().concat(hostname.as_str()).concat(",\"port\":").concat(
            port.as_str(),
        ).concat(",\"priority\":").concat(priority).concat(",\"type\":\"direct-tcp-v1\"}")
    }
}

impl RelayHint {
    /// Writes a relay as JSON.
    pub fn serialize(&self) -> (text: String)
        ensures
            text@ == relay_hint_json(self@),
            valid_relay_hint(self@),
            means(text@, relay_value(self@)),
    {
        let ghost all = self@.hints.map_values(|h: DirectHintView| direct_hint_json(h));
        let mut hints: Vec<String> = Vec::new();
        let mut i: usize = 0;
        while i < self.hints.len()
            invariant
                i <= self.hints@.len(),
                all == self@.hints.map_values(|h: DirectHintView| direct_hint_json(h)),
                texts(hints@) =~= all.take(i as int),
                forall|k: int| 0 <= k < i ==> valid_direct_hint(#[trigger] self@.hints[k]),
            decreases self.hints@.len() - i,
        {
            let ghost done = texts(hints@);
            assert(self@.hints[i as int] == self.hints@[i as int]@);
            hints.push(self.hints[i].serialize());
            assert(texts(hints@) =~= done.push(all[i as int]));
            i = i + 1;
        }
        assert(all.take(i as int) =~= all);
        let array = array_text(&hints);
        proof {
            law_relay_is_read(self@);
        }
        "{\"hints\":".to_owned().concat(array.as_str()).concat(",\"type\":\"relay-v1\"}")
    }
}

impl Hint {
    /// Writes a hint as JSON.
    pub fn serialize(&self) -> (text: String)
        ensures
            text@ == hint_json(self@),
            valid_hint(self@),
            means(text@, hint_value(self@)),
    {
        match self {
            Hint::DirectTcpV1(direct) => direct.serialize(),
            Hint::RelayV1(relay) => relay.serialize(),
        }
    }
}

impl TransitType {
    /// Writes what a side tells about how it can be reached, as JSON.
    pub fn serialize(&self) -> (text: String)
        ensures
            text@ == transit_json(self@),
            valid_transit_type(self@),
            means(text@, transit_value(self@)),
    {
        let ghost names = self@.abilities_v1.map_values(|a: Ability| ability_json(a));
        let mut abilities: Vec<String> = Vec::new();
        let mut i: usize = 0;
        while i < self.abilities_v1.len()
            invariant
                i <= self.abilities_v1@.len(),
                names == self@.abilities_v1.map_values(|a: Ability| ability_json(a)),
                texts(abilities@) =~= names.take(i as int),
            decreases self.abilities_v1@.len() - i,
        {
            let ghost done = texts(abilities@);
            abilities.push(self.abilities_v1[i].serialize());
            assert(texts(abilities@) =~= done.push(names[i as int]));
            i = i + 1;
        }
        assert(names.take(i as int) =~= names);
        let ghost all = self@.hints_v1.map_values(|h: HintView| hint_json(h));
        let mut hints: Vec<String> = Vec::new();
        let mut j: usize = 0;
        while j < self.hints_v1.len()
            invariant
                j <= self.hints_v1@.len(),
                all == self@.hints_v1.map_values(|h: HintView| hint_json(h)),
                texts(hints@) =~= all.take(j as int),
                forall|k: int| 0 <= k < j ==> valid_hint(#[trigger] self@.hints_v1[k]),
            decreases self.hints_v1@.len() - j,
        {
            let ghost done = texts(hints@);
            assert(self@.hints_v1[j as int] == self.hints_v1@[j as int]@);
            hints.push(self.hints_v1[j].serialize());
            assert(texts(hints@) =~= done.push(all[j as int]));
            j = j + 1;
        }
        assert(all.take(j as int) =~= all);
        let abilities = array_text(&abilities);
        let hints = array_text(&hints);
        proof {
            law_transit_type_is_read(self@);
        }
        "{\"abilities-v1\":".to_owned().concat(abilities.as_str()).concat(
            ",\"hints-v1\":",
        ).concat(hints.as_str()).concat("}")
    }
}

/// A message to the peer.
#[derive(Debug, PartialEq)]
pub enum PeerMessage {
    /// How this side can be reached.
    Transit(TransitType),
}

/// A message to the peer, as JSON.
pub open spec fn message_json(message: PeerMessage) -> Seq<char> {
    match message {
        PeerMessage::Transit(ttype) => "{\"transit\":"@ + transit_json(ttype@) + "}"@,
    }
}

impl PeerMessage {
    /// The message that tells how this side can be reached.
    pub fn new_transit(abilities: Vec<Ability>, hints: Vec<Hint>) -> (message: PeerMessage)
        ensures
            message == PeerMessage::Transit(
                TransitType { abilities_v1: abilities, hints_v1: hints },
            ),
    {
        PeerMessage::Transit(TransitType { abilities_v1: abilities, hints_v1: hints })
    }

    /// Writes the message as JSON.
    pub fn serialize(&self) -> (text: String)
        ensures
            text@ == message_json(*self),
            self matches PeerMessage::Transit(ttype) ==> valid_transit_type(ttype@),
            means(text@, message_value(*self)),
    {
        match self {
            PeerMessage::Transit(ttype) => {
                let transit = ttype.serialize();
                proof {
                    law_message_is_read(*self);
                }
                "{\"transit\":".to_owned().concat(transit.as_str()).concat("}")
            },
        }
    }
}

/// What the receiving side answers once it has the whole file.
#[derive(Debug, PartialEq)]
pub struct TransitAck {
    pub ack: String,
    pub sha256: String,
}

/// An answer as JSON.
pub open spec fn ack_json(ack: Seq<char>, sha256: Seq<char>) -> Seq<char> {
    "{\"ack\":"@ + json_string(ack) + ",\"sha256\":"@ + json_string(sha256) + "}"@
}

impl TransitAck {
    /// The answer `msg`, about a file with this hash.
    pub fn new(msg: &str, sha256: &str) -> (ack: TransitAck)
        ensures
            ack.ack@ == msg@,
            ack.sha256@ == sha256@,
    {
        TransitAck { ack: msg.to_owned(), sha256: sha256.to_owned() }
    }

    /// Writes the answer as JSON.
    pub fn serialize(&self) -> (text: String)
        ensures
            text@ == ack_json(self.ack@, self.sha256@),
            means(text@, ack_value(self.ack@, self.sha256@)),
    {
        proof {
            law_ack_is_read(self.ack@, self.sha256@);
        }
        let ack = json_string_text(self.ack.as_str());
        let sha256 = json_string_text(self.sha256.as_str());
        "{\"ack\":".to_owned().concat(ack.as_str()).concat(",\"sha256\":").concat(
            sha256.as_str(),
        ).concat("}")
    }
}

} // verus!
