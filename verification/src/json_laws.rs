//! What a reader of JSON finds in the messages that are written.
use crate::hints::{
    valid_direct_hint, valid_hint, valid_relay_hint, valid_transit_type, Ability, DirectHintView,
    HintView, RelayHintView, TransitTypeView,
};
use crate::json_reader::{
    is_number_char, means, number_length, read_char, read_items, read_members, read_text,
    read_value, Json,
};
use crate::message::{
    ability_json, ack_json, comma_separated, direct_hint_json, hint_json, json_array,
    message_json, relay_hint_json, transit_json, PeerMessage,
};
use crate::message_laws::{lemma_comma_separated_first, lemma_escaped_first};
use crate::priority::PriorityView;
use crate::priority_laws::{is_digits, is_made_of, is_number, law_priority_text};
use crate::text::{decimal, json_escape, json_escaped, json_string};
use crate::text_laws::{law_decimal, law_json_escape};
use vstd::prelude::*;

verus! {

/// An ability is an object with its name as the type.
pub open spec fn ability_value(ability: Ability) -> Json {
    let name = match ability {
        Ability::DirectTcpV1 => "direct-tcp-v1"@,
        Ability::RelayV1 => "relay-v1"@,
        Ability::Other => "other"@,
    };
    Json::Object(seq![("type"@, Json::Text(name))])
}

/// A priority is a number, or `null`.
pub open spec fn priority_value(priority: PriorityView) -> Json {
    if priority.text == "null"@ {
        Json::Null
    } else {
        Json::Number(priority.text)
    }
}

/// A host is an object with its name, its port and its priority.
pub open spec fn host_value(host: DirectHintView) -> Json {
    Json::Object(
        seq![
            ("hostname"@, Json::Text(host.hostname)),
            ("port"@, Json::Number(decimal(host.port as nat))),
            ("priority"@, priority_value(host.priority)),
            ("type"@, Json::Text("direct-tcp-v1"@)),
        ],
    )
}

/// A relay is an object with the list of its hosts.
pub open spec fn relay_value(relay: RelayHintView) -> Json {
    Json::Object(
        seq![
            ("hints"@, Json::Array(relay.hints.map_values(|h: DirectHintView| host_value(h)))),
            ("type"@, Json::Text("relay-v1"@)),
        ],
    )
}

/// A hint is the host or the relay that it names.
pub open spec fn hint_value(hint: HintView) -> Json {
    match hint {
        HintView::DirectTcpV1(host) => host_value(host),
        HintView::RelayV1(relay) => relay_value(relay),
    }
}

/// What a side tells is an object with the list of its abilities and the list of its hints.
pub open spec fn transit_value(ttype: TransitTypeView) -> Json {
    Json::Object(
        seq![
            (
                "abilities-v1"@,
                Json::Array(ttype.abilities_v1.map_values(|a: Ability| ability_value(a))),
            ),
            ("hints-v1"@, Json::Array(ttype.hints_v1.map_values(|h: HintView| hint_value(h)))),
        ],
    )
}

/// A message is an object with one member, which is named by what the message is about.
pub open spec fn message_value(message: PeerMessage) -> Json {
    match message {
        PeerMessage::Transit(ttype) => Json::Object(seq![("transit"@, transit_value(ttype@))]),
    }
}

/// An answer is an object with the answer and the hash.
pub open spec fn ack_value(ack: Seq<char>, sha256: Seq<char>) -> Json {
    Json::Object(seq![("ack"@, Json::Text(ack)), ("sha256"@, Json::Text(sha256))])
}

/// No number goes on with `rest`.
spec fn ends(rest: Seq<char>) -> bool {
    rest.len() > 0 ==> !is_number_char(rest[0])
}

/// Whatever follows `text`, this value is read from it.
spec fn reads(text: Seq<char>, value: Json) -> bool {
    &&& text.len() > 0
    &&& text[0] != ']'
    &&& forall|rest: Seq<char>|
        ends(rest) ==> #[trigger] read_value(text + rest) == Some((value, rest))
}

proof fn lemma_reads_means(text: Seq<char>, value: Json)
    requires
        reads(text, value),
    ensures
        means(text, value),
{
    let nothing = Seq::<char>::empty();
    assert(text + nothing =~= text);
    assert(read_value(text + nothing) == Some((value, nothing)));
}

proof fn lemma_char_read(c: char, rest: Seq<char>)
    ensures
        json_escape(c).len() > 0,
        json_escape(c)[0] != '"',
        read_char(json_escape(c) + rest) == Some((c, rest)),
{
    law_json_escape(c);
    reveal_strlit("01");
    reveal_strlit("0123456789abcdef");
    let s = json_escape(c) + rest;
    assert(s[0] == json_escape(c)[0]);
    if c == '"' || c == '\\' || (c as int) < 32 {
        assert(s[1] == json_escape(c)[1]);
        if s[1] == 'u' {
            let code = s.skip(2);
            assert(code[0] == '0' && code[1] == '0');
            assert(code[2] == json_escape(c)[4]);
            assert(code[3] == json_escape(c)[5]);
            assert(s.skip(6) =~= rest);
        } else {
            assert(s.skip(2) =~= rest);
        }
    } else {
        assert(s.skip(1) =~= rest);
    }
}

proof fn lemma_text_read(s: Seq<char>, rest: Seq<char>)
    ensures
        read_text(json_escaped(s) + (seq!['"'] + rest)) == Some((s, rest)),
    decreases s.len(),
{
    let quoted = seq!['"'] + rest;
    let all = json_escaped(s) + quoted;
    if s.len() == 0 {
        assert(s.map_values(|c: char| json_escape(c)) =~= seq![]);
        assert(json_escaped(s) =~= seq![]);
        assert(all =~= quoted);
        assert(all.skip(1) =~= rest);
        assert(s =~= seq![]);
    } else {
        let tail = json_escaped(s.drop_first()) + quoted;
        lemma_escaped_first(s);
        assert(all =~= json_escape(s[0]) + tail);
        lemma_char_read(s[0], tail);
        assert(all[0] == json_escape(s[0])[0]);
        lemma_text_read(s.drop_first(), rest);
        assert(s =~= seq![s[0]] + s.drop_first());
    }
}

proof fn lemma_string_reads(s: Seq<char>)
    ensures
        reads(json_string(s), Json::Text(s)),
{
    reveal_strlit("\"");
    assert("\""@ =~= seq!['"']);
    assert(json_string(s)[0] == '"');
    assert forall|rest: Seq<char>| ends(rest) implies #[trigger] read_value(json_string(s) + rest)
        == Some((Json::Text(s), rest)) by {
        let all = json_string(s) + rest;
        assert(all[0] == '"');
        assert(all.skip(1) =~= json_escaped(s) + (seq!['"'] + rest));
        lemma_text_read(s, rest);
    }
}

/// Text that JSON writes as it is.
spec fn is_plain(s: Seq<char>) -> bool {
    forall|i: int|
        0 <= i < s.len() ==> #[trigger] s[i] as int >= 32 && s[i] != '"' && s[i] != '\\'
}

proof fn lemma_plain(s: Seq<char>)
    requires
        is_plain(s),
    ensures
        json_escaped(s) == s,
    decreases s.len(),
{
    if s.len() == 0 {
        assert(s.map_values(|c: char| json_escape(c)) =~= seq![]);
        assert(json_escaped(s) =~= s);
    } else {
        lemma_escaped_first(s);
        law_json_escape(s[0]);
        assert forall|i: int| 0 <= i < s.drop_first().len() implies #[trigger] s.drop_first()[i]
            as int >= 32 && s.drop_first()[i] != '"' && s.drop_first()[i] != '\\' by {
            assert(s[i + 1] as int >= 32);
        }
        lemma_plain(s.drop_first());
        assert(s =~= seq![s[0]] + s.drop_first());
    }
}

proof fn lemma_number_length(text: Seq<char>, rest: Seq<char>)
    requires
        forall|i: int| 0 <= i < text.len() ==> is_number_char(#[trigger] text[i]),
        ends(rest),
    ensures
        number_length(text + rest) == text.len(),
    decreases text.len(),
{
    let all = text + rest;
    if text.len() == 0 {
        assert(all =~= rest);
    } else {
        assert(is_number_char(text[0]));
        assert(all.skip(1) =~= text.skip(1) + rest);
        assert forall|i: int| 0 <= i < text.skip(1).len() implies is_number_char(
            #[trigger] text.skip(1)[i],
        ) by {
            assert(is_number_char(text[i + 1]));
        }
        lemma_number_length(text.skip(1), rest);
    }
}

proof fn lemma_digits_are_number_chars(s: Seq<char>, start: int)
    requires
        0 <= start <= s.len(),
        is_digits(s.skip(start)),
        forall|i: int| 0 <= i < start ==> is_number_char(#[trigger] s[i]),
    ensures
        forall|i: int| 0 <= i < s.len() ==> is_number_char(#[trigger] s[i]),
{
    assert forall|i: int| 0 <= i < s.len() implies is_number_char(#[trigger] s[i]) by {
        if i >= start {
            assert('0' <= s.skip(start)[i - start] <= '9');
        }
    }
}

proof fn lemma_number_chars(text: Seq<char>)
    requires
        is_number(text),
    ensures
        text.len() > 0,
        text[0] == '-' || '0' <= text[0] <= '9',
        forall|i: int| 0 <= i < text.len() ==> is_number_char(#[trigger] text[i]),
{
    let (minus, whole, fraction, exponent) = choose|
        minus: bool,
        whole: Seq<char>,
        fraction: Seq<char>,
        exponent: Seq<char>,
    | is_made_of(text, minus, whole, fraction, exponent);
    let sign: Seq<char> = if minus {
        seq!['-']
    } else {
        seq![]
    };
    assert(whole.skip(0) =~= whole);
    lemma_digits_are_number_chars(whole, 0);
    if fraction.len() > 0 {
        lemma_digits_are_number_chars(fraction, 1);
    }
    if exponent.len() > 0 {
        if is_digits(exponent.skip(1)) {
            lemma_digits_are_number_chars(exponent, 1);
        } else {
            lemma_digits_are_number_chars(exponent, 2);
        }
    }
    let a = sign.len() as int;
    let b = a + whole.len();
    let c = b + fraction.len();
    assert('0' <= whole[0] <= '9');
    assert(minus ==> text[0] == '-');
    assert(!minus ==> text[0] == whole[0]);
    assert forall|i: int| 0 <= i < text.len() implies is_number_char(#[trigger] text[i]) by {
        if i < a {
            assert(text[i] == sign[i]);
        } else if i < b {
            assert(text[i] == whole[i - a]);
        } else if i < c {
            assert(text[i] == fraction[i - b]);
        } else {
            assert(text[i] == exponent[i - c]);
        }
    }
}

proof fn lemma_number_reads(text: Seq<char>)
    requires
        is_number(text),
    ensures
        reads(text, Json::Number(text)),
{
    lemma_number_chars(text);
    assert forall|rest: Seq<char>| ends(rest) implies #[trigger] read_value(text + rest) == Some(
        (Json::Number(text), rest),
    ) by {
        let all = text + rest;
        lemma_number_length(text, rest);
        assert(all[0] == text[0]);
        assert(all.take(text.len() as int) =~= text);
        assert(all.skip(text.len() as int) =~= rest);
    }
}

proof fn lemma_port_reads(n: nat)
    ensures
        reads(decimal(n), Json::Number(decimal(n))),
{
    law_decimal(n);
    let whole = decimal(n);
    let none = Seq::<char>::empty();
    assert(whole =~= none + whole + none + none);
    assert(is_made_of(whole, false, whole, none, none));
    lemma_number_reads(whole);
}

proof fn lemma_priority_reads(hint: DirectHintView)
    requires
        valid_direct_hint(hint),
    ensures
        reads(hint.priority.text, priority_value(hint.priority)),
{
    let text = hint.priority.text;
    law_priority_text(hint.priority.bits, text);
    reveal_strlit("null");
    assert("null"@ =~= seq!['n', 'u', 'l', 'l']);
    if text == "null"@ {
        assert forall|rest: Seq<char>| ends(rest) implies #[trigger] read_value(text + rest)
            == Some((Json::Null, rest)) by {
            let all = text + rest;
            assert(all[0] == 'n' && all[1] == 'u' && all[2] == 'l' && all[3] == 'l');
            assert(all.skip(4) =~= rest);
        }
    } else {
        lemma_number_reads(text);
    }
}

proof fn lemma_items_read(texts: Seq<Seq<char>>, values: Seq<Json>, rest: Seq<char>)
    requires
        texts.len() > 0,
        texts.len() == values.len(),
        forall|i: int| 0 <= i < texts.len() ==> reads(#[trigger] texts[i], values[i]),
    ensures
        read_items(comma_separated(texts) + (seq![']'] + rest)) == Some((values, rest)),
        comma_separated(texts).len() > 0,
        comma_separated(texts)[0] != ']',
    decreases texts.len(),
{
    reveal_strlit(",");
    assert(","@ =~= seq![',']);
    let end = seq![']'] + rest;
    let all = comma_separated(texts) + end;
    assert(reads(texts[0], values[0]));
    if texts.len() == 1 {
        assert(all == texts[0] + end);
        assert(ends(end));
        assert(read_value(texts[0] + end) == Some((values[0], end)));
        assert(end.skip(1) =~= rest);
        assert(values =~= seq![values[0]]);
    } else {
        lemma_comma_separated_first(texts);
        let more = comma_separated(texts.drop_first()) + end;
        let tail = seq![','] + more;
        assert(all =~= texts[0] + tail);
        assert(ends(tail));
        assert(read_value(texts[0] + tail) == Some((values[0], tail)));
        assert(tail.skip(1) =~= more);
        assert forall|i: int| 0 <= i < texts.drop_first().len() implies reads(
            #[trigger] texts.drop_first()[i],
            values.drop_first()[i],
        ) by {
            assert(reads(texts[i + 1], values[i + 1]));
        }
        lemma_items_read(texts.drop_first(), values.drop_first(), rest);
        assert(values =~= seq![values[0]] + values.drop_first());
    }
}

proof fn lemma_array_reads(texts: Seq<Seq<char>>, values: Seq<Json>)
    requires
        texts.len() == values.len(),
        forall|i: int| 0 <= i < texts.len() ==> reads(#[trigger] texts[i], values[i]),
    ensures
        reads(json_array(texts), Json::Array(values)),
{
    reveal_strlit("[");
    reveal_strlit("]");
    assert("["@ =~= seq!['[']);
    assert("]"@ =~= seq![']']);
    assert(json_array(texts)[0] == '[');
    assert forall|rest: Seq<char>| ends(rest) implies #[trigger] read_value(
        json_array(texts) + rest,
    ) == Some((Json::Array(values), rest)) by {
        let all = json_array(texts) + rest;
        assert(all[0] == '[');
        if texts.len() == 0 {
            assert(all[1] == ']');
            assert(all.skip(2) =~= rest);
            assert(values =~= seq![]);
        } else {
            lemma_items_read(texts, values, rest);
            assert(all.skip(1) =~= comma_separated(texts) + (seq![']'] + rest));
            assert(all[1] == comma_separated(texts)[0]);
        }
    }
}

/// A member of an object.
spec fn member(name: Seq<char>, text: Seq<char>) -> Seq<char> {
    seq!['"'] + name + seq!['"', ':'] + text
}

proof fn lemma_name_read(name: Seq<char>, text: Seq<char>, rest: Seq<char>)
    requires
        is_plain(name),
    ensures
        ({
            let all = member(name, text) + rest;
            &&& all[0] == '"'
            &&& read_text(all.skip(1)) == Some((name, seq![':'] + (text + rest)))
        }),
{
    let all = member(name, text) + rest;
    let after = seq![':'] + (text + rest);
    lemma_plain(name);
    lemma_text_read(name, after);
    assert(all.skip(1) =~= name + (seq!['"'] + after));
}

proof fn lemma_last_member_read(name: Seq<char>, text: Seq<char>, value: Json, rest: Seq<char>)
    requires
        is_plain(name),
        reads(text, value),
    ensures
        read_members(member(name, text) + (seq!['}'] + rest)) == Some((seq![(name, value)], rest)),
{
    let end = seq!['}'] + rest;
    lemma_name_read(name, text, end);
    let after = seq![':'] + (text + end);
    assert(after.skip(1) =~= text + end);
    assert(ends(end));
    assert(read_value(text + end) == Some((value, end)));
    assert(end.skip(1) =~= rest);
}

proof fn lemma_more_members_read(
    name: Seq<char>,
    text: Seq<char>,
    value: Json,
    tail: Seq<char>,
    members: Seq<(Seq<char>, Json)>,
    rest: Seq<char>,
)
    requires
        is_plain(name),
        reads(text, value),
        read_members(tail) == Some((members, rest)),
    ensures
        read_members(member(name, text) + (seq![','] + tail)) == Some(
            (seq![(name, value)] + members, rest),
        ),
{
    let end = seq![','] + tail;
    lemma_name_read(name, text, end);
    let after = seq![':'] + (text + end);
    assert(after.skip(1) =~= text + end);
    assert(ends(end));
    assert(read_value(text + end) == Some((value, end)));
    assert(end.skip(1) =~= tail);
}

/// An object with one member.
proof fn lemma_object1_reads(whole: Seq<char>, name: Seq<char>, text: Seq<char>, value: Json)
    requires
        whole == seq!['{'] + member(name, text) + seq!['}'],
        is_plain(name),
        reads(text, value),
    ensures
        reads(whole, Json::Object(seq![(name, value)])),
{
    assert forall|rest: Seq<char>| ends(rest) implies #[trigger] read_value(whole + rest) == Some(
        (Json::Object(seq![(name, value)]), rest),
    ) by {
        let all = whole + rest;
        lemma_last_member_read(name, text, value, rest);
        assert(all.skip(1) =~= member(name, text) + (seq!['}'] + rest));
        assert(all[1] == '"');
    }
}

/// An object with two members.
proof fn lemma_object2_reads(
    whole: Seq<char>,
    name: Seq<char>,
    text: Seq<char>,
    value: Json,
    name2: Seq<char>,
    text2: Seq<char>,
    value2: Json,
)
    requires
        whole == seq!['{'] + member(name, text) + seq![','] + member(name2, text2) + seq!['}'],
        is_plain(name),
        is_plain(name2),
        reads(text, value),
        reads(text2, value2),
    ensures
        reads(whole, Json::Object(seq![(name, value), (name2, value2)])),
{
    let members = seq![(name, value), (name2, value2)];
    assert forall|rest: Seq<char>| ends(rest) implies #[trigger] read_value(whole + rest) == Some(
        (Json::Object(members), rest),
    ) by {
        let all = whole + rest;
        let tail = member(name2, text2) + (seq!['}'] + rest);
        lemma_last_member_read(name2, text2, value2, rest);
        lemma_more_members_read(name, text, value, tail, seq![(name2, value2)], rest);
        assert(all.skip(1) =~= member(name, text) + (seq![','] + tail));
        assert(all[1] == '"');
        assert(members =~= seq![(name, value)] + seq![(name2, value2)]);
    }
}

proof fn lemma_ability_reads(ability: Ability)
    ensures
        reads(ability_json(ability), ability_value(ability)),
{
    reveal_strlit("direct-tcp-v1");
    reveal_strlit("relay-v1");
    reveal_strlit("other");
    reveal_strlit("type");
    reveal_strlit("{\"type\":\"");
    reveal_strlit("\"}");
    reveal_strlit("\"");
    let name = match ability {
        Ability::DirectTcpV1 => "direct-tcp-v1"@,
        Ability::RelayV1 => "relay-v1"@,
        Ability::Other => "other"@,
    };
    assert(is_plain(name));
    lemma_plain(name);
    lemma_string_reads(name);
    assert("{\"type\":\""@ =~= seq!['{', '"'] + "type"@ + seq!['"', ':', '"']);
    assert("\"}"@ =~= seq!['"', '}']);
    assert("\""@ =~= seq!['"']);
    assert(ability_json(ability) =~= seq!['{'] + member("type"@, json_string(name)) + seq!['}']);
    lemma_object1_reads(
        ability_json(ability),
        "type"@,
        json_string(name),
        Json::Text(name),
    );
}

proof fn lemma_host_names()
    ensures
        is_plain("hostname"@),
        is_plain("port"@),
        is_plain("priority"@),
        is_plain("type"@),
        is_plain("direct-tcp-v1"@),
{
    reveal_strlit("hostname");
    reveal_strlit("port");
    reveal_strlit("priority");
    reveal_strlit("type");
    reveal_strlit("direct-tcp-v1");
}

proof fn lemma_host_pieces()
    ensures
        "{\"hostname\":"@ == seq!['{', '"'] + "hostname"@ + seq!['"', ':'],
        ",\"port\":"@ == seq![',', '"'] + "port"@ + seq!['"', ':'],
        ",\"priority\":"@ == seq![',', '"'] + "priority"@ + seq!['"', ':'],
        ",\"type\":\"direct-tcp-v1\"}"@ == seq![','] + member(
            "type"@,
            json_string("direct-tcp-v1"@),
        ) + seq!['}'],
{
    reveal_strlit("hostname");
    reveal_strlit("port");
    reveal_strlit("priority");
    reveal_strlit("type");
    reveal_strlit("direct-tcp-v1");
    reveal_strlit("\"");
    reveal_strlit("{\"hostname\":");
    reveal_strlit(",\"port\":");
    reveal_strlit(",\"priority\":");
    reveal_strlit(",\"type\":\"direct-tcp-v1\"}");
    assert(is_plain("direct-tcp-v1"@));
    lemma_plain("direct-tcp-v1"@);
    assert("{\"hostname\":"@ =~= seq!['{', '"'] + "hostname"@ + seq!['"', ':']);
    assert(",\"port\":"@ =~= seq![',', '"'] + "port"@ + seq!['"', ':']);
    assert(",\"priority\":"@ =~= seq![',', '"'] + "priority"@ + seq!['"', ':']);
    assert(",\"type\":\"direct-tcp-v1\"}"@ =~= seq![','] + member(
        "type"@,
        json_string("direct-tcp-v1"@),
    ) + seq!['}']);
}

proof fn lemma_host_text(host: DirectHintView, rest: Seq<char>)
    ensures
        direct_hint_json(host) + rest == seq!['{'] + (member(
            "hostname"@,
            json_string(host.hostname),
        ) + (seq![','] + (member("port"@, decimal(host.port as nat)) + (seq![','] + (member(
            "priority"@,
            host.priority.text,
        ) + (seq![','] + (member("type"@, json_string("direct-tcp-v1"@)) + (seq!['}']
            + rest)))))))),
{
    lemma_host_pieces();
    let name = json_string(host.hostname);
    let port = decimal(host.port as nat);
    let priority = host.priority.text;
    let t4 = member("type"@, json_string("direct-tcp-v1"@)) + (seq!['}'] + rest);
    let t3 = member("priority"@, priority) + (seq![','] + t4);
    let t2 = member("port"@, port) + (seq![','] + t3);
    let t1 = member("hostname"@, name) + (seq![','] + t2);
    let u4 = ",\"type\":\"direct-tcp-v1\"}"@ + rest;
    let u3 = ",\"priority\":"@ + (priority + u4);
    let u2 = ",\"port\":"@ + (port + u3);
    let u1 = "{\"hostname\":"@ + (name + u2);
    assert(direct_hint_json(host) + rest =~= u1);
    assert(u4 =~= seq![','] + t4);
    assert(u3 =~= seq![','] + t3);
    assert(u2 =~= seq![','] + t2);
    assert(u1 =~= seq!['{'] + t1);
}

proof fn lemma_host_reads(host: DirectHintView)
    requires
        valid_direct_hint(host),
    ensures
        reads(direct_hint_json(host), host_value(host)),
{
    let name = json_string(host.hostname);
    let port = decimal(host.port as nat);
    let priority = host.priority.text;
    let kind = json_string("direct-tcp-v1"@);
    lemma_host_names();
    lemma_string_reads(host.hostname);
    lemma_port_reads(host.port as nat);
    lemma_priority_reads(host);
    lemma_string_reads("direct-tcp-v1"@);
    let whole = direct_hint_json(host);
    let value = Json::Text(host.hostname);
    let members = seq![
        ("hostname"@, value),
        ("port"@, Json::Number(port)),
        ("priority"@, priority_value(host.priority)),
        ("type"@, Json::Text("direct-tcp-v1"@)),
    ];
    lemma_host_pieces();
    assert(whole[0] == '{');
    assert forall|rest: Seq<char>| ends(rest) implies #[trigger] read_value(whole + rest) == Some(
        (Json::Object(members), rest),
    ) by {
        let all = whole + rest;
        let m4 = seq![("type"@, Json::Text("direct-tcp-v1"@))];
        let m3 = seq![("priority"@, priority_value(host.priority))] + m4;
        let m2 = seq![("port"@, Json::Number(port))] + m3;
        let t4 = member("type"@, kind) + (seq!['}'] + rest);
        let t3 = member("priority"@, priority) + (seq![','] + t4);
        let t2 = member("port"@, port) + (seq![','] + t3);
        let t1 = member("hostname"@, name) + (seq![','] + t2);
        lemma_last_member_read("type"@, kind, Json::Text("direct-tcp-v1"@), rest);
        lemma_more_members_read(
            "priority"@,
            priority,
            priority_value(host.priority),
            t4,
            m4,
            rest,
        );
        lemma_more_members_read("port"@, port, Json::Number(port), t3, m3, rest);
        lemma_more_members_read("hostname"@, name, value, t2, m2, rest);
        assert(members =~= seq![("hostname"@, value)] + m2);
        lemma_host_text(host, rest);
        assert(all.skip(1) =~= t1);
        assert(t1[0] == '"');
        assert(all[1] == '"');
    }
}

proof fn lemma_relay_reads(relay: RelayHintView)
    requires
        valid_relay_hint(relay),
    ensures
        reads(relay_hint_json(relay), relay_value(relay)),
{
    reveal_strlit("hints");
    reveal_strlit("type");
    reveal_strlit("relay-v1");
    reveal_strlit("\"");
    reveal_strlit("{\"hints\":");
    reveal_strlit(",\"type\":\"relay-v1\"}");
    let texts = relay.hints.map_values(|h: DirectHintView| direct_hint_json(h));
    let values = relay.hints.map_values(|h: DirectHintView| host_value(h));
    assert forall|i: int| 0 <= i < texts.len() implies reads(#[trigger] texts[i], values[i]) by {
        assert(valid_direct_hint(relay.hints[i]));
        lemma_host_reads(relay.hints[i]);
    }
    lemma_array_reads(texts, values);
    let kind = json_string("relay-v1"@);
    assert(is_plain("relay-v1"@));
    lemma_plain("relay-v1"@);
    lemma_string_reads("relay-v1"@);
    assert("\""@ =~= seq!['"']);
    assert("{\"hints\":"@ =~= seq!['{', '"'] + "hints"@ + seq!['"', ':']);
    assert(",\"type\":\"relay-v1\"}"@ =~= seq![','] + member("type"@, kind) + seq!['}']);
    assert(relay_hint_json(relay) =~= seq!['{'] + member("hints"@, json_array(texts)) + seq![',']
        + member("type"@, kind) + seq!['}']);
    lemma_object2_reads(
        relay_hint_json(relay),
        "hints"@,
        json_array(texts),
        Json::Array(values),
        "type"@,
        kind,
        Json::Text("relay-v1"@),
    );
}

proof fn lemma_hint_reads(hint: HintView)
    requires
        valid_hint(hint),
    ensures
        reads(hint_json(hint), hint_value(hint)),
{
    match hint {
        HintView::DirectTcpV1(host) => lemma_host_reads(host),
        HintView::RelayV1(relay) => lemma_relay_reads(relay),
    }
}

proof fn lemma_transit_reads(ttype: TransitTypeView)
    requires
        valid_transit_type(ttype),
    ensures
        reads(transit_json(ttype), transit_value(ttype)),
{
    reveal_strlit("abilities-v1");
    reveal_strlit("hints-v1");
    reveal_strlit("{\"abilities-v1\":");
    reveal_strlit(",\"hints-v1\":");
    reveal_strlit("}");
    let names = ttype.abilities_v1.map_values(|a: Ability| ability_json(a));
    let abilities = ttype.abilities_v1.map_values(|a: Ability| ability_value(a));
    assert forall|i: int| 0 <= i < names.len() implies reads(#[trigger] names[i], abilities[i]) by {
        lemma_ability_reads(ttype.abilities_v1[i]);
    }
    lemma_array_reads(names, abilities);
    let texts = ttype.hints_v1.map_values(|h: HintView| hint_json(h));
    let hints = ttype.hints_v1.map_values(|h: HintView| hint_value(h));
    assert forall|i: int| 0 <= i < texts.len() implies reads(#[trigger] texts[i], hints[i]) by {
        assert(valid_hint(ttype.hints_v1[i]));
        lemma_hint_reads(ttype.hints_v1[i]);
    }
    lemma_array_reads(texts, hints);
    assert("{\"abilities-v1\":"@ =~= seq!['{', '"'] + "abilities-v1"@ + seq!['"', ':']);
    assert(",\"hints-v1\":"@ =~= seq![',', '"'] + "hints-v1"@ + seq!['"', ':']);
    assert("}"@ =~= seq!['}']);
    assert(transit_json(ttype) =~= seq!['{'] + member("abilities-v1"@, json_array(names)) + seq![
        ',',
    ] + member("hints-v1"@, json_array(texts)) + seq!['}']);
    lemma_object2_reads(
        transit_json(ttype),
        "abilities-v1"@,
        json_array(names),
        Json::Array(abilities),
        "hints-v1"@,
        json_array(texts),
        Json::Array(hints),
    );
}

/// A string that is written is read again.
pub proof fn law_string_is_read(s: Seq<char>)
    ensures
        means(json_string(s), Json::Text(s)),
{
    lemma_string_reads(s);
    lemma_reads_means(json_string(s), Json::Text(s));
}

/// From an ability that is written its name is read.
pub proof fn law_ability_is_read(ability: Ability)
    ensures
        means(ability_json(ability), ability_value(ability)),
{
    lemma_ability_reads(ability);
    lemma_reads_means(ability_json(ability), ability_value(ability));
}

/// From a host that is written its name, its port and its priority are read.
pub proof fn law_host_is_read(host: DirectHintView)
    requires
        valid_direct_hint(host),
    ensures
        means(direct_hint_json(host), host_value(host)),
{
    lemma_host_reads(host);
    lemma_reads_means(direct_hint_json(host), host_value(host));
}

/// From a relay that is written all of its hosts are read.
pub proof fn law_relay_is_read(relay: RelayHintView)
    requires
        valid_relay_hint(relay),
    ensures
        means(relay_hint_json(relay), relay_value(relay)),
{
    lemma_relay_reads(relay);
    lemma_reads_means(relay_hint_json(relay), relay_value(relay));
}

/// From a hint that is written the host or the relay that it names is read.
pub proof fn law_hint_is_read(hint: HintView)
    requires
        valid_hint(hint),
    ensures
        means(hint_json(hint), hint_value(hint)),
{
    lemma_hint_reads(hint);
    lemma_reads_means(hint_json(hint), hint_value(hint));
}

/// From what a side tells every ability and every hint is read, in their order.
pub proof fn law_transit_type_is_read(ttype: TransitTypeView)
    requires
        valid_transit_type(ttype),
    ensures
        means(transit_json(ttype), transit_value(ttype)),
{
    lemma_transit_reads(ttype);
    lemma_reads_means(transit_json(ttype), transit_value(ttype));
}

/// From a message that tells how a side can be reached, the peer reads just that: every ability
/// and every hint, in their order, and nothing else.
pub proof fn law_message_is_read(message: PeerMessage)
    requires
        message matches PeerMessage::Transit(ttype) ==> valid_transit_type(ttype@),
    ensures
        means(message_json(message), message_value(message)),
{
    reveal_strlit("transit");
    reveal_strlit("{\"transit\":");
    reveal_strlit("}");
    match message {
        PeerMessage::Transit(ttype) => {
            let text = transit_json(ttype@);
            lemma_transit_reads(ttype@);
            assert("{\"transit\":"@ =~= seq!['{', '"'] + "transit"@ + seq!['"', ':']);
            assert("}"@ =~= seq!['}']);
            assert(message_json(message) =~= seq!['{'] + member("transit"@, text) + seq!['}']);
            lemma_object1_reads(
                message_json(message),
                "transit"@,
                text,
                transit_value(ttype@),
            );
        },
    }
    lemma_reads_means(message_json(message), message_value(message));
}

/// From an answer that is written the answer and the hash are read.
pub proof fn law_ack_is_read(ack: Seq<char>, sha256: Seq<char>)
    ensures
        means(ack_json(ack, sha256), ack_value(ack, sha256)),
{
    reveal_strlit("ack");
    reveal_strlit("sha256");
    reveal_strlit("{\"ack\":");
    reveal_strlit(",\"sha256\":");
    reveal_strlit("}");
    let whole = ack_json(ack, sha256);
    lemma_string_reads(ack);
    lemma_string_reads(sha256);
    assert("{\"ack\":"@ =~= seq!['{', '"'] + "ack"@ + seq!['"', ':']);
    assert(",\"sha256\":"@ =~= seq![',', '"'] + "sha256"@ + seq!['"', ':']);
    assert("}"@ =~= seq!['}']);
    assert(whole =~= seq!['{'] + member("ack"@, json_string(ack)) + seq![','] + member(
        "sha256"@,
        json_string(sha256),
    ) + seq!['}']);
    lemma_object2_reads(
        whole,
        "ack"@,
        json_string(ack),
        Json::Text(ack),
        "sha256"@,
        json_string(sha256),
        Json::Text(sha256),
    );
    lemma_reads_means(whole, ack_value(ack, sha256));
}

} // verus!
