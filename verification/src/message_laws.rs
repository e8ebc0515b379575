//! That nothing is lost when a message is written as JSON.
use crate::hints::{
    valid_direct_hint, valid_hint, valid_relay_hint, valid_transit_type, Ability, DirectHintView,
    HintView, RelayHintView, TransitType, TransitTypeView,
};
use crate::message::{
    ability_json, ability_name, ack_json, comma_separated, direct_hint_json, hint_json,
    json_array, message_json, relay_hint_json, transit_json, PeerMessage,
};
use crate::priority::lemma_no_comma;
use crate::text::{
    decimal, hex_digit, json_escape, json_escaped, json_string, lemma_decimal_injective,
    lemma_decimal_is_digits,
};
use vstd::prelude::*;

verus! {

/// The two hosts are the same but for the bits of their priorities, of which JSON holds no more
/// than the text.
pub open spec fn same_host(a: DirectHintView, b: DirectHintView) -> bool {
    &&& a.hostname == b.hostname
    &&& a.port == b.port
    &&& a.priority.text == b.priority.text
}

/// The two relays have the same hosts.
pub open spec fn same_relay(a: RelayHintView, b: RelayHintView) -> bool {
    same_items(a.hints, b.hints, |m: DirectHintView, n: DirectHintView| same_host(m, n))
}

/// The two hints lead to the same.
pub open spec fn same_hint(a: HintView, b: HintView) -> bool {
    match (a, b) {
        (HintView::DirectTcpV1(m), HintView::DirectTcpV1(n)) => same_host(m, n),
        (HintView::RelayV1(m), HintView::RelayV1(n)) => same_relay(m, n),
        _ => false,
    }
}

/// The two lists have the same items, in the same order.
pub open spec fn same_items<T>(a: Seq<T>, b: Seq<T>, same: spec_fn(T, T) -> bool) -> bool {
    &&& a.len() == b.len()
    &&& forall|i: int| 0 <= i < a.len() ==> #[trigger] same(a[i], b[i])
}

/// What follows the same beginning is the same.
proof fn lemma_strip(p: Seq<char>, x: Seq<char>, y: Seq<char>)
    requires
        p + x == p + y,
    ensures
        x == y,
{
    assert(x =~= (p + x).skip(p.len() as int));
    assert(y =~= (p + y).skip(p.len() as int));
}

/// Text up to the first occurrence of a character ends there.
proof fn lemma_cut(s: Seq<char>, t: Seq<char>, c: char, x: Seq<char>, y: Seq<char>)
    requires
        s + (seq![c] + x) == t + (seq![c] + y),
        !s.contains(c),
        !t.contains(c),
    ensures
        s == t,
        x == y,
{
    let u = s + (seq![c] + x);
    let v = t + (seq![c] + y);
    if s.len() < t.len() {
        assert(u[s.len() as int] == c);
        assert(v[s.len() as int] == t[s.len() as int]);
        assert(t.contains(c));
    }
    if t.len() < s.len() {
        assert(v[t.len() as int] == c);
        assert(u[t.len() as int] == s[t.len() as int]);
        assert(s.contains(c));
    }
    let n = s.len() as int;
    assert(s =~= u.take(n));
    assert(t =~= v.take(n));
    assert(x =~= u.skip(n + 1));
    assert(y =~= v.skip(n + 1));
}

/// No escape is the beginning of another.
proof fn lemma_escape_cut(c: char, d: char, x: Seq<char>, y: Seq<char>)
    requires
        json_escape(c) + x == json_escape(d) + y,
    ensures
        c == d,
        x == y,
{
    let u = json_escape(c) + x;
    let v = json_escape(d) + y;
    assert(u[0] == json_escape(c)[0]);
    assert(v[0] == json_escape(d)[0]);
    if u[0] == '\\' {
        assert(u[1] == json_escape(c)[1]);
        assert(v[1] == json_escape(d)[1]);
        if u[1] == 'u' {
            assert(u[4] == hex_digit(c as int / 16));
            assert(v[4] == hex_digit(d as int / 16));
            assert(u[5] == hex_digit(c as int % 16));
            assert(v[5] == hex_digit(d as int % 16));
        }
    }
    assert(c == d);
    lemma_strip(json_escape(c), x, y);
}

pub proof fn lemma_escaped_first(s: Seq<char>)
    requires
        s.len() > 0,
    ensures
        json_escaped(s) == json_escape(s[0]) + json_escaped(s.drop_first()),
{
    let each = |c: char| json_escape(c);
    assert(s.map_values(each).drop_first() =~= s.drop_first().map_values(each));
}

/// A JSON string ends where its closing quote stands, and different strings are written
/// differently.
pub proof fn law_json_string_unambiguous(a: Seq<char>, b: Seq<char>, x: Seq<char>, y: Seq<char>)
    requires
        json_string(a) + x == json_string(b) + y,
    ensures
        a == b,
        x == y,
{
    let q = "\""@;
    assert(json_string(a) + x =~= q + (json_escaped(a) + (q + x)));
    assert(json_string(b) + y =~= q + (json_escaped(b) + (q + y)));
    lemma_strip(q, json_escaped(a) + (q + x), json_escaped(b) + (q + y));
    lemma_escaped_cut(a, b, x, y);
}

proof fn lemma_escaped_cut(a: Seq<char>, b: Seq<char>, x: Seq<char>, y: Seq<char>)
    requires
        json_escaped(a) + ("\""@ + x) == json_escaped(b) + ("\""@ + y),
    ensures
        a == b,
        x == y,
    decreases a.len(),
{
    let q = "\""@;
    reveal_strlit("\"");
    let each = |c: char| json_escape(c);
    if a.len() == 0 {
        assert(a.map_values(each) =~= seq![]);
        assert(json_escaped(a) + (q + x) =~= q + x);
    }
    if b.len() == 0 {
        assert(b.map_values(each) =~= seq![]);
        assert(json_escaped(b) + (q + y) =~= q + y);
    }
    if a.len() == 0 && b.len() == 0 {
        assert(a =~= b);
        lemma_strip(q, x, y);
    } else if a.len() == 0 {
        lemma_escaped_first(b);
        assert((json_escaped(b) + (q + y))[0] == json_escape(b[0])[0]);
        assert((q + x)[0] == '"');
    } else if b.len() == 0 {
        lemma_escaped_first(a);
        assert((json_escaped(a) + (q + x))[0] == json_escape(a[0])[0]);
        assert((q + y)[0] == '"');
    } else {
        lemma_escaped_first(a);
        lemma_escaped_first(b);
        let u = json_escaped(a.drop_first()) + (q + x);
        let v = json_escaped(b.drop_first()) + (q + y);
        assert(json_escaped(a) + (q + x) =~= json_escape(a[0]) + u);
        assert(json_escaped(b) + (q + y) =~= json_escape(b[0]) + v);
        lemma_escape_cut(a[0], b[0], u, v);
        lemma_escaped_cut(a.drop_first(), b.drop_first(), x, y);
        assert(a =~= seq![a[0]] + a.drop_first());
        assert(b =~= seq![b[0]] + b.drop_first());
    }
}

proof fn lemma_ability_cut(a: Ability, b: Ability, x: Seq<char>, y: Seq<char>)
    requires
        ability_json(a) + x == ability_json(b) + y,
    ensures
        a == b,
        x == y,
{
    reveal_strlit("direct-tcp-v1");
    reveal_strlit("relay-v1");
    reveal_strlit("other");
    reveal_strlit("\"}");
    let open = "{\"type\":\""@;
    let close = "\"}"@;
    let m = ability_name(a);
    let n = ability_name(b);
    let u = seq!['}'] + x;
    let v = seq!['}'] + y;
    assert(ability_json(a) + x =~= open + (m + (seq!['"'] + u)));
    assert(ability_json(b) + y =~= open + (n + (seq!['"'] + v)));
    lemma_strip(open, m + (seq!['"'] + u), n + (seq!['"'] + v));
    lemma_cut(m, n, '"', u, v);
    lemma_strip(seq!['}'], x, y);
    assert(m.len() == n.len());
}

proof fn lemma_commas()
    ensures
        ",\"priority\":"@.len() > 0,
        ",\"priority\":"@[0] == ',',
        ",\"type\":\"direct-tcp-v1\"}"@.len() > 0,
        ",\"type\":\"direct-tcp-v1\"}"@[0] == ',',
{
    reveal_strlit(",\"priority\":");
    reveal_strlit(",\"type\":\"direct-tcp-v1\"}");
}

proof fn lemma_direct_hint_cut(
    a: DirectHintView,
    b: DirectHintView,
    x: Seq<char>,
    y: Seq<char>,
)
    requires
        valid_direct_hint(a),
        valid_direct_hint(b),
        direct_hint_json(a) + x == direct_hint_json(b) + y,
    ensures
        same_host(a, b),
        x == y,
{
    lemma_commas();
    let l1 = "{\"hostname\":"@;
    let l2 = ",\"port\":"@;
    let l3 = ",\"priority\":"@;
    let l4 = ",\"type\":\"direct-tcp-v1\"}"@;
    let t3 = l3.drop_first();
    let t4 = l4.drop_first();
    assert(l3 =~= seq![','] + t3);
    assert(l4 =~= seq![','] + t4);
    let pa = decimal(a.port as nat);
    let pb = decimal(b.port as nat);
    let a4 = t4 + x;
    let b4 = t4 + y;
    let a3 = t3 + (a.priority.text + (seq![','] + a4));
    let b3 = t3 + (b.priority.text + (seq![','] + b4));
    let a2 = pa + (seq![','] + a3);
    let b2 = pb + (seq![','] + b3);
    assert(direct_hint_json(a) + x =~= l1 + (json_string(a.hostname) + (l2 + a2)));
    assert(direct_hint_json(b) + y =~= l1 + (json_string(b.hostname) + (l2 + b2)));
    lemma_strip(l1, json_string(a.hostname) + (l2 + a2), json_string(b.hostname) + (l2 + b2));
    law_json_string_unambiguous(a.hostname, b.hostname, l2 + a2, l2 + b2);
    lemma_strip(l2, a2, b2);
    lemma_decimal_is_digits(a.port as nat);
    lemma_decimal_is_digits(b.port as nat);
    lemma_cut(pa, pb, ',', a3, b3);
    lemma_decimal_injective(a.port as nat, b.port as nat);
    lemma_strip(t3, a.priority.text + (seq![','] + a4), b.priority.text + (seq![','] + b4));
    lemma_no_comma(a.priority.bits, a.priority.text);
    lemma_no_comma(b.priority.bits, b.priority.text);
    lemma_cut(a.priority.text, b.priority.text, ',', a4, b4);
    lemma_strip(t4, x, y);
}

/// Texts of which none is the beginning of another, each in curly brackets.
spec fn self_delimiting<T>(
    json: spec_fn(T) -> Seq<char>,
    valid: spec_fn(T) -> bool,
    same: spec_fn(T, T) -> bool,
) -> bool {
    &&& forall|a: T|
        valid(a) ==> (#[trigger] json(a)).len() > 0 && json(a)[0] == '{'
    &&& forall|a: T, b: T, x: Seq<char>, y: Seq<char>|
        valid(a) && valid(b) && #[trigger] (json(a) + x) == #[trigger] (json(b) + y) ==> same(
            a,
            b,
        ) && x == y
}

/// A list begins with its first item.
pub proof fn lemma_comma_separated_first(items: Seq<Seq<char>>)
    requires
        items.len() >= 2,
    ensures
        comma_separated(items) == items[0] + (","@ + comma_separated(items.drop_first())),
    decreases items.len(),
{
    let tail = items.drop_first();
    let comma = ","@;
    if items.len() == 2 {
        reveal_with_fuel(comma_separated, 2);
        assert(items.drop_last()[0] == items[0]);
        assert(tail[0] == items.last());
        assert(comma_separated(items) =~= items[0] + (comma + comma_separated(tail)));
    } else {
        lemma_comma_separated_first(items.drop_last());
        assert(items.drop_last().drop_first() =~= tail.drop_last());
        assert(comma_separated(items) =~= items[0] + (comma + comma_separated(tail)));
    }
}

/// What follows the first item of a list in an array.
spec fn array_tail(items: Seq<Seq<char>>, x: Seq<char>) -> Seq<char> {
    if items.len() <= 1 {
        "]"@ + x
    } else {
        ","@ + (comma_separated(items.drop_first()) + ("]"@ + x))
    }
}

proof fn lemma_array_first(items: Seq<Seq<char>>, x: Seq<char>)
    requires
        items.len() > 0,
    ensures
        comma_separated(items) + ("]"@ + x) == items[0] + array_tail(items, x),
{
    if items.len() > 1 {
        lemma_comma_separated_first(items);
        assert(comma_separated(items) + ("]"@ + x) =~= items[0] + array_tail(items, x));
    }
}

proof fn lemma_items_cut<T>(
    json: spec_fn(T) -> Seq<char>,
    valid: spec_fn(T) -> bool,
    same: spec_fn(T, T) -> bool,
    a: Seq<T>,
    b: Seq<T>,
    x: Seq<char>,
    y: Seq<char>,
)
    requires
        self_delimiting(json, valid, same),
        forall|i: int| 0 <= i < a.len() ==> valid(#[trigger] a[i]),
        forall|i: int| 0 <= i < b.len() ==> valid(#[trigger] b[i]),
        comma_separated(a.map_values(json)) + ("]"@ + x) == comma_separated(b.map_values(json)) + (
        "]"@ + y),
    ensures
        same_items(a, b, same),
        x == y,
    decreases a.len(),
{
    reveal_strlit("]");
    reveal_strlit(",");
    let p = a.map_values(json);
    let q = b.map_values(json);
    let u = comma_separated(p) + ("]"@ + x);
    let v = comma_separated(q) + ("]"@ + y);
    if a.len() == 0 {
        assert(u =~= "]"@ + x);
        assert(u[0] == ']');
    } else {
        lemma_array_first(p, x);
        assert(p[0] == json(a[0]));
        assert(valid(a[0]));
        assert(u[0] == p[0][0]);
    }
    if b.len() == 0 {
        assert(v =~= "]"@ + y);
        assert(v[0] == ']');
    } else {
        lemma_array_first(q, y);
        assert(q[0] == json(b[0]));
        assert(valid(b[0]));
        assert(v[0] == q[0][0]);
    }
    if a.len() == 0 && b.len() == 0 {
        lemma_strip("]"@, x, y);
    } else {
        assert(a.len() > 0 && b.len() > 0);
        let ta = array_tail(p, x);
        let tb = array_tail(q, y);
        assert(json(a[0]) + ta == json(b[0]) + tb);
        assert(ta == tb);
        assert(ta[0] == if a.len() == 1 {
            ']'
        } else {
            ','
        });
        assert(tb[0] == if b.len() == 1 {
            ']'
        } else {
            ','
        });
        assert(p.drop_first() =~= a.drop_first().map_values(json));
        assert(q.drop_first() =~= b.drop_first().map_values(json));
        if a.len() == 1 {
            lemma_strip("]"@, x, y);
        } else {
            lemma_strip(
                ","@,
                comma_separated(p.drop_first()) + ("]"@ + x),
                comma_separated(q.drop_first()) + ("]"@ + y),
            );
            lemma_items_cut(json, valid, same, a.drop_first(), b.drop_first(), x, y);
        }
        assert forall|i: int| 0 <= i < a.len() implies #[trigger] same(a[i], b[i]) by {
            if i > 0 {
                assert(same(a.drop_first()[i - 1], b.drop_first()[i - 1]));
            }
        }
    }
}

/// A JSON array of such texts ends where its closing bracket stands, and different lists are
/// written differently.
proof fn lemma_array_cut<T>(
    json: spec_fn(T) -> Seq<char>,
    valid: spec_fn(T) -> bool,
    same: spec_fn(T, T) -> bool,
    a: Seq<T>,
    b: Seq<T>,
    x: Seq<char>,
    y: Seq<char>,
)
    requires
        self_delimiting(json, valid, same),
        forall|i: int| 0 <= i < a.len() ==> valid(#[trigger] a[i]),
        forall|i: int| 0 <= i < b.len() ==> valid(#[trigger] b[i]),
        json_array(a.map_values(json)) + x == json_array(b.map_values(json)) + y,
    ensures
        same_items(a, b, same),
        x == y,
{
    let u = comma_separated(a.map_values(json)) + ("]"@ + x);
    let v = comma_separated(b.map_values(json)) + ("]"@ + y);
    assert(json_array(a.map_values(json)) + x =~= "["@ + u);
    assert(json_array(b.map_values(json)) + y =~= "["@ + v);
    lemma_strip("["@, u, v);
    lemma_items_cut(json, valid, same, a, b, x, y);
}

proof fn lemma_direct_hints_self_delimiting()
    ensures
        self_delimiting(
            |h: DirectHintView| direct_hint_json(h),
            |h: DirectHintView| valid_direct_hint(h),
            |a: DirectHintView, b: DirectHintView| same_host(a, b),
        ),
{
    reveal_strlit("{\"hostname\":");
    let json = |h: DirectHintView| direct_hint_json(h);
    let valid = |h: DirectHintView| valid_direct_hint(h);
    assert forall|a: DirectHintView, b: DirectHintView, x: Seq<char>, y: Seq<char>|
        valid(a) && valid(b) && #[trigger] (json(a) + x) == #[trigger] (json(b)
            + y) implies same_host(a, b) && x == y by {
        lemma_direct_hint_cut(a, b, x, y);
    }
}

proof fn lemma_relay_hint_cut(a: RelayHintView, b: RelayHintView, x: Seq<char>, y: Seq<char>)
    requires
        valid_relay_hint(a),
        valid_relay_hint(b),
        relay_hint_json(a) + x == relay_hint_json(b) + y,
    ensures
        same_relay(a, b),
        x == y,
{
    let l1 = "{\"hints\":"@;
    let l2 = ",\"type\":\"relay-v1\"}"@;
    let json = |h: DirectHintView| direct_hint_json(h);
    let valid = |h: DirectHintView| valid_direct_hint(h);
    let same = |m: DirectHintView, n: DirectHintView| same_host(m, n);
    lemma_direct_hints_self_delimiting();
    let p = json_array(a.hints.map_values(json));
    let q = json_array(b.hints.map_values(json));
    assert(relay_hint_json(a) + x =~= l1 + (p + (l2 + x)));
    assert(relay_hint_json(b) + y =~= l1 + (q + (l2 + y)));
    lemma_strip(l1, p + (l2 + x), q + (l2 + y));
    lemma_array_cut(json, valid, same, a.hints, b.hints, l2 + x, l2 + y);
    lemma_strip(l2, x, y);
}

proof fn lemma_hints_self_delimiting()
    ensures
        self_delimiting(
            |h: HintView| hint_json(h),
            |h: HintView| valid_hint(h),
            |a: HintView, b: HintView| same_hint(a, b),
        ),
{
    reveal_strlit("{\"hostname\":");
    reveal_strlit("{\"hints\":");
    let json = |h: HintView| hint_json(h);
    let valid = |h: HintView| valid_hint(h);
    assert forall|a: HintView, b: HintView, x: Seq<char>, y: Seq<char>|
        valid(a) && valid(b) && #[trigger] (json(a) + x) == #[trigger] (json(b)
            + y) implies same_hint(a, b) && x == y by {
        assert((json(a) + x)[3] == json(a)[3]);
        assert((json(b) + y)[3] == json(b)[3]);
        match (a, b) {
            (HintView::DirectTcpV1(m), HintView::DirectTcpV1(n)) => {
                lemma_direct_hint_cut(m, n, x, y);
            },
            (HintView::RelayV1(m), HintView::RelayV1(n)) => {
                lemma_relay_hint_cut(m, n, x, y);
            },
            _ => {},
        }
    }
}

proof fn lemma_abilities_self_delimiting()
    ensures
        self_delimiting(
            |a: Ability| ability_json(a),
            |a: Ability| true,
            |a: Ability, b: Ability| a == b,
        ),
{
    reveal_strlit("{\"type\":\"");
    let json = |a: Ability| ability_json(a);
    assert forall|a: Ability, b: Ability, x: Seq<char>, y: Seq<char>|
        #[trigger] (json(a) + x) == #[trigger] (json(b) + y) implies a == b && x == y by {
        lemma_ability_cut(a, b, x, y);
    }
}

/// Whatever differs between what two sides tell about how they can be reached also differs
/// in the JSON text: no ability, no hint and no order among them is lost. Of a priority this
/// holds of its text, which is all that JSON has of it: numbers that are not finite are all
/// `null`. The texts are those of numbers, as they are in every `TransitType`.
pub proof fn law_transit_json_unambiguous(a: TransitTypeView, b: TransitTypeView)
    requires
        valid_transit_type(a),
        valid_transit_type(b),
        transit_json(a) == transit_json(b),
    ensures
        a.abilities_v1 == b.abilities_v1,
        same_items(a.hints_v1, b.hints_v1, |m: HintView, n: HintView| same_hint(m, n)),
{
    let l1 = "{\"abilities-v1\":"@;
    let l2 = ",\"hints-v1\":"@;
    let l3 = "}"@;
    let ability = |a: Ability| ability_json(a);
    let any = |a: Ability| true;
    let equal = |a: Ability, b: Ability| a == b;
    let hint = |h: HintView| hint_json(h);
    let valid = |h: HintView| valid_hint(h);
    let same = |m: HintView, n: HintView| same_hint(m, n);
    let aa = json_array(a.abilities_v1.map_values(ability));
    let ab = json_array(b.abilities_v1.map_values(ability));
    let ha = json_array(a.hints_v1.map_values(hint));
    let hb = json_array(b.hints_v1.map_values(hint));
    assert(transit_json(a) =~= l1 + (aa + (l2 + (ha + l3))));
    assert(transit_json(b) =~= l1 + (ab + (l2 + (hb + l3))));
    lemma_strip(l1, aa + (l2 + (ha + l3)), ab + (l2 + (hb + l3)));
    lemma_abilities_self_delimiting();
    lemma_array_cut(
        ability,
        any,
        equal,
        a.abilities_v1,
        b.abilities_v1,
        l2 + (ha + l3),
        l2 + (hb + l3),
    );
    assert forall|i: int| 0 <= i < a.abilities_v1.len() implies a.abilities_v1[i]
        == b.abilities_v1[i] by {
        assert(equal(a.abilities_v1[i], b.abilities_v1[i]));
    }
    assert(a.abilities_v1 =~= b.abilities_v1);
    lemma_strip(l2, ha + l3, hb + l3);
    lemma_hints_self_delimiting();
    lemma_array_cut(hint, valid, same, a.hints_v1, b.hints_v1, l3, l3);
}

/// Messages that tell of other abilities or other hints, or of the same ones in another order,
/// are written differently.
pub proof fn law_message_json_unambiguous(a: TransitType, b: TransitType)
    requires
        valid_transit_type(a@),
        valid_transit_type(b@),
        message_json(PeerMessage::Transit(a)) == message_json(PeerMessage::Transit(b)),
    ensures
        a@.abilities_v1 == b@.abilities_v1,
        same_items(a@.hints_v1, b@.hints_v1, |m: HintView, n: HintView| same_hint(m, n)),
{
    let l1 = "{\"transit\":"@;
    let l2 = "}"@;
    let x = transit_json(a@);
    let y = transit_json(b@);
    assert(message_json(PeerMessage::Transit(a)) =~= l1 + (x + l2));
    assert(message_json(PeerMessage::Transit(b)) =~= l1 + (y + l2));
    lemma_strip(l1, x + l2, y + l2);
    assert(x =~= (x + l2).take((x + l2).len() - l2.len()));
    assert(y =~= (y + l2).take((y + l2).len() - l2.len()));
    law_transit_json_unambiguous(a@, b@);
}

/// Answers that differ are written differently.
pub proof fn law_ack_json_unambiguous(
    ack: Seq<char>,
    sha256: Seq<char>,
    other_ack: Seq<char>,
    other_sha256: Seq<char>,
)
    requires
        ack_json(ack, sha256) == ack_json(other_ack, other_sha256),
    ensures
        ack == other_ack,
        sha256 == other_sha256,
{
    let l1 = "{\"ack\":"@;
    let l2 = ",\"sha256\":"@;
    let l3 = "}"@;
    let u = l2 + (json_string(sha256) + l3);
    let v = l2 + (json_string(other_sha256) + l3);
    assert(ack_json(ack, sha256) =~= l1 + (json_string(ack) + u));
    assert(ack_json(other_ack, other_sha256) =~= l1 + (json_string(other_ack) + v));
    lemma_strip(l1, json_string(ack) + u, json_string(other_ack) + v);
    law_json_string_unambiguous(ack, other_ack, u, v);
    lemma_strip(l2, json_string(sha256) + l3, json_string(other_sha256) + l3);
    law_json_string_unambiguous(sha256, other_sha256, l3, l3);
}

} // verus!
