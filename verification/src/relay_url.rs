//! The URL of a relay.
use crate::text::{chars_of, decimal, hex_digit};
use std::str::FromStr;
use vstd::prelude::*;

verus! {

/// A relay that both sides can connect to.
pub struct RelayUrl {
    pub host: String,
    pub port: u16,
}

/// The pieces of `s` between the occurrences of `separator`.
pub open spec fn split(s: Seq<char>, separator: char) -> Seq<Seq<char>>
    decreases s.len(),
{
    if s.len() == 0 {
        seq![seq![]]
    } else {
        let pieces = split(s.drop_last(), separator);
        if s.last() == separator {
            pieces.push(seq![])
        } else {
            pieces.drop_last().push(pieces.last().push(s.last()))
        }
    }
}

/// A decimal digit.
pub open spec fn is_digit(c: char) -> bool {
    '0' <= c <= '9'
}

/// Only decimal digits.
pub open spec fn all_digits(s: Seq<char>) -> bool {
    forall|i: int| 0 <= i < s.len() ==> is_digit(#[trigger] s[i])
}

/// The number that a string of decimal digits stands for.
pub open spec fn digits_value(digits: Seq<char>) -> nat
    decreases digits.len(),
{
    if digits.len() == 0 {
        0
    } else {
        10 * digits_value(digits.drop_last()) + (digits.last() as nat - '0' as nat) as nat
    }
}

/// The port that `text` stands for: decimal digits, of which there is at least one, after a
/// plus sign or none; their number is at most 65535.
pub open spec fn port_value(text: Seq<char>) -> Option<u16> {
    let digits = if text.len() > 0 && text[0] == '+' {
        text.drop_first()
    } else {
        text
    };
    if digits.len() > 0 && all_digits(digits) && digits_value(digits) <= u16::MAX {
        Some(digits_value(digits) as u16)
    } else {
        None
    }
}

/// The host and the port in a URL of the form `tcp:host:port`, or what is wrong with it.
pub open spec fn parsed_url(url: Seq<char>) -> Result<(Seq<char>, u16), Seq<char>> {
    let pieces = split(url, ':');
    if pieces.len() == 3 && pieces[0] == "tcp"@ {
        match port_value(pieces[2]) {
            Some(port) => Ok((pieces[1], port)),
            None => Err("Cannot parse relay url port"@),
        }
    } else {
        Err("Incorrect relay server url format"@)
    }
}

impl FromStr for RelayUrl {
    type Err = &'static str;

    /// Reads a URL of the form `tcp:host:port`.
    fn from_str(url: &str) -> (relay: Result<Self, &'static str>)
        ensures
            match relay {
                Ok(r) => parsed_url(url@) == Ok::<(Seq<char>, u16), Seq<char>>((r.host@, r.port)),
                Err(e) => parsed_url(url@) == Err::<(Seq<char>, u16), Seq<char>>(e@),
            },
    {
        let pieces = split_text(url, ':');
        let ghost views = pieces@.map_values(|piece: String| piece@);
        if pieces.len() == 3 && pieces[0] == "tcp".to_owned() {
            assert(views[0] == pieces@[0]@);
            assert(views[1] == pieces@[1]@);
            assert(views[2] == pieces@[2]@);
            match parse_port(pieces[2].as_str()) {
                Some(port) => Ok(RelayUrl { host: pieces[1].clone(), port }),
                None => Err("Cannot parse relay url port"),
            }
        } else {
            assert(views.len() == 3 ==> views[0] == pieces@[0]@);
            Err("Incorrect relay server url format")
        }
    }
}

/// Splits `s` at each `separator`.
fn split_text(s: &str, separator: char) -> (pieces: Vec<String>)
    ensures
        pieces@.map_values(|piece: String| piece@) == split(s@, separator),
{
    let chars = chars_of(s);
    let mut pieces: Vec<String> = Vec::new();
    let mut start: usize = 0;
    let mut i: usize = 0;
    assert(s@.subrange(0, 0) =~= seq![]);
    assert(pieces@.map_values(|piece: String| piece@).push(s@.subrange(0, 0)) =~= split(
        s@.take(0),
        separator,
    ));
    while i < chars.len()
        invariant
            start <= i <= chars@.len(),
            chars@ == s@,
            pieces@.map_values(|piece: String| piece@).push(s@.subrange(start as int, i as int))
                == split(s@.take(i as int), separator),
        decreases chars@.len() - i,
    {
        let ghost before = pieces@.map_values(|piece: String| piece@);
        assert(s@.take(i + 1).drop_last() =~= s@.take(i as int));
        if chars[i] == separator {
            let piece = s.substring_char(start, i);
            pieces.push(piece.to_owned());
            start = i + 1;
            assert(pieces@.map_values(|piece: String| piece@) =~= before.push(piece@));
            assert(s@.subrange(start as int, i + 1) =~= seq![]);
        } else {
            let ghost all = before.push(s@.subrange(start as int, i as int));
            assert(all.drop_last() =~= before);
            assert(s@.subrange(start as int, i + 1) =~= s@.subrange(start as int, i as int).push(
                s@[i as int],
            ));
        }
        i = i + 1;
    }
    let ghost before = pieces@.map_values(|piece: String| piece@);
    let piece = s.substring_char(start, chars.len());
    pieces.push(piece.to_owned());
    assert(s@.take(i as int) =~= s@);
    assert(pieces@.map_values(|piece: String| piece@) =~= before.push(piece@));
    pieces
}

/// Reads a port.
fn parse_port(text: &str) -> (port: Option<u16>)
    ensures
        port == port_value(text@),
{
    let chars = chars_of(text);
    let start: usize = if chars.len() > 0 && chars[0] == '+' {
        1
    } else {
        0
    };
    let ghost digits = if text@.len() > 0 && text@[0] == '+' {
        text@.drop_first()
    } else {
        text@
    };
    assert(digits =~= text@.skip(start as int));
    if chars.len() == start {
        return None;
    }
    let mut value: u32 = 0;
    let mut i: usize = start;
    while i < chars.len()
        invariant
            start <= i <= chars@.len(),
            chars@ == text@,
            digits == text@.skip(start as int),
            digits == (if text@.len() > 0 && text@[0] == '+' {
                text@.drop_first()
            } else {
                text@
            }),
            value <= u16::MAX,
            value == digits_value(digits.take(i - start)),
            forall|j: int| 0 <= j < i - start ==> is_digit(#[trigger] digits[j]),
        decreases chars@.len() - i,
    {
        let c = chars[i];
        assert(digits[i - start] == c);
        if !('0' <= c && c <= '9') {
            assert(!is_digit(digits[i - start]));
            return None;
        }
        assert(digits.take(i - start + 1).drop_last() =~= digits.take(i - start));
        value = 10 * value + (c as u32 - '0' as u32);
        assert(value == digits_value(digits.take(i - start + 1)));
        if value > 65535 {
            proof {
                lemma_digits_value_grows(digits, i - start + 1);
            }
            return None;
        }
        i = i + 1;
    }
    assert(digits.take(i - start) =~= digits);
    Some(value as u16)
}

/// More digits do not make a number smaller.
proof fn lemma_digits_value_grows(digits: Seq<char>, n: int)
    requires
        0 <= n <= digits.len(),
    ensures
        digits_value(digits.take(n)) <= digits_value(digits),
    decreases digits.len() - n,
{
    if n == digits.len() {
        assert(digits.take(n) =~= digits);
    } else {
        assert(digits.take(n + 1).drop_last() =~= digits.take(n));
        lemma_digits_value_grows(digits, n + 1);
    }
}

/// A piece without the separator in it is not split.
pub proof fn lemma_split_whole(s: Seq<char>, separator: char)
    requires
        forall|i: int| 0 <= i < s.len() ==> #[trigger] s[i] != separator,
    ensures
        split(s, separator) == seq![s],
    decreases s.len(),
{
    if s.len() > 0 {
        lemma_split_whole(s.drop_last(), separator);
        assert(s.drop_last().push(s.last()) =~= s);
        assert(split(s, separator) =~= seq![s]);
    } else {
        assert(s =~= seq![]);
    }
}

/// A separator divides the pieces before it from those after it.
pub proof fn lemma_split_at(a: Seq<char>, b: Seq<char>, separator: char)
    ensures
        split(a.push(separator) + b, separator) == split(a, separator) + split(b, separator),
        split(b, separator).len() > 0,
    decreases b.len(),
{
    let s = a.push(separator) + b;
    if b.len() == 0 {
        assert(s =~= a.push(separator));
        assert(s.drop_last() =~= a);
        assert(split(s, separator) =~= split(a, separator) + split(b, separator));
    } else {
        let pieces = split(b.drop_last(), separator);
        lemma_split_at(a, b.drop_last(), separator);
        assert(s.drop_last() =~= a.push(separator) + b.drop_last());
        assert((split(a, separator) + pieces).drop_last() =~= split(a, separator)
            + pieces.drop_last());
        assert(split(s, separator) =~= split(a, separator) + split(b, separator));
    }
}

/// The decimal digits of a number stand for that number.
proof fn lemma_decimal_value(n: nat)
    ensures
        decimal(n).len() > 0,
        all_digits(decimal(n)),
        digits_value(decimal(n)) == n,
    decreases n,
{
    reveal_with_fuel(digits_value, 2);
    let last = hex_digit(n as int % 10);
    if n < 10 {
        assert(decimal(n).drop_last() =~= seq![]);
    } else {
        lemma_decimal_value(n / 10);
        assert(decimal(n).drop_last() =~= decimal(n / 10));
    }
    assert(is_digit(last));
    assert(decimal(n).last() == last);
    assert(last as nat - '0' as nat == n % 10);
}

/// A host and a port that are written as a URL are read from it unchanged. This leaves out a
/// host with a colon in it, such as an IPv6 address, which a URL of this form cannot hold.
pub proof fn law_relay_url_round_trip(host: Seq<char>, port: u16)
    requires
        forall|i: int| 0 <= i < host.len() ==> #[trigger] host[i] != ':',
    ensures
        parsed_url("tcp:"@ + host + ":"@ + decimal(port as nat)) == Ok::<
            (Seq<char>, u16),
            Seq<char>,
        >((host, port)),
{
    let digits = decimal(port as nat);
    let url = "tcp:"@ + host + ":"@ + digits;
    reveal_strlit("tcp:");
    reveal_strlit("tcp");
    reveal_strlit(":");
    lemma_decimal_value(port as nat);
    assert forall|i: int| 0 <= i < digits.len() implies #[trigger] digits[i] != ':' by {
        assert(is_digit(digits[i]));
    }
    lemma_split_whole("tcp"@, ':');
    lemma_split_whole(host, ':');
    lemma_split_whole(digits, ':');
    let tail = host.push(':') + digits;
    lemma_split_at(host, digits, ':');
    lemma_split_at("tcp"@, tail, ':');
    assert(url =~= "tcp"@.push(':') + tail);
    assert(split(url, ':') =~= seq!["tcp"@, host, digits]);
    assert(is_digit(digits[0]));
}

} // verus!
