//! Which texts are the URL of a relay, and what is read from them.
use crate::relay_url::{
    all_digits, digits_value, is_digit, lemma_split_at, lemma_split_whole, parsed_url, port_value,
    split,
};
use crate::text_laws::{lemma_read_one_more, read_digits};
use vstd::prelude::*;

verus! {

/// The pieces in a row, with `separator` between each two.
pub open spec fn joined(pieces: Seq<Seq<char>>, separator: char) -> Seq<char>
    decreases pieces.len(),
{
    if pieces.len() == 0 {
        seq![]
    } else if pieces.len() == 1 {
        pieces[0]
    } else {
        joined(pieces.drop_last(), separator).push(separator) + pieces.last()
    }
}

/// Text that is split is nothing but its pieces, with a separator between each two; and no
/// separator is left in a piece.
pub proof fn law_split(s: Seq<char>, separator: char)
    ensures
        split(s, separator).len() > 0,
        joined(split(s, separator), separator) == s,
        forall|i: int|
            0 <= i < split(s, separator).len() ==> !(#[trigger] split(s, separator)[i]).contains(
                separator,
            ),
    decreases s.len(),
{
    let pieces = split(s, separator);
    if s.len() == 0 {
        assert(pieces[0] =~= s);
    } else {
        let before = split(s.drop_last(), separator);
        law_split(s.drop_last(), separator);
        assert(s =~= s.drop_last().push(s.last()));
        if s.last() == separator {
            assert(pieces.drop_last() =~= before);
            assert(joined(pieces, separator) =~= s);
        } else {
            let last = before.last().push(s.last());
            assert(pieces.drop_last() =~= before.drop_last());
            assert(pieces.last() == last);
            assert(before.last() == before[before.len() - 1]);
            assert forall|i: int| 0 <= i < pieces.len() implies !(
            #[trigger] pieces[i]).contains(separator) by {
                if i < pieces.len() - 1 {
                    assert(pieces[i] == before[i]);
                } else {
                    assert forall|j: int| 0 <= j < last.len() implies last[j] != separator by {
                        if j < last.len() - 1 {
                            assert(before.last()[j] == last[j]);
                            assert(!before.last().contains(separator));
                        }
                    }
                }
            }
            assert(joined(pieces, separator) =~= s);
        }
    }
}

/// The number that is read from digits is the same, from whichever end they are read.
pub proof fn law_digits_value(digits: Seq<char>)
    requires
        forall|i: int| 0 <= i < digits.len() ==> '0' <= #[trigger] digits[i] <= '9',
    ensures
        digits_value(digits) == read_digits(0, digits),
    decreases digits.len(),
{
    if digits.len() > 0 {
        law_digits_value(digits.drop_last());
        lemma_read_one_more(0, digits.drop_last(), digits.last());
        assert(digits =~= digits.drop_last().push(digits.last()));
        assert('0' <= digits[digits.len() - 1] <= '9');
    }
}

/// The text without the plus sign that it may begin with.
pub open spec fn without_plus(text: Seq<char>) -> Seq<char> {
    if text.len() > 0 && text[0] == '+' {
        text.skip(1)
    } else {
        text
    }
}

/// A port is read from a text if and only if the text is at least one decimal digit, after a
/// plus sign or none; it is the number that they stand for, which has to fit.
pub proof fn law_port_value(text: Seq<char>, port: u16)
    ensures
        port_value(text) == Some(port) <==> {
            let digits = without_plus(text);
            &&& digits.len() > 0
            &&& forall|i: int| 0 <= i < digits.len() ==> '0' <= #[trigger] digits[i] <= '9'
            &&& read_digits(0, digits) == port
        },
{
    let digits = without_plus(text);
    assert(text.len() > 0 ==> text.skip(1) =~= text.drop_first());
    if all_digits(digits) {
        assert forall|i: int| 0 <= i < digits.len() implies '0' <= #[trigger] digits[i] <= '9' by {
            assert(is_digit(digits[i]));
        }
        law_digits_value(digits);
    } else {
        let i = choose|i: int| 0 <= i < digits.len() && !is_digit(#[trigger] digits[i]);
        assert(!('0' <= digits[i] <= '9'));
    }
}

/// The URL is `tcp`, the host and the text of the port, with a colon between each two and no
/// other colon.
pub open spec fn is_made_of(url: Seq<char>, host: Seq<char>, port: Seq<char>) -> bool {
    &&& url == "tcp:"@ + host + ":"@ + port
    &&& !host.contains(':')
    &&& !port.contains(':')
}

/// From a URL that is made of a host and the text of a port, that host and that port are read;
/// or it is the port that is wrong.
pub proof fn law_parsed_url(url: Seq<char>, host: Seq<char>, port: Seq<char>)
    requires
        is_made_of(url, host, port),
    ensures
        port_value(port) matches Some(p) ==> parsed_url(url) == Ok::<
            (Seq<char>, u16),
            Seq<char>,
        >((host, p)),
        port_value(port) is None ==> parsed_url(url) == Err::<(Seq<char>, u16), Seq<char>>(
            "Cannot parse relay url port"@,
        ),
{
    reveal_strlit("tcp:");
    reveal_strlit("tcp");
    reveal_strlit(":");
    assert forall|i: int| 0 <= i < host.len() implies #[trigger] host[i] != ':' by {
        assert(host.contains(host[i]));
    }
    assert forall|i: int| 0 <= i < port.len() implies #[trigger] port[i] != ':' by {
        assert(port.contains(port[i]));
    }
    lemma_split_whole("tcp"@, ':');
    lemma_split_whole(host, ':');
    lemma_split_whole(port, ':');
    let tail = host.push(':') + port;
    lemma_split_at(host, port, ':');
    lemma_split_at("tcp"@, tail, ':');
    assert(url =~= "tcp"@.push(':') + tail);
    assert(split(url, ':') =~= seq!["tcp"@, host, port]);
}

/// The form of a URL is wrong if and only if it is made of no host and no text of a port.
pub proof fn law_wrong_format(url: Seq<char>)
    ensures
        parsed_url(url) == Err::<(Seq<char>, u16), Seq<char>>(
            "Incorrect relay server url format"@,
        ) <==> forall|host: Seq<char>, port: Seq<char>| !#[trigger] is_made_of(url, host, port),
{
    reveal_strlit("tcp:");
    reveal_strlit("tcp");
    reveal_strlit(":");
    reveal_strlit("Cannot parse relay url port");
    reveal_strlit("Incorrect relay server url format");
    assert("Cannot parse relay url port"@[0] == 'C');
    assert("Incorrect relay server url format"@[0] == 'I');
    let pieces = split(url, ':');
    law_split(url, ':');
    if pieces.len() == 3 && pieces[0] == "tcp"@ {
        reveal_with_fuel(joined, 3);
        assert(pieces.drop_last().drop_last()[0] == pieces[0]);
        assert(pieces.drop_last().last() == pieces[1]);
        assert(url =~= "tcp:"@ + pieces[1] + ":"@ + pieces[2]);
        assert(is_made_of(url, pieces[1], pieces[2]));
    }
    assert forall|host: Seq<char>, port: Seq<char>| #[trigger] is_made_of(url, host, port) implies
        parsed_url(url) != Err::<(Seq<char>, u16), Seq<char>>(
        "Incorrect relay server url format"@,
    ) by {
        law_parsed_url(url, host, port);
    }
}

} // verus!
