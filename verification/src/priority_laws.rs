//! When priorities are equal, and which texts they have.
use crate::priority::{
    is_exponent, is_fraction, is_json_number, is_priority_text, same_number, skip_digits,
};
use crate::relay_url::{all_digits, is_digit};
use vstd::prelude::*;

verus! {

/// These are bits that stand for no number: with either sign, those beyond infinity.
pub open spec fn stands_for_no_number(bits: u32) -> bool {
    0x7f80_0000 < bits < 0x8000_0000 || 0xff80_0000 < bits
}

/// Two numbers are equal if and only if they have the same bits or both are zero, with
/// whatever sign; what stands for no number equals nothing, not even itself.
pub proof fn law_same_number(a: u32, b: u32)
    ensures
        same_number(a, b) <==> {
            &&& !stands_for_no_number(a)
            &&& !stands_for_no_number(b)
            &&& a == b || (a == 0 || a == 0x8000_0000) && (b == 0 || b == 0x8000_0000)
        },
{
}

/// At least one decimal digit, and nothing else.
pub open spec fn is_digits(s: Seq<char>) -> bool {
    s.len() > 0 && forall|i: int| 0 <= i < s.len() ==> '0' <= #[trigger] s[i] <= '9'
}

/// The integer part of a number: digits without a zero in front.
pub open spec fn is_integer_part(s: Seq<char>) -> bool {
    is_digits(s) && (s[0] == '0' ==> s.len() == 1)
}

/// The fraction of a number: nothing, or a point and digits.
pub open spec fn is_fraction_part(s: Seq<char>) -> bool {
    s.len() > 0 ==> s[0] == '.' && is_digits(s.skip(1))
}

/// The exponent of a number: nothing, or `e` or `E` and digits, with a sign before them or
/// without.
pub open spec fn is_exponent_part(s: Seq<char>) -> bool {
    s.len() > 0 ==> {
        &&& s[0] == 'e' || s[0] == 'E'
        &&& is_digits(s.skip(1)) || s.len() > 1 && (s[1] == '+' || s[1] == '-') && is_digits(
            s.skip(2),
        )
    }
}

/// The text is an integer part, a fraction and an exponent, with a minus sign before them or
/// without.
pub open spec fn is_made_of(
    text: Seq<char>,
    minus: bool,
    whole: Seq<char>,
    fraction: Seq<char>,
    exponent: Seq<char>,
) -> bool {
    &&& text == (if minus {
        seq!['-']
    } else {
        seq![]
    }) + whole + fraction + exponent
    &&& is_integer_part(whole)
    &&& is_fraction_part(fraction)
    &&& is_exponent_part(exponent)
}

/// A number as JSON has it.
pub open spec fn is_number(text: Seq<char>) -> bool {
    exists|minus: bool, whole: Seq<char>, fraction: Seq<char>, exponent: Seq<char>|
        is_made_of(text, minus, whole, fraction, exponent)
}

/// What follows the digits that `s` begins with is the rest of `s`.
proof fn lemma_skip_digits(s: Seq<char>) -> (digits: Seq<char>)
    ensures
        s == digits + skip_digits(s),
        all_digits(digits),
        s.len() > 0 && is_digit(s[0]) ==> digits.len() > 0 && digits[0] == s[0],
        skip_digits(s).len() > 0 ==> !is_digit(skip_digits(s)[0]),
    decreases s.len(),
{
    if s.len() > 0 && is_digit(s[0]) {
        let more = lemma_skip_digits(s.drop_first());
        let digits = seq![s[0]] + more;
        assert(s =~= seq![s[0]] + s.drop_first());
        assert(seq![s[0]] + (more + skip_digits(s)) =~= digits + skip_digits(s));
        assert forall|i: int| 0 <= i < digits.len() implies is_digit(#[trigger] digits[i]) by {
            if i > 0 {
                assert(is_digit(more[i - 1]));
            }
        }
        digits
    } else {
        assert(s =~= Seq::<char>::empty() + s);
        Seq::empty()
    }
}

/// Digits before something else are skipped.
proof fn lemma_skip_exactly(digits: Seq<char>, rest: Seq<char>)
    requires
        all_digits(digits),
        rest.len() > 0 ==> !is_digit(rest[0]),
    ensures
        skip_digits(digits + rest) == rest,
    decreases digits.len(),
{
    if digits.len() == 0 {
        assert(digits + rest =~= rest);
    } else {
        assert(is_digit(digits[0]));
        assert((digits + rest).drop_first() =~= digits.drop_first() + rest);
        assert forall|i: int| 0 <= i < digits.drop_first().len() implies is_digit(
            #[trigger] digits.drop_first()[i],
        ) by {
            assert(is_digit(digits[i + 1]));
        }
        lemma_skip_exactly(digits.drop_first(), rest);
    }
}

proof fn lemma_digits(s: Seq<char>)
    ensures
        is_digits(s) <==> s.len() > 0 && all_digits(s),
{
    if is_digits(s) {
        assert forall|i: int| 0 <= i < s.len() implies is_digit(#[trigger] s[i]) by {}
    }
    if all_digits(s) {
        assert forall|i: int| 0 <= i < s.len() implies '0' <= #[trigger] s[i] <= '9' by {
            assert(is_digit(s[i]));
        }
    }
}

proof fn lemma_exponent(s: Seq<char>)
    ensures
        is_exponent(s) <==> is_exponent_part(s),
{
    lemma_digits(s.skip(1));
    lemma_digits(s.skip(2));
    if s.len() > 1 && (s[1] == '+' || s[1] == '-') {
        assert(s.skip(1)[0] == s[1]);
    }
}

/// A text is taken for a JSON number if and only if it can be taken apart as the grammar of
/// JSON says.
pub proof fn law_json_number(text: Seq<char>)
    ensures
        is_json_number(text) <==> is_number(text),
{
    if is_json_number(text) {
        let minus = text[0] == '-';
        let sign: Seq<char> = if minus {
            seq!['-']
        } else {
            seq![]
        };
        let s = if minus {
            text.skip(1)
        } else {
            text
        };
        assert(text =~= sign + s);
        let tail = if s[0] == '0' {
            s.skip(1)
        } else {
            skip_digits(s)
        };
        let whole = if s[0] == '0' {
            seq!['0']
        } else {
            lemma_skip_digits(s)
        };
        assert(s =~= whole + tail);
        lemma_digits(whole);
        assert(is_integer_part(whole));
        if tail.len() > 0 && tail[0] == '.' {
            let digits = lemma_skip_digits(tail.skip(1));
            let exponent = skip_digits(tail.skip(1));
            let fraction = seq!['.'] + digits;
            assert(tail =~= seq!['.'] + tail.skip(1));
            assert(seq!['.'] + (digits + exponent) =~= fraction + exponent);
            assert(tail.skip(1)[0] == tail[1]);
            assert(fraction.skip(1) =~= digits);
            lemma_digits(digits);
            lemma_exponent(exponent);
            assert(text =~= sign + whole + fraction + exponent);
            assert(is_made_of(text, minus, whole, fraction, exponent));
        } else {
            lemma_exponent(tail);
            assert(text =~= sign + whole + Seq::<char>::empty() + tail);
            assert(is_made_of(text, minus, whole, Seq::empty(), tail));
        }
    }
    if is_number(text) {
        let (minus, whole, fraction, exponent) = choose|
            minus: bool,
            whole: Seq<char>,
            fraction: Seq<char>,
            exponent: Seq<char>,
        | is_made_of(text, minus, whole, fraction, exponent);
        lemma_taken_apart(text, minus, whole, fraction, exponent);
    }
}

proof fn lemma_taken_apart(
    text: Seq<char>,
    minus: bool,
    whole: Seq<char>,
    fraction: Seq<char>,
    exponent: Seq<char>,
)
    requires
        is_made_of(text, minus, whole, fraction, exponent),
    ensures
        is_json_number(text),
{
    let tail = fraction + exponent;
    let s = whole + tail;
    lemma_digits(whole);
    lemma_exponent(exponent);
    assert('0' <= whole[0] <= '9');
    if minus {
        assert(text[0] == '-');
        assert(text.skip(1) =~= s);
    } else {
        assert(text =~= s);
        assert(text[0] == whole[0]);
    }
    assert(tail.len() > 0 ==> !is_digit(tail[0])) by {
        if fraction.len() > 0 {
            assert(tail[0] == fraction[0]);
        } else {
            assert(tail =~= exponent);
        }
    }
    if s[0] == '0' {
        assert(s.skip(1) =~= tail);
    } else {
        lemma_skip_exactly(whole, tail);
    }
    if fraction.len() > 0 {
        let digits = fraction.skip(1);
        lemma_digits(digits);
        assert(tail[0] == '.');
        assert(tail.skip(1) =~= digits + exponent);
        assert('0' <= digits[0] <= '9');
        assert(tail[1] == digits[0]);
        lemma_skip_exactly(digits, exponent);
    } else {
        assert(tail =~= exponent);
    }
    assert(is_fraction(tail));
}

/// A number that is finite is written as a JSON number, with a minus sign if and only if it
/// has the sign of a negative one; any other is written as `null`.
pub proof fn law_priority_text(bits: u32, text: Seq<char>)
    ensures
        bits < 0x7f80_0000 ==> (is_priority_text(bits, text) <==> is_number(text) && text[0]
            != '-'),
        0x8000_0000 <= bits < 0xff80_0000 ==> (is_priority_text(bits, text) <==> is_number(text)
            && text[0] == '-'),
        0x7f80_0000 <= bits < 0x8000_0000 || 0xff80_0000 <= bits ==> (is_priority_text(bits, text)
            <==> text == seq!['n', 'u', 'l', 'l']),
{
    law_json_number(text);
    reveal_strlit("null");
    assert("null"@ =~= seq!['n', 'u', 'l', 'l']);
}

} // verus!
