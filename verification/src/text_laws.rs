//! What written bytes, numbers and strings look like, character by character.
use crate::text::{decimal, hex_digit, hex_text, json_escape, lemma_decimal_is_digits};
use vstd::prelude::*;

verus! {

/// Each byte is written as two digits, in the order of the bytes: the digit for its high four
/// bits, then the one for its low four bits.
pub proof fn law_hex_text(data: Seq<u8>)
    ensures
        hex_text(data).len() == 2 * data.len(),
        forall|i: int|
            #![trigger data[i]]
            0 <= i < data.len() ==> {
                &&& hex_text(data)[2 * i] == "0123456789abcdef"@[data[i] as int / 16]
                &&& hex_text(data)[2 * i + 1] == "0123456789abcdef"@[data[i] as int % 16]
            },
{
    reveal_strlit("0123456789abcdef");
    assert forall|i: int|
        #![trigger data[i]]
        0 <= i < data.len() implies hex_text(data)[2 * i] == "0123456789abcdef"@[data[i] as int
        / 16] && hex_text(data)[2 * i + 1] == "0123456789abcdef"@[data[i] as int % 16] by {
        lemma_hex_digit(data[i] as int / 16);
        lemma_hex_digit(data[i] as int % 16);
    }
}

proof fn lemma_hex_digit(n: int)
    requires
        0 <= n < 16,
    ensures
        hex_digit(n) == "0123456789abcdef"@[n],
{
    reveal_strlit("0123456789abcdef");
}

/// Different bytes are written differently.
pub proof fn law_hex_text_unambiguous(a: Seq<u8>, b: Seq<u8>)
    requires
        hex_text(a) == hex_text(b),
    ensures
        a == b,
{
    crate::text::lemma_hex_text_injective(a, b);
}

/// The number that is read from digits, the first one first, after `before` was read.
pub open spec fn read_digits(before: int, digits: Seq<char>) -> int
    decreases digits.len(),
{
    if digits.len() == 0 {
        before
    } else {
        read_digits(10 * before + (digits[0] as int - '0' as int), digits.drop_first())
    }
}

/// One more digit at the end.
pub proof fn lemma_read_one_more(before: int, digits: Seq<char>, c: char)
    ensures
        read_digits(before, digits.push(c)) == 10 * read_digits(before, digits) + (c as int
            - '0' as int),
    decreases digits.len(),
{
    let all = digits.push(c);
    if digits.len() == 0 {
        assert(all.drop_first() =~= seq![]);
        reveal_with_fuel(read_digits, 2);
    } else {
        assert(all.drop_first() =~= digits.drop_first().push(c));
        lemma_read_one_more(
            10 * before + (digits[0] as int - '0' as int),
            digits.drop_first(),
            c,
        );
    }
}

/// A number is written with decimal digits alone, without a zero in front, and is read from
/// them again.
pub proof fn law_decimal(n: nat)
    ensures
        decimal(n).len() > 0,
        forall|i: int| 0 <= i < decimal(n).len() ==> '0' <= #[trigger] decimal(n)[i] <= '9',
        decimal(n)[0] == '0' ==> decimal(n).len() == 1,
        read_digits(0, decimal(n)) == n,
    decreases n,
{
    lemma_decimal_is_digits(n);
    if n < 10 {
        reveal_with_fuel(read_digits, 2);
        assert(decimal(n).drop_first() =~= seq![]);
    } else {
        law_decimal(n / 10);
        assert(decimal(n / 10)[0] == decimal(n)[0]);
        if decimal(n / 10).len() == 1 && decimal(n / 10)[0] == '0' {
            reveal_with_fuel(read_digits, 2);
            assert(decimal(n / 10).drop_first() =~= seq![]);
            assert(false);
        }
        lemma_read_one_more(0, decimal(n / 10), hex_digit(n as int % 10));
    }
}

/// Only quotes, backslashes and control characters are escaped. Quotes and backslashes get a
/// backslash in front, five control characters have a letter, and the others their code.
pub proof fn law_json_escape(c: char)
    ensures
        c != '"' && c != '\\' && c as int >= 32 ==> json_escape(c) == seq![c],
        c == '"' || c == '\\' ==> json_escape(c) == seq!['\\', c],
        c as int == 8 ==> json_escape(c) == seq!['\\', 'b'],
        c as int == 9 ==> json_escape(c) == seq!['\\', 't'],
        c as int == 10 ==> json_escape(c) == seq!['\\', 'n'],
        c as int == 12 ==> json_escape(c) == seq!['\\', 'f'],
        c as int == 13 ==> json_escape(c) == seq!['\\', 'r'],
        (c as int) < 8 || c as int == 11 || 14 <= c as int <= 31 ==> json_escape(c) == seq![
            '\\',
            'u',
            '0',
            '0',
            "01"@[c as int / 16],
            "0123456789abcdef"@[c as int % 16],
        ],
{
    reveal_strlit("01");
    reveal_strlit("0123456789abcdef");
    if (c as int) < 32 {
        lemma_hex_digit(c as int % 16);
    }
}

} // verus!
