//! How bytes and numbers are written as text, and text as bytes.
use vstd::prelude::*;
use vstd::utf8::{encode_utf8, is_ascii_chars, is_ascii_chars_encode_utf8};

verus! {

/// The lower-case hexadecimal digit that stands for `n`.
pub open spec fn hex_digit(n: int) -> char
    recommends
        0 <= n < 16,
{
    if n < 10 {
        ('0' as int + n) as char
    } else {
        ('a' as int + n - 10) as char
    }
}

/// `data` in lower-case hexadecimal: two digits for each byte, the high one first.
pub open spec fn hex_text(data: Seq<u8>) -> Seq<char> {
    Seq::new(
        2 * data.len(),
        |i: int|
            if i % 2 == 0 {
                hex_digit(data[i / 2] as int / 16)
            } else {
                hex_digit(data[i / 2] as int % 16)
            },
    )
}

/// Calls `hex::encode`.
///
/// Claimed of it: each byte becomes two digits out of `0123456789abcdef`, the one for the
/// high four bits before the one for the low four bits, in the order of the bytes.
/// Text that would be longer than a `String` can be is left out.
#[verifier::external_body]
pub(crate) fn hex_encode(data: &[u8]) -> (text: String)
    requires
        2 * data@.len() <= isize::MAX,
    ensures
        text@ == hex_text(data@),
{
    hex::encode(data)
}

/// Two byte strings with the same hexadecimal text are the same byte string.
pub proof fn lemma_hex_text_injective(a: Seq<u8>, b: Seq<u8>)
    requires
        hex_text(a) == hex_text(b),
    ensures
        a == b,
{
    assert(hex_text(a).len() == 2 * a.len());
    assert(hex_text(b).len() == 2 * b.len());
    assert forall|i: int| 0 <= i < a.len() implies a[i] == b[i] by {
        let x = a[i] as int;
        let y = b[i] as int;
        assert(hex_text(a)[2 * i] == hex_digit(x / 16));
        assert(hex_text(b)[2 * i] == hex_digit(y / 16));
        assert(hex_text(a)[2 * i + 1] == hex_digit(x % 16));
        assert(hex_text(b)[2 * i + 1] == hex_digit(y % 16));
        lemma_hex_digit_injective(x / 16, y / 16);
        lemma_hex_digit_injective(x % 16, y % 16);
    }
    assert(a =~= b);
}

proof fn lemma_hex_digit_injective(m: int, n: int)
    requires
        0 <= m < 16,
        0 <= n < 16,
        hex_digit(m) == hex_digit(n),
    ensures
        m == n,
{
}

/// Hexadecimal text is ASCII.
pub proof fn lemma_hex_text_ascii(data: Seq<u8>)
    ensures
        is_ascii_chars(hex_text(data)),
{
    assert forall|i: int| 0 <= i < hex_text(data).len() implies '\0' <= #[trigger] hex_text(
        data,
    )[i] <= '\u{7f}' by {
        let b = data[i / 2] as int;
        assert(0 <= b / 16 < 16);
        assert(0 <= b % 16 < 16);
    }
}

/// ASCII text takes one byte for each character.
pub proof fn lemma_ascii_byte_len(s: Seq<char>)
    requires
        is_ascii_chars(s),
    ensures
        encode_utf8(s).len() == s.len(),
{
    is_ascii_chars_encode_utf8(s);
}

/// The digits of `n` in the decimal system.
pub open spec fn decimal(n: nat) -> Seq<char>
    decreases n,
{
    if n < 10 {
        seq![hex_digit(n as int)]
    } else {
        decimal(n / 10).push(hex_digit(n as int % 10))
    }
}

/// The decimal digits of a number are digits.
pub proof fn lemma_decimal_is_digits(n: nat)
    ensures
        decimal(n).len() > 0,
        forall|i: int| 0 <= i < decimal(n).len() ==> '0' <= #[trigger] decimal(n)[i] <= '9',
    decreases n,
{
    if n >= 10 {
        lemma_decimal_is_digits(n / 10);
    }
}

/// Two numbers with the same decimal digits are the same number.
pub proof fn lemma_decimal_injective(m: nat, n: nat)
    requires
        decimal(m) == decimal(n),
    ensures
        m == n,
    decreases m,
{
    lemma_decimal_is_digits(m / 10);
    lemma_decimal_is_digits(n / 10);
    assert(decimal(m).last() == hex_digit(m as int % 10));
    assert(decimal(n).last() == hex_digit(n as int % 10));
    if m >= 10 && n >= 10 {
        assert(decimal(m).drop_last() =~= decimal(m / 10));
        assert(decimal(n).drop_last() =~= decimal(n / 10));
        lemma_decimal_injective(m / 10, n / 10);
    }
}

/// One digit.
fn digit_text(n: u16) -> (text: &'static str)
    requires
        n < 16,
    ensures
        text@ == seq![hex_digit(n as int)],
{
    proof {
        reveal_strlit("0");
        reveal_strlit("1");
        reveal_strlit("2");
        reveal_strlit("3");
        reveal_strlit("4");
        reveal_strlit("5");
        reveal_strlit("6");
        reveal_strlit("7");
        reveal_strlit("8");
        reveal_strlit("9");
        reveal_strlit("a");
        reveal_strlit("b");
        reveal_strlit("c");
        reveal_strlit("d");
        reveal_strlit("e");
        reveal_strlit("f");
    }
    match n {
        0 => "0",
        1 => "1",
        2 => "2",
        3 => "3",
        4 => "4",
        5 => "5",
        6 => "6",
        7 => "7",
        8 => "8",
        9 => "9",
        10 => "a",
        11 => "b",
        12 => "c",
        13 => "d",
        14 => "e",
        _ => "f",
    }
}

/// Writes `n` in the decimal system.
pub fn decimal_text(n: u16) -> (text: String)
    ensures
        text@ == decimal(n as nat),
    decreases n,
{
    if n < 10 {
        digit_text(n).to_owned()
    } else {
        let text = decimal_text(n / 10).concat(digit_text(n % 10));
        assert(text@ =~= decimal(n as nat));
        text
    }
}

/// The characters of `s`.
pub(crate) fn chars_of(s: &str) -> (chars: Vec<char>)
    ensures
        chars@ == s@,
{
    let mut chars: Vec<char> = Vec::new();
    for c in it: s.chars()
        invariant
            it.seq() == s@,
            chars@ == it.seq().take(it.index()),
    {
        chars.push(c);
        assert(chars@ =~= it.seq().take(it.index() + 1));
    }
    assert(chars@ =~= s@);
    chars
}

/// How JSON writes one character inside a string.
pub open spec fn json_escape(c: char) -> Seq<char> {
    if c == '"' {
        seq!['\\', '"']
    } else if c == '\\' {
        seq!['\\', '\\']
    } else if c == '\u{8}' {
        seq!['\\', 'b']
    } else if c == '\t' {
        seq!['\\', 't']
    } else if c == '\n' {
        seq!['\\', 'n']
    } else if c == '\u{c}' {
        seq!['\\', 'f']
    } else if c == '\r' {
        seq!['\\', 'r']
    } else if (c as int) < 32 {
        seq!['\\', 'u', '0', '0', hex_digit(c as int / 16), hex_digit(c as int % 16)]
    } else {
        seq![c]
    }
}

/// How JSON writes the characters of `s` inside a string.
pub open spec fn json_escaped(s: Seq<char>) -> Seq<char> {
    s.flat_map(|c: char| json_escape(c))
}

/// How JSON writes the string `s`.
pub open spec fn json_string(s: Seq<char>) -> Seq<char> {
    "\""@ + json_escaped(s) + "\""@
}

/// The escape for `c`, if JSON does not write it as it is.
fn escape_text(c: char) -> (text: Option<String>)
    ensures
        match text {
            Some(t) => t@ == json_escape(c),
            None => json_escape(c) == seq![c],
        },
{
    proof {
        reveal_strlit("\\\"");
        reveal_strlit("\\\\");
        reveal_strlit("\\b");
        reveal_strlit("\\t");
        reveal_strlit("\\n");
        reveal_strlit("\\f");
        reveal_strlit("\\r");
        reveal_strlit("\\u00");
    }
    let text = if c == '"' {
        "\\\"".to_owned()
    } else if c == '\\' {
        "\\\\".to_owned()
    } else if c == '\u{8}' {
        "\\b".to_owned()
    } else if c == '\t' {
        "\\t".to_owned()
    } else if c == '\n' {
        "\\n".to_owned()
    } else if c == '\u{c}' {
        "\\f".to_owned()
    } else if c == '\r' {
        "\\r".to_owned()
    } else if (c as u32) < 32 {
        let code: u16 = c as u16;
        "\\u00".to_owned().concat(digit_text(code / 16)).concat(digit_text(code % 16))
    } else {
        return None;
    };
    assert(text@ =~= json_escape(c));
    Some(text)
}

/// Writes `s` as a JSON string.
pub fn json_string_text(s: &str) -> (text: String)
    ensures
        text@ == json_string(s@),
{
    let chars = chars_of(s);
    let ghost each = |c: char| json_escape(c);
    let mut text = "\"".to_owned();
    let mut start: usize = 0;
    let mut i: usize = 0;
    assert(s@.take(0).map_values(each) =~= seq![]);
    assert(text@ + s@.subrange(0, 0) =~= "\""@ + s@.take(0).flat_map(each));
    while i < chars.len()
        invariant
            start <= i <= chars@.len(),
            chars@ == s@,
            each == (|c: char| json_escape(c)),
            text@ + s@.subrange(start as int, i as int) == "\""@ + s@.take(i as int).flat_map(
                each,
            ),
        decreases chars@.len() - i,
    {
        let ghost before = text@;
        proof {
            s@.lemma_flat_map_take_append(each, i as int);
        }
        match escape_text(chars[i]) {
            Some(escape) => {
                text.append(s.substring_char(start, i));
                text.append(escape.as_str());
                assert(s@.subrange(i + 1, i + 1) =~= seq![]);
                assert(text@ + s@.subrange(i + 1, i + 1) =~= (before + s@.subrange(
                    start as int,
                    i as int,
                )) + escape@);
                assert(text@ + s@.subrange(i + 1, i + 1) =~= "\""@ + (s@.take(i as int).flat_map(
                    each,
                ) + escape@));
                start = i + 1;
            },
            None => {
                assert(text@ + s@.subrange(start as int, i + 1) =~= (before + s@.subrange(
                    start as int,
                    i as int,
                )).push(s@[i as int]));
                assert(text@ + s@.subrange(start as int, i + 1) =~= "\""@ + (s@.take(
                    i as int,
                ).flat_map(each) + seq![s@[i as int]]));
            },
        }
        i = i + 1;
    }
    assert(s@.take(i as int) =~= s@);
    text.append(s.substring_char(start, i));
    text.append("\"");
    text
}

} // verus!
