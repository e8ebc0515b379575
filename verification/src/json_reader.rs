//! What a reader of JSON makes of a text.
//!
//! The reader takes values, names and strings as the grammar of JSON has them, without space
//! between them. It is for stating what written text means, and is not executed.
use crate::priority_laws::is_number;
use vstd::prelude::*;

verus! {

/// A value that is read from JSON text. The text of a number stands for it.
pub enum Json {
    Null,
    Number(Seq<char>),
    Text(Seq<char>),
    Array(Seq<Json>),
    /// The members with their names, in the order of the text.
    Object(Seq<(Seq<char>, Json)>),
}

/// The number that a hexadecimal digit stands for.
pub open spec fn hex_value(c: char) -> Option<int> {
    if '0' <= c <= '9' {
        Some(c as int - '0' as int)
    } else if 'a' <= c <= 'f' {
        Some(c as int - 'a' as int + 10)
    } else if 'A' <= c <= 'F' {
        Some(c as int - 'A' as int + 10)
    } else {
        None
    }
}

/// The character that four hexadecimal digits stand for.
pub open spec fn read_code(s: Seq<char>) -> Option<char> {
    if s.len() < 4 {
        None
    } else {
        match (hex_value(s[0]), hex_value(s[1]), hex_value(s[2]), hex_value(s[3])) {
            (Some(a), Some(b), Some(c), Some(d)) => {
                let code = ((a * 16 + b) * 16 + c) * 16 + d;
                if 0xd800 <= code <= 0xdfff {
                    None
                } else {
                    Some(code as char)
                }
            },
            _ => None,
        }
    }
}

/// One character of a string that is not its end, and what follows it.
pub open spec fn read_char(s: Seq<char>) -> Option<(char, Seq<char>)> {
    if s.len() == 0 || s[0] == '"' || (s[0] as int) < 32 {
        None
    } else if s[0] != '\\' {
        Some((s[0], s.skip(1)))
    } else if s.len() == 1 {
        None
    } else if s[1] == '"' || s[1] == '\\' || s[1] == '/' {
        Some((s[1], s.skip(2)))
    } else if s[1] == 'b' {
        Some((8u8 as char, s.skip(2)))
    } else if s[1] == 't' {
        Some((9u8 as char, s.skip(2)))
    } else if s[1] == 'n' {
        Some((10u8 as char, s.skip(2)))
    } else if s[1] == 'f' {
        Some((12u8 as char, s.skip(2)))
    } else if s[1] == 'r' {
        Some((13u8 as char, s.skip(2)))
    } else if s[1] == 'u' {
        match read_code(s.skip(2)) {
            Some(c) => Some((c, s.skip(6))),
            None => None,
        }
    } else {
        None
    }
}

/// The string of which `s` begins after the quote, and what follows its closing quote.
pub open spec fn read_text(s: Seq<char>) -> Option<(Seq<char>, Seq<char>)>
    decreases s.len(),
{
    if s.len() > 0 && s[0] == '"' {
        Some((seq![], s.skip(1)))
    } else {
        match read_char(s) {
            Some((c, rest)) => if rest.len() < s.len() {
                match read_text(rest) {
                    Some((more, end)) => Some((seq![c] + more, end)),
                    None => None,
                }
            } else {
                None
            },
            None => None,
        }
    }
}

/// A character that can stand in a number.
pub open spec fn is_number_char(c: char) -> bool {
    '0' <= c <= '9' || c == '-' || c == '+' || c == '.' || c == 'e' || c == 'E'
}

/// How many characters at the beginning of `s` can stand in a number.
pub open spec fn number_length(s: Seq<char>) -> int
    decreases s.len(),
{
    if s.len() > 0 && is_number_char(s[0]) {
        1 + number_length(s.skip(1))
    } else {
        0
    }
}

/// The value that `s` begins with, and what follows it.
pub open spec fn read_value(s: Seq<char>) -> Option<(Json, Seq<char>)>
    decreases s.len(), 0int,
{
    if s.len() == 0 {
        None
    } else if s[0] == '"' {
        match read_text(s.skip(1)) {
            Some((text, rest)) => Some((Json::Text(text), rest)),
            None => None,
        }
    } else if s[0] == '[' {
        if s.len() > 1 && s[1] == ']' {
            Some((Json::Array(seq![]), s.skip(2)))
        } else {
            match read_items(s.skip(1)) {
                Some((items, rest)) => Some((Json::Array(items), rest)),
                None => None,
            }
        }
    } else if s[0] == '{' {
        if s.len() > 1 && s[1] == '}' {
            Some((Json::Object(seq![]), s.skip(2)))
        } else {
            match read_members(s.skip(1)) {
                Some((members, rest)) => Some((Json::Object(members), rest)),
                None => None,
            }
        }
    } else if s[0] == 'n' {
        if s.len() >= 4 && s[1] == 'u' && s[2] == 'l' && s[3] == 'l' {
            Some((Json::Null, s.skip(4)))
        } else {
            None
        }
    } else {
        let n = number_length(s);
        if is_number(s.take(n)) {
            Some((Json::Number(s.take(n)), s.skip(n)))
        } else {
            None
        }
    }
}

/// The items of an array from one of them on, and what follows the closing bracket.
pub open spec fn read_items(s: Seq<char>) -> Option<(Seq<Json>, Seq<char>)>
    decreases s.len(), 1int,
{
    match read_value(s) {
        Some((item, rest)) => if 0 < rest.len() < s.len() && rest[0] == ']' {
            Some((seq![item], rest.skip(1)))
        } else if 0 < rest.len() < s.len() && rest[0] == ',' {
            match read_items(rest.skip(1)) {
                Some((more, end)) => Some((seq![item] + more, end)),
                None => None,
            }
        } else {
            None
        },
        None => None,
    }
}

/// The members of an object from one of them on, and what follows the closing bracket.
pub open spec fn read_members(s: Seq<char>) -> Option<(Seq<(Seq<char>, Json)>, Seq<char>)>
    decreases s.len(), 1int,
{
    if s.len() == 0 || s[0] != '"' {
        None
    } else {
        match read_text(s.skip(1)) {
            Some((name, after)) => if 0 < after.len() < s.len() && after[0] == ':' {
                match read_value(after.skip(1)) {
                    Some((value, rest)) => if 0 < rest.len() < s.len() && rest[0] == '}' {
                        Some((seq![(name, value)], rest.skip(1)))
                    } else if 0 < rest.len() < s.len() && rest[0] == ',' {
                        match read_members(rest.skip(1)) {
                            Some((more, end)) => Some((seq![(name, value)] + more, end)),
                            None => None,
                        }
                    } else {
                        None
                    },
                    None => None,
                }
            } else {
                None
            },
            None => None,
        }
    }
}

/// All of the text is one value, and this is it.
pub open spec fn means(text: Seq<char>, value: Json) -> bool {
    read_value(text) == Some((value, Seq::<char>::empty()))
}

} // verus!
