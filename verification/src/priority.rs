//! How much a host is preferred to others.
//!
//! A priority is a floating-point number. Nothing is computed with it here: it is compared,
//! and written as JSON.
use crate::relay_url::{all_digits, is_digit};
use crate::text::chars_of;
use vstd::prelude::*;

verus! {

/// The bit that negative numbers have and others have not.
pub const SIGN: u32 = 0x8000_0000;

/// The bits of infinity. Less than these, but for the sign, are those of finite numbers.
pub const INFINITY: u32 = 0x7f80_0000;

/// The bits without the sign.
pub open spec fn magnitude(bits: u32) -> int {
    bits as int % SIGN as int
}

/// Whether the sign is that of a negative number.
pub open spec fn is_negative(bits: u32) -> bool {
    bits >= SIGN
}

/// These are the bits of a number that is finite.
pub open spec fn is_finite(bits: u32) -> bool {
    magnitude(bits) < INFINITY
}

/// These are bits that stand for no number.
pub open spec fn is_nan(bits: u32) -> bool {
    magnitude(bits) > INFINITY
}

/// Whether the two are equal as floating-point numbers: zero equals zero whatever the sign,
/// and what stands for no number equals nothing.
pub open spec fn same_number(a: u32, b: u32) -> bool {
    &&& !is_nan(a)
    &&& !is_nan(b)
    &&& a == b || magnitude(a) == 0 && magnitude(b) == 0
}

/// What follows the digits that `s` begins with.
pub open spec fn skip_digits(s: Seq<char>) -> Seq<char>
    decreases s.len(),
{
    if s.len() > 0 && is_digit(s[0]) {
        skip_digits(s.drop_first())
    } else {
        s
    }
}

/// The end of a JSON number after its fraction: nothing, or `e` or `E`, a sign or none, and
/// digits.
pub open spec fn is_exponent(s: Seq<char>) -> bool {
    s.len() > 0 ==> {
        let digits = if s.len() > 1 && (s[1] == '+' || s[1] == '-') {
            s.skip(2)
        } else {
            s.skip(1)
        };
        (s[0] == 'e' || s[0] == 'E') && digits.len() > 0 && all_digits(digits)
    }
}

/// The end of a JSON number after its integer part: a point with digits, or none, and then
/// the exponent.
pub open spec fn is_fraction(s: Seq<char>) -> bool {
    if s.len() > 0 && s[0] == '.' {
        s.len() > 1 && is_digit(s[1]) && is_exponent(skip_digits(s.skip(1)))
    } else {
        is_exponent(s)
    }
}

/// A number as the grammar of JSON has it: a minus sign or none; digits, of which the first is
/// zero only where it is the only one; then the fraction and the exponent.
pub open spec fn is_json_number(text: Seq<char>) -> bool {
    let s = if text.len() > 0 && text[0] == '-' {
        text.skip(1)
    } else {
        text
    };
    &&& s.len() > 0
    &&& is_digit(s[0])
    &&& is_fraction(
        if s[0] == '0' {
            s.skip(1)
        } else {
            skip_digits(s)
        },
    )
}

/// Text that JSON can have for the number with these bits: a number with its sign, or `null`,
/// which JSON has for a number that is not finite.
pub open spec fn is_priority_text(bits: u32, text: Seq<char>) -> bool {
    if is_finite(bits) {
        is_json_number(text) && (is_negative(bits) <==> text[0] == '-')
    } else {
        text == "null"@
    }
}

/// Finds the end of the digits that stand in `chars` from `start` on.
fn digits_end(chars: &Vec<char>, start: usize) -> (end: usize)
    requires
        start <= chars@.len(),
    ensures
        start <= end <= chars@.len(),
        chars@.skip(end as int) == skip_digits(chars@.skip(start as int)),
        end == chars@.len() <==> all_digits(chars@.skip(start as int)),
{
    let ghost s = chars@.skip(start as int);
    let mut end: usize = start;
    while end < chars.len() && '0' <= chars[end] && chars[end] <= '9'
        invariant
            start <= end <= chars@.len(),
            s == chars@.skip(start as int),
            skip_digits(chars@.skip(end as int)) == skip_digits(s),
            forall|i: int| 0 <= i < end - start ==> is_digit(#[trigger] s[i]),
        decreases chars@.len() - end,
    {
        assert(chars@.skip(end as int).drop_first() =~= chars@.skip(end + 1));
        assert(s[end - start] == chars@[end as int]);
        end = end + 1;
    }
    if end < chars.len() {
        assert(s[end - start] == chars@[end as int]);
    }
    end
}

/// Whether what stands in `chars` from `start` on is the end of a number after its fraction.
fn exponent_follows(chars: &Vec<char>, start: usize) -> (follows: bool)
    requires
        start <= chars@.len(),
    ensures
        follows == is_exponent(chars@.skip(start as int)),
{
    let ghost s = chars@.skip(start as int);
    if start == chars.len() {
        return true;
    }
    if chars[start] != 'e' && chars[start] != 'E' {
        return false;
    }
    let signed = start + 1 < chars.len() && (chars[start + 1] == '+' || chars[start + 1] == '-');
    let digits: usize = if signed {
        start + 2
    } else {
        start + 1
    };
    assert(chars@.skip(digits as int) =~= s.skip(digits - start));
    digits < chars.len() && digits_end(chars, digits) == chars.len()
}

/// Whether what stands in `chars` from `start` on is the end of a number after its integer
/// part.
fn fraction_follows(chars: &Vec<char>, start: usize) -> (follows: bool)
    requires
        start <= chars@.len(),
    ensures
        follows == is_fraction(chars@.skip(start as int)),
{
    let ghost s = chars@.skip(start as int);
    if start < chars.len() && chars[start] == '.' {
        if start + 1 < chars.len() && '0' <= chars[start + 1] && chars[start + 1] <= '9' {
            assert(chars@.skip(start + 1) =~= s.skip(1));
            exponent_follows(chars, digits_end(chars, start + 1))
        } else {
            false
        }
    } else {
        exponent_follows(chars, start)
    }
}

/// Whether these are the characters of a JSON number.
fn is_number(chars: &Vec<char>) -> (number: bool)
    ensures
        number == is_json_number(chars@),
{
    let start: usize = if chars.len() > 0 && chars[0] == '-' {
        1
    } else {
        0
    };
    let ghost s = chars@.skip(start as int);
    assert(start == 0 ==> s =~= chars@);
    if start < chars.len() && '0' <= chars[start] && chars[start] <= '9' {
        if chars[start] == '0' {
            assert(chars@.skip(start + 1) =~= s.skip(1));
            fraction_follows(chars, start + 1)
        } else {
            fraction_follows(chars, digits_end(chars, start))
        }
    } else {
        false
    }
}

/// A floating-point number of 32 bits: those bits, with the sign first, then the exponent and
/// then the fraction; and how JSON writes the number.
///
/// That the digits in the text are those of the number is for those to see to who hand both
/// over: no floating-point number is read or written here.
#[derive(Debug)]
pub struct Priority {
    bits: u32,
    text: String,
}

/// The contents of [`Priority`].
pub struct PriorityView {
    pub bits: u32,
    pub text: Seq<char>,
}

impl View for Priority {
    type V = PriorityView;

    closed spec fn view(&self) -> PriorityView {
        PriorityView { bits: self.bits, text: self.text@ }
    }
}

/// The number zero.
pub open spec fn zero_priority() -> PriorityView {
    PriorityView { bits: 0, text: "0.0"@ }
}

impl Priority {
    #[verifier::type_invariant]
    spec fn well_formed(self) -> bool {
        is_priority_text(self.bits, self.text@)
    }

    /// The number with these bits, which JSON writes as `text`, if that can be.
    pub fn new(bits: u32, text: &str) -> (priority: Option<Priority>)
        ensures
            match priority {
                Some(p) => is_priority_text(bits, text@) && p@ == (PriorityView {
                    bits,
                    text: text@,
                }),
                None => !is_priority_text(bits, text@),
            },
    {
        let owned = text.to_owned();
        let matches = if bits % SIGN < INFINITY {
            let chars = chars_of(text);
            is_number(&chars) && (bits >= SIGN) == (chars[0] == '-')
        } else {
            owned == "null".to_owned()
        };
        if matches {
            Some(Priority { bits, text: owned })
        } else {
            None
        }
    }

    /// The number zero.
    pub fn zero() -> (priority: Priority)
        ensures
            priority@ == zero_priority(),
    {
        proof {
            reveal_strlit("0.0");
            let s = "0.0"@;
            assert(s.skip(1).skip(1) =~= seq!['0']);
            assert(skip_digits(seq!['0']) =~= seq![]) by {
                reveal_with_fuel(skip_digits, 2);
                assert(seq!['0'].drop_first() =~= seq![]);
            }
        }
        Priority { bits: 0, text: "0.0".to_owned() }
    }

    /// The bits of the number.
    pub fn to_bits(&self) -> (bits: u32)
        ensures
            bits == self@.bits,
    {
        self.bits
    }

    /// How JSON writes the number.
    pub fn as_str(&self) -> (text: &str)
        ensures
            text@ == self@.text,
            is_priority_text(self@.bits, text@),
    {
        proof {
            use_type_invariant(self);
        }
        self.text.as_str()
    }
}

impl PartialEq for Priority {
    /// Compares the two as floating-point numbers.
    fn eq(&self, other: &Priority) -> (equal: bool) {
        let a = self.bits % SIGN;
        let b = other.bits % SIGN;
        a <= INFINITY && b <= INFINITY && (self.bits == other.bits || a == 0 && b == 0)
    }
}

impl vstd::std_specs::cmp::PartialEqSpecImpl for Priority {
    open spec fn obeys_eq_spec() -> bool {
        true
    }

    open spec fn eq_spec(&self, other: &Priority) -> bool {
        same_number(self@.bits, other@.bits)
    }
}

/// No text of a priority has a comma in it.
pub proof fn lemma_no_comma(bits: u32, text: Seq<char>)
    requires
        is_priority_text(bits, text),
    ensures
        !text.contains(','),
{
    reveal_strlit("null");
    if is_finite(bits) {
        let s = if text[0] == '-' {
            text.skip(1)
        } else {
            text
        };
        let rest = if s[0] == '0' {
            s.skip(1)
        } else {
            skip_digits(s)
        };
        if rest.len() > 0 && rest[0] == '.' {
            let tail = skip_digits(rest.skip(1));
            lemma_exponent_no_comma(tail);
            lemma_skip_digits_no_comma(rest.skip(1));
            lemma_first_no_comma(rest);
        } else {
            lemma_exponent_no_comma(rest);
        }
        if s[0] == '0' {
            lemma_first_no_comma(s);
        } else {
            lemma_skip_digits_no_comma(s);
        }
        if text[0] == '-' {
            lemma_first_no_comma(text);
        }
    }
}

proof fn lemma_first_no_comma(s: Seq<char>)
    requires
        s.len() > 0,
        s[0] != ',',
        !s.skip(1).contains(','),
    ensures
        !s.contains(','),
{
    assert forall|i: int| 0 <= i < s.len() implies s[i] != ',' by {
        if i > 0 {
            assert(s.skip(1)[i - 1] == s[i]);
        }
    }
}

proof fn lemma_skip_digits_no_comma(s: Seq<char>)
    requires
        !skip_digits(s).contains(','),
    ensures
        !s.contains(','),
    decreases s.len(),
{
    if s.len() > 0 && is_digit(s[0]) {
        lemma_skip_digits_no_comma(s.drop_first());
        assert(s.drop_first() =~= s.skip(1));
        lemma_first_no_comma(s);
    }
}

proof fn lemma_exponent_no_comma(s: Seq<char>)
    requires
        is_exponent(s),
    ensures
        !s.contains(','),
{
    if s.len() > 1 && (s[1] == '+' || s[1] == '-') {
        lemma_all_digits_no_comma(s.skip(2));
        assert(s.skip(1).skip(1) =~= s.skip(2));
        lemma_first_no_comma(s.skip(1));
        lemma_first_no_comma(s);
    } else if s.len() > 0 {
        lemma_all_digits_no_comma(s.skip(1));
        lemma_first_no_comma(s);
    }
}

proof fn lemma_all_digits_no_comma(s: Seq<char>)
    requires
        all_digits(s),
    ensures
        !s.contains(','),
{
    assert forall|i: int| 0 <= i < s.len() implies s[i] != ',' by {
        assert(is_digit(s[i]));
    }
}

} // verus!
