//! A text field that is meant to hold a whole number.
//!
//! A text is a number when it is an optional sign, `+` or `-`, followed by
//! decimal digits and nothing else, and when the number fits in an `i32`.
//! Anything else is turned down with the reason.

use vstd::prelude::*;
use vstd::std_specs::iter::IteratorSpec;

verus! {

/// Why a text is not a number.
#[derive(Clone, Copy, Debug, PartialEq, Eq)]
pub enum ParseError {
    /// The text is empty.
    Empty,
    /// The text holds something that is not a digit where a digit must stand,
    /// or a sign with nothing behind it.
    InvalidDigit,
    /// The digits stand for a number above `i32::MAX`.
    PosOverflow,
    /// The digits stand for a number below `i32::MIN`.
    NegOverflow,
}

/// Whether `c` is one of the ten decimal digits.
pub open spec fn is_digit(c: char) -> bool {
    '0' <= c <= '9'
}

/// The number that a string of digits stands for, read in base ten.
pub open spec fn digits_value(s: Seq<char>) -> int
    decreases s.len(),
{
    if s.len() == 0 {
        0
    } else {
        10 * digits_value(s.drop_last()) + (s.last() as int - '0' as int)
    }
}

/// How many digits stand at the front of `s` before anything else.
pub open spec fn leading_digits(s: Seq<char>) -> int
    decreases s.len(),
{
    if s.len() == 0 || !is_digit(s[0]) {
        0
    } else {
        1 + leading_digits(s.drop_first())
    }
}

/// What a text is read as.
///
/// One sign at the front is taken off. The digits that follow, as far as they
/// go, are read as a number with that sign. A number out of range is reported
/// as such even when something else follows the digits; otherwise whatever
/// follows them, or their absence, is an invalid digit.
pub open spec fn parse_spec(s: Seq<char>) -> Result<i32, ParseError> {
    if s.len() == 0 {
        Err(ParseError::Empty)
    } else {
        let negative = s[0] == '-';
        let body = if s[0] == '+' || s[0] == '-' {
            s.drop_first()
        } else {
            s
        };
        let run = body.take(leading_digits(body));
        let value = if negative {
            -digits_value(run)
        } else {
            digits_value(run)
        };
        if body.len() == 0 {
            Err(ParseError::InvalidDigit)
        } else if value > i32::MAX {
            Err(ParseError::PosOverflow)
        } else if value < i32::MIN {
            Err(ParseError::NegOverflow)
        } else if run.len() < body.len() {
            Err(ParseError::InvalidDigit)
        } else {
            Ok(value as i32)
        }
    }
}

/// The sentence that tells a user about `e`.
pub open spec fn message_text(e: ParseError) -> Seq<char> {
    match e {
        ParseError::Empty => "cannot parse integer from empty string"@,
        ParseError::InvalidDigit => "invalid digit found in string"@,
        ParseError::PosOverflow => "number too large to fit in target type"@,
        ParseError::NegOverflow => "number too small to fit in target type"@,
    }
}

impl ParseError {
    /// The sentence that tells a user about this error.
    pub fn message(&self) -> (text: &'static str)
        ensures
            text@ == message_text(*self),
    {
        match self {
            ParseError::Empty => "cannot parse integer from empty string",
            ParseError::InvalidDigit => "invalid digit found in string",
            ParseError::PosOverflow => "number too large to fit in target type",
            ParseError::NegOverflow => "number too small to fit in target type",
        }
    }
}

/// Reads `text` as an `i32`, in one pass over its characters.
#[verifier::loop_isolation(false)]
pub fn parse_i32(text: &str) -> (r: Result<i32, ParseError>)
    ensures
        r == parse_spec(text@),
{
    let mut chars = text.chars();
    let first: char = match chars.next() {
        None => {
            return Err(ParseError::Empty);
        },
        Some(c) => c,
    };
    let negative: bool = first == '-';
    let signed: bool = first == '+' || first == '-';
    let ghost body: Seq<char> = if signed {
        text@.drop_first()
    } else {
        text@
    };
    let mut next: Option<char> = if signed {
        chars.next()
    } else {
        Some(first)
    };
    if next.is_none() {
        return Err(ParseError::InvalidDigit);
    }
    let mut acc: i32 = 0;
    let ghost mut seen: int = 0;
    loop
        invariant
            0 <= seen <= body.len(),
            chars.obeys_prophetic_iter_laws(),
            match next {
                Some(c) => seen < body.len() && c == body[seen] && chars.remaining()
                    == body.subrange(seen + 1, body.len() as int),
                None => seen == body.len(),
            },
            forall|k: int| 0 <= k < seen ==> is_digit(#[trigger] body[k]),
            acc == if negative {
                -digits_value(body.take(seen))
            } else {
                digits_value(body.take(seen))
            },
        decreases body.len() - seen,
    {
        let c: char = match next {
            None => {
                proof {
                    lemma_leading_digits(body, seen);
                }
                return Ok(acc);
            },
            Some(c) => c,
        };
        if !(c >= '0' && c <= '9') {
            proof {
                lemma_leading_digits(body, seen);
            }
            return Err(ParseError::InvalidDigit);
        }
        let digit: i64 = (c as u32 - '0' as u32) as i64;
        let wide: i64 = if negative {
            acc as i64 * 10 - digit
        } else {
            acc as i64 * 10 + digit
        };
        proof {
            assert(body.take(seen + 1).drop_last() == body.take(seen));
        }
        if wide > i32::MAX as i64 || wide < i32::MIN as i64 {
            proof {
                lemma_leading_digits_at_least(body, seen + 1);
                lemma_digits_value_grows(body.take(leading_digits(body)), seen + 1);
                assert(body.take(leading_digits(body)).take(seen + 1) == body.take(seen + 1));
            }
            if negative {
                return Err(ParseError::NegOverflow);
            } else {
                return Err(ParseError::PosOverflow);
            }
        }
        acc = wide as i32;
        next = chars.next();
        proof {
            if seen + 1 < body.len() {
                assert(body.subrange(seen + 1, body.len() as int).drop_first() == body.subrange(
                    seen + 2,
                    body.len() as int,
                ));
            }
            seen = seen + 1;
        }
    }
}

/// The state of a numeric input: what the text last typed into it was read as.
#[derive(Clone, Copy, Debug, PartialEq, Eq)]
pub struct NumericInput {
    value: Result<i32, ParseError>,
}

impl View for NumericInput {
    type V = Result<i32, ParseError>;

    closed spec fn view(&self) -> Result<i32, ParseError> {
        self.value
    }
}

impl NumericInput {
    /// An input that nothing was typed into yet: it holds the number zero.
    pub fn new() -> (input: Self)
        ensures
            input@ == Ok::<i32, ParseError>(0),
    {
        NumericInput { value: Ok(0) }
    }

    /// The field's text changed to `text`: the input now holds what that text
    /// is read as, whatever it held before.
    pub fn on_input(&mut self, text: &str)
        ensures
            final(self)@ == parse_spec(text@),
    {
        self.value = parse_i32(text);
    }

    /// The number that was entered, or why the text is none.
    pub fn value(&self) -> (value: Result<i32, ParseError>)
        ensures
            value == self@,
    {
        self.value
    }
}

/// Where the first `k` characters of `s` are digits and the next one, if there
/// is one, is none, the digits at the front of `s` are exactly those `k`.
proof fn lemma_leading_digits(s: Seq<char>, k: int)
    requires
        0 <= k <= s.len(),
        forall|j: int| 0 <= j < k ==> is_digit(#[trigger] s[j]),
        k < s.len() ==> !is_digit(s[k]),
    ensures
        leading_digits(s) == k,
    decreases k,
{
    if k > 0 {
        let rest = s.drop_first();
        lemma_leading_digits(rest, k - 1);
    }
}

/// Where the first `k` characters of `s` are digits, at least `k` digits
/// stand at its front, and no more than it has characters.
proof fn lemma_leading_digits_at_least(s: Seq<char>, k: int)
    requires
        0 <= k <= s.len(),
        forall|j: int| 0 <= j < k ==> is_digit(#[trigger] s[j]),
    ensures
        k <= leading_digits(s) <= s.len(),
        forall|j: int| 0 <= j < leading_digits(s) ==> is_digit(#[trigger] s[j]),
    decreases s.len(),
{
    if s.len() > 0 && is_digit(s[0]) {
        let rest = s.drop_first();
        let below = if k > 0 {
            k - 1
        } else {
            0
        };
        lemma_leading_digits_at_least(rest, below);
        assert forall|j: int| 0 <= j < leading_digits(s) implies is_digit(#[trigger] s[j]) by {
            if j > 0 {
                assert(s[j] == rest[j - 1]);
            }
        }
    }
}

/// A string of digits stands for a number that is not negative.
proof fn lemma_digits_value_bounds(s: Seq<char>)
    requires
        forall|j: int| 0 <= j < s.len() ==> is_digit(#[trigger] s[j]),
    ensures
        digits_value(s) >= 0,
    decreases s.len(),
{
    if s.len() > 0 {
        lemma_digits_value_bounds(s.drop_last());
    }
}

/// A string of digits stands for a number no smaller than any of its
/// beginnings does.
proof fn lemma_digits_value_grows(s: Seq<char>, k: int)
    requires
        0 <= k <= s.len(),
        forall|j: int| 0 <= j < s.len() ==> is_digit(#[trigger] s[j]),
    ensures
        0 <= digits_value(s.take(k)) <= digits_value(s),
    decreases s.len(),
{
    if k == s.len() {
        assert(s.take(k) == s);
        lemma_digits_value_bounds(s);
    } else {
        let shorter = s.drop_last();
        lemma_digits_value_grows(shorter, k);
        assert(shorter.take(k) == s.take(k));
    }
}

} // verus!
