//! Numbers as text: the decimal notation of an integer, and the integer that
//! a decimal literal denotes.

use vstd::prelude::*;
use vstd::string::*;

verus! {

/// The character of a decimal digit.
pub open spec fn digit_text(d: int) -> Seq<char> {
    if d == 0 {
        "0"@
    } else if d == 1 {
        "1"@
    } else if d == 2 {
        "2"@
    } else if d == 3 {
        "3"@
    } else if d == 4 {
        "4"@
    } else if d == 5 {
        "5"@
    } else if d == 6 {
        "6"@
    } else if d == 7 {
        "7"@
    } else if d == 8 {
        "8"@
    } else {
        "9"@
    }
}

/// The decimal notation of a natural number, without leading zeros.
pub open spec fn decimal(n: nat) -> Seq<char>
    decreases n,
{
    if n < 10 {
        digit_text(n as int)
    } else {
        decimal(n / 10) + digit_text((n % 10) as int)
    }
}

/// The decimal notation of an integer, with a minus sign if it is negative.
pub open spec fn signed_decimal(i: int) -> Seq<char> {
    if i < 0 {
        "-"@ + decimal((-i) as nat)
    } else {
        decimal(i as nat)
    }
}

/// The notation of a pair of offsets: both in decimal, in parentheses, with
/// a comma and a space between them.
pub open spec fn span_text(span: (nat, nat)) -> Seq<char> {
    "("@ + decimal(span.0) + ", "@ + decimal(span.1) + ")"@
}

fn digit_str(d: usize) -> (r: &'static str)
    requires
        d < 10,
    ensures
        r@ == digit_text(d as int),
{
    if d == 0 {
        "0"
    } else if d == 1 {
        "1"
    } else if d == 2 {
        "2"
    } else if d == 3 {
        "3"
    } else if d == 4 {
        "4"
    } else if d == 5 {
        "5"
    } else if d == 6 {
        "6"
    } else if d == 7 {
        "7"
    } else if d == 8 {
        "8"
    } else {
        "9"
    }
}

/// Writes a number in decimal.
pub fn decimal_string(n: usize) -> (r: String)
    ensures
        r@ == decimal(n as nat),
    decreases n,
{
    if n < 10 {
        String::from_str(digit_str(n))
    } else {
        let mut s = decimal_string(n / 10);
        s.append(digit_str(n % 10));
        s
    }
}

/// Writes an integer in decimal.
pub fn signed_decimal_string(i: isize) -> (r: String)
    ensures
        r@ == signed_decimal(i as int),
{
    if i < 0 {
        let magnitude: usize = ((-(i + 1)) as usize) + 1;
        String::from_str("-").concat(decimal_string(magnitude).as_str())
    } else {
        decimal_string(i as usize)
    }
}

/// Writes a pair of offsets.
pub fn span_string(span: (usize, usize)) -> (r: String)
    ensures
        r@ == span_text((span.0 as nat, span.1 as nat)),
{
    let mut s = String::from_str("(");
    s.append(decimal_string(span.0).as_str());
    s.append(", ");
    s.append(decimal_string(span.1).as_str());
    s.append(")");
    s
}

/// The value of a decimal digit, or `None` for any other character.
pub open spec fn digit_value(c: char) -> Option<int> {
    if '0' <= c && c <= '9' {
        Some(c as int - '0' as int)
    } else {
        None
    }
}

/// Why a text is no integer literal.
pub open spec fn empty_literal() -> Seq<char> {
    "cannot parse integer from empty string"@
}

/// The issue of a character that is no digit.
pub open spec fn invalid_digit() -> Seq<char> {
    "invalid digit found in string"@
}

/// The issue of a value above the range.
pub open spec fn too_large() -> Seq<char> {
    "number too large to fit in target type"@
}

/// The issue of a value below the range.
pub open spec fn too_small() -> Seq<char> {
    "number too small to fit in target type"@
}

/// Reads the digits of `s` from offset `i` on, after the value `acc` of the
/// digits before them. With `negative` the digits count downwards. The first
/// character that is no digit, or the first digit that takes the value out
/// of the range of `isize`, ends the reading with an error.
pub open spec fn read_digits(s: Seq<char>, i: int, acc: int, negative: bool) -> Result<
    int,
    Seq<char>,
>
    decreases s.len() - i,
{
    if i < 0 || i >= s.len() {
        Ok(acc)
    } else {
        match digit_value(s[i]) {
            None => Err(invalid_digit()),
            Some(d) => {
                let next = if negative {
                    acc * 10 - d
                } else {
                    acc * 10 + d
                };
                if next > isize::MAX {
                    Err(too_large())
                } else if next < isize::MIN {
                    Err(too_small())
                } else {
                    read_digits(s, i + 1, next, negative)
                }
            },
        }
    }
}

/// The integer that a text denotes: an optional sign, then at least one
/// decimal digit and nothing else, with a value in the range of `isize`.
pub open spec fn parse_integer(s: Seq<char>) -> Result<int, Seq<char>> {
    if s.len() == 0 {
        Err(empty_literal())
    } else if s[0] == '+' || s[0] == '-' {
        if s.len() == 1 {
            Err(invalid_digit())
        } else {
            read_digits(s, 1, 0, s[0] == '-')
        }
    } else {
        read_digits(s, 0, 0, false)
    }
}

/// The characters of a text, in order.
pub fn chars_of(text: &str) -> (r: Vec<char>)
    ensures
        r@ == text@,
{
    let mut r: Vec<char> = Vec::new();
    for c in it: text.chars()
        invariant
            r@ == it.seq().take(it.index() as int),
            it.seq() == text@,
    {
        r.push(c);
    }
    r
}

fn digit_of(c: char) -> (r: Option<isize>)
    ensures
        match r {
            Some(d) => digit_value(c) == Some(d as int) && 0 <= d <= 9,
            None => digit_value(c) is None,
        },
{
    if '0' <= c && c <= '9' {
        Some((c as u32 - '0' as u32) as isize)
    } else {
        None
    }
}

/// Reads an integer literal.
pub fn parse_integer_text(text: &str) -> (r: Result<isize, String>)
    ensures
        match r {
            Ok(i) => parse_integer(text@) == Ok::<int, Seq<char>>(i as int),
            Err(e) => parse_integer(text@) == Err::<int, Seq<char>>(e@),
        },
{
    let chars = chars_of(text);
    if chars.len() == 0 {
        return Err(String::from_str("cannot parse integer from empty string"));
    }
    let negative = chars[0] == '-';
    let signed = negative || chars[0] == '+';
    if signed && chars.len() == 1 {
        return Err(String::from_str("invalid digit found in string"));
    }
    let mut i: usize = if signed {
        1
    } else {
        0
    };
    let mut acc: isize = 0;
    while i < chars.len()
        invariant
            i <= chars.len(),
            chars@ == text@,
            negative ==> acc <= 0,
            !negative ==> acc >= 0,
            read_digits(chars@, i as int, acc as int, negative) == parse_integer(text@),
        decreases chars.len() - i,
    {
        let d = match digit_of(chars[i]) {
            Some(d) => d,
            None => {
                return Err(String::from_str("invalid digit found in string"));
            },
        };
        let scaled = match acc.checked_mul(10) {
            Some(v) => v,
            None => {
                return Err(
                    if negative {
                        String::from_str("number too small to fit in target type")
                    } else {
                        String::from_str("number too large to fit in target type")
                    },
                );
            },
        };
        let next = if negative {
            scaled.checked_sub(d)
        } else {
            scaled.checked_add(d)
        };
        acc = match next {
            Some(v) => v,
            None => {
                return Err(
                    if negative {
                        String::from_str("number too small to fit in target type")
                    } else {
                        String::from_str("number too large to fit in target type")
                    },
                );
            },
        };
        i += 1;
    }
    Ok(acc)
}

} // verus!
