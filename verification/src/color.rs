//! Parsing of color strings of the shape `(r, g, b)`: an opening
//! parenthesis, then three decimal numbers, each preceded by optional
//! whitespace and separated by commas, then a closing parenthesis.
//! Each number must fit in a byte. Input after the closing parenthesis
//! is ignored.

use vstd::prelude::*;

verus! {

/// ASCII codes used by the color grammar.
pub const SPACE: u8 = 32;

pub const TAB: u8 = 9;

pub const LINE_FEED: u8 = 10;

pub const CARRIAGE_RETURN: u8 = 13;

pub const DIGIT_ZERO: u8 = 48;

pub const DIGIT_NINE: u8 = 57;

pub const LEFT_PAREN: u8 = 40;

pub const RIGHT_PAREN: u8 = 41;

pub const COMMA: u8 = 44;

/// Whitespace accepted before a number: space, tab, line feed, carriage
/// return.
pub open spec fn is_space_byte(b: u8) -> bool {
    b == SPACE || b == TAB || b == LINE_FEED || b == CARRIAGE_RETURN
}

/// An ASCII decimal digit.
pub open spec fn is_digit_byte(b: u8) -> bool {
    DIGIT_ZERO <= b <= DIGIT_NINE
}

/// The first position at or after `i` that does not hold whitespace.
pub open spec fn spec_skip_ws(s: Seq<u8>, i: int) -> int
    decreases s.len() - i,
{
    if i < s.len() && is_space_byte(s[i]) {
        spec_skip_ws(s, i + 1)
    } else {
        i
    }
}

/// The end of the digit run that starts at `i`: the first position at or
/// after `i` that does not hold a digit.
pub open spec fn spec_digits_end(s: Seq<u8>, i: int) -> int
    decreases s.len() - i,
{
    if i < s.len() && is_digit_byte(s[i]) {
        spec_digits_end(s, i + 1)
    } else {
        i
    }
}

/// The decimal value of the digits `s[i..j)`.
pub open spec fn spec_digits_val(s: Seq<u8>, i: int, j: int) -> int
    decreases j - i,
{
    if i >= j {
        0
    } else {
        spec_digits_val(s, i, j - 1) * 10 + (s[j - 1] - DIGIT_ZERO)
    }
}

/// The number parsed at position `i`: optional whitespace, then at least
/// one digit, with a value that fits in a byte. Yields the value and the
/// position after the digits.
pub open spec fn spec_parse_u8(s: Seq<u8>, i: int) -> Option<(int, int)> {
    let start = spec_skip_ws(s, i);
    let end = spec_digits_end(s, start);
    if end > start && spec_digits_val(s, start, end) <= 255 {
        Some((spec_digits_val(s, start, end), end))
    } else {
        None
    }
}

/// The color tuple parsed at position `i`: `(`, three numbers separated
/// by `,`, then `)`. Yields the three byte values and the position after
/// the closing parenthesis.
pub open spec fn spec_parse_color_tuple(s: Seq<u8>, i: int) -> Option<((u8, u8, u8), int)> {
    if i < s.len() && s[i] == LEFT_PAREN {
        match spec_parse_u8(s, i + 1) {
            Some((r, i1)) => if i1 < s.len() && s[i1] == COMMA {
                match spec_parse_u8(s, i1 + 1) {
                    Some((g, i2)) => if i2 < s.len() && s[i2] == COMMA {
                        match spec_parse_u8(s, i2 + 1) {
                            Some((b, i3)) => if i3 < s.len() && s[i3] == RIGHT_PAREN {
                                Some(((r as u8, g as u8, b as u8), i3 + 1))
                            } else {
                                None
                            },
                            None => None,
                        }
                    } else {
                        None
                    },
                    None => None,
                }
            } else {
                None
            },
            None => None,
        }
    } else {
        None
    }
}

/// The color denoted by the whole input, if it starts with a well-formed
/// color tuple; whatever follows the closing parenthesis is ignored.
pub open spec fn spec_parse_color(s: Seq<u8>) -> Option<(u8, u8, u8)> {
    match spec_parse_color_tuple(s, 0) {
        Some((rgb, _)) => Some(rgb),
        None => None,
    }
}

/// Advances past whitespace.
fn skip_ws(s: &[u8], i: usize) -> (j: usize)
    requires
        i <= s@.len(),
    ensures
        j == spec_skip_ws(s@, i as int),
        i <= j <= s@.len(),
{
    let mut j = i;
    while j < s.len() && (s[j] == SPACE || s[j] == TAB || s[j] == LINE_FEED || s[j] == CARRIAGE_RETURN)
        invariant
            i <= j <= s@.len(),
            spec_skip_ws(s@, i as int) == spec_skip_ws(s@, j as int),
        decreases s@.len() - j,
    {
        j += 1;
    }
    j
}

/// Advances past digits.
fn digits_end(s: &[u8], i: usize) -> (j: usize)
    requires
        i <= s@.len(),
    ensures
        j == spec_digits_end(s@, i as int),
        i <= j <= s@.len(),
        forall|k: int| i <= k < j ==> is_digit_byte(#[trigger] s@[k]),
{
    let mut j = i;
    while j < s.len() && DIGIT_ZERO <= s[j] && s[j] <= DIGIT_NINE
        invariant
            i <= j <= s@.len(),
            spec_digits_end(s@, i as int) == spec_digits_end(s@, j as int),
            forall|k: int| i <= k < j ==> is_digit_byte(#[trigger] s@[k]),
        decreases s@.len() - j,
    {
        j += 1;
    }
    j
}

/// Parses one number: optional whitespace, then at least one digit,
/// with a value that fits in a byte. Yields the value and the position
/// after the digits.
pub fn parse_u8(s: &[u8], i: usize) -> (r: Option<(u8, usize)>)
    requires
        i <= s@.len(),
    ensures
        match r {
            Some(v) => spec_parse_u8(s@, i as int) == Some((v.0 as int, v.1 as int)) && i <= v.1
                <= s@.len(),
            None => spec_parse_u8(s@, i as int) is None,
        },
{
    let start = skip_ws(s, i);
    let end = digits_end(s, start);
    if end == start {
        return None;
    }
    let ghost s0 = start as int;
    let mut acc: u16 = 0;
    let mut j = start;
    while j < end
        invariant
            s0 == start as int,
            start <= j <= end <= s@.len(),
            forall|k: int| s0 <= k < end ==> is_digit_byte(#[trigger] s@[k]),
            0 <= acc <= 256,
            spec_digits_val(s@, s0, j as int) <= 255 ==> acc == spec_digits_val(s@, s0, j as int),
            spec_digits_val(s@, s0, j as int) > 255 ==> acc == 256,
        decreases end - j,
    {
        let d = s[j];
        proof {
            assert(is_digit_byte(s@[j as int]));
            lemma_digits_val_nonneg(s@, s0, j as int);
        }
        let mut next: u16 = acc * 10 + (d - DIGIT_ZERO) as u16;
        if next > 255 {
            next = 256;
        }
        proof {
            let sj = s@[j as int];
            assert(spec_digits_val(s@, s0, j + 1) == spec_digits_val(s@, s0, j as int) * 10 + (sj
                - DIGIT_ZERO));
        }
        acc = next;
        j += 1;
    }
    if acc > 255 {
        None
    } else {
        Some((acc as u8, end))
    }
}

/// The value of a digit run is never negative.
proof fn lemma_digits_val_nonneg(s: Seq<u8>, i: int, j: int)
    requires
        forall|k: int| i <= k < j ==> is_digit_byte(#[trigger] s[k]),
    ensures
        spec_digits_val(s, i, j) >= 0,
    decreases j - i,
{
    if i < j {
        lemma_digits_val_nonneg(s, i, j - 1);
    }
}

/// Parses a color tuple `(r, g, b)` at position `i`, yielding the three
/// byte values and the position after the closing parenthesis.
pub fn parse_color_tuple(s: &[u8], i: usize) -> (r: Option<((u8, u8, u8), usize)>)
    requires
        i <= s@.len(),
    ensures
        match r {
            Some(v) => spec_parse_color_tuple(s@, i as int) == Some((v.0, v.1 as int)) && i <= v.1
                <= s@.len(),
            None => spec_parse_color_tuple(s@, i as int) is None,
        },
{
    if i >= s.len() || s[i] != LEFT_PAREN {
        return None;
    }
    let (red, i1) = match parse_u8(s, i + 1) {
        Some(v) => v,
        None => {
            return None;
        },
    };
    if i1 >= s.len() || s[i1] != COMMA {
        return None;
    }
    let (green, i2) = match parse_u8(s, i1 + 1) {
        Some(v) => v,
        None => {
            return None;
        },
    };
    if i2 >= s.len() || s[i2] != COMMA {
        return None;
    }
    let (blue, i3) = match parse_u8(s, i2 + 1) {
        Some(v) => v,
        None => {
            return None;
        },
    };
    if i3 >= s.len() || s[i3] != RIGHT_PAREN {
        return None;
    }
    Some(((red, green, blue), i3 + 1))
}

/// Parses a whole color string: a color tuple, with anything after the
/// closing parenthesis ignored. `None` exactly when the input does not
/// start with a well-formed color tuple.
pub fn parse_color(s: &[u8]) -> (r: Option<(u8, u8, u8)>)
    ensures
        r == spec_parse_color(s@),
{
    match parse_color_tuple(s, 0) {
        Some(v) => Some(v.0),
        None => None,
    }
}

} // verus!
