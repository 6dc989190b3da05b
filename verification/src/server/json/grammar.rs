//! The grammar of JSON text, as functions from a text and a place in it to
//! what stands there and the place after it.

use vstd::prelude::*;
use crate::server::json::model::JsonValue;
use crate::server::json::model;
use crate::server::text;

verus! {

/// The character `c` stands at place `i` of `s`.
pub open spec fn is_at(s: Seq<char>, i: int, c: char) -> bool {
    0 <= i < s.len() && s[i] == c
}

pub open spec fn is_space(c: char) -> bool {
    c == ' ' || c == '\t' || c == '\n' || c == '\r'
}

pub open spec fn is_digit(c: char) -> bool {
    '0' <= c <= '9'
}

/// The first place from `i` on that holds no white space.
pub open spec fn skip_spaces(s: Seq<char>, i: int) -> int
    decreases s.len() - i,
{
    if 0 <= i < s.len() && is_space(s[i]) {
        skip_spaces(s, i + 1)
    } else {
        i
    }
}

/// The first place from `i` on that holds no digit.
pub open spec fn digits_end(s: Seq<char>, i: int) -> int
    decreases s.len() - i,
{
    if 0 <= i < s.len() && is_digit(s[i]) {
        digits_end(s, i + 1)
    } else {
        i
    }
}

/// The place after the numeral that begins at `i`: an optional minus sign; a
/// zero, or digits that begin with none; optionally a point and digits;
/// optionally an exponent mark, a sign and digits.
pub open spec fn number_end(s: Seq<char>, i: int) -> Option<int> {
    let int_start = if is_at(s, i, '-') {
        i + 1
    } else {
        i
    };
    let int_end = if is_at(s, int_start, '0') {
        int_start + 1
    } else {
        digits_end(s, int_start)
    };
    let frac_end = if is_at(s, int_end, '.') {
        digits_end(s, int_end + 1)
    } else {
        int_end
    };
    let exp_start = if is_at(s, frac_end + 1, '+') || is_at(s, frac_end + 1, '-') {
        frac_end + 2
    } else {
        frac_end + 1
    };
    let exp_end = digits_end(s, exp_start);
    if int_end == int_start {
        None
    } else if is_at(s, int_end, '.') && frac_end == int_end + 1 {
        None
    } else if is_at(s, frac_end, 'e') || is_at(s, frac_end, 'E') {
        if exp_end == exp_start {
            None
        } else {
            Some(exp_end)
        }
    } else {
        Some(frac_end)
    }
}

/// `numeral` is a JSON numeral, whole.
pub open spec fn is_numeral(numeral: Seq<char>) -> bool {
    number_end(numeral, 0) == Some(numeral.len() as int)
}

/// The value of a hexadecimal digit.
pub open spec fn hex_value(c: char) -> Option<int> {
    if '0' <= c <= '9' {
        Some(c as int - '0' as int)
    } else if 'a' <= c <= 'f' {
        Some(c as int - 'a' as int + 10)
    } else if 'A' <= c <= 'F' {
        Some(c as int - 'A' as int + 10)
    } else {
        None
    }
}

/// The number that the four hexadecimal digits at `i` write.
pub open spec fn hex4(s: Seq<char>, i: int) -> Option<int> {
    if 0 <= i && i + 4 <= s.len() {
        match (hex_value(s[i]), hex_value(s[i + 1]), hex_value(s[i + 2]), hex_value(s[i + 3])) {
            (Some(a), Some(b), Some(c), Some(d)) => Some(a * 4096 + b * 256 + c * 16 + d),
            _ => None,
        }
    } else {
        None
    }
}

/// The character that the escape after the backslash before `i` writes, and
/// the place after the escape. A `\u` escape of a high surrogate must be
/// followed by one of a low surrogate; the two write one character.
pub open spec fn parse_escape(s: Seq<char>, i: int) -> Option<(char, int)> {
    if !(0 <= i < s.len()) {
        None
    } else if s[i] == '"' || s[i] == '\\' || s[i] == '/' {
        Some((s[i], i + 1))
    } else if s[i] == 'b' {
        Some(('\u{8}', i + 1))
    } else if s[i] == 'f' {
        Some(('\u{c}', i + 1))
    } else if s[i] == 'n' {
        Some(('\n', i + 1))
    } else if s[i] == 'r' {
        Some(('\r', i + 1))
    } else if s[i] == 't' {
        Some(('\t', i + 1))
    } else if s[i] == 'u' {
        match hex4(s, i + 1) {
            Some(unit) => if 0xD800 <= unit <= 0xDBFF {
                if is_at(s, i + 5, '\\') && is_at(s, i + 6, 'u') {
                    match hex4(s, i + 7) {
                        Some(low) => if 0xDC00 <= low <= 0xDFFF {
                            Some(
                                (
                                    (0x10000 + (unit - 0xD800) * 0x400 + (low - 0xDC00)) as char,
                                    i + 11,
                                ),
                            )
                        } else {
                            None
                        },
                        None => None,
                    }
                } else {
                    None
                }
            } else if 0xDC00 <= unit <= 0xDFFF {
                None
            } else {
                Some((unit as char, i + 5))
            },
            None => None,
        }
    } else {
        None
    }
}

/// The text of the string whose opening quote stands before `i`, and the
/// place after its closing quote.
pub open spec fn parse_string_body(s: Seq<char>, i: int) -> Option<(Seq<char>, int)>
    decreases s.len() - i,
{
    if !(0 <= i < s.len()) {
        None
    } else if s[i] == '"' {
        Some((Seq::empty(), i + 1))
    } else if s[i] == '\\' {
        match parse_escape(s, i + 1) {
            Some((c, j)) => if j > i {
                match parse_string_body(s, j) {
                    Some((rest, end)) => Some((seq![c] + rest, end)),
                    None => None,
                }
            } else {
                None
            },
            None => None,
        }
    } else if (s[i] as u32) < 0x20 {
        None
    } else {
        match parse_string_body(s, i + 1) {
            Some((rest, end)) => Some((seq![s[i]] + rest, end)),
            None => None,
        }
    }
}

/// The word `true` stands at `i`.
pub open spec fn has_true(s: Seq<char>, i: int) -> bool {
    is_at(s, i, 't') && is_at(s, i + 1, 'r') && is_at(s, i + 2, 'u') && is_at(s, i + 3, 'e')
}

/// The word `false` stands at `i`.
pub open spec fn has_false(s: Seq<char>, i: int) -> bool {
    is_at(s, i, 'f') && is_at(s, i + 1, 'a') && is_at(s, i + 2, 'l') && is_at(s, i + 3, 's') && is_at(
        s,
        i + 4,
        'e',
    )
}

/// The word `null` stands at `i`.
pub open spec fn has_null(s: Seq<char>, i: int) -> bool {
    is_at(s, i, 'n') && is_at(s, i + 1, 'u') && is_at(s, i + 2, 'l') && is_at(s, i + 3, 'l')
}

/// The value that begins at `i`, and the place after it.
pub open spec fn parse_value(s: Seq<char>, i: int) -> Option<(JsonValue, int)>
    decreases text::remaining(s, i), 0nat,
{
    if !(0 <= i < s.len()) {
        None
    } else if s[i] == '{' {
        let first = skip_spaces(s, i + 1);
        if is_at(s, first, '}') {
            Some((JsonValue::Object(Seq::empty()), first + 1))
        } else if first > i {
            match parse_members(s, first, Seq::empty()) {
                Some((members, end)) => Some((JsonValue::Object(members), end)),
                None => None,
            }
        } else {
            None
        }
    } else if s[i] == '[' {
        let first = skip_spaces(s, i + 1);
        if is_at(s, first, ']') {
            Some((JsonValue::Array(Seq::empty()), first + 1))
        } else if first > i {
            match parse_elements(s, first, Seq::empty()) {
                Some((items, end)) => Some((JsonValue::Array(items), end)),
                None => None,
            }
        } else {
            None
        }
    } else if s[i] == '"' {
        match parse_string_body(s, i + 1) {
            Some((text, end)) => Some((JsonValue::Text(text), end)),
            None => None,
        }
    } else if has_true(s, i) {
        Some((JsonValue::Boolean(true), i + 4))
    } else if has_false(s, i) {
        Some((JsonValue::Boolean(false), i + 5))
    } else if has_null(s, i) {
        Some((JsonValue::Null, i + 4))
    } else {
        match number_end(s, i) {
            Some(end) => if i <= end <= s.len() {
                Some((JsonValue::Number(s.subrange(i, end)), end))
            } else {
                None
            },
            None => None,
        }
    }
}

/// The elements of an array from the one that begins at `i` to the closing
/// bracket, put after `before`, and the place after the bracket.
pub open spec fn parse_elements(s: Seq<char>, i: int, before: Seq<JsonValue>) -> Option<
    (Seq<JsonValue>, int),
>
    decreases text::remaining(s, i), 1nat,
{
    if !(0 <= i < s.len()) {
        None
    } else {
        match parse_value(s, i) {
            Some((value, end)) => {
                let mark = skip_spaces(s, end);
                let next = skip_spaces(s, mark + 1);
                if is_at(s, mark, ']') {
                    Some((before.push(value), mark + 1))
                } else if is_at(s, mark, ',') && next > i {
                    parse_elements(s, next, before.push(value))
                } else {
                    None
                }
            },
            None => None,
        }
    }
}

/// The members of an object from the one whose key begins at `i` to the
/// closing brace, written into `before` one after the other, and the place
/// after the brace. A key that is written again takes the later value.
pub open spec fn parse_members(s: Seq<char>, i: int, before: Seq<(Seq<char>, JsonValue)>)
    -> Option<(Seq<(Seq<char>, JsonValue)>, int)>
    decreases text::remaining(s, i), 1nat,
{
    if !is_at(s, i, '"') {
        None
    } else {
        match parse_string_body(s, i + 1) {
            Some((key, key_end)) => {
                let colon = skip_spaces(s, key_end);
                let start = skip_spaces(s, colon + 1);
                if is_at(s, colon, ':') && start > i {
                    match parse_value(s, start) {
                        Some((value, end)) => {
                            let mark = skip_spaces(s, end);
                            let next = skip_spaces(s, mark + 1);
                            let members = model::upsert(before, key, value);
                            if is_at(s, mark, '}') {
                                Some((members, mark + 1))
                            } else if is_at(s, mark, ',') && next > i {
                                parse_members(s, next, members)
                            } else {
                                None
                            }
                        },
                        None => None,
                    }
                } else {
                    None
                }
            },
            None => None,
        }
    }
}

/// The value that the whole of `s` writes, white space around it allowed.
pub open spec fn parse_document(s: Seq<char>) -> Option<JsonValue> {
    match parse_value(s, skip_spaces(s, 0)) {
        Some((value, end)) => if skip_spaces(s, end) == s.len() {
            Some(value)
        } else {
            None
        },
        None => None,
    }
}

} // verus!
