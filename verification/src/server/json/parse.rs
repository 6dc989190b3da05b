//! The parser: it walks the characters of a text and builds the tree that
//! the grammar reads in it.

use vstd::prelude::*;
use vstd::string::*;
use crate::server::json::grammar;
use crate::server::json::model;
use crate::server::json::model::JsonValue;
use crate::server::json::tree::{JsonArray, JsonChild, JsonNumber, JsonObject};
use crate::server::text;

verus! {

/// Whether `c` stands at place `i`.
pub(crate) fn is_at(s: &Vec<char>, i: usize, c: char) -> (r: bool)
    ensures
        r == grammar::is_at(s@, i as int, c),
{
    i < s.len() && s[i] == c
}

/// The first place from `i` on that holds no white space.
pub(crate) fn skip_spaces(s: &Vec<char>, i: usize) -> (r: usize)
    requires
        i <= s.len(),
    ensures
        r == grammar::skip_spaces(s@, i as int),
        i <= r <= s.len(),
{
    let mut j: usize = i;
    while j < s.len() && (s[j] == ' ' || s[j] == '\t' || s[j] == '\n' || s[j] == '\r')
        invariant
            i <= j <= s.len(),
            grammar::skip_spaces(s@, i as int) == grammar::skip_spaces(s@, j as int),
        decreases s.len() - j,
    {
        j += 1;
    }
    j
}

/// The first place from `i` on that holds no digit.
pub(crate) fn digits_end(s: &Vec<char>, i: usize) -> (r: usize)
    requires
        i <= s.len(),
    ensures
        r == grammar::digits_end(s@, i as int),
        i <= r <= s.len(),
{
    let mut j: usize = i;
    while j < s.len() && s[j] >= '0' && s[j] <= '9'
        invariant
            i <= j <= s.len(),
            grammar::digits_end(s@, i as int) == grammar::digits_end(s@, j as int),
        decreases s.len() - j,
    {
        j += 1;
    }
    j
}

/// The place after the numeral that begins at `i`.
pub(crate) fn number_end(s: &Vec<char>, i: usize) -> (r: Option<usize>)
    requires
        i <= s.len(),
    ensures
        match r {
            Some(end) => grammar::number_end(s@, i as int) == Some(end as int) && i < end
                <= s.len(),
            None => grammar::number_end(s@, i as int) is None,
        },
{
    let int_start = if is_at(s, i, '-') {
        i + 1
    } else {
        i
    };
    let int_end = if is_at(s, int_start, '0') {
        int_start + 1
    } else {
        digits_end(s, int_start)
    };
    if int_end == int_start {
        return None;
    }
    let mut frac_end = int_end;
    if is_at(s, int_end, '.') {
        frac_end = digits_end(s, int_end + 1);
        if frac_end == int_end + 1 {
            return None;
        }
    }
    if is_at(s, frac_end, 'e') || is_at(s, frac_end, 'E') {
        let exp_start = if frac_end + 1 < s.len() && (s[frac_end + 1] == '+' || s[frac_end + 1]
            == '-') {
            frac_end + 2
        } else {
            frac_end + 1
        };
        let exp_end = digits_end(s, exp_start);
        if exp_end == exp_start {
            None
        } else {
            Some(exp_end)
        }
    } else {
        Some(frac_end)
    }
}

/// The value of a hexadecimal digit.
pub(crate) fn hex_value(c: char) -> (r: Option<u32>)
    ensures
        match r {
            Some(d) => grammar::hex_value(c) == Some(d as int) && d < 16,
            None => grammar::hex_value(c) is None,
        },
{
    if c >= '0' && c <= '9' {
        Some(c as u32 - '0' as u32)
    } else if c >= 'a' && c <= 'f' {
        Some(c as u32 - 'a' as u32 + 10)
    } else if c >= 'A' && c <= 'F' {
        Some(c as u32 - 'A' as u32 + 10)
    } else {
        None
    }
}

/// The number that the four hexadecimal digits at `i` write.
pub(crate) fn hex4(s: &Vec<char>, i: usize) -> (r: Option<u32>)
    ensures
        match r {
            Some(n) => grammar::hex4(s@, i as int) == Some(n as int) && n < 65536,
            None => grammar::hex4(s@, i as int) is None,
        },
{
    if s.len() < 4 || i > s.len() - 4 {
        return None;
    }
    match (hex_value(s[i]), hex_value(s[i + 1]), hex_value(s[i + 2]), hex_value(s[i + 3])) {
        (Some(a), Some(b), Some(c), Some(d)) => Some(a * 4096 + b * 256 + c * 16 + d),
        _ => None,
    }
}

/// The character that the escape at `i` writes, and the place after it.
pub(crate) fn parse_escape(s: &Vec<char>, i: usize) -> (r: Option<(char, usize)>)
    ensures
        match r {
            Some((c, j)) => grammar::parse_escape(s@, i as int) == Some((c, j as int)) && i < j
                <= s.len(),
            None => grammar::parse_escape(s@, i as int) is None,
        },
{
    if i >= s.len() {
        return None;
    }
    let c = s[i];
    if c == '"' || c == '\\' || c == '/' {
        Some((c, i + 1))
    } else if c == 'b' {
        Some(('\u{8}', i + 1))
    } else if c == 'f' {
        Some(('\u{c}', i + 1))
    } else if c == 'n' {
        Some(('\n', i + 1))
    } else if c == 'r' {
        Some(('\r', i + 1))
    } else if c == 't' {
        Some(('\t', i + 1))
    } else if c == 'u' {
        match hex4(s, i + 1) {
            Some(unit) => {
                if 0xD800 <= unit && unit <= 0xDBFF {
                    if is_at(s, i + 5, '\\') && is_at(s, i + 6, 'u') {
                        match hex4(s, i + 7) {
                            Some(low) => {
                                if 0xDC00 <= low && low <= 0xDFFF {
                                    let code: u32 = 0x10000 + (unit - 0xD800) * 0x400 + (low
                                        - 0xDC00);
                                    match text::char_of_code(code) {
                                        Some(ch) => {
                                            proof {
                                                vstd::utf8::char_u32_cast(ch, code);
                                            }
                                            Some((ch, i + 11))
                                        },
                                        None => {
                                            assert(false);
                                            None
                                        },
                                    }
                                } else {
                                    None
                                }
                            },
                            None => None,
                        }
                    } else {
                        None
                    }
                } else if 0xDC00 <= unit && unit <= 0xDFFF {
                    None
                } else {
                    match text::char_of_code(unit) {
                        Some(ch) => {
                            proof {
                                vstd::utf8::char_u32_cast(ch, unit);
                            }
                            Some((ch, i + 5))
                        },
                        None => {
                            assert(false);
                            None
                        },
                    }
                }
            },
            None => None,
        }
    } else {
        None
    }
}

/// The text of the string whose opening quote stands before `i`, and the
/// place after its closing quote.
pub(crate) fn parse_string_body(s: &Vec<char>, i: usize) -> (r: Option<(String, usize)>)
    requires
        i <= s.len(),
    ensures
        match r {
            Some((t, j)) => grammar::parse_string_body(s@, i as int) == Some((t@, j as int)) && i
                < j <= s.len(),
            None => grammar::parse_string_body(s@, i as int) is None,
        },
{
    let mut out = String::new();
    let mut j: usize = i;
    loop
        invariant
            i <= j <= s.len(),
            grammar::parse_string_body(s@, i as int) == (match grammar::parse_string_body(
                s@,
                j as int,
            ) {
                Some((rest, end)) => Some((out@ + rest, end)),
                None => None,
            }),
        decreases s.len() - j,
    {
        if j >= s.len() {
            return None;
        }
        let c = s[j];
        if c == '"' {
            assert(out@ + Seq::<char>::empty() =~= out@);
            return Some((out, j + 1));
        } else if c == '\\' {
            match parse_escape(s, j + 1) {
                Some((ch, next)) => {
                    proof {
                        let before = out@;
                        assert forall|rest: Seq<char>|
                            before.push(ch) + rest == before + (seq![ch] + rest) by {
                            assert(before.push(ch) + rest =~= before + (seq![ch] + rest));
                        }
                    }
                    text::push_char(&mut out, ch);
                    j = next;
                },
                None => {
                    return None;
                },
            }
        } else if (c as u32) < 0x20 {
            return None;
        } else {
            proof {
                let before = out@;
                assert forall|rest: Seq<char>|
                    before.push(c) + rest == before + (seq![c] + rest) by {
                    assert(before.push(c) + rest =~= before + (seq![c] + rest));
                }
            }
            text::push_char(&mut out, c);
            j += 1;
        }
    }
}

/// Whether the word `true` stands at `i`.
fn has_true(s: &Vec<char>, i: usize) -> (r: bool)
    requires
        i < s.len(),
    ensures
        r == grammar::has_true(s@, i as int),
{
    is_at(s, i, 't') && is_at(s, i + 1, 'r') && s.len() - i >= 4 && is_at(s, i + 2, 'u') && is_at(
        s,
        i + 3,
        'e',
    )
}

/// Whether the word `false` stands at `i`.
fn has_false(s: &Vec<char>, i: usize) -> (r: bool)
    requires
        i < s.len(),
    ensures
        r == grammar::has_false(s@, i as int),
{
    s.len() - i >= 5 && is_at(s, i, 'f') && is_at(s, i + 1, 'a') && is_at(s, i + 2, 'l') && is_at(
        s,
        i + 3,
        's',
    ) && is_at(s, i + 4, 'e')
}

/// Whether the word `null` stands at `i`.
fn has_null(s: &Vec<char>, i: usize) -> (r: bool)
    requires
        i < s.len(),
    ensures
        r == grammar::has_null(s@, i as int),
{
    s.len() - i >= 4 && is_at(s, i, 'n') && is_at(s, i + 1, 'u') && is_at(s, i + 2, 'l') && is_at(
        s,
        i + 3,
        'l',
    )
}

/// The value that begins at `i`, and the place after it.
pub(crate) fn parse_value(s: &Vec<char>, i: usize) -> (r: Option<(JsonChild, usize)>)
    ensures
        match r {
            Some((v, end)) => grammar::parse_value(s@, i as int) == Some((v@, end as int)) && i
                < end <= s.len(),
            None => grammar::parse_value(s@, i as int) is None,
        },
    decreases text::remaining(s@, i as int), 0nat,
{
    if i >= s.len() {
        return None;
    }
    let c = s[i];
    if c == '{' {
        let first = skip_spaces(s, i + 1);
        if is_at(s, first, '}') {
            Some((JsonChild::Object(JsonObject::new()), first + 1))
        } else {
            match parse_members(s, first, JsonObject::new()) {
                Some((members, end)) => Some((JsonChild::Object(members), end)),
                None => None,
            }
        }
    } else if c == '[' {
        let first = skip_spaces(s, i + 1);
        if is_at(s, first, ']') {
            Some((JsonChild::Array(JsonArray::new()), first + 1))
        } else {
            match parse_elements(s, first, JsonArray::new()) {
                Some((items, end)) => Some((JsonChild::Array(items), end)),
                None => None,
            }
        }
    } else if c == '"' {
        match parse_string_body(s, i + 1) {
            Some((t, end)) => Some((JsonChild::Text(t), end)),
            None => None,
        }
    } else if has_true(s, i) {
        Some((JsonChild::Boolean(true), i + 4))
    } else if has_false(s, i) {
        Some((JsonChild::Boolean(false), i + 5))
    } else if has_null(s, i) {
        Some((JsonChild::Null, i + 4))
    } else {
        match number_end(s, i) {
            Some(end) => Some((JsonChild::Number(JsonNumber::from_chars(s, i, end)), end)),
            None => None,
        }
    }
}

/// The elements of an array from the one that begins at `i` to the closing
/// bracket, put behind those of `before`, and the place after the bracket.
fn parse_elements(s: &Vec<char>, i: usize, before: JsonArray) -> (r: Option<(JsonArray, usize)>)
    ensures
        match r {
            Some((items, end)) => grammar::parse_elements(s@, i as int, before@) == Some(
                (items@, end as int),
            ) && i < end <= s.len(),
            None => grammar::parse_elements(s@, i as int, before@) is None,
        },
    decreases text::remaining(s@, i as int), 1nat,
{
    let mut items = before;
    let mut at: usize = i;
    loop
        invariant
            i <= at,
            grammar::parse_elements(s@, i as int, before@) == grammar::parse_elements(
                s@,
                at as int,
                items@,
            ),
        decreases text::remaining(s@, at as int),
    {
        if at >= s.len() {
            return None;
        }
        match parse_value(s, at) {
            Some((value, end)) => {
                let mark = skip_spaces(s, end);
                items.push(value);
                if is_at(s, mark, ']') {
                    return Some((items, mark + 1));
                } else if is_at(s, mark, ',') {
                    at = skip_spaces(s, mark + 1);
                } else {
                    return None;
                }
            },
            None => {
                return None;
            },
        }
    }
}

/// The members of an object from the one whose key begins at `i` to the
/// closing brace, written into `before`, and the place after the brace.
fn parse_members(s: &Vec<char>, i: usize, before: JsonObject) -> (r: Option<(JsonObject, usize)>)
    ensures
        match r {
            Some((members, end)) => grammar::parse_members(s@, i as int, before@) == Some(
                (members@, end as int),
            ) && i < end <= s.len(),
            None => grammar::parse_members(s@, i as int, before@) is None,
        },
    decreases text::remaining(s@, i as int), 1nat,
{
    let mut members = before;
    let mut at: usize = i;
    loop
        invariant
            i <= at,
            grammar::parse_members(s@, i as int, before@) == grammar::parse_members(
                s@,
                at as int,
                members@,
            ),
        decreases text::remaining(s@, at as int),
    {
        if !is_at(s, at, '"') {
            return None;
        }
        assert(at < s.len());
        match parse_string_body(s, at + 1) {
            Some((key, key_end)) => {
                let colon = skip_spaces(s, key_end);
                if !is_at(s, colon, ':') {
                    return None;
                }
                let start = skip_spaces(s, colon + 1);
                match parse_value(s, start) {
                    Some((value, end)) => {
                        let mark = skip_spaces(s, end);
                        members.insert(key, value);
                        if is_at(s, mark, '}') {
                            return Some((members, mark + 1));
                        } else if is_at(s, mark, ',') {
                            at = skip_spaces(s, mark + 1);
                        } else {
                            return None;
                        }
                    },
                    None => {
                        return None;
                    },
                }
            },
            None => {
                return None;
            },
        }
    }
}

/// The value that the whole of `s` writes, white space around it allowed.
pub(crate) fn parse_document(s: &Vec<char>) -> (r: Option<JsonChild>)
    ensures
        match r {
            Some(v) => grammar::parse_document(s@) == Some(v@),
            None => grammar::parse_document(s@) is None,
        },
{
    let start = skip_spaces(s, 0);
    match parse_value(s, start) {
        Some((value, end)) => if skip_spaces(s, end) == s.len() {
            Some(value)
        } else {
            None
        },
        None => None,
    }
}

} // verus!
