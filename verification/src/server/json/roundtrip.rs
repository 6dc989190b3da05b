//! Reading back what was written: the parser gives every well-formed value
//! again from the text that writes it.

use vstd::prelude::*;
use crate::server::json::grammar;
use crate::server::json::model;
use crate::server::json::model::JsonValue;
use crate::server::json::tree::{JsonArray, JsonError, JsonObject};
use crate::server::json::writer;
use crate::server::text;

verus! {

/// The text `t` stands in `s` from place `i` on.
pub open spec fn holds_at(s: Seq<char>, i: int, t: Seq<char>) -> bool {
    0 <= i && i + t.len() <= s.len() && s.subrange(i, i + t.len()) == t
}

/// The place `e` of `s` is its end, or holds a character that can follow a
/// value inside an array or an object.
pub open spec fn value_ends_at(s: Seq<char>, e: int) -> bool {
    e == s.len() || grammar::is_at(s, e, ',') || grammar::is_at(s, e, ']') || grammar::is_at(s, e, '}')
}

/// `c` can be the first character of a written value.
pub open spec fn starts_value(c: char) -> bool {
    c == 'n' || c == 't' || c == 'f' || c == '"' || c == '[' || c == '{' || c == '-' || grammar::is_digit(c)
}

proof fn lemma_holds_concat(s: Seq<char>, i: int, a: Seq<char>, b: Seq<char>)
    requires
        holds_at(s, i, a + b),
    ensures
        holds_at(s, i, a),
        holds_at(s, i + a.len(), b),
{
    let t = a + b;
    assert(s.subrange(i, i + a.len()) =~= t.subrange(0, a.len() as int));
    assert(t.subrange(0, a.len() as int) =~= a);
    assert(s.subrange(i + a.len(), i + a.len() + b.len()) =~= t.subrange(
        a.len() as int,
        t.len() as int,
    ));
    assert(t.subrange(a.len() as int, t.len() as int) =~= b);
}

proof fn lemma_holds_char(s: Seq<char>, i: int, t: Seq<char>, k: int)
    requires
        holds_at(s, i, t),
        0 <= k < t.len(),
    ensures
        0 <= i + k < s.len(),
        s[i + k] == t[k],
{
    assert(s.subrange(i, i + t.len())[k] == s[i + k]);
}

proof fn lemma_hex_digit(d: int)
    requires
        0 <= d < 16,
    ensures
        grammar::hex_value(writer::hex_digit_char(d)) == Some(d),
{
}

proof fn lemma_escape_char_parses(s: Seq<char>, i: int, c: char)
    requires
        holds_at(s, i, writer::escape_char(c)),
    ensures
        writer::escape_char(c).len() >= 1,
        i < s.len(),
        s[i] != '"',
        s[i] == '\\' ==> grammar::parse_escape(s, i + 1) == Some((c, i + writer::escape_char(c).len())),
        s[i] != '\\' ==> s[i] == c && (c as u32) >= 0x20 && writer::escape_char(c).len() == 1,
{
    let e = writer::escape_char(c);
    lemma_holds_char(s, i, e, 0);
    if e.len() >= 2 {
        lemma_holds_char(s, i, e, 1);
    }
    if e.len() == 6 {
        lemma_holds_char(s, i, e, 2);
        lemma_holds_char(s, i, e, 3);
        lemma_holds_char(s, i, e, 4);
        lemma_holds_char(s, i, e, 5);
        let code = c as u32;
        lemma_hex_digit((code / 16) as int);
        lemma_hex_digit((code % 16) as int);
        assert(grammar::hex_value('0') == Some(0int));
        assert(grammar::hex4(s, i + 2) == Some(code as int));
        assert((code as int) as char == c);
    }
}

/// The parser reads an escaped text back as the text.
pub proof fn lemma_parse_escaped(s: Seq<char>, i: int, t: Seq<char>)
    requires
        holds_at(s, i, writer::escape(t) + seq!['"']),
    ensures
        grammar::parse_string_body(s, i) == Some((t, i + writer::escape(t).len() + 1)),
    decreases t.len(),
{
    if t.len() == 0 {
        lemma_holds_char(s, i, writer::escape(t) + seq!['"'], 0);
        assert(t =~= Seq::empty());
    } else {
        let c = t[0];
        let e = writer::escape_char(c);
        let rest = t.drop_first();
        assert(writer::escape(t) + seq!['"'] =~= e + (writer::escape(rest) + seq!['"']));
        lemma_holds_concat(s, i, e, writer::escape(rest) + seq!['"']);
        lemma_parse_escaped(s, i + e.len(), rest);
        lemma_escape_char_parses(s, i, c);
        assert(seq![c] + rest =~= t);
    }
}

proof fn lemma_digits_end_bounds(s: Seq<char>, i: int)
    requires
        0 <= i <= s.len(),
    ensures
        i <= grammar::digits_end(s, i) <= s.len(),
    decreases s.len() - i,
{
    if i < s.len() && grammar::is_digit(s[i]) {
        lemma_digits_end_bounds(s, i + 1);
    }
}

proof fn lemma_digits_end_within(s: Seq<char>, i: int, n: Seq<char>, k: int)
    requires
        holds_at(s, i, n),
        value_ends_at(s, i + n.len()),
        0 <= k <= n.len(),
    ensures
        grammar::digits_end(s, i + k) == i + grammar::digits_end(n, k),
    decreases n.len() - k,
{
    if k < n.len() {
        lemma_holds_char(s, i, n, k);
        if grammar::is_digit(n[k]) {
            lemma_digits_end_within(s, i, n, k + 1);
        }
    }
}

proof fn lemma_is_at_within(s: Seq<char>, i: int, n: Seq<char>, k: int, c: char)
    requires
        holds_at(s, i, n),
        value_ends_at(s, i + n.len()),
        0 <= k <= n.len(),
        c != ',' && c != ']' && c != '}',
    ensures
        grammar::is_at(s, i + k, c) == grammar::is_at(n, k, c),
{
    if k < n.len() {
        lemma_holds_char(s, i, n, k);
    }
}

/// A numeral that a value can end after is read as that numeral.
pub proof fn lemma_number_end_within(s: Seq<char>, i: int, n: Seq<char>)
    requires
        holds_at(s, i, n),
        grammar::is_numeral(n),
        value_ends_at(s, i + n.len()),
    ensures
        grammar::number_end(s, i) == Some(i + n.len()),
        n.len() > 0,
        n[0] == '-' || grammar::is_digit(n[0]),
{
    let len = n.len() as int;
    lemma_is_at_within(s, i, n, 0, '-');
    let int_start = if grammar::is_at(n, 0, '-') {
        1int
    } else {
        0int
    };
    lemma_digits_end_bounds(n, 0);
    if int_start <= len {
        lemma_is_at_within(s, i, n, int_start, '0');
        lemma_digits_end_within(s, i, n, int_start);
        lemma_digits_end_bounds(n, int_start);
    }
    let int_end = if grammar::is_at(n, int_start, '0') {
        int_start + 1
    } else {
        grammar::digits_end(n, int_start)
    };
    assert(int_start < len);
    assert(int_end <= len);
    lemma_is_at_within(s, i, n, int_end, '.');
    if int_end + 1 <= len {
        lemma_digits_end_within(s, i, n, int_end + 1);
        lemma_digits_end_bounds(n, int_end + 1);
    }
    let frac_end = if grammar::is_at(n, int_end, '.') {
        grammar::digits_end(n, int_end + 1)
    } else {
        int_end
    };
    assert(frac_end <= len);
    lemma_is_at_within(s, i, n, frac_end, 'e');
    lemma_is_at_within(s, i, n, frac_end, 'E');
    if frac_end + 1 <= len {
        lemma_is_at_within(s, i, n, frac_end + 1, '+');
        lemma_is_at_within(s, i, n, frac_end + 1, '-');
        let exp_start = if grammar::is_at(n, frac_end + 1, '+') || grammar::is_at(n, frac_end + 1, '-') {
            frac_end + 2
        } else {
            frac_end + 1
        };
        if exp_start <= len {
            lemma_digits_end_within(s, i, n, exp_start);
        }
    }
}

/// A written value is not empty and begins with a character that only a
/// value begins with.
pub proof fn lemma_written_starts(v: JsonValue)
    requires
        v.well_formed(),
    ensures
        writer::write_value(v).len() > 0,
        starts_value(writer::write_value(v)[0]),
{
    match v {
        JsonValue::Number(n) => {
            assert(holds_at(n, 0, n)) by {
                assert(n.subrange(0, n.len() as int) =~= n);
            }
            lemma_number_end_within(n, 0, n);
        },
        _ => {},
    }
}

/// The parser reads a written value back as the value.
pub proof fn lemma_parse_written_value(s: Seq<char>, i: int, v: JsonValue)
    requires
        v.well_formed(),
        holds_at(s, i, writer::write_value(v)),
        value_ends_at(s, i + writer::write_value(v).len()),
    ensures
        grammar::parse_value(s, i) == Some((v, i + writer::write_value(v).len())),
    decreases v, 0nat,
{
    let w = writer::write_value(v);
    lemma_written_starts(v);
    lemma_holds_char(s, i, w, 0);
    match v {
        JsonValue::Null => {
            lemma_holds_char(s, i, w, 1);
            lemma_holds_char(s, i, w, 2);
            lemma_holds_char(s, i, w, 3);
        },
        JsonValue::Boolean(b) => {
            lemma_holds_char(s, i, w, 1);
            lemma_holds_char(s, i, w, 2);
            lemma_holds_char(s, i, w, 3);
            if !b {
                lemma_holds_char(s, i, w, 4);
            }
        },
        JsonValue::Number(n) => {
            lemma_number_end_within(s, i, n);
            assert(!grammar::has_true(s, i) && !grammar::has_false(s, i) && !grammar::has_null(s, i));
        },
        JsonValue::Text(t) => {
            assert(w =~= seq!['"'] + (writer::escape(t) + seq!['"']));
            lemma_holds_concat(s, i, seq!['"'], writer::escape(t) + seq!['"']);
            lemma_parse_escaped(s, i + 1, t);
        },
        JsonValue::Array(items) => {
            if items.len() == 0 {
                assert(w =~= seq!['[', ']']);
                lemma_holds_char(s, i, w, 1);
                assert(items =~= Seq::empty());
            } else {
                let inner = writer::write_elements(items, 0);
                assert(w =~= seq!['['] + (inner + seq![']']));
                lemma_holds_concat(s, i, seq!['['], inner + seq![']']);
                lemma_elements_start(items, 0);
                lemma_holds_char(s, i + 1, inner + seq![']'], 0);
                lemma_parse_written_elements(s, i + 1, items, 0, Seq::empty());
                assert(Seq::<JsonValue>::empty() + items.skip(0) =~= items);
            }
        },
        JsonValue::Object(members) => {
            if members.len() == 0 {
                assert(w =~= seq!['{', '}']);
                lemma_holds_char(s, i, w, 1);
                assert(members =~= Seq::empty());
            } else {
                let inner = writer::write_members(members, 0);
                assert(w =~= seq!['{'] + (inner + seq!['}']));
                lemma_holds_concat(s, i, seq!['{'], inner + seq!['}']);
                lemma_members_start(members, 0);
                lemma_holds_char(s, i + 1, inner + seq!['}'], 0);
                assert(members.take(0) =~= Seq::empty());
                lemma_parse_written_members(s, i + 1, members, 0);
                assert(members.take(members.len() as int) =~= members);
            }
        },
    }
}

proof fn lemma_elements_start(items: Seq<JsonValue>, k: int)
    requires
        0 <= k < items.len(),
        items[k].well_formed(),
    ensures
        writer::write_elements(items, k).len() > 0,
        starts_value(writer::write_elements(items, k)[0]),
{
    lemma_written_starts(items[k]);
}

proof fn lemma_members_start(members: Seq<(Seq<char>, JsonValue)>, k: int)
    requires
        0 <= k < members.len(),
    ensures
        writer::write_members(members, k).len() > 0,
        writer::write_members(members, k)[0] == '"',
{
}

proof fn lemma_parse_written_elements(
    s: Seq<char>,
    i: int,
    items: Seq<JsonValue>,
    k: int,
    before: Seq<JsonValue>,
)
    requires
        0 <= k < items.len(),
        forall|j: int| 0 <= j < items.len() ==> (#[trigger] items[j]).well_formed(),
        holds_at(s, i, writer::write_elements(items, k) + seq![']']),
    ensures
        grammar::parse_elements(s, i, before) == Some(
            (before + items.skip(k), i + writer::write_elements(items, k).len() + 1),
        ),
    decreases items, items.len() - k,
{
    let v = items[k];
    let w = writer::write_value(v);
    lemma_written_starts(v);
    if k == items.len() - 1 {
        lemma_holds_concat(s, i, w, seq![']']);
        lemma_holds_char(s, i + w.len(), seq![']'], 0);
        lemma_parse_written_value(s, i, v);
        assert(before.push(v) =~= before + items.skip(k));
    } else {
        let rest = writer::write_elements(items, k + 1);
        assert(writer::write_elements(items, k) + seq![']'] =~= w + (seq![','] + (rest + seq![']'])));
        lemma_holds_concat(s, i, w, seq![','] + (rest + seq![']']));
        lemma_holds_concat(s, i + w.len(), seq![','], rest + seq![']']);
        lemma_holds_char(s, i + w.len(), seq![','], 0);
        lemma_parse_written_value(s, i, v);
        lemma_elements_start(items, k + 1);
        lemma_holds_char(s, i + w.len() + 1, rest + seq![']'], 0);
        lemma_parse_written_elements(s, i + w.len() + 1, items, k + 1, before.push(v));
        assert(before.push(v) + items.skip(k + 1) =~= before + items.skip(k));
    }
}

proof fn lemma_upsert_new_key(members: Seq<(Seq<char>, JsonValue)>, k: int)
    requires
        0 <= k < members.len(),
        model::unique_keys(members),
    ensures
        model::upsert(members.take(k), members[k].0, members[k].1) == members.take(k + 1),
{
    let before = members.take(k);
    let key = members[k].0;
    if exists|p: int| model::is_first_with_key(before, key, p) {
        let p = choose|p: int| model::is_first_with_key(before, key, p);
        assert(members[p].0 == members[k].0);
    }
    assert(before.push(members[k]) =~= members.take(k + 1));
}

proof fn lemma_parse_written_members(
    s: Seq<char>,
    i: int,
    members: Seq<(Seq<char>, JsonValue)>,
    k: int,
)
    requires
        0 <= k < members.len(),
        model::unique_keys(members),
        forall|j: int| 0 <= j < members.len() ==> (#[trigger] members[j]).1.well_formed(),
        holds_at(s, i, writer::write_members(members, k) + seq!['}']),
    ensures
        grammar::parse_members(s, i, members.take(k)) == Some(
            (members.take(members.len() as int), i + writer::write_members(members, k).len() + 1),
        ),
    decreases members, members.len() - k,
{
    let key = members[k].0;
    let v = members[k].1;
    let w = writer::write_value(v);
    let q = writer::escape(key) + seq!['"'];
    let rest = if k == members.len() - 1 {
        seq!['}']
    } else {
        seq![','] + (writer::write_members(members, k + 1) + seq!['}'])
    };
    lemma_written_starts(v);
    assert(writer::write_members(members, k) + seq!['}'] =~= seq!['"'] + (q + (seq![':'] + (w + rest))));
    lemma_holds_concat(s, i, seq!['"'], q + (seq![':'] + (w + rest)));
    lemma_holds_char(s, i, seq!['"'], 0);
    lemma_holds_concat(s, i + 1, q, seq![':'] + (w + rest));
    lemma_parse_escaped(s, i + 1, key);
    let colon = i + 1 + q.len();
    lemma_holds_concat(s, colon, seq![':'], w + rest);
    lemma_holds_char(s, colon, seq![':'], 0);
    let start = colon + 1;
    lemma_holds_concat(s, start, w, rest);
    lemma_holds_char(s, start, w, 0);
    lemma_holds_char(s, start + w.len(), rest, 0);
    lemma_parse_written_value(s, start, v);
    lemma_upsert_new_key(members, k);
    if k == members.len() - 1 {
    } else {
        let more = writer::write_members(members, k + 1) + seq!['}'];
        lemma_holds_concat(s, start + w.len(), seq![','], more);
        lemma_members_start(members, k + 1);
        lemma_holds_char(s, start + w.len() + 1, more, 0);
        lemma_parse_written_members(s, start + w.len() + 1, members, k + 1);
    }
}

/// Writing a well-formed value and parsing the text gives the value again:
/// the same members and elements in the same order, with the same values.
pub proof fn lemma_write_then_parse(v: JsonValue)
    requires
        v.well_formed(),
    ensures
        grammar::parse_document(writer::write_value(v)) == Some(v),
{
    let s = writer::write_value(v);
    assert(holds_at(s, 0, s)) by {
        assert(s.subrange(0, s.len() as int) =~= s);
    }
    lemma_written_starts(v);
    lemma_parse_written_value(s, 0, v);
}

proof fn lemma_skip_spaces_bounds(s: Seq<char>, i: int)
    requires
        0 <= i <= s.len(),
    ensures
        i <= grammar::skip_spaces(s, i) <= s.len(),
    decreases s.len() - i,
{
    if i < s.len() && grammar::is_space(s[i]) {
        lemma_skip_spaces_bounds(s, i + 1);
    }
}

proof fn lemma_string_body_bounds(s: Seq<char>, i: int)
    requires
        0 <= i,
    ensures
        match grammar::parse_string_body(s, i) {
            Some((_, end)) => i < end <= s.len(),
            None => true,
        },
    decreases s.len() - i,
{
    if 0 <= i < s.len() {
        if s[i] == '"' {
        } else if s[i] == '\\' {
            match grammar::parse_escape(s, i + 1) {
                Some((_, j)) => {
                    if j > i {
                        lemma_string_body_bounds(s, j);
                    }
                },
                None => {},
            }
        } else {
            lemma_string_body_bounds(s, i + 1);
        }
    }
}

proof fn lemma_digits_end_cut(s: Seq<char>, i: int, e: int, k: int)
    requires
        0 <= i <= i + k <= e <= s.len(),
    ensures
        grammar::digits_end(s.subrange(i, e), k) == if grammar::digits_end(s, i + k) <= e {
            grammar::digits_end(s, i + k) - i
        } else {
            e - i
        },
    decreases e - i - k,
{
    let n = s.subrange(i, e);
    lemma_digits_end_bounds(s, i + k);
    if i + k < e {
        assert(n[k] == s[i + k]);
        if grammar::is_digit(s[i + k]) {
            lemma_digits_end_cut(s, i, e, k + 1);
            lemma_digits_end_bounds(s, i + k + 1);
        }
    }
}

proof fn lemma_is_at_cut(s: Seq<char>, i: int, e: int, k: int, c: char)
    requires
        0 <= i <= e <= s.len(),
        0 <= k,
    ensures
        grammar::is_at(s.subrange(i, e), k, c) == (i + k < e && grammar::is_at(s, i + k, c)),
{
    if i + k < e {
        assert(s.subrange(i, e)[k] == s[i + k]);
    }
}

/// What the parser reads as a number is a numeral.
pub proof fn lemma_number_is_numeral(s: Seq<char>, i: int)
    requires
        0 <= i <= s.len(),
    ensures
        match grammar::number_end(s, i) {
            Some(end) => i < end <= s.len() && grammar::is_numeral(s.subrange(i, end)),
            None => true,
        },
{
    match grammar::number_end(s, i) {
        Some(e) => {
            let int_start = if grammar::is_at(s, i, '-') {
                i + 1
            } else {
                i
            };
            lemma_digits_end_bounds(s, int_start);
            let int_end = if grammar::is_at(s, int_start, '0') {
                int_start + 1
            } else {
                grammar::digits_end(s, int_start)
            };
            if int_end + 1 <= s.len() {
                lemma_digits_end_bounds(s, int_end + 1);
            }
            let frac_end = if grammar::is_at(s, int_end, '.') {
                grammar::digits_end(s, int_end + 1)
            } else {
                int_end
            };
            let exp_start = if grammar::is_at(s, frac_end + 1, '+') || grammar::is_at(
                s,
                frac_end + 1,
                '-',
            ) {
                frac_end + 2
            } else {
                frac_end + 1
            };
            if exp_start <= s.len() {
                lemma_digits_end_bounds(s, exp_start);
            }
            assert(i < e <= s.len());
            assert(int_end <= frac_end <= e);
            lemma_is_at_cut(s, i, e, 0, '-');
            lemma_is_at_cut(s, i, e, int_start - i, '0');
            lemma_digits_end_cut(s, i, e, int_start - i);
            lemma_is_at_cut(s, i, e, int_end - i, '.');
            if int_end + 1 <= e {
                lemma_digits_end_cut(s, i, e, int_end + 1 - i);
            }
            lemma_is_at_cut(s, i, e, frac_end - i, 'e');
            lemma_is_at_cut(s, i, e, frac_end - i, 'E');
            lemma_is_at_cut(s, i, e, frac_end + 1 - i, '+');
            lemma_is_at_cut(s, i, e, frac_end + 1 - i, '-');
            if exp_start <= e {
                lemma_digits_end_cut(s, i, e, exp_start - i);
            }
        },
        None => {},
    }
}

/// Giving a key a value keeps the keys of an object apart.
pub proof fn lemma_upsert_keeps_keys_apart(
    members: Seq<(Seq<char>, JsonValue)>,
    key: Seq<char>,
    value: JsonValue,
)
    requires
        model::unique_keys(members),
    ensures
        model::unique_keys(model::upsert(members, key, value)),
        forall|j: int|
            0 <= j < model::upsert(members, key, value).len() ==> {
                ||| (#[trigger] model::upsert(members, key, value)[j]).1 == value
                ||| (0 <= j < members.len() && model::upsert(members, key, value)[j]
                    == members[j])
            },
{
    let after = model::upsert(members, key, value);
    match model::member_index(members, key) {
        Some(p) => {
            assert(model::is_first_with_key(members, key, p));
            assert forall|a: int, b: int|
                0 <= a < after.len() && 0 <= b < after.len() && (#[trigger] after[a]).0 == (
                #[trigger] after[b]).0 implies a == b by {
                assert(after[a].0 == members[a].0);
                assert(after[b].0 == members[b].0);
            }
        },
        None => {
            assert forall|a: int, b: int|
                0 <= a < after.len() && 0 <= b < after.len() && (#[trigger] after[a]).0 == (
                #[trigger] after[b]).0 implies a == b by {
                if a < members.len() && b < members.len() {
                    assert(after[a] == members[a] && after[b] == members[b]);
                } else if a < members.len() {
                    assert(after[a] == members[a]);
                    lemma_key_has_first(members, key, a);
                } else if b < members.len() {
                    assert(after[b] == members[b]);
                    lemma_key_has_first(members, key, b);
                }
            }
        },
    }
}

/// Where some member has the key, a first one has it.
proof fn lemma_key_has_first(members: Seq<(Seq<char>, JsonValue)>, key: Seq<char>, j: int)
    requires
        0 <= j < members.len(),
        members[j].0 == key,
    ensures
        exists|p: int| model::is_first_with_key(members, key, p),
    decreases j,
{
    if exists|i: int| 0 <= i < j && (#[trigger] members[i]).0 == key {
        let i = choose|i: int| 0 <= i < j && (#[trigger] members[i]).0 == key;
        lemma_key_has_first(members, key, i);
    } else {
        assert(model::is_first_with_key(members, key, j));
    }
}

/// What the parser reads is well formed: its numbers are numerals, and no
/// object of it has two members of one key.
pub proof fn lemma_parsed_value_well_formed(s: Seq<char>, i: int)
    ensures
        match grammar::parse_value(s, i) {
            Some((v, end)) => v.well_formed() && i < end <= s.len(),
            None => true,
        },
    decreases text::remaining(s, i), 0nat,
{
    if 0 <= i < s.len() {
        if s[i] == '{' {
            lemma_skip_spaces_bounds(s, i + 1);
            let first = grammar::skip_spaces(s, i + 1);
            if !grammar::is_at(s, first, '}') {
                lemma_parsed_members_well_formed(s, first, Seq::empty());
            }
        } else if s[i] == '[' {
            lemma_skip_spaces_bounds(s, i + 1);
            let first = grammar::skip_spaces(s, i + 1);
            if !grammar::is_at(s, first, ']') {
                lemma_parsed_elements_well_formed(s, first, Seq::empty());
            }
        } else if s[i] == '"' {
            lemma_string_body_bounds(s, i + 1);
        } else if grammar::has_true(s, i) || grammar::has_false(s, i) || grammar::has_null(s, i) {
        } else {
            lemma_number_is_numeral(s, i);
        }
    }
}

proof fn lemma_parsed_elements_well_formed(s: Seq<char>, i: int, before: Seq<JsonValue>)
    requires
        forall|j: int| 0 <= j < before.len() ==> (#[trigger] before[j]).well_formed(),
    ensures
        match grammar::parse_elements(s, i, before) {
            Some((items, end)) => i < end <= s.len() && forall|j: int|
                0 <= j < items.len() ==> (#[trigger] items[j]).well_formed(),
            None => true,
        },
    decreases text::remaining(s, i), 1nat,
{
    if 0 <= i < s.len() {
        lemma_parsed_value_well_formed(s, i);
        match grammar::parse_value(s, i) {
            Some((value, end)) => {
                lemma_skip_spaces_bounds(s, end);
                let mark = grammar::skip_spaces(s, end);
                let next = grammar::skip_spaces(s, mark + 1);
                let more = before.push(value);
                assert forall|j: int| 0 <= j < more.len() implies (#[trigger] more[j]).well_formed() by {
                    if j < before.len() {
                        assert(more[j] == before[j]);
                    }
                }
                if grammar::is_at(s, mark, ']') {
                } else if grammar::is_at(s, mark, ',') && next > i {
                    lemma_skip_spaces_bounds(s, mark + 1);
                    lemma_parsed_elements_well_formed(s, next, more);
                }
            },
            None => {},
        }
    }
}

proof fn lemma_parsed_members_well_formed(
    s: Seq<char>,
    i: int,
    before: Seq<(Seq<char>, JsonValue)>,
)
    requires
        model::unique_keys(before),
        forall|j: int| 0 <= j < before.len() ==> (#[trigger] before[j]).1.well_formed(),
    ensures
        match grammar::parse_members(s, i, before) {
            Some((members, end)) => i < end <= s.len() && model::unique_keys(members)
                && forall|j: int|
                0 <= j < members.len() ==> (#[trigger] members[j]).1.well_formed(),
            None => true,
        },
    decreases text::remaining(s, i), 1nat,
{
    if grammar::is_at(s, i, '"') {
        lemma_string_body_bounds(s, i + 1);
        match grammar::parse_string_body(s, i + 1) {
            Some((key, key_end)) => {
                lemma_skip_spaces_bounds(s, key_end);
                let colon = grammar::skip_spaces(s, key_end);
                let start = grammar::skip_spaces(s, colon + 1);
                if grammar::is_at(s, colon, ':') && start > i {
                    lemma_skip_spaces_bounds(s, colon + 1);
                    lemma_parsed_value_well_formed(s, start);
                    match grammar::parse_value(s, start) {
                        Some((value, end)) => {
                            lemma_skip_spaces_bounds(s, end);
                            let mark = grammar::skip_spaces(s, end);
                            let next = grammar::skip_spaces(s, mark + 1);
                            let members = model::upsert(before, key, value);
                            lemma_upsert_keeps_keys_apart(before, key, value);
                            assert forall|j: int| 0 <= j < members.len() implies (
                            #[trigger] members[j]).1.well_formed() by {
                                if members[j].1 != value {
                                    assert(members[j] == before[j]);
                                }
                            }
                            if grammar::is_at(s, mark, '}') {
                            } else if grammar::is_at(s, mark, ',') && next > i {
                                lemma_skip_spaces_bounds(s, mark + 1);
                                lemma_parsed_members_well_formed(s, next, members);
                            }
                        },
                        None => {},
                    }
                }
            },
            None => {},
        }
    }
}

/// What is read from a text is well formed.
pub proof fn lemma_document_well_formed(s: Seq<char>)
    ensures
        match grammar::parse_document(s) {
            Some(v) => v.well_formed(),
            None => true,
        },
{
    lemma_parsed_value_well_formed(s, grammar::skip_spaces(s, 0));
}

/// Writing a well-formed object and reading the text as an object gives its
/// members again.
pub proof fn lemma_object_round_trip(members: Seq<(Seq<char>, JsonValue)>)
    requires
        JsonValue::Object(members).well_formed(),
    ensures
        JsonObject::read(writer::write_value(JsonValue::Object(members))) == Ok::<_, JsonError>(
            members,
        ),
{
    lemma_write_then_parse(JsonValue::Object(members));
}

/// Writing a well-formed array and reading the text as an array gives its
/// elements again.
pub proof fn lemma_array_round_trip(items: Seq<JsonValue>)
    requires
        JsonValue::Array(items).well_formed(),
    ensures
        JsonArray::read(writer::write_value(JsonValue::Array(items))) == Ok::<_, JsonError>(items),
{
    lemma_write_then_parse(JsonValue::Array(items));
}

/// The decimal numeral of a number is digits, begins with a zero only for
/// zero itself, and writes the number.
pub proof fn lemma_decimal_digits(n: nat)
    ensures
        text::decimal(n).len() >= 1,
        text::all_digits(text::decimal(n)),
        n >= 1 ==> text::decimal(n)[0] != '0',
        n == 0 ==> text::decimal(n) == seq!['0'],
        text::digits_value(text::decimal(n)) == n,
    decreases n,
{
    let d = text::decimal(n);
    if n < 10 {
        assert(d.drop_last() =~= Seq::empty());
        assert(text::digits_value(d.drop_last()) == 0);
        assert(d.last() == text::digit_char(n as int));
    } else {
        lemma_decimal_digits(n / 10);
        let front = text::decimal(n / 10);
        assert(d.drop_last() =~= front);
        assert(d[0] == front[0]);
        assert forall|i: int| 0 <= i < d.len() implies '0' <= #[trigger] d[i] <= '9' by {
            if i < front.len() {
                assert(d[i] == front[i]);
            }
        }
    }
}

proof fn lemma_digits_end_of_digits(d: Seq<char>, k: int)
    requires
        0 <= k <= d.len(),
        forall|i: int| k <= i < d.len() ==> grammar::is_digit(#[trigger] d[i]),
    ensures
        grammar::digits_end(d, k) == d.len(),
    decreases d.len() - k,
{
    if k < d.len() {
        lemma_digits_end_of_digits(d, k + 1);
    }
}

/// The decimal numeral of a whole number is a JSON numeral, and as a JSON
/// number it is that number again.
pub proof fn lemma_signed_decimal_is_numeral(n: int)
    ensures
        grammar::is_numeral(text::signed_decimal(n)),
        model::whole_value(text::signed_decimal(n)) == Some(n),
{
    let d = text::signed_decimal(n);
    if n < 0 {
        let m = text::decimal((-n) as nat);
        lemma_decimal_digits((-n) as nat);
        assert(d.skip(1) =~= m);
        assert forall|i: int| 1 <= i < d.len() implies grammar::is_digit(#[trigger] d[i]) by {
            assert(d[i] == m[i - 1]);
        }
        lemma_digits_end_of_digits(d, 1);
        assert(d[0] == '-');
        assert(d[1] == m[0]);
    } else {
        lemma_decimal_digits(n as nat);
        lemma_digits_end_of_digits(d, 0);
        if n == 0 {
        } else {
            assert(d[0] != '-');
        }
    }
}

} // verus!
