//! The text that writes a JSON value: compact, members and elements in their
//! order, strings quoted and escaped.

use vstd::prelude::*;
use vstd::string::*;
use crate::server::json::model::JsonValue;
use crate::server::json::tree::{JsonArray, JsonChild, JsonNumber, JsonObject};
use crate::server::text;

verus! {

/// The character that writes the hexadecimal digit `d`, in lower case.
pub open spec fn hex_digit_char(d: int) -> char {
    if d < 10 {
        ((48 + d) as u8) as char
    } else {
        ((87 + d) as u8) as char
    }
}

/// What stands for the character `c` between the quotes of a string: the
/// quote and the backslash behind a backslash, the control characters as
/// their short escape where there is one and as `\u00..` else, every other
/// character as itself.
pub open spec fn escape_char(c: char) -> Seq<char> {
    if c == '"' {
        seq!['\\', '"']
    } else if c == '\\' {
        seq!['\\', '\\']
    } else if c == '\n' {
        seq!['\\', 'n']
    } else if c == '\r' {
        seq!['\\', 'r']
    } else if c == '\t' {
        seq!['\\', 't']
    } else if c == '\u{8}' {
        seq!['\\', 'b']
    } else if c == '\u{c}' {
        seq!['\\', 'f']
    } else if (c as u32) < 0x20 {
        seq![
            '\\',
            'u',
            '0',
            '0',
            hex_digit_char((c as u32 / 16) as int),
            hex_digit_char((c as u32 % 16) as int),
        ]
    } else {
        seq![c]
    }
}

/// What stands for the text `t` between the quotes of a string.
pub open spec fn escape(t: Seq<char>) -> Seq<char>
    decreases t.len(),
{
    if t.len() == 0 {
        Seq::empty()
    } else {
        escape_char(t[0]) + escape(t.drop_first())
    }
}

/// The string that writes the text `t`.
pub open spec fn quote(t: Seq<char>) -> Seq<char> {
    seq!['"'] + escape(t) + seq!['"']
}

/// The text that writes the value `v`.
pub open spec fn write_value(v: JsonValue) -> Seq<char>
    decreases v, 0nat,
{
    match v {
        JsonValue::Null => seq!['n', 'u', 'l', 'l'],
        JsonValue::Boolean(b) => if b {
            seq!['t', 'r', 'u', 'e']
        } else {
            seq!['f', 'a', 'l', 's', 'e']
        },
        JsonValue::Number(numeral) => numeral,
        JsonValue::Text(t) => quote(t),
        JsonValue::Array(items) => seq!['['] + write_elements(items, 0) + seq![']'],
        JsonValue::Object(members) => seq!['{'] + write_members(members, 0) + seq!['}'],
    }
}

/// The elements of `items` from place `k` on, with a comma between each two.
pub open spec fn write_elements(items: Seq<JsonValue>, k: int) -> Seq<char>
    decreases items, items.len() - k,
{
    if !(0 <= k < items.len()) {
        Seq::empty()
    } else if k == items.len() - 1 {
        write_value(items[k])
    } else {
        write_value(items[k]) + seq![','] + write_elements(items, k + 1)
    }
}

/// The member that gives `key` the value `value`.
pub open spec fn write_member(key: Seq<char>, value: Seq<char>) -> Seq<char> {
    quote(key) + seq![':'] + value
}

/// The members of `members` from place `k` on, with a comma between each
/// two.
pub open spec fn write_members(members: Seq<(Seq<char>, JsonValue)>, k: int) -> Seq<char>
    decreases members, members.len() - k,
{
    if !(0 <= k < members.len()) {
        Seq::empty()
    } else if k == members.len() - 1 {
        write_member(members[k].0, write_value(members[k].1))
    } else {
        write_member(members[k].0, write_value(members[k].1)) + seq![','] + write_members(
            members,
            k + 1,
        )
    }
}

/// The first `k` elements of `items` as they stand in the written array: a
/// comma behind each but the last of all.
pub open spec fn written_elements(items: Seq<JsonValue>, k: int) -> Seq<char>
    decreases k,
{
    if k <= 0 {
        Seq::empty()
    } else {
        written_elements(items, k - 1) + write_value(items[k - 1]) + if k < items.len() {
            seq![',']
        } else {
            Seq::empty()
        }
    }
}

/// The first `k` members of `members` as they stand in the written object.
pub open spec fn written_members(members: Seq<(Seq<char>, JsonValue)>, k: int) -> Seq<char>
    decreases k,
{
    if k <= 0 {
        Seq::empty()
    } else {
        written_members(members, k - 1) + write_member(
            members[k - 1].0,
            write_value(members[k - 1].1),
        ) + if k < members.len() {
            seq![',']
        } else {
            Seq::empty()
        }
    }
}

/// What has been written of an array and what is left to write make the
/// whole.
pub proof fn lemma_elements_join(items: Seq<JsonValue>, k: int)
    requires
        0 <= k <= items.len(),
    ensures
        written_elements(items, k) + write_elements(items, k) == write_elements(items, 0),
    decreases k,
{
    if k > 0 {
        lemma_elements_join(items, k - 1);
        assert(written_elements(items, k) + write_elements(items, k) =~= written_elements(
            items,
            k - 1,
        ) + write_elements(items, k - 1));
    } else {
        assert(written_elements(items, k) + write_elements(items, k) =~= write_elements(items, 0));
    }
}

/// What has been written of an object and what is left to write make the
/// whole.
pub proof fn lemma_members_join(members: Seq<(Seq<char>, JsonValue)>, k: int)
    requires
        0 <= k <= members.len(),
    ensures
        written_members(members, k) + write_members(members, k) == write_members(members, 0),
    decreases k,
{
    if k > 0 {
        lemma_members_join(members, k - 1);
        assert(written_members(members, k) + write_members(members, k) =~= written_members(
            members,
            k - 1,
        ) + write_members(members, k - 1));
    } else {
        assert(written_members(members, k) + write_members(members, k) =~= write_members(
            members,
            0,
        ));
    }
}

/// Escaping a text with one more character escapes the text and then the
/// character.
pub proof fn lemma_escape_push(t: Seq<char>, c: char)
    ensures
        escape(t.push(c)) == escape(t) + escape_char(c),
    decreases t.len(),
{
    if t.len() == 0 {
        assert(t.push(c).drop_first() =~= Seq::empty());
        assert(t.push(c)[0] == c);
        assert(escape(t.push(c).drop_first()) =~= Seq::empty());
        assert(escape(t.push(c)) =~= escape_char(c) + escape(t.push(c).drop_first()));
        assert(escape(t.push(c)) =~= escape(t) + escape_char(c));
    } else {
        lemma_escape_push(t.drop_first(), c);
        assert(t.push(c).drop_first() =~= t.drop_first().push(c));
        assert(escape(t.push(c)) =~= escape(t) + escape_char(c));
    }
}

/// The character that writes the hexadecimal digit `d`.
fn hex_digit(d: u8) -> (c: char)
    requires
        d < 16,
    ensures
        c == hex_digit_char(d as int),
{
    if d < 10 {
        (48 + d) as char
    } else {
        (87 + d) as char
    }
}

/// Appends what stands for `c` between the quotes of a string.
fn push_escaped_char(out: &mut String, c: char)
    ensures
        final(out)@ == old(out)@ + escape_char(c),
{
    if c == '"' {
        text::push_char(out, '\\');
        text::push_char(out, '"');
    } else if c == '\\' {
        text::push_char(out, '\\');
        text::push_char(out, '\\');
    } else if c == '\n' {
        text::push_char(out, '\\');
        text::push_char(out, 'n');
    } else if c == '\r' {
        text::push_char(out, '\\');
        text::push_char(out, 'r');
    } else if c == '\t' {
        text::push_char(out, '\\');
        text::push_char(out, 't');
    } else if c == '\u{8}' {
        text::push_char(out, '\\');
        text::push_char(out, 'b');
    } else if c == '\u{c}' {
        text::push_char(out, '\\');
        text::push_char(out, 'f');
    } else if (c as u32) < 0x20 {
        let code = c as u32;
        text::push_char(out, '\\');
        text::push_char(out, 'u');
        text::push_char(out, '0');
        text::push_char(out, '0');
        text::push_char(out, hex_digit((code / 16) as u8));
        text::push_char(out, hex_digit((code % 16) as u8));
    } else {
        text::push_char(out, c);
    }
    assert(final(out)@ =~= old(out)@ + escape_char(c));
}

/// Appends the string that writes the text `t`.
pub fn push_quoted(out: &mut String, t: &str)
    ensures
        final(out)@ == old(out)@ + quote(t@),
{
    let chars = text::chars_of(t);
    text::push_char(out, '"');
    let mut k: usize = 0;
    while k < chars.len()
        invariant
            k <= chars.len(),
            out@ == old(out)@ + seq!['"'] + escape(chars@.take(k as int)),
        decreases chars.len() - k,
    {
        proof {
            lemma_escape_push(chars@.take(k as int), chars@[k as int]);
            assert(chars@.take(k + 1) =~= chars@.take(k as int).push(chars@[k as int]));
        }
        push_escaped_char(out, chars[k]);
        k += 1;
        assert(out@ =~= old(out)@ + seq!['"'] + escape(chars@.take(k as int)));
    }
    assert(chars@.take(k as int) =~= t@);
    text::push_char(out, '"');
    assert(final(out)@ =~= old(out)@ + quote(t@));
}

/// Appends the text that writes `value`.
pub fn push_value(out: &mut String, value: &JsonChild)
    ensures
        final(out)@ == old(out)@ + write_value(value@),
    decreases value@, 0nat,
{
    match value {
        JsonChild::Null => {
            out.append("null");
            proof {
                reveal_strlit("null");
                assert("null"@ =~= write_value(value@));
            }
        },
        JsonChild::Boolean(b) => {
            if *b {
                out.append("true");
                proof {
                    reveal_strlit("true");
                    assert("true"@ =~= write_value(value@));
                }
            } else {
                out.append("false");
                proof {
                    reveal_strlit("false");
                    assert("false"@ =~= write_value(value@));
                }
            }
        },
        JsonChild::Number(n) => {
            out.append(n.numeral().as_str());
        },
        JsonChild::Text(t) => {
            push_quoted(out, t.as_str());
        },
        JsonChild::Object(o) => {
            assert(value@->Object_0 == o@);
            push_object(out, o);
        },
        JsonChild::Array(a) => {
            assert(value@->Array_0 == a@);
            push_array(out, a);
        },
    }
}

/// Appends the text that writes the array `array`.
pub fn push_array(out: &mut String, array: &JsonArray)
    ensures
        final(out)@ == old(out)@ + write_value(JsonValue::Array(array@)),
    decreases array@, 1nat,
{
    text::push_char(out, '[');
    let n = array.len();
    let mut k: usize = 0;
    while k < n
        invariant
            k <= n,
            n == array@.len(),
            out@ == old(out)@ + seq!['['] + written_elements(array@, k as int),
        decreases n - k,
    {
        match array.get(k) {
            Some(item) => {
                push_value(out, item);
            },
            None => {},
        }
        if k + 1 < n {
            text::push_char(out, ',');
        }
        k += 1;
        assert(out@ =~= old(out)@ + seq!['['] + written_elements(array@, k as int));
    }
    text::push_char(out, ']');
    proof {
        lemma_elements_join(array@, n as int);
        assert(written_elements(array@, n as int) + write_elements(array@, n as int)
            =~= written_elements(array@, n as int));
        assert(final(out)@ =~= old(out)@ + write_value(JsonValue::Array(array@)));
    }
}

/// Appends the text that writes the object `object`.
pub fn push_object(out: &mut String, object: &JsonObject)
    ensures
        final(out)@ == old(out)@ + write_value(JsonValue::Object(object@)),
    decreases object@, 1nat,
{
    text::push_char(out, '{');
    let n = object.len();
    let mut k: usize = 0;
    while k < n
        invariant
            k <= n,
            n == object@.len(),
            out@ == old(out)@ + seq!['{'] + written_members(object@, k as int),
        decreases n - k,
    {
        match object.entry(k) {
            Some((key, value)) => {
                push_quoted(out, key.as_str());
                text::push_char(out, ':');
                assert(decreases_to!(object@[k as int] => object@[k as int].1));
                push_value(out, value);
            },
            None => {},
        }
        if k + 1 < n {
            text::push_char(out, ',');
        }
        k += 1;
        assert(out@ =~= old(out)@ + seq!['{'] + written_members(object@, k as int));
    }
    text::push_char(out, '}');
    proof {
        lemma_members_join(object@, n as int);
        assert(written_members(object@, n as int) + write_members(object@, n as int)
            =~= written_members(object@, n as int));
        assert(final(out)@ =~= old(out)@ + write_value(JsonValue::Object(object@)));
    }
}

/// A value that can be written as JSON.
pub trait ToJson {
    /// The JSON value that stands for `self`; `null` unless the type says
    /// otherwise.
    open spec fn json_value(&self) -> JsonValue {
        JsonValue::Null
    }

    /// The text that writes `self`.
    fn to_json(&self) -> (out: String)
        ensures
            out@ == write_value(self.json_value()),
    ;
}

impl ToJson for JsonChild {
    open spec fn json_value(&self) -> JsonValue {
        self@
    }

    fn to_json(&self) -> (out: String) {
        let mut out = String::new();
        push_value(&mut out, self);
        assert(Seq::<char>::empty() + write_value(self@) =~= write_value(self@));
        out
    }
}

impl ToJson for JsonObject {
    open spec fn json_value(&self) -> JsonValue {
        JsonValue::Object(self@)
    }

    fn to_json(&self) -> (out: String) {
        let mut out = String::new();
        push_object(&mut out, self);
        assert(Seq::<char>::empty() + write_value(JsonValue::Object(self@)) =~= write_value(
            JsonValue::Object(self@),
        ));
        out
    }
}

impl ToJson for JsonArray {
    open spec fn json_value(&self) -> JsonValue {
        JsonValue::Array(self@)
    }

    fn to_json(&self) -> (out: String) {
        let mut out = String::new();
        push_array(&mut out, self);
        assert(Seq::<char>::empty() + write_value(JsonValue::Array(self@)) =~= write_value(
            JsonValue::Array(self@),
        ));
        out
    }
}

impl ToJson for JsonNumber {
    open spec fn json_value(&self) -> JsonValue {
        JsonValue::Number(self@)
    }

    fn to_json(&self) -> (out: String) {
        self.numeral().clone()
    }
}

impl ToJson for String {
    open spec fn json_value(&self) -> JsonValue {
        JsonValue::Text(self@)
    }

    fn to_json(&self) -> (out: String) {
        let mut out = String::new();
        push_quoted(&mut out, self.as_str());
        assert(Seq::<char>::empty() + quote(self@) =~= quote(self@));
        out
    }
}

impl ToJson for bool {
    open spec fn json_value(&self) -> JsonValue {
        JsonValue::Boolean(*self)
    }

    fn to_json(&self) -> (out: String) {
        proof {
            reveal_strlit("true");
            reveal_strlit("false");
        }
        if *self {
            let out = String::from_str("true");
            assert(out@ =~= write_value(JsonValue::Boolean(true)));
            out
        } else {
            let out = String::from_str("false");
            assert(out@ =~= write_value(JsonValue::Boolean(false)));
            out
        }
    }
}

impl ToJson for i32 {
    open spec fn json_value(&self) -> JsonValue {
        JsonValue::Number(text::signed_decimal(*self as int))
    }

    fn to_json(&self) -> (out: String) {
        let mut out = String::new();
        text::push_signed_decimal(&mut out, *self as i64);
        assert(Seq::<char>::empty() + text::signed_decimal(*self as int) =~= text::signed_decimal(
            *self as int,
        ));
        out
    }
}

impl ToJson for i64 {
    open spec fn json_value(&self) -> JsonValue {
        JsonValue::Number(text::signed_decimal(*self as int))
    }

    fn to_json(&self) -> (out: String) {
        let mut out = String::new();
        text::push_signed_decimal(&mut out, *self);
        assert(Seq::<char>::empty() + text::signed_decimal(*self as int) =~= text::signed_decimal(
            *self as int,
        ));
        out
    }
}

impl ToJson for u32 {
    open spec fn json_value(&self) -> JsonValue {
        JsonValue::Number(text::decimal(*self as nat))
    }

    fn to_json(&self) -> (out: String) {
        let mut out = String::new();
        text::push_decimal(&mut out, *self as u64);
        assert(Seq::<char>::empty() + text::decimal(*self as nat) =~= text::decimal(*self as nat));
        out
    }
}

impl ToJson for u64 {
    open spec fn json_value(&self) -> JsonValue {
        JsonValue::Number(text::decimal(*self as nat))
    }

    fn to_json(&self) -> (out: String) {
        let mut out = String::new();
        text::push_decimal(&mut out, *self);
        assert(Seq::<char>::empty() + text::decimal(*self as nat) =~= text::decimal(*self as nat));
        out
    }
}

impl<T: ToJson> ToJson for Vec<T> {
    open spec fn json_value(&self) -> JsonValue {
        JsonValue::Array(Seq::new(self@.len(), |i: int| self@[i].json_value()))
    }

    fn to_json(&self) -> (out: String) {
        let ghost items = Seq::new(self@.len(), |i: int| self@[i].json_value());
        let mut out = String::new();
        text::push_char(&mut out, '[');
        let n = self.len();
        let mut k: usize = 0;
        while k < n
            invariant
                k <= n,
                n == self@.len(),
                items == Seq::new(self@.len(), |i: int| self@[i].json_value()),
                out@ == seq!['['] + written_elements(items, k as int),
            decreases n - k,
        {
            let item = self[k].to_json();
            out.append(item.as_str());
            if k + 1 < n {
                text::push_char(&mut out, ',');
            }
            k += 1;
            assert(out@ =~= seq!['['] + written_elements(items, k as int));
        }
        text::push_char(&mut out, ']');
        proof {
            lemma_elements_join(items, n as int);
            assert(written_elements(items, n as int) + write_elements(items, n as int)
                =~= written_elements(items, n as int));
            assert(out@ =~= write_value(JsonValue::Array(items)));
        }
        out
    }
}

/// Behind the members of an object, one more member stands behind a comma.
pub proof fn lemma_write_members_push(
    members: Seq<(Seq<char>, JsonValue)>,
    key: Seq<char>,
    value: JsonValue,
    k: int,
)
    requires
        0 <= k <= members.len(),
    ensures
        write_members(members.push((key, value)), k) == write_members(members, k) + if k
            < members.len() {
            seq![',']
        } else {
            Seq::empty()
        } + write_member(key, write_value(value)),
    decreases members.len() - k,
{
    let more = members.push((key, value));
    if k < members.len() {
        lemma_write_members_push(members, key, value, k + 1);
        assert(more[k] == members[k]);
        assert(write_members(more, k) =~= write_members(members, k) + seq![','] + write_member(
            key,
            write_value(value),
        ));
    } else {
        assert(write_members(more, k) =~= write_members(members, k) + Seq::<char>::empty()
            + write_member(key, write_value(value)));
    }
}

/// Writes an object member by member: the way for a record to be written
/// with its fields in their order.
pub struct ObjectWriter {
    out: String,
    count: usize,
    written: Ghost<Seq<(Seq<char>, JsonValue)>>,
}

impl ObjectWriter {
    /// The members written so far.
    pub closed spec fn members(&self) -> Seq<(Seq<char>, JsonValue)> {
        self.written@
    }

    /// The text so far is the opening brace and the members written so far.
    pub closed spec fn well_formed(&self) -> bool {
        &&& self.out@ == seq!['{'] + write_members(self.written@, 0)
        &&& (self.count == 0) == (self.written@.len() == 0)
    }

    /// A writer that has written no member.
    pub fn new() -> (w: ObjectWriter)
        ensures
            w.well_formed(),
            w.members() == Seq::<(Seq<char>, JsonValue)>::empty(),
    {
        let mut out = String::new();
        text::push_char(&mut out, '{');
        assert(out@ =~= seq!['{'] + write_members(Seq::empty(), 0));
        ObjectWriter { out, count: 0, written: Ghost(Seq::empty()) }
    }

    /// Writes the member that gives `key` the value `value`.
    pub fn member<T: ToJson>(&mut self, key: &str, value: &T)
        requires
            old(self).well_formed(),
        ensures
            final(self).well_formed(),
            final(self).members() == old(self).members().push((key@, value.json_value())),
    {
        proof {
            lemma_write_members_push(self.written@, key@, value.json_value(), 0);
        }
        if self.count > 0 {
            text::push_char(&mut self.out, ',');
        } else {
            self.count = 1;
        }
        push_quoted(&mut self.out, key);
        text::push_char(&mut self.out, ':');
        let v = value.to_json();
        self.out.append(v.as_str());
        self.written = Ghost(self.written@.push((key@, value.json_value())));
        assert(self.out@ =~= seq!['{'] + write_members(self.written@, 0));
    }

    /// The text of the object with the members written.
    pub fn finish(self) -> (out: String)
        requires
            self.well_formed(),
        ensures
            out@ == write_value(JsonValue::Object(self.members())),
    {
        let mut out = self.out;
        text::push_char(&mut out, '}');
        out
    }
}

} // verus!
