//! The JSON tree that programs hold: objects, arrays and their children.

use vstd::prelude::*;
use vstd::string::*;
use crate::server::json::grammar;
use crate::server::json::model;
use crate::server::json::model::JsonValue;
use crate::server::json::roundtrip;
use crate::server::text;

verus! {

/// Why a text was not read as a JSON object or array.
#[derive(Clone, Copy, Debug, PartialEq, Eq, Structural)]
pub enum JsonError {
    /// The text is not one JSON value with nothing but white space around it.
    NotJson,
    /// The text is a JSON value of another kind than the one asked for.
    WrongKind,
}

/// A JSON number, kept as the numeral that writes it.
#[derive(Debug)]
pub struct JsonNumber {
    numeral: String,
}

/// A value inside an object or an array.
#[derive(Debug)]
pub enum JsonChild {
    Null,
    Boolean(bool),
    Number(JsonNumber),
    Text(String),
    Object(JsonObject),
    Array(JsonArray),
}

/// A JSON object: keys with their values, in the order in which the keys
/// were first written.
#[derive(Debug)]
pub struct JsonObject {
    entries: Vec<(String, JsonChild)>,
}

/// A JSON array.
#[derive(Debug)]
pub struct JsonArray {
    items: Vec<JsonChild>,
}

impl View for JsonNumber {
    type V = Seq<char>;

    closed spec fn view(&self) -> Seq<char> {
        self.numeral@
    }
}

impl View for JsonChild {
    type V = JsonValue;

    open spec fn view(&self) -> JsonValue
        decreases self,
    {
        match self {
            JsonChild::Null => JsonValue::Null,
            JsonChild::Boolean(b) => JsonValue::Boolean(*b),
            JsonChild::Number(n) => JsonValue::Number(n.view()),
            JsonChild::Text(t) => JsonValue::Text(t@),
            JsonChild::Object(o) => JsonValue::Object(o.view()),
            JsonChild::Array(a) => JsonValue::Array(a.view()),
        }
    }
}

impl View for JsonObject {
    type V = Seq<(Seq<char>, JsonValue)>;

    closed spec fn view(&self) -> Seq<(Seq<char>, JsonValue)>
        decreases self,
    {
        Seq::new(
            self.entries.len() as nat,
            |i: int|
                if 0 <= i < self.entries.len() {
                    (self.entries[i].0@, self.entries[i].1.view())
                } else {
                    (Seq::empty(), JsonValue::Null)
                },
        )
    }
}

impl View for JsonArray {
    type V = Seq<JsonValue>;

    closed spec fn view(&self) -> Seq<JsonValue>
        decreases self,
    {
        Seq::new(
            self.items.len() as nat,
            |i: int|
                if 0 <= i < self.items.len() {
                    self.items[i].view()
                } else {
                    JsonValue::Null
                },
        )
    }
}

impl JsonNumber {
    /// The numeral is a JSON numeral.
    pub open spec fn well_formed(&self) -> bool {
        grammar::is_numeral(self@)
    }

    /// The number that the numeral `text` writes, if it is a JSON numeral.
    pub fn parse(text: &str) -> (r: Option<JsonNumber>)
        ensures
            r is Some <==> grammar::is_numeral(text@),
            r is Some ==> r->0@ == text@,
    {
        let chars = text::chars_of(text);
        match crate::server::json::parse::number_end(&chars, 0) {
            Some(end) => if end == chars.len() {
                Some(JsonNumber { numeral: String::from_str(text) })
            } else {
                None
            },
            None => None,
        }
    }

    /// The number `n`.
    pub fn from_i32(n: i32) -> (r: JsonNumber)
        ensures
            r@ == text::signed_decimal(n as int),
            r.well_formed(),
            model::numeral_as_i32(r@) == Some(n),
    {
        proof {
            roundtrip::lemma_signed_decimal_is_numeral(n as int);
        }
        let mut numeral = String::new();
        text::push_signed_decimal(&mut numeral, n as i64);
        assert(Seq::<char>::empty() + text::signed_decimal(n as int) =~= text::signed_decimal(
            n as int,
        ));
        JsonNumber { numeral }
    }

    /// The number that the numeral at `from..to` of `s` writes.
    pub(crate) fn from_chars(s: &Vec<char>, from: usize, to: usize) -> (r: JsonNumber)
        requires
            from <= to <= s.len(),
        ensures
            r@ == s@.subrange(from as int, to as int),
    {
        JsonNumber { numeral: text::string_of(s, from, to) }
    }

    /// The numeral.
    pub fn numeral(&self) -> (r: &String)
        ensures
            r@ == self@,
    {
        &self.numeral
    }

    /// The number as an `i32`, if it is a whole number in the range of one.
    pub fn i32(&self) -> (r: Option<i32>)
        ensures
            r == model::numeral_as_i32(self@),
    {
        let chars = text::chars_of(self.numeral.as_str());
        let n = chars.len();
        if n == 0 {
            return None;
        }
        let negative = chars[0] == '-';
        let start: usize = if negative {
            1
        } else {
            0
        };
        if start == n {
            return None;
        }
        let ghost digits = chars@.skip(start as int);
        let mut value: i64 = 0;
        let mut i: usize = start;
        let mut too_large = false;
        while i < n
            invariant
                start <= i <= n,
                start < n,
                n == chars.len(),
                chars@ == self@,
                negative == (chars@[0] == '-'),
                start == if negative { 1int } else { 0int },
                digits == chars@.skip(start as int),
                text::all_digits(digits.take(i - start)),
                !too_large ==> value == text::digits_value(digits.take(i - start)) && 0 <= value
                    <= 2147483648,
                too_large ==> text::digits_value(digits.take(i - start)) > 2147483648,
            decreases n - i,
        {
            let c = chars[i];
            if !(c >= '0' && c <= '9') {
                assert(digits[i - start] == c);
                assert(!text::all_digits(digits));
                if negative {
                    assert(chars@[0] == '-');
                    assert(!text::all_digits(chars@));
                } else {
                    assert(chars@.skip(0) =~= chars@);
                }
                return None;
            }
            proof {
                let next = digits.take(i - start + 1);
                assert(next.drop_last() =~= digits.take(i - start));
                assert(next.last() == c);
                assert forall|j: int| 0 <= j < next.len() implies '0' <= #[trigger] next[j]
                    <= '9' by {
                    if j < i - start {
                        assert(digits.take(i - start)[j] == next[j]);
                    }
                }
            }
            if !too_large {
                value = value * 10 + (c as u32 - '0' as u32) as i64;
                if value > 2147483648 {
                    too_large = true;
                }
            }
            i += 1;
        }
        proof {
            assert(digits.take(n - start) =~= digits);
            if !negative {
                assert(chars@.skip(0) =~= chars@);
            } else {
                if text::all_digits(chars@) {
                    assert(chars@[0] == '-');
                }
            }
        }
        if too_large {
            None
        } else if negative {
            Some((-value) as i32)
        } else if value > 2147483647 {
            None
        } else {
            Some(value as i32)
        }
    }
}

impl JsonChild {
    /// Every number in the value is a JSON numeral, and no object in it has
    /// two members of one key.
    pub open spec fn well_formed(&self) -> bool {
        self@.well_formed()
    }

    /// The text, if the child is a string.
    pub fn string(&self) -> (r: Option<String>)
        ensures
            match r {
                Some(t) => self@.as_text() == Some(t@),
                None => self@.as_text() is None,
            },
    {
        match self {
            JsonChild::Text(t) => Some(t.clone()),
            _ => None,
        }
    }

    /// The number, if the child is a whole number that an `i32` holds.
    pub fn i32(&self) -> (r: Option<i32>)
        ensures
            r == self@.as_i32(),
    {
        match self {
            JsonChild::Number(n) => n.i32(),
            _ => None,
        }
    }

    /// The truth value, if the child is `true` or `false`.
    pub fn bool(&self) -> (r: Option<bool>)
        ensures
            r == self@.as_boolean(),
    {
        match self {
            JsonChild::Boolean(b) => Some(*b),
            _ => None,
        }
    }

    /// Whether the child is `null`.
    pub fn is_null(&self) -> (r: bool)
        ensures
            r == (self@ == JsonValue::Null),
    {
        match self {
            JsonChild::Null => true,
            _ => false,
        }
    }

    /// The object, if the child is one.
    pub fn object(&self) -> (r: Option<&JsonObject>)
        ensures
            match r {
                Some(o) => self@.as_object() == Some(o@),
                None => self@.as_object() is None,
            },
    {
        match self {
            JsonChild::Object(o) => Some(o),
            _ => None,
        }
    }

    /// The array, if the child is one.
    pub fn array(&self) -> (r: Option<&JsonArray>)
        ensures
            match r {
                Some(a) => self@.as_array() == Some(a@),
                None => self@.as_array() is None,
            },
    {
        match self {
            JsonChild::Array(a) => Some(a),
            _ => None,
        }
    }
}

impl JsonObject {
    /// No two members have the same key, and every value is well formed.
    pub open spec fn well_formed(&self) -> bool {
        JsonValue::Object(self@).well_formed()
    }

    /// An object without members.
    pub fn new() -> (o: JsonObject)
        ensures
            o@ == Seq::<(Seq<char>, JsonValue)>::empty(),
    {
        let o = JsonObject { entries: Vec::new() };
        assert(o@ =~= Seq::empty());
        o
    }

    /// The number of members.
    pub fn len(&self) -> (n: usize)
        ensures
            n == self@.len(),
    {
        self.entries.len()
    }

    /// What reading `text` as an object gives: its members, or why there
    /// are none.
    pub open spec fn read(text: Seq<char>) -> Result<Seq<(Seq<char>, JsonValue)>, JsonError> {
        match grammar::parse_document(text) {
            Some(JsonValue::Object(members)) => Ok(members),
            Some(_) => Err(JsonError::WrongKind),
            None => Err(JsonError::NotJson),
        }
    }

    /// Reads `text`, which must be one JSON object, white space around it
    /// allowed.
    pub fn from_string(text: String) -> (r: Result<JsonObject, JsonError>)
        ensures
            match r {
                Ok(o) => Self::read(text@) == Ok::<_, JsonError>(o@) && o.well_formed(),
                Err(e) => Self::read(text@) == Err::<Seq<(Seq<char>, JsonValue)>, _>(e),
            },
    {
        proof {
            roundtrip::lemma_document_well_formed(text@);
        }
        let chars = text::chars_of(text.as_str());
        match crate::server::json::parse::parse_document(&chars) {
            Some(JsonChild::Object(o)) => Ok(o),
            Some(_) => Err(JsonError::WrongKind),
            None => Err(JsonError::NotJson),
        }
    }

    /// The place of the member whose key is `key`.
    fn find(&self, key: &str) -> (r: Option<usize>)
        ensures
            match r {
                Some(p) => model::member_index(self@, key@) == Some(p as int) && p
                    < self.entries.len(),
                None => model::member_index(self@, key@) is None,
            },
    {
        let mut i: usize = 0;
        while i < self.entries.len()
            invariant
                i <= self.entries.len(),
                forall|j: int| 0 <= j < i ==> (#[trigger] self@[j]).0 != key@,
            decreases self.entries.len() - i,
        {
            if text::str_eq(self.entries[i].0.as_str(), key) {
                assert(model::is_first_with_key(self@, key@, i as int));
                return Some(i);
            }
            i += 1;
        }
        None
    }

    /// Gives `key` the value `value`: a member of that key keeps its place and
    /// takes the value, else a new member is put last.
    pub fn insert(&mut self, key: String, value: JsonChild)
        ensures
            final(self)@ == model::upsert(old(self)@, key@, value@),
            old(self).well_formed() && value.well_formed() ==> final(self).well_formed(),
    {
        proof {
            if old(self).well_formed() && value.well_formed() {
                roundtrip::lemma_upsert_keeps_keys_apart(old(self)@, key@, value@);
                let after = model::upsert(old(self)@, key@, value@);
                assert forall|j: int| 0 <= j < after.len() implies (#[trigger] after[j]).1.well_formed() by {
                    if after[j].1 != value@ {
                        assert(after[j] == old(self)@[j]);
                    }
                }
            }
        }
        match self.find(key.as_str()) {
            Some(p) => {
                self.entries[p] = (key, value);
            },
            None => {
                self.entries.push((key, value));
            },
        }
        assert(final(self)@ =~= model::upsert(old(self)@, key@, value@));
    }

    /// The value of the member whose key is `key`.
    pub fn get(&self, key: &str) -> (r: Option<&JsonChild>)
        ensures
            match r {
                Some(c) => model::member(self@, key@) == Some(c@),
                None => model::member(self@, key@) is None,
            },
    {
        match self.find(key) {
            Some(p) => Some(&self.entries[p].1),
            None => None,
        }
    }

    /// The text of the member `key`, if there is one and it is a string.
    pub fn string(&self, key: &str) -> (r: Option<String>)
        ensures
            match r {
                Some(t) => model::member(self@, key@) is Some && model::member(
                    self@,
                    key@,
                )->0.as_text() == Some(t@),
                None => model::member(self@, key@) is None || model::member(
                    self@,
                    key@,
                )->0.as_text() is None,
            },
    {
        match self.get(key) {
            Some(c) => c.string(),
            None => None,
        }
    }

    /// The number of the member `key`, if there is one and it is a whole
    /// number that an `i32` holds.
    pub fn i32(&self, key: &str) -> (r: Option<i32>)
        ensures
            r == (match model::member(self@, key@) {
                Some(v) => v.as_i32(),
                None => None,
            }),
    {
        match self.get(key) {
            Some(c) => c.i32(),
            None => None,
        }
    }

    /// The truth value of the member `key`, if there is one and it is `true`
    /// or `false`.
    pub fn bool(&self, key: &str) -> (r: Option<bool>)
        ensures
            r == (match model::member(self@, key@) {
                Some(v) => v.as_boolean(),
                None => None,
            }),
    {
        match self.get(key) {
            Some(c) => c.bool(),
            None => None,
        }
    }

    /// The object of the member `key`, if there is one and it is an object.
    pub fn object(&self, key: &str) -> (r: Option<&JsonObject>)
        ensures
            match r {
                Some(o) => model::member(self@, key@) is Some && model::member(
                    self@,
                    key@,
                )->0.as_object() == Some(o@),
                None => model::member(self@, key@) is None || model::member(
                    self@,
                    key@,
                )->0.as_object() is None,
            },
    {
        match self.get(key) {
            Some(c) => c.object(),
            None => None,
        }
    }

    /// The array of the member `key`, if there is one and it is an array.
    pub fn array(&self, key: &str) -> (r: Option<&JsonArray>)
        ensures
            match r {
                Some(a) => model::member(self@, key@) is Some && model::member(
                    self@,
                    key@,
                )->0.as_array() == Some(a@),
                None => model::member(self@, key@) is None || model::member(
                    self@,
                    key@,
                )->0.as_array() is None,
            },
    {
        match self.get(key) {
            Some(c) => c.array(),
            None => None,
        }
    }

    /// The member at place `i`: its key and its value.
    pub fn entry(&self, i: usize) -> (r: Option<(&String, &JsonChild)>)
        ensures
            match r {
                Some((k, v)) => i < self@.len() && self@[i as int] == (k@, v@),
                None => i >= self@.len(),
            },
    {
        if i < self.entries.len() {
            Some((&self.entries[i].0, &self.entries[i].1))
        } else {
            None
        }
    }
}

impl JsonArray {
    /// Every element is well formed.
    pub open spec fn well_formed(&self) -> bool {
        JsonValue::Array(self@).well_formed()
    }

    /// An array without elements.
    pub fn new() -> (a: JsonArray)
        ensures
            a@ == Seq::<JsonValue>::empty(),
    {
        let a = JsonArray { items: Vec::new() };
        assert(a@ =~= Seq::empty());
        a
    }

    /// The number of elements.
    pub fn len(&self) -> (n: usize)
        ensures
            n == self@.len(),
    {
        self.items.len()
    }

    /// What reading `text` as an array gives: its elements, or why there are
    /// none.
    pub open spec fn read(text: Seq<char>) -> Result<Seq<JsonValue>, JsonError> {
        match grammar::parse_document(text) {
            Some(JsonValue::Array(items)) => Ok(items),
            Some(_) => Err(JsonError::WrongKind),
            None => Err(JsonError::NotJson),
        }
    }

    /// Reads `text`, which must be one JSON array, white space around it
    /// allowed.
    pub fn from_string(text: String) -> (r: Result<JsonArray, JsonError>)
        ensures
            match r {
                Ok(a) => Self::read(text@) == Ok::<_, JsonError>(a@) && a.well_formed(),
                Err(e) => Self::read(text@) == Err::<Seq<JsonValue>, _>(e),
            },
    {
        proof {
            roundtrip::lemma_document_well_formed(text@);
        }
        let chars = text::chars_of(text.as_str());
        match crate::server::json::parse::parse_document(&chars) {
            Some(JsonChild::Array(a)) => Ok(a),
            Some(_) => Err(JsonError::WrongKind),
            None => Err(JsonError::NotJson),
        }
    }

    /// Puts `value` behind the last element.
    pub fn push(&mut self, value: JsonChild)
        ensures
            final(self)@ == old(self)@.push(value@),
            old(self).well_formed() && value.well_formed() ==> final(self).well_formed(),
    {
        proof {
            if self.well_formed() && value.well_formed() {
                let before = self@;
                let after = before.push(value@);
                assert forall|j: int| 0 <= j < after.len() implies (#[trigger] after[j]).well_formed() by {
                    if j < before.len() {
                        assert(after[j] == before[j]);
                    }
                }
                assert(JsonValue::Array(after).well_formed());
            }
        }
        self.items.push(value);
        assert(final(self)@ =~= old(self)@.push(value@));
    }

    /// The element at place `i`.
    pub fn get(&self, i: usize) -> (r: Option<&JsonChild>)
        ensures
            match r {
                Some(c) => i < self@.len() && self@[i as int] == c@,
                None => i >= self@.len(),
            },
    {
        if i < self.items.len() {
            Some(&self.items[i])
        } else {
            None
        }
    }

    /// The elements, in order.
    pub fn all(&self) -> (r: &Vec<JsonChild>)
        ensures
            r@.len() == self@.len(),
            forall|i: int| 0 <= i < r@.len() ==> (#[trigger] r@[i])@ == self@[i],
    {
        &self.items
    }
}

} // verus!
