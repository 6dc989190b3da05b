//! The mathematical model of a JSON document.

use vstd::prelude::*;
use crate::server::text;

verus! {

/// A JSON value. A number is kept as the numeral that writes it; the members
/// of an object are kept in the order in which they were first written.
pub enum JsonValue {
    Null,
    Boolean(bool),
    Number(Seq<char>),
    Text(Seq<char>),
    Array(Seq<JsonValue>),
    Object(Seq<(Seq<char>, JsonValue)>),
}

/// `p` is the place of the first member of `members` whose key is `key`.
pub open spec fn is_first_with_key(
    members: Seq<(Seq<char>, JsonValue)>,
    key: Seq<char>,
    p: int,
) -> bool {
    &&& 0 <= p < members.len()
    &&& members[p].0 == key
    &&& forall|j: int| 0 <= j < p ==> (#[trigger] members[j]).0 != key
}

/// The place of the first member of `members` whose key is `key`.
pub open spec fn member_index(members: Seq<(Seq<char>, JsonValue)>, key: Seq<char>) -> Option<
    int,
> {
    if exists|p: int| is_first_with_key(members, key, p) {
        Some(choose|p: int| is_first_with_key(members, key, p))
    } else {
        None
    }
}

/// The value of the member of `members` whose key is `key`.
pub open spec fn member(members: Seq<(Seq<char>, JsonValue)>, key: Seq<char>) -> Option<
    JsonValue,
> {
    match member_index(members, key) {
        Some(p) => Some(members[p].1),
        None => None,
    }
}

/// `members` after `key` has been given the value `value`: a member of that
/// key keeps its place and takes the value, else a new member is put last.
pub open spec fn upsert(members: Seq<(Seq<char>, JsonValue)>, key: Seq<char>, value: JsonValue)
    -> Seq<(Seq<char>, JsonValue)> {
    match member_index(members, key) {
        Some(p) => members.update(p, (key, value)),
        None => members.push((key, value)),
    }
}

/// No two members have the same key.
pub open spec fn unique_keys(members: Seq<(Seq<char>, JsonValue)>) -> bool {
    forall|i: int, j: int|
        0 <= i < members.len() && 0 <= j < members.len() && (#[trigger] members[i]).0 == (
        #[trigger] members[j]).0 ==> i == j
}

/// The whole number that `numeral` writes, if it is digits behind an
/// optional minus sign and nothing else.
pub open spec fn whole_value(numeral: Seq<char>) -> Option<int> {
    if numeral.len() > 1 && numeral[0] == '-' && text::all_digits(numeral.skip(1)) {
        Some(-text::digits_value(numeral.skip(1)))
    } else if numeral.len() > 0 && text::all_digits(numeral) {
        Some(text::digits_value(numeral))
    } else {
        None
    }
}

/// The `i32` that `numeral` writes, if it writes a whole number in range.
pub open spec fn numeral_as_i32(numeral: Seq<char>) -> Option<i32> {
    match whole_value(numeral) {
        Some(v) => if i32::MIN <= v <= i32::MAX {
            Some(v as i32)
        } else {
            None
        },
        None => None,
    }
}

impl JsonValue {
    /// The text, if the value is a string.
    pub open spec fn as_text(self) -> Option<Seq<char>> {
        match self {
            JsonValue::Text(t) => Some(t),
            _ => None,
        }
    }

    /// The truth value, if the value is `true` or `false`.
    pub open spec fn as_boolean(self) -> Option<bool> {
        match self {
            JsonValue::Boolean(b) => Some(b),
            _ => None,
        }
    }

    /// The number, if the value is a whole number that an `i32` holds.
    pub open spec fn as_i32(self) -> Option<i32> {
        match self {
            JsonValue::Number(n) => numeral_as_i32(n),
            _ => None,
        }
    }

    /// The members, if the value is an object.
    pub open spec fn as_object(self) -> Option<Seq<(Seq<char>, JsonValue)>> {
        match self {
            JsonValue::Object(m) => Some(m),
            _ => None,
        }
    }

    /// The elements, if the value is an array.
    pub open spec fn as_array(self) -> Option<Seq<JsonValue>> {
        match self {
            JsonValue::Array(a) => Some(a),
            _ => None,
        }
    }

    /// Every number in the value is a JSON numeral, and no object in it has
    /// two members of one key.
    pub open spec fn well_formed(self) -> bool
        decreases self,
    {
        match self {
            JsonValue::Null => true,
            JsonValue::Boolean(_) => true,
            JsonValue::Number(numeral) => crate::server::json::grammar::is_numeral(numeral),
            JsonValue::Text(_) => true,
            JsonValue::Array(items) => forall|i: int|
                0 <= i < items.len() ==> (#[trigger] items[i]).well_formed(),
            JsonValue::Object(members) => {
                &&& unique_keys(members)
                &&& forall|i: int|
                    0 <= i < members.len() ==> (#[trigger] members[i]).1.well_formed()
            },
        }
    }
}

} // verus!
