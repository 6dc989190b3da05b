//! The parsed request: its method, path, header fields and body.

use vstd::prelude::*;
use vstd::string::*;
use vstd::utf8::*;
use crate::server::json::grammar;
use crate::server::json::model::JsonValue;
use crate::server::json::tree::{JsonArray, JsonError, JsonObject};
use crate::server::reqres::RequestType;
use crate::server::text;

verus! {

/// Why the bytes of a connection did not give a request. A connection whose
/// bytes give none is given up without an answer.
#[derive(Clone, Copy, Debug, PartialEq, Eq, Structural)]
pub enum ParseError {
    /// There is no request line, or it has no path behind the method.
    MalformedRequestLine,
    /// A header line has no `": "` between a name and a value.
    MissingHeaderDelimiter,
    /// The stream ended before the body had its declared length.
    TruncatedBody,
    /// A body that is declared as text or JSON is not UTF-8.
    InvalidEncoding,
}

/// The model of a body.
pub enum BodyValue {
    Binary(Seq<u8>),
    JsonObject(Seq<(Seq<char>, JsonValue)>),
    JsonArray(Seq<JsonValue>),
    PlainText(Seq<char>),
    InvalidJson(JsonError),
    Absent,
}

/// The body of a request, decoded as its declared type asks. A body that is
/// declared as JSON and is no JSON object or array is `InvalidJson`, with
/// the reason: the handler sees that a body came and that it could not be
/// read, and decides what to answer.
#[derive(Debug)]
pub enum BodyContents {
    Binary(Vec<u8>),
    JsonObject(JsonObject),
    JsonArray(JsonArray),
    PlainText(String),
    InvalidJson(JsonError),
    Absent,
}

impl View for BodyContents {
    type V = BodyValue;

    open spec fn view(&self) -> BodyValue {
        match self {
            BodyContents::Binary(b) => BodyValue::Binary(b@),
            BodyContents::JsonObject(o) => BodyValue::JsonObject(o@),
            BodyContents::JsonArray(a) => BodyValue::JsonArray(a@),
            BodyContents::PlainText(t) => BodyValue::PlainText(t@),
            BodyContents::InvalidJson(e) => BodyValue::InvalidJson(*e),
            BodyContents::Absent => BodyValue::Absent,
        }
    }
}

impl BodyContents {
    /// The declared type is one of the two JSON types.
    pub open spec fn is_json_type(mime: Seq<char>) -> bool {
        mime == "application/json"@ || mime == "application/ld+json"@
    }

    /// The body that the bytes `data` are under the declared type `mime`.
    ///
    /// A JSON type reads the bytes as UTF-8 text and the text as an array if
    /// its first character is `[`, as an object else; where the text is
    /// neither, the body is `InvalidJson`. `text/plain` reads the bytes as
    /// UTF-8 text. `application/octet-stream` and every other type, the empty
    /// one too, keep the bytes. Bytes that should be UTF-8 and are not give
    /// no body.
    pub open spec fn resolve(mime: Seq<char>, data: Seq<u8>) -> Result<BodyValue, ParseError> {
        if Self::is_json_type(mime) {
            if !valid_utf8(data) {
                Err(ParseError::InvalidEncoding)
            } else if decode_utf8(data).len() > 0 && decode_utf8(data)[0] == '[' {
                match JsonArray::read(decode_utf8(data)) {
                    Ok(items) => Ok(BodyValue::JsonArray(items)),
                    Err(e) => Ok(BodyValue::InvalidJson(e)),
                }
            } else {
                match JsonObject::read(decode_utf8(data)) {
                    Ok(members) => Ok(BodyValue::JsonObject(members)),
                    Err(e) => Ok(BodyValue::InvalidJson(e)),
                }
            }
        } else if mime == "text/plain"@ {
            if valid_utf8(data) {
                Ok(BodyValue::PlainText(decode_utf8(data)))
            } else {
                Err(ParseError::InvalidEncoding)
            }
        } else {
            Ok(BodyValue::Binary(data))
        }
    }

    /// Each declared type gives its kind of body: `application/octet-stream`
    /// the bytes; a JSON type the array that the text writes where the text
    /// begins with `[`, the object that it writes where it does not, and
    /// `InvalidJson` where it writes neither; `text/plain` the text; any other
    /// type the bytes. Only bytes that should be UTF-8 and are not give no
    /// body.
    pub proof fn lemma_declared_type_gives_kind(mime: Seq<char>, data: Seq<u8>)
        ensures
            mime == "application/octet-stream"@ ==> Self::resolve(mime, data) == Ok::<
                _,
                ParseError,
            >(BodyValue::Binary(data)),
            mime == "text/plain"@ && valid_utf8(data) ==> Self::resolve(mime, data) == Ok::<
                _,
                ParseError,
            >(BodyValue::PlainText(decode_utf8(data))),
            !Self::is_json_type(mime) && mime != "text/plain"@ ==> Self::resolve(mime, data)
                == Ok::<_, ParseError>(BodyValue::Binary(data)),
            Self::is_json_type(mime) && valid_utf8(data) ==> {
                let text = decode_utf8(data);
                let begins_array = text.len() > 0 && text[0] == '[';
                match Self::resolve(mime, data) {
                    Ok(BodyValue::JsonArray(items)) => begins_array && grammar::parse_document(
                        text,
                    ) == Some(JsonValue::Array(items)),
                    Ok(BodyValue::JsonObject(members)) => !begins_array
                        && grammar::parse_document(text) == Some(JsonValue::Object(members)),
                    Ok(BodyValue::InvalidJson(_)) => match grammar::parse_document(text) {
                        Some(JsonValue::Array(_)) => !begins_array,
                        Some(JsonValue::Object(_)) => begins_array,
                        _ => true,
                    },
                    _ => false,
                }
            },
            Self::resolve(mime, data) is Err ==> !valid_utf8(data) && (Self::is_json_type(mime)
                || mime == "text/plain"@),
    {
        reveal_strlit("application/octet-stream");
        reveal_strlit("application/json");
        reveal_strlit("application/ld+json");
        reveal_strlit("text/plain");
        assert("application/octet-stream"@.len() == 24);
        assert("application/json"@.len() == 16);
        assert("application/ld+json"@.len() == 19);
        assert("text/plain"@.len() == 10);
    }

    /// Decodes the bytes of a body as the declared type `mime` asks.
    pub fn type_from_mime(mime: &str, data: Vec<u8>) -> (r: Result<BodyContents, ParseError>)
        ensures
            match r {
                Ok(body) => Self::resolve(mime@, data@) == Ok::<_, ParseError>(body@),
                Err(e) => Self::resolve(mime@, data@) == Err::<BodyValue, _>(e),
            },
    {
        if text::str_eq(mime, "application/json") || text::str_eq(mime, "application/ld+json") {
            match text::string_from_utf8(data) {
                Some(contents_string) => {
                    if !contents_string.as_str().is_empty() && contents_string.as_str().get_char(0)
                        == '[' {
                        match JsonArray::from_string(contents_string) {
                            Ok(a) => Ok(BodyContents::JsonArray(a)),
                            Err(e) => Ok(BodyContents::InvalidJson(e)),
                        }
                    } else {
                        match JsonObject::from_string(contents_string) {
                            Ok(o) => Ok(BodyContents::JsonObject(o)),
                            Err(e) => Ok(BodyContents::InvalidJson(e)),
                        }
                    }
                },
                None => Err(ParseError::InvalidEncoding),
            }
        } else if text::str_eq(mime, "text/plain") {
            match text::string_from_utf8(data) {
                Some(contents_string) => Ok(BodyContents::PlainText(contents_string)),
                None => Err(ParseError::InvalidEncoding),
            }
        } else {
            Ok(BodyContents::Binary(data))
        }
    }

    /// The object, if the body is a JSON object.
    pub fn as_json_object(&self) -> (r: Option<&JsonObject>)
        ensures
            match r {
                Some(o) => self@ == BodyValue::JsonObject(o@),
                None => !(self@ is JsonObject),
            },
    {
        match self {
            BodyContents::JsonObject(j) => Some(j),
            _ => None,
        }
    }

    /// The array, if the body is a JSON array.
    pub fn as_json_array(&self) -> (r: Option<&JsonArray>)
        ensures
            match r {
                Some(a) => self@ == BodyValue::JsonArray(a@),
                None => !(self@ is JsonArray),
            },
    {
        match self {
            BodyContents::JsonArray(j) => Some(j),
            _ => None,
        }
    }
}

/// The header fields of a request: names with their values. A name is kept
/// as it was received, and a name that is written again takes the later
/// value.
#[derive(Debug)]
pub struct Headers {
    fields: Vec<(String, String)>,
}

/// The map that the fields `fields` make when they are written one after
/// the other.
pub open spec fn fields_map(fields: Seq<(Seq<char>, Seq<char>)>) -> Map<Seq<char>, Seq<char>>
    decreases fields.len(),
{
    if fields.len() == 0 {
        Map::empty()
    } else {
        fields_map(fields.drop_last()).insert(fields.last().0, fields.last().1)
    }
}

impl Headers {
    /// The fields in the order in which they were written.
    pub closed spec fn written(&self) -> Seq<(Seq<char>, Seq<char>)> {
        Seq::new(self.fields.len() as nat, |i: int| (self.fields[i].0@, self.fields[i].1@))
    }
}

impl View for Headers {
    type V = Map<Seq<char>, Seq<char>>;

    open spec fn view(&self) -> Map<Seq<char>, Seq<char>> {
        fields_map(self.written())
    }
}

impl Headers {
    /// No fields.
    pub fn new() -> (h: Headers)
        ensures
            h@ == Map::<Seq<char>, Seq<char>>::empty(),
    {
        let h = Headers { fields: Vec::new() };
        assert(h.written() =~= Seq::empty());
        h
    }

    /// Gives the field `name` the value `value`.
    pub fn insert(&mut self, name: String, value: String)
        ensures
            final(self)@ == old(self)@.insert(name@, value@),
    {
        self.fields.push((name, value));
        assert(final(self).written().drop_last() =~= old(self).written());
        assert(final(self).written().last() == (name@, value@));
    }

    /// The value of the field `name`.
    pub fn get(&self, name: &str) -> (r: Option<&String>)
        ensures
            match r {
                Some(v) => self@.contains_key(name@) && self@[name@] == v@,
                None => !self@.contains_key(name@),
            },
    {
        let ghost all = self.written();
        let mut i: usize = self.fields.len();
        assert(all.take(i as int) =~= all);
        while i > 0
            invariant
                i <= self.fields.len(),
                all == self.written(),
                fields_map(all).contains_key(name@) == fields_map(all.take(i as int)).contains_key(
                    name@,
                ),
                fields_map(all).contains_key(name@) ==> fields_map(all)[name@] == fields_map(
                    all.take(i as int),
                )[name@],
            decreases i,
        {
            i -= 1;
            assert(all.take(i + 1).drop_last() =~= all.take(i as int));
            assert(all.take(i + 1).last() == all[i as int]);
            if text::str_eq(self.fields[i].0.as_str(), name) {
                return Some(&self.fields[i].1);
            }
        }
        assert(all.take(0) =~= Seq::empty());
        None
    }

    /// Whether there is a field `name`.
    pub fn contains(&self, name: &str) -> (r: bool)
        ensures
            r == self@.contains_key(name@),
    {
        self.get(name).is_some()
    }
}

/// The model of a request.
pub struct RequestValue {
    pub request_type: RequestType,
    pub path: Seq<char>,
    pub headers: Map<Seq<char>, Seq<char>>,
    pub body: Option<BodyValue>,
}

/// A request as the server hands it to a handler.
#[derive(Debug)]
pub struct Request {
    pub request_type: RequestType,
    pub path: String,
    pub headers: Headers,
    pub body: Option<BodyContents>,
}

impl View for Request {
    type V = RequestValue;

    open spec fn view(&self) -> RequestValue {
        RequestValue {
            request_type: self.request_type,
            path: self.path@,
            headers: self.headers@,
            body: match self.body {
                Some(b) => Some(b@),
                None => None,
            },
        }
    }
}

impl Request {
    /// Whether the request came with a body.
    pub fn has_data(&self) -> (b: bool)
        ensures
            b == self@.body.is_some(),
    {
        return self.body.is_some();
    }
}

} // verus!
