//! The response that a handler fills in, and the method of a request.

use vstd::prelude::*;
use vstd::string::*;
use vstd::utf8::*;
use crate::server::status::ResponseStatusCode;
use crate::server::text;

verus! {

/// The method of a request or of a route. `Any` stands for every method: a
/// route registered under it answers requests of all methods, and a request
/// whose method token is none of the four known ones is filed under it.
#[derive(Clone, Copy, Debug, PartialEq, Eq, Structural)]
pub enum RequestType {
    Get,
    Post,
    Put,
    Delete,
    Any,
}

impl RequestType {
    /// The method that a method token names.
    pub open spec fn of_token(method: Seq<char>) -> RequestType {
        if method == "GET"@ {
            RequestType::Get
        } else if method == "POST"@ {
            RequestType::Post
        } else if method == "PUT"@ {
            RequestType::Put
        } else if method == "DELETE"@ {
            RequestType::Delete
        } else {
            RequestType::Any
        }
    }

    /// The token that names the method.
    pub open spec fn token(&self) -> Seq<char> {
        match self {
            RequestType::Get => "GET"@,
            RequestType::Post => "POST"@,
            RequestType::Put => "PUT"@,
            RequestType::Delete => "DELETE"@,
            RequestType::Any => "ANY"@,
        }
    }

    pub open spec fn spec_is_any(&self) -> bool {
        *self == RequestType::Any
    }

    /// The method that the token `method` names: one of the four known
    /// methods on an exact match, `Any` for every other token.
    pub fn type_for_method(method: &str) -> (t: RequestType)
        ensures
            t == RequestType::of_token(method@),
    {
        if text::str_eq(method, "GET") {
            RequestType::Get
        } else if text::str_eq(method, "POST") {
            RequestType::Post
        } else if text::str_eq(method, "PUT") {
            RequestType::Put
        } else if text::str_eq(method, "DELETE") {
            RequestType::Delete
        } else {
            RequestType::Any
        }
    }

    /// Whether this is the method that stands for every method.
    #[verifier::when_used_as_spec(spec_is_any)]
    pub fn is_any(&self) -> (b: bool)
        ensures
            b == self.spec_is_any(),
    {
        match self {
            RequestType::Get => false,
            RequestType::Post => false,
            RequestType::Put => false,
            RequestType::Delete => false,
            RequestType::Any => true,
        }
    }

    /// The token that names the method.
    pub fn to_string(&self) -> (s: String)
        ensures
            s@ == self.token(),
    {
        match self {
            RequestType::Get => String::from_str("GET"),
            RequestType::Post => String::from_str("POST"),
            RequestType::Put => String::from_str("PUT"),
            RequestType::Delete => String::from_str("DELETE"),
            RequestType::Any => String::from_str("ANY"),
        }
    }

    /// Naming a method and reading the name back gives the method again.
    pub proof fn lemma_token_names_method(t: RequestType)
        ensures
            RequestType::of_token(t.token()) == t,
    {
        reveal_strlit("GET");
        reveal_strlit("POST");
        reveal_strlit("PUT");
        reveal_strlit("DELETE");
        reveal_strlit("ANY");
        assert("GET"@.len() == 3 && "POST"@.len() == 4 && "PUT"@.len() == 3 && "DELETE"@.len() == 6);
        assert("GET"@[0] == 'G' && "PUT"@[0] == 'P' && "ANY"@[0] == 'A');
    }
}

/// The failure of a handler: a status, a message, and whether the message
/// alone is the body of the response (`override_output`) or is wrapped in a
/// JSON object with the numeric code.
#[derive(Debug)]
pub struct RouteError {
    pub message: String,
    pub status_code: ResponseStatusCode,
    pub override_output: bool,
}

impl RouteError {
    /// The body of the response that reports the failure.
    pub open spec fn output_text(&self) -> Seq<char> {
        if self.override_output {
            self.message@
        } else {
            "{\"code\":\""@ + text::decimal(self.status_code.spec_code() as nat)
                + "\",\"message\":\""@ + self.message@ + "\"}"@
        }
    }

    /// A failure with status `BadRequest` whose message is wrapped.
    pub fn bad_request(msg: &str) -> (e: RouteError)
        ensures
            e.message@ == msg@,
            e.status_code == ResponseStatusCode::BadRequest,
            !e.override_output,
    {
        RouteError {
            message: String::from_str(msg),
            status_code: ResponseStatusCode::BadRequest,
            override_output: false,
        }
    }

    /// The body of the response that reports the failure: the message as it
    /// is, or `{"code":"<code>","message":"<message>"}`.
    pub fn output(&self) -> (o: String)
        ensures
            o@ == self.output_text(),
    {
        if self.override_output {
            return self.message.clone();
        }
        let mut o = String::from_str("{\"code\":\"");
        text::push_decimal(&mut o, self.status_code.code() as u64);
        o.append("\",\"message\":\"");
        o.append(self.message.as_str());
        o.append("\"}");
        o
    }
}

/// What can be sent as the body of a response.
pub trait ToBytes: Sized {
    /// The bytes that are sent.
    spec fn sent(&self) -> Seq<u8>;

    /// The value as the bytes of a body.
    fn send(self) -> (bytes: Vec<u8>)
        ensures
            bytes@ == self.sent(),
    ;
}

impl ToBytes for String {
    open spec fn sent(&self) -> Seq<u8> {
        encode_utf8(self@)
    }

    fn send(self) -> (bytes: Vec<u8>) {
        self.as_str().as_bytes_vec()
    }
}

impl ToBytes for &str {
    open spec fn sent(&self) -> Seq<u8> {
        encode_utf8(self@)
    }

    fn send(self) -> (bytes: Vec<u8>) {
        self.as_bytes_vec()
    }
}

/// What a handler answers with: a status and the bytes of a body.
pub struct Response {
    data: Vec<u8>,
    status: ResponseStatusCode,
}

impl Response {
    /// The bytes of the body.
    pub closed spec fn body(&self) -> Seq<u8> {
        self.data@
    }

    /// The status.
    pub closed spec fn spec_status(&self) -> ResponseStatusCode {
        self.status
    }

    /// The status line and the empty line after it, as text.
    pub open spec fn header_text(&self) -> Seq<char> {
        "HTTP/1.1 "@ + self.spec_status().http_text() + "\r\n\r\n"@
    }

    /// A response with status `Okay` and an empty body.
    pub fn new() -> (r: Response)
        ensures
            r.body() == Seq::<u8>::empty(),
            r.spec_status() == ResponseStatusCode::Okay,
    {
        Response { data: Vec::new(), status: ResponseStatusCode::Okay }
    }

    /// The bytes of the status line and of the empty line that ends the
    /// header block. No header field is written.
    pub fn header(&self) -> (bytes: Vec<u8>)
        ensures
            bytes@ == encode_utf8(self.header_text()),
    {
        let mut output = String::from_str("HTTP/1.1 ");
        let status = self.status.http_string();
        output.append(status.as_str());
        output.append("\r\n\r\n");
        output.as_str().as_bytes_vec()
    }

    /// The status.
    #[verifier::when_used_as_spec(spec_status)]
    pub fn status(&self) -> (s: ResponseStatusCode)
        ensures
            s == self.spec_status(),
    {
        self.status
    }

    /// Replaces the status.
    pub fn set_status(&mut self, status: ResponseStatusCode)
        ensures
            final(self).spec_status() == status,
            final(self).body() == old(self).body(),
    {
        self.status = status;
    }

    /// Replaces the whole body with the UTF-8 encoding of `s`.
    pub fn send_string(&mut self, s: &str)
        ensures
            final(self).body() == encode_utf8(s@),
            final(self).spec_status() == old(self).spec_status(),
    {
        self.data = s.as_bytes_vec();
    }

    /// Replaces the whole body with `bytes`.
    pub fn send_bytes(&mut self, bytes: Vec<u8>)
        ensures
            final(self).body() == bytes@,
            final(self).spec_status() == old(self).spec_status(),
    {
        self.data = bytes;
    }

    /// The bytes of the body.
    pub fn bytes(self) -> (data: Vec<u8>)
        ensures
            data@ == self.body(),
    {
        self.data
    }
}

} // verus!
