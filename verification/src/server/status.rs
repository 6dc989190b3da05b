//! The table of HTTP status codes and their reason phrases.

use vstd::prelude::*;
use vstd::string::*;
use crate::server::text;

verus! {

/// The status of a response.
#[derive(Clone, Copy, Debug, PartialEq, Eq, Structural)]
pub enum ResponseStatusCode {
    Okay,
    Created,
    Accepted,
    NonAuthoritativeInformation,
    NoContent,
    ResetContent,
    PartialContent,
    MultipleChoices,
    MovedPermanently,
    Found,
    SeeOther,
    NotModified,
    TemporaryRedirect,
    PermanentRedirect,
    BadRequest,
    Unauthorized,
    PaymentRequired,
    Forbidden,
    NotFound,
    MethodNotAllowed,
    NotAcceptable,
    RequestTimeout,
    Conflict,
    Gone,
    LengthRequired,
    PreconditionFailed,
    PayloadTooLarge,
    UriTooLong,
    UnsupportedMediaType,
    RangeNotSatisfiable,
    ExpectationFailed,
    ImATeapot,
    TooEarly,
    PreconditionRequired,
    TooManyRequests,
    InternalServerError,
    NotImplemented,
    BadGateway,
    ServiceUnavailable,
    GatewayTimeout,
    HttpVersionNotSupported,
}

impl ResponseStatusCode {
    /// The numeric code of the status.
    pub open spec fn spec_code(&self) -> i32 {
        match self {
            ResponseStatusCode::Okay => 200,
            ResponseStatusCode::Created => 201,
            ResponseStatusCode::Accepted => 202,
            ResponseStatusCode::NonAuthoritativeInformation => 203,
            ResponseStatusCode::NoContent => 204,
            ResponseStatusCode::ResetContent => 205,
            ResponseStatusCode::PartialContent => 206,
            ResponseStatusCode::MultipleChoices => 300,
            ResponseStatusCode::MovedPermanently => 301,
            ResponseStatusCode::Found => 302,
            ResponseStatusCode::SeeOther => 303,
            ResponseStatusCode::NotModified => 304,
            ResponseStatusCode::TemporaryRedirect => 307,
            ResponseStatusCode::PermanentRedirect => 308,
            ResponseStatusCode::BadRequest => 400,
            ResponseStatusCode::Unauthorized => 401,
            ResponseStatusCode::PaymentRequired => 402,
            ResponseStatusCode::Forbidden => 403,
            ResponseStatusCode::NotFound => 404,
            ResponseStatusCode::MethodNotAllowed => 405,
            ResponseStatusCode::NotAcceptable => 406,
            ResponseStatusCode::RequestTimeout => 408,
            ResponseStatusCode::Conflict => 409,
            ResponseStatusCode::Gone => 410,
            ResponseStatusCode::LengthRequired => 411,
            ResponseStatusCode::PreconditionFailed => 412,
            ResponseStatusCode::PayloadTooLarge => 413,
            ResponseStatusCode::UriTooLong => 414,
            ResponseStatusCode::UnsupportedMediaType => 415,
            ResponseStatusCode::RangeNotSatisfiable => 416,
            ResponseStatusCode::ExpectationFailed => 417,
            ResponseStatusCode::ImATeapot => 418,
            ResponseStatusCode::TooEarly => 425,
            ResponseStatusCode::PreconditionRequired => 428,
            ResponseStatusCode::TooManyRequests => 429,
            ResponseStatusCode::InternalServerError => 500,
            ResponseStatusCode::NotImplemented => 501,
            ResponseStatusCode::BadGateway => 502,
            ResponseStatusCode::ServiceUnavailable => 503,
            ResponseStatusCode::GatewayTimeout => 504,
            ResponseStatusCode::HttpVersionNotSupported => 505,
        }
    }

    /// The reason phrase that goes with the status on the wire.
    pub open spec fn spec_reason(&self) -> &'static str {
        match self {
            ResponseStatusCode::Okay => "OK",
            ResponseStatusCode::Created => "Created",
            ResponseStatusCode::Accepted => "Accepted",
            ResponseStatusCode::NonAuthoritativeInformation => "Non-Authoritative Information",
            ResponseStatusCode::NoContent => "No Content",
            ResponseStatusCode::ResetContent => "Reset Content",
            ResponseStatusCode::PartialContent => "Partial Content",
            ResponseStatusCode::MultipleChoices => "Multiple Choices",
            ResponseStatusCode::MovedPermanently => "Moved Permanently",
            ResponseStatusCode::Found => "Found",
            ResponseStatusCode::SeeOther => "See Other",
            ResponseStatusCode::NotModified => "Not Modified",
            ResponseStatusCode::TemporaryRedirect => "Temporary Redirect",
            ResponseStatusCode::PermanentRedirect => "Permanent Redirect",
            ResponseStatusCode::BadRequest => "Bad Request",
            ResponseStatusCode::Unauthorized => "Unauthorized",
            ResponseStatusCode::PaymentRequired => "Payment Required",
            ResponseStatusCode::Forbidden => "Forbidden",
            ResponseStatusCode::NotFound => "Not Found",
            ResponseStatusCode::MethodNotAllowed => "Method Not Allowed",
            ResponseStatusCode::NotAcceptable => "Not Acceptable",
            ResponseStatusCode::RequestTimeout => "Request Timeout",
            ResponseStatusCode::Conflict => "Conflict",
            ResponseStatusCode::Gone => "Gone",
            ResponseStatusCode::LengthRequired => "Length Required",
            ResponseStatusCode::PreconditionFailed => "Precondition Failed",
            ResponseStatusCode::PayloadTooLarge => "Payload Too Large",
            ResponseStatusCode::UriTooLong => "URI Too Long",
            ResponseStatusCode::UnsupportedMediaType => "Unsupported Media Type",
            ResponseStatusCode::RangeNotSatisfiable => "Range Not Satisfiable",
            ResponseStatusCode::ExpectationFailed => "Expectation Failed",
            ResponseStatusCode::ImATeapot => "I'm a teapot",
            ResponseStatusCode::TooEarly => "Too Early",
            ResponseStatusCode::PreconditionRequired => "Precondition Required",
            ResponseStatusCode::TooManyRequests => "Too Many Requests",
            ResponseStatusCode::InternalServerError => "Internal Server Error",
            ResponseStatusCode::NotImplemented => "Not Implemented",
            ResponseStatusCode::BadGateway => "Bad Gateway",
            ResponseStatusCode::ServiceUnavailable => "Service Unavailable",
            ResponseStatusCode::GatewayTimeout => "Gateway Timeout",
            ResponseStatusCode::HttpVersionNotSupported => "HTTP Version Not Supported",
        }
    }

    /// The status as it stands in a status line: the code in decimal, a
    /// space, the reason phrase.
    pub open spec fn http_text(&self) -> Seq<char> {
        text::decimal(self.spec_code() as nat) + seq![' '] + self.spec_reason()@
    }

    /// The numeric code of the status.
    #[verifier::when_used_as_spec(spec_code)]
    pub fn code(&self) -> (c: i32)
        ensures
            c == self.spec_code(),
            100 <= c <= 599,
    {
        match self {
            ResponseStatusCode::Okay => 200,
            ResponseStatusCode::Created => 201,
            ResponseStatusCode::Accepted => 202,
            ResponseStatusCode::NonAuthoritativeInformation => 203,
            ResponseStatusCode::NoContent => 204,
            ResponseStatusCode::ResetContent => 205,
            ResponseStatusCode::PartialContent => 206,
            ResponseStatusCode::MultipleChoices => 300,
            ResponseStatusCode::MovedPermanently => 301,
            ResponseStatusCode::Found => 302,
            ResponseStatusCode::SeeOther => 303,
            ResponseStatusCode::NotModified => 304,
            ResponseStatusCode::TemporaryRedirect => 307,
            ResponseStatusCode::PermanentRedirect => 308,
            ResponseStatusCode::BadRequest => 400,
            ResponseStatusCode::Unauthorized => 401,
            ResponseStatusCode::PaymentRequired => 402,
            ResponseStatusCode::Forbidden => 403,
            ResponseStatusCode::NotFound => 404,
            ResponseStatusCode::MethodNotAllowed => 405,
            ResponseStatusCode::NotAcceptable => 406,
            ResponseStatusCode::RequestTimeout => 408,
            ResponseStatusCode::Conflict => 409,
            ResponseStatusCode::Gone => 410,
            ResponseStatusCode::LengthRequired => 411,
            ResponseStatusCode::PreconditionFailed => 412,
            ResponseStatusCode::PayloadTooLarge => 413,
            ResponseStatusCode::UriTooLong => 414,
            ResponseStatusCode::UnsupportedMediaType => 415,
            ResponseStatusCode::RangeNotSatisfiable => 416,
            ResponseStatusCode::ExpectationFailed => 417,
            ResponseStatusCode::ImATeapot => 418,
            ResponseStatusCode::TooEarly => 425,
            ResponseStatusCode::PreconditionRequired => 428,
            ResponseStatusCode::TooManyRequests => 429,
            ResponseStatusCode::InternalServerError => 500,
            ResponseStatusCode::NotImplemented => 501,
            ResponseStatusCode::BadGateway => 502,
            ResponseStatusCode::ServiceUnavailable => 503,
            ResponseStatusCode::GatewayTimeout => 504,
            ResponseStatusCode::HttpVersionNotSupported => 505,
        }
    }

    /// The reason phrase that goes with the status on the wire.
    #[verifier::when_used_as_spec(spec_reason)]
    pub fn reason(&self) -> (r: &'static str)
        ensures
            r == self.spec_reason(),
    {
        match self {
            ResponseStatusCode::Okay => "OK",
            ResponseStatusCode::Created => "Created",
            ResponseStatusCode::Accepted => "Accepted",
            ResponseStatusCode::NonAuthoritativeInformation => "Non-Authoritative Information",
            ResponseStatusCode::NoContent => "No Content",
            ResponseStatusCode::ResetContent => "Reset Content",
            ResponseStatusCode::PartialContent => "Partial Content",
            ResponseStatusCode::MultipleChoices => "Multiple Choices",
            ResponseStatusCode::MovedPermanently => "Moved Permanently",
            ResponseStatusCode::Found => "Found",
            ResponseStatusCode::SeeOther => "See Other",
            ResponseStatusCode::NotModified => "Not Modified",
            ResponseStatusCode::TemporaryRedirect => "Temporary Redirect",
            ResponseStatusCode::PermanentRedirect => "Permanent Redirect",
            ResponseStatusCode::BadRequest => "Bad Request",
            ResponseStatusCode::Unauthorized => "Unauthorized",
            ResponseStatusCode::PaymentRequired => "Payment Required",
            ResponseStatusCode::Forbidden => "Forbidden",
            ResponseStatusCode::NotFound => "Not Found",
            ResponseStatusCode::MethodNotAllowed => "Method Not Allowed",
            ResponseStatusCode::NotAcceptable => "Not Acceptable",
            ResponseStatusCode::RequestTimeout => "Request Timeout",
            ResponseStatusCode::Conflict => "Conflict",
            ResponseStatusCode::Gone => "Gone",
            ResponseStatusCode::LengthRequired => "Length Required",
            ResponseStatusCode::PreconditionFailed => "Precondition Failed",
            ResponseStatusCode::PayloadTooLarge => "Payload Too Large",
            ResponseStatusCode::UriTooLong => "URI Too Long",
            ResponseStatusCode::UnsupportedMediaType => "Unsupported Media Type",
            ResponseStatusCode::RangeNotSatisfiable => "Range Not Satisfiable",
            ResponseStatusCode::ExpectationFailed => "Expectation Failed",
            ResponseStatusCode::ImATeapot => "I'm a teapot",
            ResponseStatusCode::TooEarly => "Too Early",
            ResponseStatusCode::PreconditionRequired => "Precondition Required",
            ResponseStatusCode::TooManyRequests => "Too Many Requests",
            ResponseStatusCode::InternalServerError => "Internal Server Error",
            ResponseStatusCode::NotImplemented => "Not Implemented",
            ResponseStatusCode::BadGateway => "Bad Gateway",
            ResponseStatusCode::ServiceUnavailable => "Service Unavailable",
            ResponseStatusCode::GatewayTimeout => "Gateway Timeout",
            ResponseStatusCode::HttpVersionNotSupported => "HTTP Version Not Supported",
        }
    }

    /// The status as it stands in a status line, such as `404 Not Found`.
    pub fn http_string(&self) -> (s: String)
        ensures
            s@ == self.http_text(),
    {
        let mut s = String::new();
        text::push_decimal(&mut s, self.code() as u64);
        text::push_char(&mut s, ' ');
        s.append(self.reason());
        assert(s@ == self.http_text());
        s
    }
}

} // verus!
