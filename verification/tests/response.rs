use airline::server::queue::{default_error, default_thread_count, render, respond, settle};
use airline::server::{
    Headers, Request, RequestType, Response, ResponseStatusCode, RouteError, ToBytes,
};

fn request(path: &str) -> Request {
    Request {
        request_type: RequestType::Get,
        path: path.to_string(),
        headers: Headers::new(),
        body: None,
    }
}

#[test]
fn new_response_is_ok_and_empty() {
    let res = Response::new();
    assert_eq!(res.status(), ResponseStatusCode::Okay);
    assert_eq!(res.header(), b"HTTP/1.1 200 OK\r\n\r\n".to_vec());
    assert_eq!(res.bytes(), Vec::<u8>::new());
}

#[test]
fn set_status_changes_the_status_line_only() {
    let mut res = Response::new();
    res.send_string("kept");
    res.set_status(ResponseStatusCode::ImATeapot);
    assert_eq!(res.status(), ResponseStatusCode::ImATeapot);
    assert_eq!(res.header(), b"HTTP/1.1 418 I'm a teapot\r\n\r\n".to_vec());
    assert_eq!(res.bytes(), b"kept".to_vec());
}

#[test]
fn a_second_payload_discards_the_first() {
    let mut res = Response::new();
    res.send_string("first payload");
    res.send_bytes(vec![1, 2, 3]);
    res.send_string("é");
    assert_eq!(res.bytes(), vec![0xc3, 0xa9]);
    let mut res = Response::new();
    res.send_string("text");
    res.send_bytes(vec![0, 255]);
    assert_eq!(res.bytes(), vec![0, 255]);
}

#[test]
fn status_table() {
    let table: Vec<(ResponseStatusCode, i32, &str)> = vec![
        (ResponseStatusCode::Okay, 200, "200 OK"),
        (ResponseStatusCode::Created, 201, "201 Created"),
        (ResponseStatusCode::Accepted, 202, "202 Accepted"),
        (
            ResponseStatusCode::NonAuthoritativeInformation,
            203,
            "203 Non-Authoritative Information",
        ),
        (ResponseStatusCode::NoContent, 204, "204 No Content"),
        (ResponseStatusCode::ResetContent, 205, "205 Reset Content"),
        (ResponseStatusCode::PartialContent, 206, "206 Partial Content"),
        (ResponseStatusCode::MultipleChoices, 300, "300 Multiple Choices"),
        (ResponseStatusCode::MovedPermanently, 301, "301 Moved Permanently"),
        (ResponseStatusCode::Found, 302, "302 Found"),
        (ResponseStatusCode::SeeOther, 303, "303 See Other"),
        (ResponseStatusCode::NotModified, 304, "304 Not Modified"),
        (ResponseStatusCode::TemporaryRedirect, 307, "307 Temporary Redirect"),
        (ResponseStatusCode::PermanentRedirect, 308, "308 Permanent Redirect"),
        (ResponseStatusCode::BadRequest, 400, "400 Bad Request"),
        (ResponseStatusCode::Unauthorized, 401, "401 Unauthorized"),
        (ResponseStatusCode::PaymentRequired, 402, "402 Payment Required"),
        (ResponseStatusCode::Forbidden, 403, "403 Forbidden"),
        (ResponseStatusCode::NotFound, 404, "404 Not Found"),
        (ResponseStatusCode::MethodNotAllowed, 405, "405 Method Not Allowed"),
        (ResponseStatusCode::NotAcceptable, 406, "406 Not Acceptable"),
        (ResponseStatusCode::RequestTimeout, 408, "408 Request Timeout"),
        (ResponseStatusCode::Conflict, 409, "409 Conflict"),
        (ResponseStatusCode::Gone, 410, "410 Gone"),
        (ResponseStatusCode::LengthRequired, 411, "411 Length Required"),
        (ResponseStatusCode::PreconditionFailed, 412, "412 Precondition Failed"),
        (ResponseStatusCode::PayloadTooLarge, 413, "413 Payload Too Large"),
        (ResponseStatusCode::UriTooLong, 414, "414 URI Too Long"),
        (ResponseStatusCode::UnsupportedMediaType, 415, "415 Unsupported Media Type"),
        (ResponseStatusCode::RangeNotSatisfiable, 416, "416 Range Not Satisfiable"),
        (ResponseStatusCode::ExpectationFailed, 417, "417 Expectation Failed"),
        (ResponseStatusCode::ImATeapot, 418, "418 I'm a teapot"),
        (ResponseStatusCode::TooEarly, 425, "425 Too Early"),
        (ResponseStatusCode::PreconditionRequired, 428, "428 Precondition Required"),
        (ResponseStatusCode::TooManyRequests, 429, "429 Too Many Requests"),
        (ResponseStatusCode::InternalServerError, 500, "500 Internal Server Error"),
        (ResponseStatusCode::NotImplemented, 501, "501 Not Implemented"),
        (ResponseStatusCode::BadGateway, 502, "502 Bad Gateway"),
        (ResponseStatusCode::ServiceUnavailable, 503, "503 Service Unavailable"),
        (ResponseStatusCode::GatewayTimeout, 504, "504 Gateway Timeout"),
        (
            ResponseStatusCode::HttpVersionNotSupported,
            505,
            "505 HTTP Version Not Supported",
        ),
    ];
    assert_eq!(table.len(), 41);
    for (status, code, line) in table {
        assert_eq!(status.code(), code);
        assert_eq!(status.http_string(), line);
        assert_eq!(format!("{} {}", code, status.reason()), line);
    }
}

#[test]
fn method_tokens() {
    assert_eq!(RequestType::type_for_method("GET"), RequestType::Get);
    assert_eq!(RequestType::type_for_method("POST"), RequestType::Post);
    assert_eq!(RequestType::type_for_method("PUT"), RequestType::Put);
    assert_eq!(RequestType::type_for_method("DELETE"), RequestType::Delete);
    assert_eq!(RequestType::type_for_method("ANY"), RequestType::Any);
    assert_eq!(RequestType::type_for_method("PATCH"), RequestType::Any);
    assert_eq!(RequestType::type_for_method("get"), RequestType::Any);
    assert_eq!(RequestType::type_for_method(""), RequestType::Any);
    assert_eq!(RequestType::Get.to_string(), "GET");
    assert_eq!(RequestType::Post.to_string(), "POST");
    assert_eq!(RequestType::Put.to_string(), "PUT");
    assert_eq!(RequestType::Delete.to_string(), "DELETE");
    assert_eq!(RequestType::Any.to_string(), "ANY");
    assert!(RequestType::Any.is_any());
    assert!(!RequestType::Get.is_any());
    assert!(!RequestType::Post.is_any());
    assert!(!RequestType::Put.is_any());
    assert!(!RequestType::Delete.is_any());
}

#[test]
fn method_token_names_the_method_again() {
    for t in [
        RequestType::Get,
        RequestType::Post,
        RequestType::Put,
        RequestType::Delete,
        RequestType::Any,
    ] {
        assert_eq!(RequestType::type_for_method(&t.to_string()), t);
    }
}

#[test]
fn route_error_output() {
    let e = RouteError::bad_request("bad");
    assert_eq!(e.message, "bad");
    assert_eq!(e.status_code, ResponseStatusCode::BadRequest);
    assert!(!e.override_output);
    assert_eq!(e.output(), "{\"code\":\"400\",\"message\":\"bad\"}");
    let raw = RouteError {
        message: "plain words".to_string(),
        status_code: ResponseStatusCode::Forbidden,
        override_output: true,
    };
    assert_eq!(raw.output(), "plain words");
    let wrapped = RouteError {
        message: "".to_string(),
        status_code: ResponseStatusCode::HttpVersionNotSupported,
        override_output: false,
    };
    assert_eq!(wrapped.output(), "{\"code\":\"505\",\"message\":\"\"}");
}

#[test]
fn strings_as_bytes() {
    assert_eq!("hello".send(), b"hello".to_vec());
    assert_eq!("héllo".to_string().send(), "héllo".as_bytes().to_vec());
    assert_eq!("".send(), Vec::<u8>::new());
}

#[test]
fn thread_count_is_half_and_at_least_one() {
    assert_eq!(default_thread_count(0), 1);
    assert_eq!(default_thread_count(1), 1);
    assert_eq!(default_thread_count(2), 1);
    assert_eq!(default_thread_count(3), 1);
    assert_eq!(default_thread_count(4), 2);
    assert_eq!(default_thread_count(16), 8);
    assert_eq!(default_thread_count(usize::MAX), usize::MAX / 2);
}

#[test]
fn no_route_answers_not_found() {
    let mut res = Response::new();
    res.send_string("left");
    let outcome = default_error(&request("/missing"), &mut res, &());
    assert_eq!(res.status(), ResponseStatusCode::NotFound);
    assert_eq!(outcome.ok(), Some(b"404 not found".to_vec()));
    assert_eq!(res.bytes(), b"left".to_vec());
}

#[test]
fn returned_bytes_replace_the_body() {
    let mut res = Response::new();
    res.send_string("from the response");
    settle(&mut res, Ok(b"returned".to_vec()));
    assert_eq!(res.status(), ResponseStatusCode::Okay);
    assert_eq!(res.bytes(), b"returned".to_vec());
}

#[test]
fn nothing_returned_keeps_the_body() {
    let mut res = Response::new();
    res.set_status(ResponseStatusCode::Created);
    res.send_string("from the response");
    settle(&mut res, Ok(Vec::new()));
    assert_eq!(res.status(), ResponseStatusCode::Created);
    assert_eq!(res.bytes(), b"from the response".to_vec());
}

#[test]
fn a_failure_sets_status_and_body() {
    let mut res = Response::new();
    res.send_string("half done");
    settle(
        &mut res,
        Err(RouteError {
            message: "gone".to_string(),
            status_code: ResponseStatusCode::Gone,
            override_output: true,
        }),
    );
    assert_eq!(res.status(), ResponseStatusCode::Gone);
    assert_eq!(res.bytes(), b"gone".to_vec());
}

#[test]
fn rendered_response_is_status_line_and_body() {
    let mut res = Response::new();
    res.set_status(ResponseStatusCode::NotFound);
    res.send_bytes(vec![1, 2, 3]);
    let mut expected = b"HTTP/1.1 404 Not Found\r\n\r\n".to_vec();
    expected.extend_from_slice(&[1, 2, 3]);
    assert_eq!(render(res), expected);
    assert_eq!(
        respond(Response::new(), Ok(b"x".to_vec())),
        b"HTTP/1.1 200 OK\r\n\r\nx".to_vec()
    );
}
