use airline::server::parser::{bare_type, content_length, head_end, parse_request};
use airline::server::{
    BodyContents, Headers, JsonError, ParseError, Request, RequestReader, RequestType,
};

fn read_by_bytes(stream: &[u8]) -> (Result<Request, ParseError>, usize) {
    let mut reader = RequestReader::new();
    let mut taken = 0;
    while reader.wants_byte() {
        if taken < stream.len() {
            reader.feed(stream[taken]);
            taken += 1;
        } else {
            reader.close();
        }
    }
    (reader.finish(), taken)
}

#[test]
fn request_line_and_headers() {
    let r = parse_request(b"GET /index.html HTTP/1.1\r\nHost: example.org\r\nX-A: 1\r\n\r\n")
        .unwrap();
    assert_eq!(r.request_type, RequestType::Get);
    assert_eq!(r.path, "/index.html");
    assert_eq!(r.headers.get("Host"), Some(&"example.org".to_string()));
    assert_eq!(r.headers.get("X-A"), Some(&"1".to_string()));
    assert_eq!(r.headers.get("host"), None);
    assert!(r.headers.contains("Host"));
    assert!(!r.headers.contains("Content-Length"));
    assert!(!r.has_data());
    assert!(r.body.is_none());
}

#[test]
fn unknown_method_is_any() {
    let r = parse_request(b"PATCH /x HTTP/1.1\r\n\r\n").unwrap();
    assert_eq!(r.request_type, RequestType::Any);
    let r = parse_request(b"ANY /x HTTP/1.1\r\n\r\n").unwrap();
    assert_eq!(r.request_type, RequestType::Any);
    let r = parse_request(b"get /x HTTP/1.1\r\n\r\n").unwrap();
    assert_eq!(r.request_type, RequestType::Any);
}

#[test]
fn head_ends_behind_four_line_breaks() {
    assert_eq!(head_end(b"GET / HTTP/1.1\r\n\r\nrest"), 18);
    assert_eq!(head_end(b"GET / HTTP/1.1\n\n\n\nrest"), 18);
    assert_eq!(head_end(b"GET / HTTP/1.1\n\nrest"), 20);
    assert_eq!(head_end(b"\r\n\r\n"), 4);
    assert_eq!(head_end(b"\r\n\r\n\r\n"), 4);
    assert_eq!(head_end(b"a\r\n\rb\r\n\r\nc"), 9);
    assert_eq!(head_end(b""), 0);
    assert_eq!(head_end(b"\n\n\n"), 3);
}

#[test]
fn bare_line_feeds_are_accepted() {
    let r = parse_request(b"PUT /p HTTP/1.1\nA: b\n\n\n").unwrap();
    assert_eq!(r.request_type, RequestType::Put);
    assert_eq!(r.path, "/p");
    assert_eq!(r.headers.get("A"), Some(&"b".to_string()));
    let r = parse_request(b"PUT /p HTTP/1.1\nA: b").unwrap();
    assert_eq!(r.headers.get("A"), Some(&"b".to_string()));
}

#[test]
fn lines_behind_the_first_empty_line_are_no_headers() {
    let r = parse_request(b"GET / HTTP/1.1\nA: b\n\nno header here").unwrap();
    assert_eq!(r.headers.get("A"), Some(&"b".to_string()));
    assert!(!r.headers.contains("no header here"));
}

#[test]
fn malformed_request_line() {
    assert_eq!(parse_request(b"").err(), Some(ParseError::MalformedRequestLine));
    assert_eq!(parse_request(b"\r\n\r\n").err(), Some(ParseError::MalformedRequestLine));
    assert_eq!(parse_request(b"GET\r\n\r\n").err(), Some(ParseError::MalformedRequestLine));
    assert_eq!(
        parse_request(b"GET\r\nnot a header\r\n\r\n").err(),
        Some(ParseError::MalformedRequestLine)
    );
    let r = parse_request(b"GET \r\n\r\n").unwrap();
    assert_eq!(r.path, "");
    let r = parse_request(b"GET  /x\r\n\r\n").unwrap();
    assert_eq!(r.path, "");
    let r = parse_request(b" /x\r\n\r\n").unwrap();
    assert_eq!(r.request_type, RequestType::Any);
    assert_eq!(r.path, "/x");
}

#[test]
fn missing_header_delimiter() {
    assert_eq!(
        parse_request(b"GET / HTTP/1.1\r\nHost\r\n\r\n").err(),
        Some(ParseError::MissingHeaderDelimiter)
    );
    assert_eq!(
        parse_request(b"GET / HTTP/1.1\r\nHost:x\r\n\r\n").err(),
        Some(ParseError::MissingHeaderDelimiter)
    );
    assert_eq!(
        parse_request(b"GET / HTTP/1.1\r\nA: b\r\nHost:\r\nC: d\r\n\r\n").err(),
        Some(ParseError::MissingHeaderDelimiter)
    );
}

#[test]
fn header_value_ends_before_a_second_delimiter() {
    let r = parse_request(b"GET / HTTP/1.1\r\nA: b: c\r\nD: \r\n: e\r\nF: g:h\r\n\r\n").unwrap();
    assert_eq!(r.headers.get("A"), Some(&"b".to_string()));
    assert_eq!(r.headers.get("D"), Some(&"".to_string()));
    assert_eq!(r.headers.get(""), Some(&"e".to_string()));
    assert_eq!(r.headers.get("F"), Some(&"g:h".to_string()));
}

#[test]
fn a_later_header_line_wins() {
    let r = parse_request(b"GET / HTTP/1.1\r\nA: 1\r\nB: 2\r\nA: 3\r\n\r\n").unwrap();
    assert_eq!(r.headers.get("A"), Some(&"3".to_string()));
    assert_eq!(r.headers.get("B"), Some(&"2".to_string()));
}

#[test]
fn header_bytes_are_code_points() {
    let r = parse_request(b"GET /caf\xe9 HTTP/1.1\r\nN\xff: \x80\r\n\r\n").unwrap();
    assert_eq!(r.path, "/caf\u{e9}");
    assert_eq!(r.headers.get("N\u{ff}"), Some(&"\u{80}".to_string()));
}

#[test]
fn body_is_exactly_the_declared_length() {
    let r = parse_request(b"POST /u HTTP/1.1\r\nContent-Length: 5\r\n\r\n0123456789").unwrap();
    match r.body {
        Some(BodyContents::Binary(b)) => assert_eq!(b, b"01234".to_vec()),
        _ => panic!("binary body expected"),
    }
    let r = parse_request(b"POST /u HTTP/1.1\r\nContent-Length: 5\r\n\r\n01234").unwrap();
    match r.body {
        Some(BodyContents::Binary(b)) => assert_eq!(b, b"01234".to_vec()),
        _ => panic!("binary body expected"),
    }
    let r = parse_request(b"POST /u HTTP/1.1\r\nContent-Length: 0\r\n\r\n01234").unwrap();
    assert!(r.has_data());
    match r.body {
        Some(BodyContents::Binary(b)) => assert_eq!(b, Vec::<u8>::new()),
        _ => panic!("binary body expected"),
    }
}

#[test]
fn no_declared_length_no_body() {
    let r = parse_request(b"POST /u HTTP/1.1\r\nContent-Type: text/plain\r\n\r\nhello").unwrap();
    assert!(!r.has_data());
}

#[test]
fn truncated_body() {
    assert_eq!(
        parse_request(b"POST /u HTTP/1.1\r\nContent-Length: 6\r\n\r\n01234").err(),
        Some(ParseError::TruncatedBody)
    );
    assert_eq!(
        parse_request(b"POST /u HTTP/1.1\r\nContent-Length: 1").err(),
        Some(ParseError::TruncatedBody)
    );
    assert_eq!(
        parse_request(
            b"POST /u HTTP/1.1\r\nContent-Length: 18446744073709551615\r\n\r\n01234"
        )
        .err(),
        Some(ParseError::TruncatedBody)
    );
}

#[test]
fn declared_lengths() {
    assert_eq!(content_length("0"), 0);
    assert_eq!(content_length("15"), 15);
    assert_eq!(content_length("+15"), 15);
    assert_eq!(content_length("007"), 7);
    assert_eq!(content_length(""), 0);
    assert_eq!(content_length("+"), 0);
    assert_eq!(content_length("-1"), 0);
    assert_eq!(content_length("1 "), 0);
    assert_eq!(content_length(" 1"), 0);
    assert_eq!(content_length("12a"), 0);
    assert_eq!(content_length("++1"), 0);
    assert_eq!(content_length("1.0"), 0);
    assert_eq!(content_length(&usize::MAX.to_string()), usize::MAX);
    assert_eq!(content_length("340282366920938463463374607431768211456"), 0);
    assert_eq!(content_length("99999999999999999999999999999999999999999999999999"), 0);
    assert_eq!(content_length("9999999999999999999999999x"), 0);
}

#[test]
fn bare_types() {
    assert_eq!(bare_type("application/json"), "application/json");
    assert_eq!(bare_type("application/json; charset=utf-8"), "application/json");
    assert_eq!(bare_type("text/plain;"), "text/plain");
    assert_eq!(bare_type("text/plain;charset=utf-8"), "text/plaincharset=utf-8");
    assert_eq!(bare_type("te;xt/plain x;y"), "text/plain");
    assert_eq!(bare_type(" text/plain"), "");
    assert_eq!(bare_type(""), "");
}

#[test]
fn each_declared_type_gives_its_variant() {
    let data = b"{\"a\":1}".to_vec();
    assert!(matches!(
        BodyContents::type_from_mime("application/octet-stream", data.clone()),
        Ok(BodyContents::Binary(_))
    ));
    assert!(matches!(
        BodyContents::type_from_mime("application/json", data.clone()),
        Ok(BodyContents::JsonObject(_))
    ));
    assert!(matches!(
        BodyContents::type_from_mime("application/ld+json", data.clone()),
        Ok(BodyContents::JsonObject(_))
    ));
    assert!(matches!(
        BodyContents::type_from_mime("application/json", b"[{\"a\":1}]".to_vec()),
        Ok(BodyContents::JsonArray(_))
    ));
    assert!(matches!(
        BodyContents::type_from_mime("application/ld+json", b"[]".to_vec()),
        Ok(BodyContents::JsonArray(_))
    ));
    match BodyContents::type_from_mime("text/plain", "héllo".as_bytes().to_vec()) {
        Ok(BodyContents::PlainText(t)) => assert_eq!(t, "héllo"),
        _ => panic!("plain text expected"),
    }
    match BodyContents::type_from_mime("image/png", vec![0x89, 0x50, 0xff]) {
        Ok(BodyContents::Binary(b)) => assert_eq!(b, vec![0x89, 0x50, 0xff]),
        _ => panic!("binary expected"),
    }
    match BodyContents::type_from_mime("", vec![0xff]) {
        Ok(BodyContents::Binary(b)) => assert_eq!(b, vec![0xff]),
        _ => panic!("binary expected"),
    }
    assert!(matches!(
        BodyContents::type_from_mime("Application/JSON", data.clone()),
        Ok(BodyContents::Binary(_))
    ));
}

#[test]
fn bytes_that_are_not_text_give_no_body() {
    assert_eq!(
        BodyContents::type_from_mime("text/plain", vec![0xff]).err(),
        Some(ParseError::InvalidEncoding)
    );
    assert_eq!(
        BodyContents::type_from_mime("application/json", vec![b'{', 0xc3, b'}']).err(),
        Some(ParseError::InvalidEncoding)
    );
    assert_eq!(
        BodyContents::type_from_mime("application/ld+json", vec![0x80]).err(),
        Some(ParseError::InvalidEncoding)
    );
    assert!(BodyContents::type_from_mime("application/octet-stream", vec![0xff]).is_ok());
    assert_eq!(
        parse_request(
            b"POST / HTTP/1.1\r\nContent-Type: text/plain\r\nContent-Length: 1\r\n\r\n\xff"
        )
        .err(),
        Some(ParseError::InvalidEncoding)
    );
}

fn invalid_json(text: &[u8]) -> Option<JsonError> {
    match BodyContents::type_from_mime("application/json", text.to_vec()) {
        Ok(BodyContents::InvalidJson(e)) => Some(e),
        _ => None,
    }
}

#[test]
fn a_body_that_is_no_json_tells_the_handler_so() {
    assert_eq!(invalid_json(b"{\"a\"}"), Some(JsonError::NotJson));
    assert_eq!(invalid_json(b""), Some(JsonError::NotJson));
    assert_eq!(invalid_json(b"[1,]"), Some(JsonError::NotJson));
    assert_eq!(invalid_json(b" [1]"), Some(JsonError::WrongKind));
    assert_eq!(invalid_json(b"12"), Some(JsonError::WrongKind));
    assert_eq!(invalid_json(b"[] x"), Some(JsonError::NotJson));
    assert_eq!(invalid_json(b"{}"), None);
    assert_eq!(invalid_json(b" {}"), None);
    assert_eq!(invalid_json(b"[]"), None);
    let r = parse_request(
        b"POST / HTTP/1.1\r\nContent-Type: application/json\r\nContent-Length: 4\r\n\r\nnope",
    )
    .unwrap();
    assert!(r.has_data());
    let body = r.body.unwrap();
    assert!(matches!(body, BodyContents::InvalidJson(JsonError::NotJson)));
    assert!(body.as_json_object().is_none());
    assert!(body.as_json_array().is_none());
}

#[test]
fn body_accessors() {
    let o = BodyContents::type_from_mime("application/json", b"{\"a\":1}".to_vec()).ok().unwrap();
    assert_eq!(o.as_json_object().unwrap().i32("a"), Some(1));
    assert!(o.as_json_array().is_none());
    let a = BodyContents::type_from_mime("application/json", b"[true]".to_vec()).ok().unwrap();
    assert_eq!(a.as_json_array().unwrap().len(), 1);
    assert!(a.as_json_object().is_none());
    assert!(BodyContents::Absent.as_json_object().is_none());
    assert!(BodyContents::Binary(vec![1]).as_json_array().is_none());
}

#[test]
fn content_type_parameters_are_stripped() {
    let r = parse_request(
        b"POST /t HTTP/1.1\r\nContent-Type: text/plain; charset=utf-8\r\nContent-Length: 2\r\n\r\nhi",
    )
    .unwrap();
    match r.body {
        Some(BodyContents::PlainText(t)) => assert_eq!(t, "hi"),
        _ => panic!("plain text expected"),
    }
}

#[test]
fn read_takes_the_head_and_the_declared_bytes() {
    let stream = b"POST /u HTTP/1.1\r\nContent-Length: 5\r\n\r\n0123456789";
    let (r, taken) = RequestReader::read(stream);
    assert_eq!(taken, 44);
    assert_eq!(r.unwrap().path, "/u");
    let (r, taken) = RequestReader::read(b"GET / HTTP/1.1\r\n\r\nGET /next HTTP/1.1\r\n\r\n");
    assert_eq!(taken, 18);
    assert_eq!(r.unwrap().path, "/");
    let (r, taken) = RequestReader::read(b"GET /x");
    assert_eq!(taken, 6);
    assert_eq!(r.unwrap().path, "/x");
    let (r, taken) = RequestReader::read(b"POST /x HTTP/1.1\r\nContent-Length: 9\r\n\r\nshort");
    assert_eq!(taken, 44);
    assert_eq!(r.err(), Some(ParseError::TruncatedBody));
    let (r, taken) = RequestReader::read(b"\n\n\n\nGET / HTTP/1.1\r\n\r\n");
    assert_eq!(taken, 4);
    assert_eq!(r.err(), Some(ParseError::MalformedRequestLine));
}

#[test]
fn reader_takes_exactly_the_request() {
    let stream = b"POST /u HTTP/1.1\r\nContent-Length: 5\r\n\r\n0123456789";
    let (r, taken) = read_by_bytes(stream);
    assert_eq!(taken, stream.len() - 5);
    match r.unwrap().body {
        Some(BodyContents::Binary(b)) => assert_eq!(b, b"01234".to_vec()),
        _ => panic!("binary body expected"),
    }
    let stream = b"GET / HTTP/1.1\r\nHost: x\r\n\r\nGET /next HTTP/1.1\r\n\r\n";
    let (r, taken) = read_by_bytes(stream);
    assert_eq!(taken, 27);
    assert_eq!(r.unwrap().path, "/");
}

#[test]
fn reader_stops_at_a_head_that_is_no_request() {
    let stream = b"GET\r\nContent-Length: 5\r\n\r\n01234";
    let (r, taken) = read_by_bytes(stream);
    assert_eq!(taken, 26);
    assert_eq!(r.err(), Some(ParseError::MalformedRequestLine));
}

#[test]
fn reader_on_a_stream_that_ends_early() {
    let (r, taken) = read_by_bytes(b"GET /x HTTP/1.1\r\nA: b");
    assert_eq!(taken, 21);
    let r = r.unwrap();
    assert_eq!(r.path, "/x");
    assert_eq!(r.headers.get("A"), Some(&"b".to_string()));
    let (r, taken) = read_by_bytes(b"POST /x HTTP/1.1\r\nContent-Length: 3\r\n\r\nab");
    assert_eq!(taken, 41);
    assert_eq!(r.err(), Some(ParseError::TruncatedBody));
    let (r, taken) = read_by_bytes(b"");
    assert_eq!(taken, 0);
    assert_eq!(r.err(), Some(ParseError::MalformedRequestLine));
}

#[test]
fn reader_and_parser_agree() {
    let streams: Vec<&[u8]> = vec![
        b"GET / HTTP/1.1\r\n\r\n",
        b"GET / HTTP/1.1\n\n\n\nmore",
        b"POST /j HTTP/1.1\r\nContent-Type: application/json\r\nContent-Length: 7\r\n\r\n[1,2,3]tail",
        b"POST /j HTTP/1.1\r\nContent-Length: x\r\n\r\nabc",
        b"BAD",
        b"GET / HTTP/1.1\r\nbroken\r\n\r\n",
    ];
    for stream in streams {
        let whole = parse_request(stream);
        let (by_bytes, taken) = read_by_bytes(stream);
        assert!(taken <= stream.len());
        match (whole, by_bytes) {
            (Ok(a), Ok(b)) => {
                assert_eq!(a.request_type, b.request_type);
                assert_eq!(a.path, b.path);
                assert_eq!(a.has_data(), b.has_data());
            }
            (Err(a), Err(b)) => assert_eq!(a, b),
            _ => panic!("reader and parser differ"),
        }
    }
}

#[test]
fn headers_keep_the_later_value() {
    let mut h = Headers::new();
    assert_eq!(h.get("a"), None);
    h.insert("a".to_string(), "1".to_string());
    h.insert("b".to_string(), "2".to_string());
    h.insert("a".to_string(), "3".to_string());
    assert_eq!(h.get("a"), Some(&"3".to_string()));
    assert_eq!(h.get("b"), Some(&"2".to_string()));
    assert_eq!(h.get("A"), None);
    assert!(h.contains("b"));
    assert!(!h.contains("c"));
}
