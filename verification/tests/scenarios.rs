use airline::server::parser::parse_request;
use airline::server::queue::{default_error, respond};
use airline::server::{
    BodyContents, Request, RequestType, Response, ResponseStatusCode, Route, RouteError,
    RouteStorage,
};

type Handler = fn(&Request, &mut Response, &()) -> Result<Vec<u8>, RouteError>;

fn hello(_: &Request, res: &mut Response, _: &()) -> Result<Vec<u8>, RouteError> {
    res.send_string("hello");
    Ok(Vec::new())
}

fn echo_name(req: &Request, res: &mut Response, _: &()) -> Result<Vec<u8>, RouteError> {
    let body = req.body.as_ref().ok_or(RouteError::bad_request("no body"))?;
    let object = body.as_json_object().ok_or(RouteError::bad_request("no object"))?;
    let name = object.string("name").ok_or(RouteError::bad_request("no name"))?;
    res.send_string(&name);
    Ok(Vec::new())
}

fn count_items(req: &Request, _: &mut Response, _: &()) -> Result<Vec<u8>, RouteError> {
    let body = req.body.as_ref().ok_or(RouteError::bad_request("no body"))?;
    let array = body.as_json_array().ok_or(RouteError::bad_request("no array"))?;
    Ok(array.len().to_string().into_bytes())
}

fn fails(_: &Request, _: &mut Response, _: &()) -> Result<Vec<u8>, RouteError> {
    Err(RouteError {
        message: "bad".to_string(),
        status_code: ResponseStatusCode::BadRequest,
        override_output: false,
    })
}

fn serve(routes: Vec<Route<Handler>>, stream: &[u8]) -> Vec<u8> {
    let mut storage: RouteStorage<Handler> = RouteStorage::new();
    for r in routes {
        storage.add(r);
    }
    storage.prep();
    let request = parse_request(stream).unwrap();
    let handler: Handler = match storage.handler(&request.request_type, &request.path) {
        Some(route) => *route.handler(),
        None => default_error::<()>,
    };
    let mut res = Response::new();
    let outcome = handler(&request, &mut res, &());
    respond(res, outcome)
}

#[test]
fn scenario_registered_route_answers() {
    let out = serve(
        vec![Route::create("/", RequestType::Get, hello as Handler)],
        b"GET / HTTP/1.1\r\nHost: x\r\n\r\n",
    );
    assert_eq!(out, b"HTTP/1.1 200 OK\r\n\r\nhello".to_vec());
}

#[test]
fn scenario_no_routes_not_found() {
    let out = serve(vec![], b"GET /missing HTTP/1.1\r\n\r\n");
    assert!(out.starts_with(b"HTTP/1.1 404 Not Found\r\n\r\n"));
    assert_eq!(out, b"HTTP/1.1 404 Not Found\r\n\r\n404 not found".to_vec());
}

#[test]
fn scenario_json_object_body() {
    let stream =
        b"POST /echo HTTP/1.1\r\nContent-Type: application/json\r\nContent-Length: 14\r\n\r\n{\"name\":\"abc\"}";
    let request = parse_request(stream).unwrap();
    let object = request.body.as_ref().unwrap().as_json_object().unwrap();
    assert_eq!(object.string("name"), Some("abc".to_string()));
    let out = serve(vec![Route::create("/echo", RequestType::Post, echo_name as Handler)], stream);
    assert_eq!(out, b"HTTP/1.1 200 OK\r\n\r\nabc".to_vec());
}

#[test]
fn scenario_json_object_body_with_a_line_feed_behind_it() {
    let stream =
        b"POST /echo HTTP/1.1\r\nContent-Type: application/json\r\nContent-Length: 15\r\n\r\n{\"name\":\"abc\"}\n";
    let request = parse_request(stream).unwrap();
    let object = request.body.as_ref().unwrap().as_json_object().unwrap();
    assert_eq!(object.string("name"), Some("abc".to_string()));
}

#[test]
fn scenario_json_array_body() {
    let stream =
        b"POST /echo HTTP/1.1\r\nContent-Type: application/json\r\nContent-Length: 7\r\n\r\n[1,2,3]";
    let request = parse_request(stream).unwrap();
    match request.body.as_ref().unwrap() {
        BodyContents::JsonArray(a) => {
            assert_eq!(a.len(), 3);
            for (i, child) in a.all().iter().enumerate() {
                assert_eq!(child.i32(), Some(i as i32 + 1));
                assert!(child.object().is_none());
                assert!(child.array().is_none());
            }
        }
        _ => panic!("array body expected"),
    }
    let out =
        serve(vec![Route::create("/echo", RequestType::Post, count_items as Handler)], stream);
    assert_eq!(out, b"HTTP/1.1 200 OK\r\n\r\n3".to_vec());
}

#[test]
fn scenario_other_method_not_found() {
    let out = serve(
        vec![Route::create("/x", RequestType::Get, hello as Handler)],
        b"PUT /x HTTP/1.1\r\n\r\n",
    );
    assert!(out.starts_with(b"HTTP/1.1 404 Not Found\r\n\r\n"));
}

#[test]
fn scenario_handler_failure() {
    let out = serve(
        vec![Route::create("/f", RequestType::Get, fails as Handler)],
        b"GET /f HTTP/1.1\r\n\r\n",
    );
    assert_eq!(
        out,
        b"HTTP/1.1 400 Bad Request\r\n\r\n{\"code\":\"400\",\"message\":\"bad\"}".to_vec()
    );
}

#[test]
fn wildcard_route_answers_an_unknown_method() {
    let out = serve(
        vec![Route::create("/", RequestType::Any, hello as Handler)],
        b"PATCH / HTTP/1.1\r\n\r\n",
    );
    assert_eq!(out, b"HTTP/1.1 200 OK\r\n\r\nhello".to_vec());
}
