use stars::request::{ParseError, Request};
use stars::response::{Response, ResponseBody, StatusCode};
use stars::route::{Method, MethodKind, Route, StaticHandler};
use stars::server::RouteTable;

fn get(path: &str) -> Method {
    Method { path: path.to_string(), method: MethodKind::GET }
}

fn static_route(path: &str, response: Response) -> Route<StaticHandler> {
    Route::new(get(path), StaticHandler::new(response))
}

fn text_response(status: StatusCode, body: &str) -> Response {
    Response::new(status, Vec::new(), ResponseBody::Text(body.to_string()))
}

#[test]
fn parse_round_trip() {
    let lines = vec!["GET /about HTTP/1.1".to_string(), "Host: example.com".to_string()];
    let request = Request::new(lines).unwrap();
    assert_eq!(request.method, get("/about"));
    assert_eq!(
        request.headers,
        vec![("Host".to_string(), "example.com".to_string())]
    );
}

#[test]
fn parse_several_headers_in_order() {
    let lines = vec![
        "GET / HTTP/1.1".to_string(),
        "Host: example.com".to_string(),
        "Accept: text/html".to_string(),
    ];
    let request = Request::new(lines).unwrap();
    assert_eq!(request.method, get("/"));
    assert_eq!(
        request.headers,
        vec![
            ("Host".to_string(), "example.com".to_string()),
            ("Accept".to_string(), "text/html".to_string()),
        ]
    );
}

#[test]
fn parse_header_value_keeps_later_separators() {
    let lines = vec!["GET / HTTP/1.1".to_string(), "A: b: c".to_string()];
    let request = Request::new(lines).unwrap();
    assert_eq!(request.headers, vec![("A".to_string(), "b: c".to_string())]);
}

#[test]
fn parse_skips_line_without_separator() {
    let lines = vec![
        "GET / HTTP/1.1".to_string(),
        "garbage".to_string(),
        "Host: example.com".to_string(),
    ];
    let request = Request::new(lines).unwrap();
    assert_eq!(
        request.headers,
        vec![("Host".to_string(), "example.com".to_string())]
    );
}

#[test]
fn parse_rejects_short_request_line() {
    let lines = vec!["GET".to_string()];
    let err = Request::new(lines).unwrap_err();
    assert_eq!(err, ParseError::MalformedRequestLine);
}

#[test]
fn parse_rejects_unsupported_verb() {
    let lines = vec!["POST / HTTP/1.1".to_string()];
    let err = Request::new(lines).unwrap_err();
    assert_eq!(err, ParseError::UnsupportedMethod);
}

#[test]
fn method_try_from_accepts_get_only() {
    let method = Method::try_from("GET", "/x").unwrap();
    assert_eq!(method, get("/x"));
    assert!(Method::try_from("DELETE", "/x").is_err());
}

#[test]
fn method_equality_is_exact() {
    assert_eq!(get("/a"), get("/a"));
    assert_ne!(get("/a"), get("/a/"));
}

#[test]
fn status_code_from_number() {
    assert_eq!(StatusCode::from(200usize), StatusCode::OK);
    assert_eq!(StatusCode::from(404usize), StatusCode::NotFound);
    assert_eq!(StatusCode::from(500usize), StatusCode::NotFound);
}

#[test]
fn status_line_text() {
    assert_eq!(StatusCode::OK.status_line(), "200 OK");
    assert_eq!(StatusCode::NotFound.status_line(), "404 NOT FOUND");
}

#[test]
fn body_conversions() {
    let body = ResponseBody::from("hi".to_string());
    assert_eq!(body, ResponseBody::Text("hi".to_string()));
    let text: String = ResponseBody::Text("hello".to_string()).into();
    assert_eq!(text, "hello");
    let json: String = ResponseBody::Json("{}".to_string()).into();
    assert_eq!(json, "{}");
}

#[test]
fn response_new_keeps_parts() {
    let headers = vec![("X".to_string(), "1".to_string())];
    let response = Response::new(
        StatusCode::OK,
        headers.clone(),
        ResponseBody::Text("b".to_string()),
    );
    assert_eq!(response.status_code, StatusCode::OK);
    assert_eq!(response.headers, headers);
    assert_eq!(response.body, ResponseBody::Text("b".to_string()));
}

#[test]
fn html_and_json_helpers_set_content_type() {
    let page = Response::html("<html></html>".to_string(), StatusCode::OK);
    assert_eq!(
        page.headers,
        vec![("Content-Type".to_string(), "text/html".to_string())]
    );
    assert_eq!(page.body, ResponseBody::Text("<html></html>".to_string()));

    let doc = Response::json("{\"a\":1}".to_string());
    assert_eq!(doc.status_code, StatusCode::OK);
    assert_eq!(
        doc.headers,
        vec![("Content-Type".to_string(), "application/json".to_string())]
    );
    assert_eq!(doc.body, ResponseBody::Json("{\"a\":1}".to_string()));
}

#[test]
fn serialize_counts_body_bytes() {
    let response = text_response(StatusCode::OK, "hello");
    let bytes = response.serialize();
    let text = String::from_utf8(bytes).unwrap();
    assert_eq!(text, "HTTP/1.1 200 OK\r\nContent-Length: 5\r\n\r\nhello");
}

#[test]
fn serialize_uses_byte_length_not_char_count() {
    let response = text_response(StatusCode::OK, "h\u{e9}llo");
    let bytes = response.serialize();
    let text = String::from_utf8(bytes).unwrap();
    assert_eq!(text, "HTTP/1.1 200 OK\r\nContent-Length: 6\r\n\r\nh\u{e9}llo");
}

#[test]
fn serialize_writes_headers_in_order() {
    let response = Response::new(
        StatusCode::OK,
        vec![
            ("B".to_string(), "2".to_string()),
            ("A".to_string(), "1".to_string()),
        ],
        ResponseBody::Text("x".to_string()),
    );
    let text = String::from_utf8(response.serialize()).unwrap();
    assert_eq!(
        text,
        "HTTP/1.1 200 OK\r\nContent-Length: 1\r\nB: 2\r\nA: 1\r\n\r\nx"
    );
}

#[test]
fn find_returns_first_registered_duplicate() {
    let mut table: RouteTable<StaticHandler> = RouteTable::new();
    table.register_route(static_route("/dup", text_response(StatusCode::OK, "first")));
    table.register_route(static_route("/dup", text_response(StatusCode::OK, "second")));
    let key = get("/dup");
    let found = table.find(&key).unwrap();
    assert_eq!(found.handler.response.body, ResponseBody::Text("first".to_string()));
    let again = table.find(&key).unwrap();
    assert_eq!(again.handler.response.body, ResponseBody::Text("first".to_string()));
}

#[test]
fn find_twice_agrees() {
    let mut table: RouteTable<StaticHandler> = RouteTable::new();
    table.register_route(static_route("/a", text_response(StatusCode::OK, "a")));
    let key = get("/a");
    let first = table.find(&key).map(|r| r.method.clone());
    let second = table.find(&key).map(|r| r.method.clone());
    assert_eq!(first, second);
    assert!(table.find(&get("/missing")).is_none());
}

#[test]
fn dispatch_uses_not_found_route_verbatim() {
    let mut table: RouteTable<StaticHandler> = RouteTable::new();
    table.register_not_found(static_route("/404", text_response(StatusCode::OK, "custom")));
    let request = Request::new(vec!["GET /missing HTTP/1.1".to_string()]).unwrap();
    let response = table.dispatch(&request);
    assert_eq!(response.status_code, StatusCode::OK);
    assert_eq!(response.body, ResponseBody::Text("custom".to_string()));
}

#[test]
fn register_not_found_last_call_wins() {
    let mut table: RouteTable<StaticHandler> = RouteTable::new();
    table.register_not_found(static_route("/404", text_response(StatusCode::NotFound, "old")));
    table.register_not_found(static_route("/404", text_response(StatusCode::NotFound, "new")));
    let request = Request::new(vec!["GET /missing HTTP/1.1".to_string()]).unwrap();
    let response = table.dispatch(&request);
    assert_eq!(response.body, ResponseBody::Text("new".to_string()));
}

#[test]
fn dispatch_synthesizes_default_not_found() {
    let table: RouteTable<StaticHandler> = RouteTable::new();
    let request = Request::new(vec!["GET /missing HTTP/1.1".to_string()]).unwrap();
    let response = table.dispatch(&request);
    assert_eq!(response.status_code, StatusCode::NotFound);
    assert!(response.headers.is_empty());
    assert_eq!(response.body, ResponseBody::Text("404 Not Found".to_string()));
}

#[test]
fn respond_to_registered_route() {
    let mut table: RouteTable<StaticHandler> = RouteTable::new();
    table.register_route(static_route(
        "/",
        Response::html("<html>home</html>".to_string(), StatusCode::OK),
    ));
    let bytes = table.respond(vec!["GET / HTTP/1.1".to_string()]).unwrap();
    let text = String::from_utf8(bytes).unwrap();
    assert_eq!(
        text,
        "HTTP/1.1 200 OK\r\nContent-Length: 17\r\nContent-Type: text/html\r\n\r\n<html>home</html>"
    );
}

#[test]
fn respond_without_any_route_is_exact_404() {
    let table: RouteTable<StaticHandler> = RouteTable::new();
    let bytes = table.respond(vec!["GET /missing HTTP/1.1".to_string()]).unwrap();
    assert_eq!(
        bytes,
        b"HTTP/1.1 404 NOT FOUND\r\nContent-Length: 13\r\n\r\n404 Not Found".to_vec()
    );
}

#[test]
fn respond_reports_parse_errors() {
    let table: RouteTable<StaticHandler> = RouteTable::new();
    let err = table.respond(vec!["PUT / HTTP/1.1".to_string()]).unwrap_err();
    assert_eq!(err, ParseError::UnsupportedMethod);
    let err = table.respond(vec!["nonsense".to_string()]).unwrap_err();
    assert_eq!(err, ParseError::MalformedRequestLine);
}
