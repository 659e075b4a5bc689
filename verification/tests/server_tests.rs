//! Tests of the server core: routing, the middleware slot, the fixed
//! fallback, and full request cycles over raw buffers.

use torus_http::method::HttpMethod;
use torus_http::server::{EchoPathHandler, HttpServer, PathRewrite, TextHandler};

fn text_server() -> HttpServer<TextHandler, PathRewrite> {
    HttpServer::new()
}

fn cycle(server: &HttpServer<TextHandler, PathRewrite>, raw: &str) -> Option<String> {
    server
        .handle_request(raw)
        .map(|bytes| String::from_utf8(bytes).unwrap())
}

#[test]
fn end_to_end_get_hello() {
    let server = text_server().get("/hello", TextHandler::new("hi"));
    let out = cycle(&server, "GET /hello HTTP/1.1\r\nHost: x\r\n\r\n").unwrap();
    assert!(out.starts_with("HTTP/1.1 200 OK\r\n"));
    assert!(out.contains("Content-Length: 2"));
    assert!(out.ends_with("hi"));
    assert_eq!(out, "HTTP/1.1 200 OK\r\nContent-Length: 2\r\n\r\nhi");
}

#[test]
fn malformed_first_line_writes_zero_bytes() {
    let server = text_server().get("/hello", TextHandler::new("hi"));
    assert!(server.handle_request("GET\r\n\r\n").is_none());
    assert!(server.handle_request("").is_none());
    assert!(server.handle_request("one two three four\r\n\r\n").is_none());
}

#[test]
fn route_miss_yields_the_fixed_fallback_body() {
    let server = text_server().get("/hello", TextHandler::new("hi"));
    let out = cycle(&server, "GET /other HTTP/1.1\r\n\r\n").unwrap();
    assert_eq!(
        out,
        "HTTP/1.1 200 OK\r\nContent-Length: 15\r\n\r\nno method found"
    );
}

#[test]
fn a_miss_can_differ_only_in_method() {
    let server = text_server().get("/hello", TextHandler::new("hi"));
    let out = cycle(&server, "POST /hello HTTP/1.1\r\n\r\nbody").unwrap();
    assert!(out.ends_with("no method found"));
}

#[test]
fn registering_twice_keeps_only_the_second_handler() {
    let server = text_server()
        .get("/x", TextHandler::new("first"))
        .get("/x", TextHandler::new("second"));
    let out = cycle(&server, "GET /x HTTP/1.1\r\n\r\n").unwrap();
    assert!(out.ends_with("second"));
    assert!(!out.contains("first"));
}

#[test]
fn different_methods_are_different_routes() {
    let server = text_server()
        .get("/x", TextHandler::new("from get"))
        .post("/x", TextHandler::new("from post"));
    let get_out = cycle(&server, "GET /x HTTP/1.1\r\n\r\n").unwrap();
    let post_out = cycle(&server, "POST /x HTTP/1.1\r\n\r\n").unwrap();
    assert!(get_out.ends_with("from get"));
    assert!(post_out.ends_with("from post"));
}

#[test]
fn matching_is_exact_with_no_prefix_or_slash_normalization() {
    let server = text_server().get("/hello", TextHandler::new("hi"));
    assert!(cycle(&server, "GET /hello/ HTTP/1.1\r\n\r\n")
        .unwrap()
        .ends_with("no method found"));
    assert!(cycle(&server, "GET /hell HTTP/1.1\r\n\r\n")
        .unwrap()
        .ends_with("no method found"));
}

#[test]
fn custom_method_routes_by_lowercased_verb() {
    let server = text_server().route(
        "/hello",
        HttpMethod::Other(String::from("custom")),
        TextHandler::new("custom hit"),
    );
    let out = cycle(&server, "CUSTOM /hello HTTP/1.1\r\n\r\n").unwrap();
    assert!(out.ends_with("custom hit"));
}

#[test]
fn custom_method_registered_in_capitals_is_unreachable() {
    let server = text_server().route(
        "/hello",
        HttpMethod::Other(String::from("CUSTOM")),
        TextHandler::new("never"),
    );
    let out = cycle(&server, "CUSTOM /hello HTTP/1.1\r\n\r\n").unwrap();
    assert!(out.ends_with("no method found"));
}

#[test]
fn all_registration_verbs_reach_their_handlers() {
    let server = text_server()
        .get("/r", TextHandler::new("g"))
        .post("/r", TextHandler::new("po"))
        .delete("/r", TextHandler::new("d"))
        .update("/r", TextHandler::new("u"))
        .put("/r", TextHandler::new("pu"))
        .patch("/r", TextHandler::new("pa"))
        .head("/r", TextHandler::new("h"))
        .options("/r", TextHandler::new("o"));
    for (verb, body) in vec![
        ("GET", "g"),
        ("POST", "po"),
        ("DELETE", "d"),
        ("UPDATE", "u"),
        ("PUT", "pu"),
        ("PATCH", "pa"),
        ("HEAD", "h"),
        ("OPTIONS", "o"),
    ] {
        let raw = format!("{} /r HTTP/1.1\r\n\r\n", verb);
        let out = cycle(&server, &raw).unwrap();
        assert!(out.ends_with(body), "verb {} got {}", verb, out);
    }
}

#[test]
fn middleware_transforms_the_request_before_routing() {
    let server = text_server()
        .get("/hello", TextHandler::new("hi"))
        .add_middleware(PathRewrite::new("/old", "/hello"));
    let out = cycle(&server, "GET /old HTTP/1.1\r\n\r\n").unwrap();
    assert!(out.ends_with("hi"));
}

#[test]
fn middleware_leaves_other_paths_alone() {
    let server = text_server()
        .get("/hello", TextHandler::new("hi"))
        .add_middleware(PathRewrite::new("/old", "/hello"));
    let out = cycle(&server, "GET /elsewhere HTTP/1.1\r\n\r\n").unwrap();
    assert!(out.ends_with("no method found"));
}

#[test]
fn adding_middleware_again_replaces_the_first() {
    let server = text_server()
        .get("/a", TextHandler::new("at a"))
        .get("/b", TextHandler::new("at b"))
        .add_middleware(PathRewrite::new("/in", "/a"))
        .add_middleware(PathRewrite::new("/in", "/b"));
    let out = cycle(&server, "GET /in HTTP/1.1\r\n\r\n").unwrap();
    assert!(out.ends_with("at b"));
}

#[test]
fn handler_sees_the_transformed_request() {
    let server: HttpServer<EchoPathHandler, PathRewrite> = HttpServer::new()
        .get("/echoed", EchoPathHandler {})
        .add_middleware(PathRewrite::new("/original", "/echoed"));
    let out = server
        .handle_request("GET /original HTTP/1.1\r\n\r\n")
        .map(|bytes| String::from_utf8(bytes).unwrap())
        .unwrap();
    assert!(out.ends_with("/echoed"));
}

#[test]
fn echo_handler_returns_the_request_path() {
    let server: HttpServer<EchoPathHandler, PathRewrite> =
        HttpServer::new().get("/whoami", EchoPathHandler {});
    let out = server
        .handle_request("GET /whoami HTTP/1.1\r\n\r\n")
        .map(|bytes| String::from_utf8(bytes).unwrap())
        .unwrap();
    assert_eq!(out, "HTTP/1.1 200 OK\r\nContent-Length: 7\r\n\r\n/whoami");
}

#[test]
fn query_string_does_not_reach_the_router() {
    let server = text_server().get("/hello", TextHandler::new("hi"));
    let out = cycle(&server, "GET /hello?x=1 HTTP/1.1\r\n\r\n").unwrap();
    assert!(out.ends_with("hi"));
}
