//! Tests of the request parser: the request line, query parameters,
//! headers, the body rules, and the two fatal errors.

use torus_http::method::HttpMethod;
use torus_http::request::{ParseError, Request};

#[test]
fn parses_a_simple_get_request() {
    let req = Request::from_str("GET /hello HTTP/1.1\r\nHost: x\r\n\r\n").unwrap();
    assert_eq!(req.method, HttpMethod::Get);
    assert_eq!(req.path, "/hello");
    assert!(req.query.is_none());
    assert_eq!(
        req.headers.get(&String::from("Host")),
        Some(&String::from("x"))
    );
    assert!(req.body.is_none());
}

#[test]
fn query_pairs_are_split_at_the_first_equals() {
    let req = Request::from_str("GET /a?x=1&y=2 HTTP/1.1\r\n\r\n").unwrap();
    assert_eq!(req.path, "/a");
    let query = req.query.as_ref().unwrap();
    assert_eq!(query.get(&String::from("x")), Some(&String::from("1")));
    assert_eq!(query.get(&String::from("y")), Some(&String::from("2")));
    assert_eq!(query.num_entries(), 2);
}

#[test]
fn query_pair_without_equals_is_dropped() {
    let req = Request::from_str("GET /a?bad&z=9 HTTP/1.1\r\n\r\n").unwrap();
    assert_eq!(req.path, "/a");
    let query = req.query.as_ref().unwrap();
    assert_eq!(query.get(&String::from("z")), Some(&String::from("9")));
    assert_eq!(query.get(&String::from("bad")), None);
    assert_eq!(query.num_entries(), 1);
}

#[test]
fn absent_question_mark_yields_no_query() {
    let req = Request::from_str("GET /a HTTP/1.1\r\n\r\n").unwrap();
    assert_eq!(req.path, "/a");
    assert!(req.query.is_none());
}

#[test]
fn bare_question_mark_yields_an_empty_query() {
    let req = Request::from_str("GET /a? HTTP/1.1\r\n\r\n").unwrap();
    assert_eq!(req.path, "/a");
    assert_eq!(req.query.as_ref().unwrap().num_entries(), 0);
}

#[test]
fn later_query_key_overwrites_earlier() {
    let req = Request::from_str("GET /a?x=1&x=2 HTTP/1.1\r\n\r\n").unwrap();
    let query = req.query.as_ref().unwrap();
    assert_eq!(query.get(&String::from("x")), Some(&String::from("2")));
    assert_eq!(query.num_entries(), 1);
}

#[test]
fn value_keeps_later_equals_signs() {
    let req = Request::from_str("GET /a?k=v=w HTTP/1.1\r\n\r\n").unwrap();
    let query = req.query.as_ref().unwrap();
    assert_eq!(query.get(&String::from("k")), Some(&String::from("v=w")));
}

#[test]
fn header_keys_and_values_are_trimmed() {
    let req = Request::from_str("GET / HTTP/1.1\r\n  Host :   here \r\n\r\n").unwrap();
    assert_eq!(
        req.headers.get(&String::from("Host")),
        Some(&String::from("here"))
    );
}

#[test]
fn duplicate_header_overwrites_earlier() {
    let req = Request::from_str("GET / HTTP/1.1\r\nA: 1\r\nA: 2\r\n\r\n").unwrap();
    assert_eq!(req.headers.get(&String::from("A")), Some(&String::from("2")));
    assert_eq!(req.headers.num_entries(), 1);
}

#[test]
fn header_line_without_colon_is_dropped() {
    let req = Request::from_str("GET / HTTP/1.1\r\nnocolonhere\r\nB: 2\r\n\r\n").unwrap();
    assert_eq!(req.headers.get(&String::from("nocolonhere")), None);
    assert_eq!(req.headers.get(&String::from("B")), Some(&String::from("2")));
    assert_eq!(req.headers.num_entries(), 1);
}

#[test]
fn header_value_keeps_later_colons() {
    let req = Request::from_str("GET / HTTP/1.1\r\nHost: a:8080\r\n\r\n").unwrap();
    assert_eq!(
        req.headers.get(&String::from("Host")),
        Some(&String::from("a:8080"))
    );
}

#[test]
fn headers_stop_at_the_first_empty_line() {
    let req = Request::from_str("POST / HTTP/1.1\r\nA: 1\r\n\r\nB: 2\r\n").unwrap();
    assert_eq!(req.headers.get(&String::from("A")), Some(&String::from("1")));
    assert_eq!(req.headers.get(&String::from("B")), None);
}

#[test]
fn get_request_has_no_body_even_with_trailing_bytes() {
    let req = Request::from_str("GET / HTTP/1.1\r\nA: 1\r\n\r\ntrailing bytes").unwrap();
    assert_eq!(req.method, HttpMethod::Get);
    assert!(req.body.is_none());
}

#[test]
fn post_request_keeps_its_body() {
    let req = Request::from_str("POST / HTTP/1.1\r\nA: 1\r\n\r\nhello body").unwrap();
    assert_eq!(req.body, Some(String::from("hello body")));
}

#[test]
fn empty_body_collapses_to_none() {
    let req = Request::from_str("POST / HTTP/1.1\r\nA: 1\r\n\r\n").unwrap();
    assert!(req.body.is_none());
}

#[test]
fn missing_separator_means_no_body() {
    let req = Request::from_str("POST / HTTP/1.1\nA: 1\n").unwrap();
    assert!(req.body.is_none());
}

#[test]
fn empty_buffer_is_a_missing_request_line() {
    assert_eq!(
        Request::from_str("").unwrap_err(),
        ParseError::MissingRequestLine
    );
}

#[test]
fn single_token_first_line_is_invalid() {
    assert_eq!(
        Request::from_str("GET\r\n\r\n").unwrap_err(),
        ParseError::InvalidRequestLine
    );
}

#[test]
fn two_token_first_line_is_invalid() {
    assert_eq!(
        Request::from_str("GET /\r\nHost: x\r\n\r\n").unwrap_err(),
        ParseError::InvalidRequestLine
    );
}

#[test]
fn four_token_first_line_is_invalid() {
    assert_eq!(
        Request::from_str("GET / HTTP/1.1 extra\r\n\r\n").unwrap_err(),
        ParseError::InvalidRequestLine
    );
}

#[test]
fn blank_first_line_is_invalid() {
    assert_eq!(
        Request::from_str("\r\n\r\n").unwrap_err(),
        ParseError::InvalidRequestLine
    );
}

#[test]
fn request_line_allows_repeated_whitespace() {
    let req = Request::from_str("GET   /spaced \t HTTP/1.1\r\n\r\n").unwrap();
    assert_eq!(req.method, HttpMethod::Get);
    assert_eq!(req.path, "/spaced");
}

#[test]
fn verb_is_parsed_case_insensitively_in_requests() {
    let req = Request::from_str("pOsT / HTTP/1.1\r\n\r\nx").unwrap();
    assert_eq!(req.method, HttpMethod::Post);
    assert_eq!(req.body, Some(String::from("x")));
}

#[test]
fn unknown_verb_is_kept_lowercased() {
    let req = Request::from_str("CUSTOM / HTTP/1.1\r\n\r\n").unwrap();
    assert_eq!(req.method, HttpMethod::Other(String::from("custom")));
}
