//! Tests of the response model: `Content-Length` maintenance, the
//! serialized wire text, the status table, and the
//! producible-response conversions.

use torus_http::response::{HttpResponse, Response};
use torus_http::status::{HttpStatus, StatusCategory};

#[test]
fn empty_response_serializes_to_a_bare_status_line() {
    let s = HttpResponse::new().into_string();
    assert_eq!(s, "HTTP/1.1 200 OK\r\n\r\n");
}

#[test]
fn text_converts_to_a_response_with_content_length() {
    let s = "hi".to_response().into_string();
    assert_eq!(s, "HTTP/1.1 200 OK\r\nContent-Length: 2\r\n\r\nhi");
}

#[test]
fn string_converts_like_a_slice() {
    let owned = String::from("hello");
    assert_eq!(
        owned.to_response().into_string(),
        "hello".to_response().into_string()
    );
}

#[test]
fn a_response_converts_to_itself() {
    let r = HttpResponse::new()
        .set_body("x")
        .insert_header("A", "1")
        .set_status(HttpStatus::NotFound);
    assert_eq!(r.to_response().into_string(), r.into_string());
}

#[test]
fn content_length_counts_characters_not_bytes() {
    let body = "héllo wörld →";
    let chars = body.chars().count();
    let bytes = body.len();
    assert!(chars < bytes);
    let s = HttpResponse::new().set_body(body).into_string();
    let (_, serialized_body) = s.split_once("\r\n\r\n").unwrap();
    assert_eq!(serialized_body, body);
    let expected = format!("Content-Length: {}", chars);
    assert!(s.contains(&expected));
}

#[test]
fn content_length_round_trips_through_serialization() {
    let bodies = vec!["", "a", "hello", "héllo ✓ wörld", "line\r\nline"];
    for body in bodies {
        let s = HttpResponse::new().set_body(body).into_string();
        let (head, serialized_body) = s.split_once("\r\n\r\n").unwrap();
        let rederived = serialized_body.chars().count().to_string();
        let header_value = head
            .lines()
            .find_map(|l| l.strip_prefix("Content-Length: "))
            .unwrap();
        assert_eq!(header_value, rederived);
    }
}

#[test]
fn set_body_replaces_the_body_and_its_length() {
    let s = HttpResponse::new()
        .set_body("first")
        .set_body("second body")
        .into_string();
    assert_eq!(s, "HTTP/1.1 200 OK\r\nContent-Length: 11\r\n\r\nsecond body");
}

#[test]
fn new_body_records_the_status_and_length() {
    let r = HttpResponse::new_body(String::from("gone"), HttpStatus::NotFound);
    let s = r.into_string();
    assert_eq!(s, "HTTP/1.1 404 NotFound\r\nContent-Length: 4\r\n\r\ngone");
}

#[test]
fn insert_header_overwrites_the_same_key_in_place() {
    let s = HttpResponse::new()
        .insert_header("A", "1")
        .insert_header("B", "2")
        .insert_header("A", "3")
        .into_string();
    assert_eq!(s, "HTTP/1.1 200 OK\r\nA: 3\r\nB: 2\r\n\r\n");
}

#[test]
fn into_bytes_is_the_utf8_encoding_of_the_text() {
    let r1 = HttpResponse::new().set_body("héllo");
    let r2 = HttpResponse::new().set_body("héllo");
    assert_eq!(r1.into_bytes(), r2.into_string().into_bytes());
}

#[test]
fn statuses_render_as_code_and_name() {
    assert_eq!(HttpStatus::OK.render(), "200 OK");
    assert_eq!(HttpStatus::NotFound.render(), "404 NotFound");
    assert_eq!(HttpStatus::Continue.render(), "100 Continue");
    assert_eq!(HttpStatus::InternalServerError.render(), "500 InternalServerError");
}

#[test]
fn status_codes_and_categories_match() {
    assert_eq!(HttpStatus::Continue.code(), 100);
    assert_eq!(HttpStatus::Continue.category(), StatusCategory::Informational);
    assert_eq!(HttpStatus::OK.code(), 200);
    assert_eq!(HttpStatus::OK.category(), StatusCategory::Success);
    assert_eq!(HttpStatus::MovedPermanently.category(), StatusCategory::Redirection);
    assert_eq!(HttpStatus::NotFound.category(), StatusCategory::ClientError);
    assert_eq!(HttpStatus::BadGateway.category(), StatusCategory::ServerError);
}

#[test]
fn status_default_is_ok_and_order_follows_declaration() {
    assert_eq!(HttpStatus::default(), HttpStatus::OK);
    assert!(HttpStatus::Continue < HttpStatus::OK);
    assert!(HttpStatus::OK < HttpStatus::NotFound);
    assert!(HttpStatus::NotFound < HttpStatus::InternalServerError);
}
