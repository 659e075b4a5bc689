//! Tests of the method model: case-insensitive parsing and the
//! `Other` fallback.

use torus_http::method::HttpMethod;

#[test]
fn parses_all_known_verbs_uppercase() {
    assert_eq!(HttpMethod::from_str_val("GET"), HttpMethod::Get);
    assert_eq!(HttpMethod::from_str_val("POST"), HttpMethod::Post);
    assert_eq!(HttpMethod::from_str_val("DELETE"), HttpMethod::Delete);
    assert_eq!(HttpMethod::from_str_val("UPDATE"), HttpMethod::Update);
    assert_eq!(HttpMethod::from_str_val("PUT"), HttpMethod::Put);
    assert_eq!(HttpMethod::from_str_val("PATCH"), HttpMethod::Patch);
    assert_eq!(HttpMethod::from_str_val("HEAD"), HttpMethod::Head);
    assert_eq!(HttpMethod::from_str_val("OPTIONS"), HttpMethod::Options);
}

#[test]
fn parsing_is_case_insensitive() {
    let verbs = vec![
        "GET", "POST", "DELETE", "UPDATE", "PUT", "PATCH", "HEAD", "OPTIONS",
    ];
    for verb in verbs {
        let lowered = verb.to_lowercase();
        assert_eq!(
            HttpMethod::from_str_val(&lowered),
            HttpMethod::from_str_val(verb)
        );
    }
    assert_eq!(HttpMethod::from_str_val("GeT"), HttpMethod::Get);
    assert_eq!(HttpMethod::from_str_val("pOsT"), HttpMethod::Post);
}

#[test]
fn unrecognized_verb_becomes_lowercased_other() {
    assert_eq!(
        HttpMethod::from_str_val("BREW"),
        HttpMethod::Other(String::from("brew"))
    );
    assert_eq!(
        HttpMethod::from_str_val("custom"),
        HttpMethod::Other(String::from("custom"))
    );
    assert_eq!(
        HttpMethod::from_str_val("GETS"),
        HttpMethod::Other(String::from("gets"))
    );
}

#[test]
fn lowercase_folds_ascii_only() {
    assert_eq!(torus_http::method::lowercase("MiXeD123"), "mixed123");
    assert_eq!(torus_http::method::lowercase(""), "");
    assert_eq!(torus_http::method::lowercase("abc"), "abc");
}

#[test]
fn method_equality_is_by_variant_and_payload() {
    assert_eq!(
        HttpMethod::Other(String::from("x")),
        HttpMethod::Other(String::from("x"))
    );
    assert_ne!(
        HttpMethod::Other(String::from("x")),
        HttpMethod::Other(String::from("y"))
    );
    assert_ne!(HttpMethod::Get, HttpMethod::Post);
    let m = HttpMethod::Other(String::from("brew"));
    assert_eq!(m.clone(), m);
}
