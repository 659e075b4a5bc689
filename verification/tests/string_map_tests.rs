//! Tests of the string map: insertion order, overwriting, and lookup.

use torus_http::string_map::StringMap;
use torus_http::text::decimal_string;

#[test]
fn insert_and_get() {
    let mut m = StringMap::new();
    assert_eq!(m.num_entries(), 0);
    m.insert(String::from("a"), String::from("1"));
    m.insert(String::from("b"), String::from("2"));
    assert_eq!(m.get(&String::from("a")), Some(&String::from("1")));
    assert_eq!(m.get(&String::from("b")), Some(&String::from("2")));
    assert_eq!(m.get(&String::from("c")), None);
    assert_eq!(m.num_entries(), 2);
}

#[test]
fn insert_overwrites_in_place() {
    let mut m = StringMap::new();
    m.insert(String::from("a"), String::from("1"));
    m.insert(String::from("b"), String::from("2"));
    m.insert(String::from("a"), String::from("3"));
    assert_eq!(m.num_entries(), 2);
    assert_eq!(m.get(&String::from("a")), Some(&String::from("3")));
    let (k, v) = m.entry_at(0);
    assert_eq!(k, "a");
    assert_eq!(v, "3");
    let (k, v) = m.entry_at(1);
    assert_eq!(k, "b");
    assert_eq!(v, "2");
}

#[test]
fn duplicate_copies_all_pairs() {
    let mut m = StringMap::new();
    m.insert(String::from("k"), String::from("v"));
    let c = m.duplicate();
    assert_eq!(c.num_entries(), 1);
    assert_eq!(c.get(&String::from("k")), Some(&String::from("v")));
}

#[test]
fn decimal_rendering_matches_std() {
    assert_eq!(decimal_string(0), "0");
    assert_eq!(decimal_string(7), "7");
    assert_eq!(decimal_string(10), "10");
    assert_eq!(decimal_string(12345), "12345");
    assert_eq!(decimal_string(usize::MAX), usize::MAX.to_string());
}
