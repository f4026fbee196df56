//! Texts, paths, documents and sorted maps.

use midenup::path;
use midenup::sorted::SortedMap;
use midenup::text;
use midenup::value::{Number, Value};

#[test]
fn texts_are_split_replaced_and_joined() {
    assert_eq!(
        text::split_once("a://b://c", "://"),
        Some(("a".to_string(), "b://c".to_string()))
    );
    assert_eq!(text::split_once("abc", "://"), None);
    assert_eq!(text::replace("aXbXX", "X", "--"), "a--b----");
    assert_eq!(text::replace("aaa", "aa", "b"), "ba");
    assert!(text::contains("abc", "bc") && !text::contains("abc", "cb"));
    assert_eq!(text::join(&vec!["a".to_string(), "b".to_string()], ", "), "a, b");
    assert_eq!(text::join(&vec![], ", "), "");
    assert_eq!(text::strip_suffix("vm-linux", "-linux"), Some("vm".to_string()));
    assert_eq!(text::strip_suffix("vm", "-linux"), None);
    assert_eq!(text::last_segment("a/b/c", '/'), "c");
    assert_eq!(text::last_segment("abc", '/'), "abc");
}

#[test]
fn numbers_are_written_in_digits() {
    assert_eq!(text::number(0), "0");
    assert_eq!(text::number(u128::MAX), u128::MAX.to_string());
    assert_eq!(text::signed_number(i128::MIN), i128::MIN.to_string());
    assert_eq!(text::signed_number(-7), "-7");
    assert_eq!(text::octal_number(0o755), "755");
    assert_eq!(text::octal_number(0), "0");
}

#[test]
fn texts_are_trimmed_of_white_space() {
    for raw in ["", " ", "\t a b \n", "\u{a0}x\u{3000}", "\u{200b}x"] {
        assert_eq!(text::trim(raw), raw.trim(), "{raw:?}");
    }
    assert_eq!(text::to_ascii_lowercase("ÄBCz1"), "ÄBCz1".to_ascii_lowercase());
}

#[test]
fn paths_are_joined_and_compared() {
    assert_eq!(path::join("/a", "b"), "/a/b");
    assert_eq!(path::join("/a/", "b"), "/a/b");
    assert_eq!(path::join("/a", "/b"), "/b");
    assert_eq!(path::join("", "b"), "b");
    for (a, b) in [("/a/b", "/a//b"), ("a/./b", "a/b"), ("a/", "a"), (".", "./")] {
        assert!(path::same(a, b), "{a} {b}");
        assert_eq!(std::path::Path::new(a), std::path::Path::new(b));
    }
    for (a, b) in [("/a", "a"), ("./a", "a"), ("a/..", "."), ("", "."), ("a", "b")] {
        assert!(!path::same(a, b), "{a} {b}");
        assert_ne!(std::path::Path::new(a), std::path::Path::new(b));
    }
    for raw in ["/a/b", "a/.", "a/..", "/", "", "a//", ".", ".."] {
        let expected =
            std::path::Path::new(raw).file_name().map(|name| name.to_string_lossy().into_owned());
        assert_eq!(path::file_name(raw), expected, "{raw:?}");
    }
    assert_eq!(path::strip_base("/root/bin/x", "/root"), "bin/x");
    assert_eq!(path::strip_base("/other/x", "/root"), "/other/x");
}

#[test]
fn documents_are_compared_by_what_they_say() {
    let member = |name: &str, n: u64| (name.to_string(), Value::Number(Number::Whole(n)));
    let a = Value::Object(vec![member("x", 1), member("y", 2)]);
    let b = Value::Object(vec![member("y", 3), member("y", 2), member("x", 1)]);
    assert!(a.same(&b), "the order of members says nothing, and the later one counts");
    assert!(!a.same(&Value::Object(vec![member("x", 1)])));
    assert!(!Value::Null.same(&Value::Bool(false)));
    let list = Value::List(vec![Value::Null, Value::Bool(true)]);
    assert!(list.same(&list.clone()));
    assert!(!list.same(&Value::List(vec![Value::Bool(true), Value::Null])));
    assert_eq!(a, b);
    assert_ne!(a, list);
}

#[test]
fn doubles_differ_by_their_bits_but_for_the_sign_of_zero() {
    let values = [0.0, -0.0, 1.0, -1.0, 0.1, 0.1 + f64::EPSILON, f64::MAX, f64::MIN_POSITIVE];
    for a in values {
        for b in values {
            let (x, y) = (Number::Double(a.to_bits()), Number::Double(b.to_bits()));
            assert_eq!(x == y, a == b, "{a} {b}");
        }
    }
    assert_ne!(Number::Whole(0), Number::Double(0));
    assert_ne!(Number::Whole(1), Number::Whole(2));
    assert_ne!(Number::Negative(-1), Number::Negative(-2));
}

#[test]
fn a_sorted_map_finds_what_was_inserted() {
    let mut map: SortedMap<u32> = SortedMap::new();
    assert!(map.is_empty());
    assert_eq!(map.insert("b".to_string(), 1), None);
    assert_eq!(map.insert("a".to_string(), 2), None);
    assert_eq!(map.insert("b".to_string(), 3), Some(1));
    assert_eq!(map.len(), 2);
    assert_eq!(map.get("a"), Some(&2));
    assert_eq!(map.get("b"), Some(&3));
    assert_eq!(map.get("c"), None);
    assert_eq!((map.key(0).as_str(), map.key(1).as_str()), ("a", "b"));
}
