use maki::json::{collect_strings, Json};
use maki::order::text_less;
use maki::text::{
    among, cat, cat3, chars_of, contains, decimal_text, first_bytes, join, same_text, strip_prefix,
    strip_suffix, text_bytes, trim, white,
};

const SAMPLES: [&str; 12] = [
    "", " ", "a", "ab", "abc", "b", "é", "漢字", " a b\t", "\u{a0}x\u{3000}", "aab", "\u{1f600}z",
];

#[test]
fn white_space_is_that_of_unicode() {
    for code in 0..=0x10_ffffu32 {
        if let Some(c) = char::from_u32(code) {
            assert_eq!(white(c), c.is_whitespace());
        }
    }
}

#[test]
fn texts_behave_as_strings_do() {
    for a in SAMPLES {
        assert_eq!(trim(a), a.trim());
        assert_eq!(chars_of(a), a.chars().collect::<Vec<char>>());
        assert_eq!(text_bytes(a), a.len());
        for n in 0..8 {
            assert_eq!(first_bytes(a, n), a.get(..n));
        }
        for b in SAMPLES {
            assert_eq!(same_text(a, b), a == b);
            assert_eq!(text_less(a, b), a < b);
            assert_eq!(strip_prefix(a, b), a.strip_prefix(b));
            assert_eq!(strip_suffix(a, b), a.strip_suffix(b));
            assert_eq!(contains(a, b), a.contains(b));
            assert_eq!(cat(a, b), format!("{a}{b}"));
            assert_eq!(cat3(a, b, a), format!("{a}{b}{a}"));
        }
    }
}

#[test]
fn lists_of_texts() {
    let list: Vec<String> = ["a", "b", "c"].into_iter().map(String::from).collect();
    assert_eq!(join(&list, ", "), "a, b, c");
    assert_eq!(join(&Vec::new(), ", "), "");
    assert!(among(&list, "b"));
    assert!(!among(&list, "d"));
}

#[test]
fn numbers_in_base_ten() {
    for n in [0u64, 9, 10, 99, 100, 1_000_000, u64::MAX] {
        assert_eq!(decimal_text(n), n.to_string());
    }
}

#[test]
fn members_of_values() {
    let text = |s: &str| Json::Str(s.to_string());
    let mut value = Json::Object(vec![("a".to_string(), text("x")), ("b".to_string(), Json::Null)]);
    assert_eq!(value.str_member("a"), Some("x"));
    assert_eq!(value.str_member("b"), None);
    assert!(value.get("c").is_none());
    value.set_member("a", Json::Bool(true));
    match &value {
        Json::Object(members) => {
            let keys: Vec<&str> = members.iter().map(|m| m.0.as_str()).collect();
            assert_eq!(keys, ["a", "b"]);
        }
        other => panic!("unexpected value {other:?}"),
    }
    assert!(matches!(value.get("a"), Some(Json::Bool(true))));
    assert!(matches!(value.get("b"), Some(Json::Null)));
    assert!(text("s").get("a").is_none());
    assert_eq!(text("s").as_str(), Some("s"));
    assert_eq!(collect_strings(&vec![text("p"), Json::Null, text("q")]), ["p", "q"]);
}
