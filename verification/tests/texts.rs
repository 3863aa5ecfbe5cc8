use kite_lite_core::json::Json;
use kite_lite_core::model::meta_lookup;
use kite_lite_core::numbers::read_tenths;
use kite_lite_core::text::{
    contains_text, decimal_text, ends_with, is_blank, is_white_space, normalize_text, parse_size,
    same_ignoring_case, split_at_text, split_on, split_once, split_words, starts_with, take_chars,
    to_ascii_lower, trim,
};

#[test]
fn white_space_is_that_of_unicode() {
    for n in 0..=0x10ffff_u32 {
        if let Some(c) = char::from_u32(n) {
            assert_eq!(is_white_space(c), c.is_whitespace(), "U+{n:04X}");
        }
    }
}

#[test]
fn text_is_normalized_to_its_words() {
    assert_eq!(normalize_text("  a \n\t b\u{a0}c  "), "a b c");
    assert_eq!(normalize_text(" \n "), "");
    let once = normalize_text(" x   y ");
    assert_eq!(normalize_text(&once), once);
    assert_eq!(split_words("  a \n\t b\u{a0}c  "), vec!["a", "b", "c"]);
}

#[test]
fn text_is_trimmed_and_cut() {
    assert_eq!(trim("\u{3000} a b \n"), "a b");
    assert_eq!(trim(" \n"), "");
    assert!(is_blank(" \u{2003}"));
    assert!(!is_blank(" x"));
    assert_eq!(take_chars("ñandú", 3), "ñan");
    assert_eq!(take_chars("ab", 3), "ab");
}

#[test]
fn text_is_split() {
    assert_eq!(split_on("a;b;;c", ';'), vec!["a", "b", "", "c"]);
    assert_eq!(split_on("", ';'), vec![""]);
    assert_eq!(split_once("a=b=c", '='), Some(("a".to_string(), "b=c".to_string())));
    assert_eq!(split_once("abc", '='), None);
    assert_eq!(split_at_text("a--b--c", "--"), Some(("a".to_string(), "b--c".to_string())));
    assert_eq!(split_at_text("abc", "--"), None);
    assert_eq!(split_at_text("ab", "abc"), None);
}

#[test]
fn parts_are_found() {
    assert!(starts_with("ñab", "ñ"));
    assert!(!starts_with("ab", "abc"));
    assert!(ends_with("x.json", ".json"));
    assert!(!ends_with("json", ".json"));
    assert!(contains_text("abcabd", "abd"));
    assert!(contains_text("abc", ""));
    assert!(!contains_text("abc", "ac"));
}

#[test]
fn case_is_that_of_ascii() {
    assert_eq!(to_ascii_lower("ABCxyzÑ"), "abcxyzÑ");
    assert!(same_ignoring_case("HoSt", "hOsT"));
    assert!(!same_ignoring_case("Ñ", "ñ"));
}

#[test]
fn numbers_are_written_and_read() {
    assert_eq!(decimal_text(0), "0");
    assert_eq!(decimal_text(1234567890), "1234567890");
    assert_eq!(parse_size("0042"), Some(42));
    assert_eq!(parse_size("+7"), Some(7));
    for text in ["", "+", "-1", "1 ", "++1", "1a", "٣"] {
        assert_eq!(parse_size(text), None, "{text}");
    }
    assert_eq!(parse_size(&decimal_text(usize::MAX as u128)), Some(usize::MAX));
    assert_eq!(parse_size(&decimal_text(usize::MAX as u128 + 1)), None);
}

#[test]
fn first_pair_with_a_key_is_looked_up() {
    let meta = vec![
        ("a".to_string(), "1".to_string()),
        ("b".to_string(), "2".to_string()),
        ("a".to_string(), "3".to_string()),
    ];
    assert_eq!(meta_lookup(&meta, "a"), Some("1"));
    assert_eq!(meta_lookup(&meta, "c"), None);
}

#[test]
fn json_fields_are_read() {
    let json = Json::object()
        .with("s", Json::string("x"))
        .with("n", Json::Unsigned(3))
        .with("m", Json::Negative(-2))
        .with("r", Json::Real("0.25".to_string()))
        .with("t", Json::Bool(true));
    assert_eq!(json.get_str("s"), Some("x"));
    assert_eq!(json.get_str("n"), None);
    assert_eq!(json.get_u64("n"), Some(3));
    assert_eq!(json.get_u64("m"), None);
    assert_eq!(json.get_tenths("n"), 30);
    assert_eq!(json.get_tenths("m"), -20);
    assert_eq!(json.get_tenths("r"), 2);
    assert_eq!(json.get_tenths("s"), 0);
    assert!(json.get_flag("t"));
    assert!(!json.get_flag("s"));
    assert!(json.get("missing").is_none());
    assert!(Json::Null.get("s").is_none());
    assert!(matches!(Json::Null.with("a", Json::Null), Json::Null));
    let copy = json.clone();
    assert_eq!(copy.get_u64("n"), Some(3));
}

#[test]
fn tenths_are_read_from_a_number_as_it_is_written() {
    let cases = [
        ("0.0", 0),
        ("24.2", 242),
        ("1.99", 19),
        ("-0.25", -3),
        ("-0.3", -3),
        ("-1.0", -10),
        ("1e3", 10000),
        ("1.25e-1", 1),
        ("5e-7", 0),
        ("-5e-7", -1),
        ("12.5e1", 1250),
        ("1e300", 1000000000000000000000000000000),
        ("-1e300", -1000000000000000000000000000000),
        ("0e300", 0),
        ("x", 0),
        ("1e", 0),
        ("", 0),
    ];
    for (text, tenths) in cases {
        assert_eq!(read_tenths(text), tenths, "{text}");
    }
}
