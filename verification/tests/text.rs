use ns_engine::json::{integer_arg, object, string_arg, text_value, value_text};
use ns_engine::text::{
    count_times, ends_with, find, has, join, listed, number, parse_number, parse_signed, replace, signed_number,
    split_lines, split_words, starts_with, strip_prefix, trim, truncate_chars,
};
use ns_engine::types::Json;

#[test]
fn numbers_are_written_and_read_back() {
    for n in [0u64, 7, 10, 4_294_967_296, u64::MAX] {
        assert_eq!(number(n), n.to_string());
        assert_eq!(parse_number(&number(n)), Some(n));
    }
    for n in [0i64, -1, 42, i64::MIN, i64::MAX] {
        assert_eq!(signed_number(n), n.to_string());
        assert_eq!(parse_signed(&signed_number(n)), Some(n));
    }
    assert_eq!(parse_number(""), None);
    assert_eq!(parse_number("18446744073709551616"), None);
    assert_eq!(parse_signed("9223372036854775808"), None);
    assert_eq!(parse_signed("-9223372036854775809"), None);
    assert_eq!(parse_signed("+7"), Some(7));
    assert_eq!(parse_signed("-"), None);
}

#[test]
fn texts_are_searched_and_cut_by_character() {
    assert_eq!(find("říkal minule", "minule"), Some(6));
    assert!(has("abc", "") && has("abc", "bc") && !has("abc", "cb"));
    assert!(starts_with("žlutý", "ž") && ends_with("žlutý", "ý"));
    assert_eq!(strip_prefix("status 5", "status ").as_deref(), Some("5"));
    assert_eq!(strip_prefix("x", "status "), None);
    assert_eq!(trim("\u{a0} a b\n"), "a b");
    assert_eq!(truncate_chars("příliš", 3), "pří…");
    assert_eq!(replace("aXbXc", "X", "--"), "a--b--c");
    assert_eq!(count_times("aaaa", "aa"), 2);
    assert_eq!(split_words("  a  b\tc "), vec!["a", "b", "c"]);
    assert_eq!(split_lines("a\r\nb\n\nc"), "a\r\nb\n\nc".lines().map(String::from).collect::<Vec<_>>());
    assert_eq!(split_lines("a\n"), vec!["a"]);
    let parts = vec!["a".to_string(), "b".to_string()];
    assert_eq!(join(&parts, "; "), "a; b");
    assert!(listed(&parts, "b") && !listed(&parts, "c"));
}

#[test]
fn documents_are_read_by_pointer() {
    let doc = Json { text: "{\"a\":{\"b\":\"x\\n\"},\"n\":-7,\"f\":1.5}".to_string() };
    assert_eq!(string_arg(&doc, "/a/b").as_deref(), Some("x\n"));
    assert_eq!(string_arg(&doc, "/n"), None);
    assert_eq!(integer_arg(&doc, "/n"), Some(-7));
    assert_eq!(integer_arg(&doc, "/f"), None);
    assert_eq!(integer_arg(&doc, "/none"), None);
    assert_eq!(integer_arg(&Json { text: "nonsense".to_string() }, "/n"), None);
    assert_eq!(text_value("say \"hi\"").text, "\"say \\\"hi\\\"\"");
    assert_eq!(value_text(&text_value("say \"hi\"")), "say \"hi\"");
    assert_eq!(value_text(&Json { text: "[1]".to_string() }), "[1]");
    assert_eq!(object("text", "a\"b").text, "{\"text\":\"a\\\"b\"}");
}

#[test]
fn a_string_is_written_as_json_writes_it() {
    let written = text_value("a\"b\\c\n\t\r\u{8}\u{c}\u{1}\u{1f}\u{7f}é/").text;
    assert_eq!(written, "\"a\\\"b\\\\c\\n\\t\\r\\b\\f\\u0001\\u001f\u{7f}é/\"");
    assert_eq!(value_text(&text_value("x\u{0}y")), "x\u{0}y", "and reads back");
}
