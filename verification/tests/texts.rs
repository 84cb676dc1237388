use aichat_core::error::Error;
use aichat_core::json;
use aichat_core::model::{settings_equal, Real};
use aichat_core::table::Table;
use aichat_core::text;
use serde_json::Value;

#[test]
fn whitespace_is_trimmed() {
    assert_eq!(text::trim(" \u{2003}a b\n\t"), "a b");
    assert_eq!(text::trim_start("\u{a0} x "), "x ");
    assert_eq!(text::trim_end(" x\u{3000}"), " x");
    assert_eq!(text::trim("   "), "");
}

#[test]
fn texts_are_searched_and_replaced() {
    assert!(text::contains("a__INPUT__b", "__INPUT__"));
    assert!(text::contains("", ""));
    assert!(!text::contains("ab", "abc"));
    assert_eq!(text::replace("aaaa", "aa", "b"), "bb");
    assert_eq!(text::replace("x{{a}}y{{a}}", "{{a}}", "1"), "x1y1");
    assert_eq!(text::strip_prefix("--- a", "---"), Some(" a"));
    assert_eq!(text::strip_prefix("-- a", "---"), None);
    assert_eq!(text::strip_suffix("tool.lua", ".lua"), Some("tool"));
}

#[test]
fn texts_are_split_and_joined() {
    assert_eq!(text::split("a;;b", ';'), vec!["a", "", "b"]);
    assert_eq!(text::split("", ';'), vec![""]);
    assert_eq!(text::lines("a\r\nb\n\nc\n"), vec!["a", "b", "", "c"]);
    assert!(text::lines("").is_empty());
    assert_eq!(text::join(&vec!["a".to_string(), "b".to_string()], ", "), "a, b");
    assert_eq!(text::join(&vec![], ", "), "");
}

#[test]
fn numbers_as_text() {
    assert_eq!(text::number_text(0), "0");
    assert_eq!(text::number_text(u64::MAX), "18446744073709551615");
    assert_eq!(text::integer_text(i64::MIN), "-9223372036854775808");
    assert_eq!(text::integer_text(42), "42");
    assert_eq!(text::bool_text(true), "true");
    assert_eq!(text::bool_text(false), "false");
    assert_eq!(text::pad("ab", 4), "ab  ");
    assert_eq!(text::pad("abcde", 4), "abcde");
}

#[test]
fn order_of_texts() {
    let sorted = text::sort_texts(
        ["b", "a", "B", "ab", "é", "", "a"].iter().map(|s| s.to_string()).collect(),
    );
    assert_eq!(sorted, vec!["", "B", "a", "a", "ab", "b", "é"]);
    assert!(text::at_most("a", "ab") && !text::at_most("ab", "a"));
}

#[test]
fn texts_are_cut_between_characters() {
    assert_eq!(text::skip_bytes("aé€x", 3).as_deref(), Some("€x"));
    assert_eq!(text::skip_bytes("aé€x", 6).as_deref(), Some("x"));
    assert_eq!(text::skip_bytes("aé€x", 2), None);
    assert_eq!(text::skip_bytes("ab", 3), None);
    assert_eq!(text::skip_bytes("ab", 2).as_deref(), Some(""));
    assert!(text::ends_at_byte("aé", 3));
    assert!(!text::ends_at_byte("aé", 2));
}

#[test]
fn entries_of_a_table_keep_their_place() {
    let mut t: Table<u8> = Table::new();
    assert!(t.is_empty());
    t.insert("b".to_string(), 1);
    t.insert("a".to_string(), 2);
    t.insert("b".to_string(), 3);
    assert_eq!(t.len(), 2);
    assert_eq!(t.entry(0), (&"b".to_string(), &3));
    assert_eq!(t.get("a"), Some(&2));
    assert_eq!(t.get("c"), None);
    let mut s: Table<String> = Table::new();
    s.insert("a".to_string(), "1".to_string());
    let mut u = s.copy();
    u.insert("a".to_string(), "2".to_string());
    s.extend(&u);
    assert_eq!(s.get("a"), Some(&"2".to_string()));
}

#[test]
fn documents_are_read() {
    let v: Value = serde_json::from_str(r#"{"a": [1, "x"], "n": null}"#).unwrap();
    assert!(json::is_object(&v));
    assert!(json::is_null(json::get(&v, "n").unwrap()));
    let a = json::as_array(json::get(&v, "a").unwrap()).unwrap();
    assert_eq!(json::as_text(&a[1]).unwrap(), "x");
    assert!(json::get(&v, "b").is_none());
    assert!(json::get(&a[0], "b").is_none());
    assert!(json::get_text(&v, "a").is_none());
    assert_eq!(json::single_member("k", v.clone())["k"], v);
    assert_eq!(json::text_value("t".to_string()), Value::String("t".to_string()));
    assert_eq!(json::null_value(), Value::Null);
}

#[test]
fn numbers_of_settings_are_compared_as_doubles() {
    let real_number = |x: f64| Some(Real { bits: x.to_bits(), text: x.to_string() });
    assert!(settings_equal(&real_number(0.0), &real_number(-0.0)));
    assert!(settings_equal(&real_number(0.7), &real_number(0.7)));
    assert!(!settings_equal(&real_number(0.7), &real_number(0.8)));
    assert!(!settings_equal(&real_number(f64::NAN), &real_number(f64::NAN)));
    assert!(settings_equal(&real_number(f64::INFINITY), &real_number(f64::INFINITY)));
    assert!(settings_equal(&None, &None));
    assert!(!settings_equal(&None, &real_number(0.0)));
}

#[test]
fn words_of_errors() {
    let name = || "n".to_string();
    assert_eq!(
        Error::FunctionLoop.message(),
        "The request was aborted because an infinite loop of function calls was detected."
    );
    assert_eq!(Error::UnknownAgent { name: name() }.message(), "Unknown agent `n`");
    assert_eq!(Error::UnknownRole { name: name() }.message(), "Unknown role `n`");
    assert_eq!(
        Error::InvalidDocumentPath { path: name() }.message(),
        "Invalid document path: 'n'"
    );
    assert_eq!(
        Error::InstructionsNotText { value: name() }.message(),
        "'_instructions' must return a string, got: n"
    );
    assert_eq!(
        Error::NoInstructions.message(),
        "No return value from '_instructions' function"
    );
    assert_eq!(
        Error::RequiredVariables { lines: vec![name(), name()] }.message(),
        "The following agent variables are required:\nn\nn"
    );
    assert_eq!(Error::ExitStatus { code: i32::MIN }.message(), "Tool call exit with -2147483648");
    assert_eq!(Error::Outside { words: name() }.message(), "n");
}
