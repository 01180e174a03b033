use idp_cli::helpers::{
    apply_helper, capitalize, is_absent_or_empty, is_blank, replace, show, text_value, trim,
    HelperKind,
};
use idp_cli::value::JsonValue;

fn texts(list: &[&str]) -> Vec<JsonValue> {
    list.iter().map(|s| JsonValue::text(s)).collect()
}

#[test]
fn test_helper_names() {
    assert_eq!(HelperKind::Default.name(), "default");
    assert_eq!(HelperKind::Uppercase.name(), "uppercase");
    assert_eq!(HelperKind::Lowercase.name(), "lowercase");
    assert_eq!(HelperKind::Capitalize.name(), "capitalize");
    assert_eq!(HelperKind::Trim.name(), "trim");
    assert_eq!(HelperKind::Replace.name(), "replace");
}

#[test]
fn test_text_value() {
    assert_eq!(text_value(&JsonValue::text("t")), "t");
    assert_eq!(text_value(&JsonValue::number("1")), "");
    assert_eq!(text_value(&JsonValue::Null), "");
    assert_eq!(text_value(&JsonValue::Bool(true)), "");
    assert_eq!(text_value(&JsonValue::array(Vec::new())), "");
}

#[test]
fn test_show_values() {
    assert_eq!(show(&JsonValue::text("t")), "t");
    assert_eq!(show(&JsonValue::number("8080")), "8080");
    assert_eq!(show(&JsonValue::number("-1.5")), "-1.5");
    assert_eq!(show(&JsonValue::Bool(true)), "true");
    assert_eq!(show(&JsonValue::Bool(false)), "false");
    assert_eq!(show(&JsonValue::Null), "");
    assert_eq!(show(&JsonValue::array(Vec::new())), "[]");
    assert_eq!(
        show(&JsonValue::array(vec![
            JsonValue::number("1"),
            JsonValue::text("a"),
            JsonValue::array(vec![JsonValue::Null]),
            JsonValue::empty_object(),
        ])),
        "[1, a, [, ], [object], ]"
    );
    assert_eq!(show(&JsonValue::empty_object()), "[object]");
}

#[test]
fn test_absent_or_empty() {
    assert!(is_absent_or_empty(&JsonValue::Null));
    assert!(is_absent_or_empty(&JsonValue::text("")));
    assert!(!is_absent_or_empty(&JsonValue::text(" ")));
    assert!(!is_absent_or_empty(&JsonValue::number("0")));
    assert!(!is_absent_or_empty(&JsonValue::Bool(false)));
    assert!(!is_absent_or_empty(&JsonValue::array(Vec::new())));
    assert!(!is_absent_or_empty(&JsonValue::empty_object()));
}

#[test]
fn test_default_helper() {
    assert_eq!(apply_helper(HelperKind::Default, &texts(&["v", "f"])), Ok("v".to_string()));
    assert_eq!(apply_helper(HelperKind::Default, &texts(&["", "f"])), Ok("f".to_string()));
    assert_eq!(
        apply_helper(HelperKind::Default, &vec![JsonValue::Null, JsonValue::text("f")]),
        Ok("f".to_string())
    );
    // a value that is no text is neither absent nor empty
    assert_eq!(
        apply_helper(HelperKind::Default, &vec![JsonValue::number("3"), JsonValue::text("f")]),
        Ok("3".to_string())
    );
    assert_eq!(
        apply_helper(HelperKind::Default, &vec![JsonValue::Bool(false), JsonValue::text("f")]),
        Ok("false".to_string())
    );
    assert_eq!(
        apply_helper(HelperKind::Default, &vec![JsonValue::Null, JsonValue::number("3")]),
        Ok("3".to_string())
    );
    assert_eq!(
        apply_helper(HelperKind::Default, &vec![JsonValue::text(""), JsonValue::Null]),
        Ok("".to_string())
    );
    assert_eq!(
        apply_helper(HelperKind::Default, &texts(&["v", "f", "extra"])),
        Ok("v".to_string())
    );
    assert_eq!(
        apply_helper(HelperKind::Default, &texts(&["v"])),
        Err("default helper requires a fallback value".to_string())
    );
    assert_eq!(
        apply_helper(HelperKind::Default, &Vec::new()),
        Err("default helper requires a fallback value".to_string())
    );
}

#[test]
fn test_helpers_without_arguments() {
    assert_eq!(
        apply_helper(HelperKind::Uppercase, &Vec::new()),
        Err("uppercase helper requires a parameter".to_string())
    );
    assert_eq!(
        apply_helper(HelperKind::Lowercase, &Vec::new()),
        Err("lowercase helper requires a parameter".to_string())
    );
    assert_eq!(
        apply_helper(HelperKind::Capitalize, &Vec::new()),
        Err("capitalize helper requires a parameter".to_string())
    );
    assert_eq!(
        apply_helper(HelperKind::Trim, &Vec::new()),
        Err("trim helper requires a parameter".to_string())
    );
    assert_eq!(
        apply_helper(HelperKind::Replace, &Vec::new()),
        Err("replace helper requires text parameter".to_string())
    );
    assert_eq!(
        apply_helper(HelperKind::Replace, &texts(&["t"])),
        Err("replace helper requires old string parameter".to_string())
    );
    assert_eq!(
        apply_helper(HelperKind::Replace, &texts(&["t", "o"])),
        Err("replace helper requires new string parameter".to_string())
    );
}

#[test]
fn test_case_helpers() {
    assert_eq!(apply_helper(HelperKind::Uppercase, &texts(&["aWs é"])), Ok("AWS É".to_string()));
    assert_eq!(apply_helper(HelperKind::Lowercase, &texts(&["AwS É"])), Ok("aws é".to_string()));
    assert_eq!(apply_helper(HelperKind::Uppercase, &vec![JsonValue::Null]), Ok("".to_string()));
    assert_eq!(capitalize("hello world"), "Hello world");
    assert_eq!(capitalize(""), "");
    assert_eq!(capitalize("élan"), "Élan");
    assert_eq!(capitalize("ßa"), "SSa");
    assert_eq!(capitalize("1a"), "1a");
    assert_eq!(apply_helper(HelperKind::Capitalize, &texts(&["x"])), Ok("X".to_string()));
}

#[test]
fn test_trim() {
    assert_eq!(trim("  a b  "), "a b");
    assert_eq!(trim("\t\n a \r\n"), "a");
    assert_eq!(trim("   "), "");
    assert_eq!(trim(""), "");
    assert_eq!(trim("a"), "a");
    assert_eq!(trim("\u{a0}a\u{2003}"), "a");
    assert_eq!(apply_helper(HelperKind::Trim, &texts(&[" x "])), Ok("x".to_string()));
    let chars = |s: &str| -> Vec<char> { s.chars().collect() };
    assert!(is_blank(&chars("")));
    assert!(is_blank(&chars(" \n\t")));
    assert!(!is_blank(&chars(" - ")));
}

#[test]
fn test_replace() {
    assert_eq!(replace("a-b-c", "-", "_"), "a_b_c");
    assert_eq!(replace("aaa", "aa", "b"), "ba");
    assert_eq!(replace("abc", "x", "y"), "abc");
    assert_eq!(replace("abc", "abc", ""), "");
    assert_eq!(replace("abc", "", "-"), "-a-b-c-");
    assert_eq!(replace("", "", "-"), "-");
    assert_eq!(replace("", "a", "b"), "");
    assert_eq!(replace("a.b", ".", ".."), "a..b");
    assert_eq!(replace("xx", "x", "xx"), "xxxx");
    assert_eq!(
        apply_helper(HelperKind::Replace, &texts(&["a b", " ", ""])),
        Ok("ab".to_string())
    );
}
