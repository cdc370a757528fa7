use host_smbios::{extract_json_string, json_string_is_extractable};

fn lookup(json: &str, key: &str) -> Option<String> {
    assert!(json_string_is_extractable(json, key));
    extract_json_string(json, key)
}

#[test]
fn compact_object_gives_value() {
    assert_eq!(lookup(r#"{"a":"b"}"#, "a"), Some("b".to_string()));
}

#[test]
fn white_space_around_colon_is_skipped() {
    assert_eq!(lookup("{\"a\" \t:\n  \"value\"}", "a"), Some("value".to_string()));
}

#[test]
fn written_value_is_read_back() {
    for value in ["x", "Laptop 16", "Fr\u{e9}d\u{e9}ric", "\u{20ac}100", "a:b,c"] {
        let json = format!("{{\"Key\": \"{}\"}}", value);
        assert_eq!(lookup(&json, "Key"), Some(value.to_string()));
    }
}

#[test]
fn empty_value_is_none() {
    assert_eq!(lookup(r#"{"a": ""}"#, "a"), None);
}

#[test]
fn null_with_any_spacing_is_none() {
    assert_eq!(lookup(r#"{"a":null}"#, "a"), None);
    assert_eq!(lookup("{\"a\" :  null , \"b\": \"c\"}", "a"), None);
}

#[test]
fn value_that_is_not_a_string_is_none() {
    assert_eq!(lookup(r#"{"a": 5}"#, "a"), None);
    assert_eq!(lookup(r#"{"a": true}"#, "a"), None);
}

#[test]
fn key_without_colon_is_none() {
    assert_eq!(lookup(r#"{"a" "b"}"#, "a"), None);
}

#[test]
fn key_that_first_occurs_as_a_value_is_found_as_a_member() {
    assert_eq!(lookup(r#"{"Caption": "Model", "Model": "XPS"}"#, "Model"), Some("XPS".to_string()));
    // A longer key does not match.
    assert_eq!(lookup(r#"{"Name2": "x", "Name": "y"}"#, "Name"), Some("y".to_string()));
}

#[test]
fn escapes_are_undone() {
    assert_eq!(lookup(r#"{"k": "a\nb"}"#, "k"), Some("a\nb".to_string()));
    assert_eq!(lookup(r#"{"k": "a\rb\tc"}"#, "k"), Some("a\rb\tc".to_string()));
    assert_eq!(lookup(r#"{"k": "C:\\Windows"}"#, "k"), Some("C:\\Windows".to_string()));
}

#[test]
fn escaped_backslash_is_decoded_once() {
    assert_eq!(lookup(r#"{"Path": "C:\\new"}"#, "Path"), Some(r"C:\new".to_string()));
    assert_eq!(lookup(r#"{"k": "a\\\"b"}"#, "k"), Some("a\\\"b".to_string()));
}

#[test]
fn all_json_escapes_are_decoded() {
    assert_eq!(lookup(r#"{"k": "a\/b"}"#, "k"), Some("a/b".to_string()));
    assert_eq!(lookup(r#"{"k": "\b\f"}"#, "k"), Some("\u{8}\u{c}".to_string()));
    assert_eq!(lookup(r#"{"k": "\u0041\u00e9\u20AC"}"#, "k"), Some("A\u{e9}\u{20ac}".to_string()));
    assert_eq!(lookup(r#"{"k": "\ud83d\ude00!"}"#, "k"), Some("\u{1f600}!".to_string()));
}

#[test]
fn backslash_that_begins_no_escape_is_kept() {
    assert_eq!(lookup(r#"{"k": "a\qb"}"#, "k"), Some("a\\qb".to_string()));
    assert_eq!(lookup(r#"{"k": "\ud83dx"}"#, "k"), Some("\\ud83dx".to_string()));
    assert_eq!(lookup(r#"{"k": "\u12"}"#, "k"), Some("\\u12".to_string()));
}

#[test]
fn value_without_closing_quote_runs_to_the_end() {
    assert_eq!(lookup(r#"{"k": "abc"#, "k"), Some("abc".to_string()));
}

#[test]
fn cut_inside_a_character_is_not_extractable() {
    assert!(!json_string_is_extractable("{\"k\": \"\\\u{e9}\"}", "k"));
    assert!(!json_string_is_extractable("{\"k\": \"ab\\", "k"));
}

#[test]
fn cut_on_a_boundary_after_a_wide_escape_shortens_the_value() {
    // `\€` counts two bytes though it takes four: the cut after four counted
    // bytes falls just after the euro sign.
    assert_eq!(lookup("{\"k\": \"\\\u{20ac}ab\"}", "k"), Some("\\\u{20ac}".to_string()));
}

#[test]
fn lookups_that_stop_before_the_value_are_extractable() {
    assert!(json_string_is_extractable("no key here", "k"));
    assert!(json_string_is_extractable(r#"{"k": null}"#, "k"));
}

#[test]
fn escaped_quote_between_plain_parts_is_unquoted() {
    assert_eq!(lookup(r#"{"k":"say \"hi"}"#, "k"), Some("say \"hi".to_string()));
    assert_eq!(lookup(r#"{"k": "\""}"#, "k"), Some("\"".to_string()));
}

fn json_escape(value: &str) -> String {
    let mut out = String::new();
    for c in value.chars() {
        match c {
            '"' => out.push_str("\\\""),
            '\\' => out.push_str("\\\\"),
            '\n' => out.push_str("\\n"),
            '\r' => out.push_str("\\r"),
            '\t' => out.push_str("\\t"),
            c => out.push(c),
        }
    }
    out
}

#[test]
fn escaped_written_value_is_read_back() {
    for value in ["say \"hi\"", "C:\\new\\table", "two\nlines\r\n", "tab\there", "\\u0041 stays"] {
        let json = format!("{{\"Key\":\t\"{}\"}}", json_escape(value));
        assert_eq!(lookup(&json, "Key"), Some(value.to_string()));
    }
}
