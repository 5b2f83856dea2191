use embeprom::bounded::BoundedString;
use embeprom::escape::valid_label_name;
use embeprom::escape::valid_metric_name;
use embeprom::escape::write_escaped_help;
use embeprom::escape::write_escaped_label_value;

fn escaped_value(s: &str) -> String {
    let mut out = BoundedString::<64>::new();
    write_escaped_label_value(&mut out, s).unwrap();
    out.as_str().to_string()
}

fn escaped_help(s: &str) -> String {
    let mut out = BoundedString::<64>::new();
    write_escaped_help(&mut out, s).unwrap();
    out.as_str().to_string()
}

#[test]
fn escapes_label_values() {
    assert_eq!(escaped_value("plain"), "plain");
    assert_eq!(escaped_value("back\\slash"), "back\\\\slash");
    assert_eq!(escaped_value("has\"quote"), "has\\\"quote");
    assert_eq!(escaped_value("multi\nline"), "multi\\nline");
    assert_eq!(escaped_value("\\\"\n"), "\\\\\\\"\\n");
}

#[test]
fn escapes_help_text_but_not_quotes() {
    assert_eq!(escaped_help("plain"), "plain");
    assert_eq!(escaped_help("back\\slash"), "back\\\\slash");
    assert_eq!(escaped_help("has\"quote"), "has\"quote");
    assert_eq!(escaped_help("multi\nline"), "multi\\nline");
}

#[test]
fn metric_names() {
    assert!(valid_metric_name(""));
    assert!(valid_metric_name("wifi"));
    assert!(valid_metric_name("wifi_packets_sent"));
    assert!(valid_metric_name("_leading_underscore"));
    assert!(valid_metric_name("with:colon"));
    assert!(valid_metric_name("Name123"));
    assert!(!valid_metric_name("1starts_with_digit"));
    assert!(!valid_metric_name("has-dash"));
    assert!(!valid_metric_name("has space"));
}

#[test]
fn label_names() {
    assert!(valid_label_name("reason"));
    assert!(valid_label_name("_ok"));
    assert!(!valid_label_name(""));
    assert!(!valid_label_name("1starts_with_digit"));
    assert!(!valid_label_name("has-dash"));
    assert!(!valid_label_name("has:colon"));
    assert!(!valid_label_name("__reserved"));
}

fn unescape(s: &str) -> String {
    let mut out = String::new();
    let mut chars = s.chars();
    while let Some(c) = chars.next() {
        if c == '\\' {
            match chars.next() {
                Some('n') => out.push('\n'),
                Some(other) => out.push(other),
                None => panic!("a backslash at the end"),
            }
        } else {
            out.push(c);
        }
    }
    out
}

#[test]
fn escaped_text_reads_back_and_is_one_line() {
    for s in ["", "plain", "\\", "\\n", "\n", "\"", "a\\\"b\nc\\\\n", "\u{e9}\n\u{1f600}"] {
        assert_eq!(unescape(&escaped_value(s)), s);
        assert_eq!(unescape(&escaped_help(s)), s);
        assert!(!escaped_value(s).contains('\n'));
        assert!(!escaped_help(s).contains('\n'));
    }
}

#[test]
fn the_closing_quote_of_a_label_value_is_unambiguous() {
    for s in ["x", "x\"", "x\\", "x\\\""] {
        let quoted = format!("{}\" rest", escaped_value(s));
        let mut end = 0;
        let bytes = quoted.as_bytes();
        while bytes[end] != b'"' {
            end += if bytes[end] == b'\\' { 2 } else { 1 };
        }
        assert_eq!(unescape(&quoted[..end]), s);
    }
}

#[test]
fn label_names_are_metric_names() {
    for s in ["reason", "_ok", "a1_B2", "le"] {
        assert!(valid_label_name(s));
        assert!(valid_metric_name(s));
    }
    assert!(valid_metric_name("with:colon"));
    assert!(!valid_label_name("with:colon"));
    assert!(!valid_label_name("\u{e9}t\u{e9}"));
    assert!(!valid_metric_name("line\nbreak"));
    assert!(valid_label_name("_"));
    assert!(!valid_label_name("__"));
}

#[test]
fn escaped_text_that_does_not_fit_is_refused() {
    let mut out = BoundedString::<3>::new();
    assert!(write_escaped_label_value(&mut out, "a\n").is_ok());
    let mut out = BoundedString::<2>::new();
    assert!(write_escaped_label_value(&mut out, "a\n").is_err());
    let mut out = BoundedString::<2>::new();
    assert!(write_escaped_help(&mut out, "a\"").is_ok());
    let mut out = BoundedString::<2>::new();
    assert!(write_escaped_help(&mut out, "a\\").is_err());
}

#[test]
fn an_escape_that_does_not_fit_is_refused_whole() {
    let mut out = BoundedString::<2>::new();
    assert!(write_escaped_label_value(&mut out, "a\"").is_err());
    assert_eq!(out.as_str(), "a");
    let mut out = BoundedString::<3>::new();
    assert!(write_escaped_help(&mut out, "ab\nc").is_err());
    assert_eq!(out.as_str(), "ab");
    let mut out = BoundedString::<0>::new();
    assert!(write_escaped_label_value(&mut out, "").is_ok());
}
