use ki2::diagnostic::{Diagnostic, DiagnosticKind, Severity, SourceSpan};
use ki2::natural::{into_ordering, natural_order_exec, TextOrder};
use ki2::text::{join_strings, parse_i64_all, replace_str, split_on_char, trim_string, usize_to_string};
use std::cmp::Ordering;

fn chars(s: &str) -> Vec<char> {
    s.chars().collect()
}

#[test]
fn replace_takes_occurrences_left_to_right() {
    assert_eq!(replace_str("a${X}b${X}", "${X}", "1"), "a1b1");
    assert_eq!(replace_str("aaa", "aa", "b"), "ba");
    assert_eq!(replace_str("none here", "zz", "y"), "none here");
    assert_eq!(replace_str("", "x", "y"), "");
}

#[test]
fn join_puts_separator_between_neighbours() {
    let items = vec!["error".to_string(), "warning".to_string()];
    assert_eq!(join_strings(&items, ", "), "error, warning");
    assert_eq!(join_strings(&vec!["one".to_string()], ", "), "one");
    assert_eq!(join_strings(&Vec::new(), ", "), "");
}

#[test]
fn small_text_helpers() {
    assert_eq!(trim_string("  a b \t"), "a b");
    assert_eq!(usize_to_string(0), "0");
    assert_eq!(usize_to_string(1207), "1207");
    assert_eq!(parse_i64_all(&chars("-42")), Some(-42));
    assert_eq!(parse_i64_all(&chars("4x")), None);
    let v = chars("a,b,,c");
    let parts = split_on_char(&v, 0, v.len(), ',');
    assert_eq!(parts, vec![chars("a"), chars("b"), chars(""), chars("c")]);
}

#[test]
fn natural_order_compares_digit_runs_by_value() {
    assert_eq!(natural_order_exec(&chars("R2"), &chars("R10"), false, false), TextOrder::Less);
    assert_eq!(natural_order_exec(&chars("R10"), &chars("R2"), false, false), TextOrder::Greater);
    assert_eq!(natural_order_exec(&chars("abc"), &chars("ABC"), true, false), TextOrder::Equal);
    assert_eq!(natural_order_exec(&chars("abc"), &chars("ABC"), false, false), TextOrder::Greater);
    assert_eq!(into_ordering(TextOrder::Less), Ordering::Less);
    assert_eq!(into_ordering(TextOrder::Equal), Ordering::Equal);
    assert_eq!(into_ordering(TextOrder::Greater), Ordering::Greater);
}

#[test]
fn diagnostic_builders() {
    let d = Diagnostic::expecting("parse", "symbol".to_string());
    assert_eq!(d.message, "expecting symbol");
    assert_eq!(d.severity, Severity::Error);
    assert_eq!(d.kind, DiagnosticKind::Expecting { expected: "symbol".to_string() });
    let u = Diagnostic::unexpected("parse", ")".to_string());
    assert_eq!(u.message, "unexpected )");
    assert_eq!(u.kind, DiagnosticKind::Unexpected { found: ")".to_string() });
    let v = Diagnostic::validation("check", "bad".to_string());
    assert_eq!(v.kind, DiagnosticKind::Validation);
    assert_eq!(v.path, None);
    let placed = v.with_path("a.kicad_sch".to_string()).with_position(3, 9);
    assert_eq!(placed.path.as_deref(), Some("a.kicad_sch"));
    assert_eq!(placed.line, Some(3));
    assert_eq!(placed.column, Some(9));
}

#[test]
fn span_suffix_prefers_line_and_column() {
    let d = Diagnostic::error("x", "m".to_string());
    assert_eq!(d.display_span_suffix(), "");
    let spanned = d.clone().with_span(SourceSpan { start: 4, end: 11 });
    assert_eq!(spanned.display_span_suffix(), ":4..11");
    let both = spanned.with_position(2, 5);
    assert_eq!(both.display_span_suffix(), ":2:5");
}
