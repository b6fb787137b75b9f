use ki2::loader::LoadedSheetPath;
use ki2::netlist::{
    escape_xml, expand_stacked_pin_notation, human_sheet_name, natural_compare_segment, parse_alphanumeric_pin,
    str_num_cmp,
};
use std::cmp::Ordering;

fn strings(v: &[&str]) -> Vec<String> {
    v.iter().map(|s| s.to_string()).collect()
}

#[test]
fn digit_segments_compare_by_value_then_length() {
    assert_eq!(natural_compare_segment("2", "10"), Ordering::Less);
    assert_eq!(natural_compare_segment("007", "7"), Ordering::Greater);
    assert_eq!(natural_compare_segment("0", "00"), Ordering::Less);
    assert_eq!(natural_compare_segment("42", "42"), Ordering::Equal);
}

#[test]
fn references_sort_naturally() {
    assert_eq!(str_num_cmp("R2", "R10", false), Ordering::Less);
    assert_eq!(str_num_cmp("U1", "u1", true), Ordering::Equal);
    assert_eq!(str_num_cmp("a", "B", false), Ordering::Greater);
    assert_eq!(str_num_cmp("a", "B", true), Ordering::Less);
    assert_eq!(str_num_cmp("R10", "R2", false), Ordering::Greater);
}

#[test]
fn xml_text_is_escaped() {
    assert_eq!(escape_xml(r#"a<b & "c">"#), "a&lt;b &amp; &quot;c&quot;&gt;");
    assert_eq!(escape_xml("plain"), "plain");
}

#[test]
fn pin_numbers_split_after_the_last_letter() {
    assert_eq!(parse_alphanumeric_pin("A12"), ("A".to_string(), Some(12)));
    assert_eq!(parse_alphanumeric_pin("12"), ("".to_string(), Some(12)));
    assert_eq!(parse_alphanumeric_pin("AB"), ("".to_string(), None));
    assert_eq!(parse_alphanumeric_pin("A1B2"), ("A1B".to_string(), Some(2)));
    assert_eq!(parse_alphanumeric_pin(""), ("".to_string(), None));
}

#[test]
fn stacked_pins_expand() {
    assert_eq!(expand_stacked_pin_notation("7"), (strings(&["7"]), true));
    assert_eq!(expand_stacked_pin_notation("[1,3-5]"), (strings(&["1", "3", "4", "5"]), true));
    assert_eq!(expand_stacked_pin_notation("[A1-A3, B]"), (strings(&["A1", "A2", "A3", "B"]), true));
    assert_eq!(expand_stacked_pin_notation("[5-3]"), (strings(&["[5-3]"]), false));
    assert_eq!(expand_stacked_pin_notation("1]"), (strings(&["1]"]), false));
    assert_eq!(expand_stacked_pin_notation("[]"), (strings(&["[]"]), false));
    assert_eq!(expand_stacked_pin_notation("[-2--1]"), (strings(&["[-2--1]"]), false));
}

#[test]
fn sheet_names_for_humans() {
    let root = LoadedSheetPath {
        schematic_path: "root.kicad_sch".to_string(),
        instance_path: "".to_string(),
        symbol_path: "".to_string(),
        sheet_uuid: None,
        sheet_name: Some("Top".to_string()),
        page: None,
        sheet_number: 1,
        sheet_count: 2,
    };
    assert_eq!(human_sheet_name(&root), "/");
    let child = LoadedSheetPath { instance_path: "/abc".to_string(), sheet_name: Some("Power".to_string()), ..root.clone() };
    assert_eq!(human_sheet_name(&child), "Power");
    let unnamed = LoadedSheetPath { sheet_name: None, ..child };
    assert_eq!(human_sheet_name(&unnamed), "/abc");
}

#[test]
fn escaped_xml_reads_back_and_never_escapes_twice() {
    let text = "a<b & \"c\">";
    let escaped = escape_xml(text);
    assert_eq!(escaped, "a&lt;b &amp; &quot;c&quot;&gt;");
    let back = escaped
        .replace("&quot;", "\"")
        .replace("&gt;", ">")
        .replace("&lt;", "<")
        .replace("&amp;", "&");
    assert_eq!(back, text);
    assert_eq!(escape_xml("&amp;"), "&amp;amp;");
}

#[test]
fn pin_numbers_compare_equal_only_when_the_same() {
    assert_eq!(str_num_cmp("R10", "R10", false), Ordering::Equal);
    assert_eq!(str_num_cmp("R010", "R10", false), Ordering::Greater);
    assert_eq!(str_num_cmp("r10", "R10", false), Ordering::Greater);
    assert_eq!(str_num_cmp("r10", "R10", true), Ordering::Equal);
    assert_eq!(str_num_cmp("R10", "r10", true), Ordering::Equal);
    assert_eq!(str_num_cmp("R9", "r10", true), Ordering::Less);
}

#[test]
fn rule_comparison_agrees_with_pin_number_comparison() {
    let texts = ["a1", "A01", "b", "B2", "10", "9", "x_3y", "X_3Y"];
    for a in texts {
        for b in texts {
            assert_eq!(ki2::erc::reduced_str_num_cmp_ignore_case(a, b), str_num_cmp(a, b, true));
        }
    }
}
