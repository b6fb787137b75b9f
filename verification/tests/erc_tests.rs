use ki2::diagnostic::{Diagnostic, Severity};
use ki2::erc::{
    apply_configured_rule_severities, apply_configured_rule_severity, configured_pin_conflict,
    configured_rule_severity, is_driven_pin_type, is_normal_driver_pin_type, is_power_driver_pin_type,
    parse_alphanumeric_pin_token, parse_reduced_pin_type, parse_text_assertion, pin_conflict, pin_type_index,
    reduced_label_kind_key, reduced_pin_type_text, reduced_pin_type_weight, reduced_str_num_cmp_ignore_case,
    rule_severity_setting, stacked_pin_notation_is_valid, wildcard_matches, LoadedErcSeverity, PinConflict,
    ReducedPinType,
};
use ki2::model::LabelKind;
use std::cmp::Ordering;

const ALL: [ReducedPinType; 12] = [
    ReducedPinType::Input,
    ReducedPinType::Output,
    ReducedPinType::Bidirectional,
    ReducedPinType::TriState,
    ReducedPinType::Passive,
    ReducedPinType::Free,
    ReducedPinType::Unspecified,
    ReducedPinType::PowerIn,
    ReducedPinType::PowerOut,
    ReducedPinType::OpenCollector,
    ReducedPinType::OpenEmitter,
    ReducedPinType::NoConnect,
];

#[test]
fn pin_types_parse_from_keywords() {
    assert_eq!(parse_reduced_pin_type("tri_state"), Some(ReducedPinType::TriState));
    assert_eq!(parse_reduced_pin_type("power_in"), Some(ReducedPinType::PowerIn));
    assert_eq!(parse_reduced_pin_type("Input"), None);
    assert_eq!(reduced_pin_type_text(ReducedPinType::NoConnect), "Unconnected");
    assert_eq!(reduced_pin_type_weight(ReducedPinType::Free), 11);
    assert_eq!(pin_type_index(ReducedPinType::NoConnect), 11);
}

#[test]
fn pin_conflicts_follow_the_default_matrix() {
    assert_eq!(pin_conflict(ReducedPinType::Output, ReducedPinType::Output), PinConflict::Error);
    assert_eq!(pin_conflict(ReducedPinType::Input, ReducedPinType::Output), PinConflict::NoConflict);
    assert_eq!(pin_conflict(ReducedPinType::Unspecified, ReducedPinType::Input), PinConflict::Warning);
    assert_eq!(pin_conflict(ReducedPinType::PowerOut, ReducedPinType::Bidirectional), PinConflict::Warning);
    for a in ALL {
        assert_eq!(pin_conflict(a, ReducedPinType::NoConnect), PinConflict::Error);
        for b in ALL {
            assert_eq!(pin_conflict(a, b), pin_conflict(b, a));
        }
    }
}

#[test]
fn configured_pin_map_overrides_the_default() {
    assert_eq!(configured_pin_conflict(Some(0), ReducedPinType::Output, ReducedPinType::Output), PinConflict::NoConflict);
    assert_eq!(configured_pin_conflict(Some(1), ReducedPinType::Input, ReducedPinType::Input), PinConflict::Warning);
    assert_eq!(configured_pin_conflict(Some(3), ReducedPinType::Input, ReducedPinType::Input), PinConflict::Error);
    assert_eq!(configured_pin_conflict(Some(7), ReducedPinType::Output, ReducedPinType::Output), PinConflict::Error);
    assert_eq!(configured_pin_conflict(None, ReducedPinType::Input, ReducedPinType::Output), PinConflict::NoConflict);
}

#[test]
fn driver_classes() {
    assert!(is_driven_pin_type(ReducedPinType::Input));
    assert!(is_driven_pin_type(ReducedPinType::PowerIn));
    assert!(!is_driven_pin_type(ReducedPinType::Output));
    assert!(is_normal_driver_pin_type(ReducedPinType::Output));
    assert!(!is_normal_driver_pin_type(ReducedPinType::Input));
    assert!(is_power_driver_pin_type(ReducedPinType::PowerOut));
    for t in ALL {
        assert!(!(is_driven_pin_type(t) && is_normal_driver_pin_type(t)));
    }
}

#[test]
fn label_kind_keys_are_distinct() {
    assert_eq!(reduced_label_kind_key(LabelKind::Local), 0);
    assert_eq!(reduced_label_kind_key(LabelKind::Directive), 3);
}

#[test]
fn natural_text_order_ignores_case() {
    assert_eq!(reduced_str_num_cmp_ignore_case("net2", "NET10"), Ordering::Less);
    assert_eq!(reduced_str_num_cmp_ignore_case("Abc", "aBC"), Ordering::Equal);
    assert_eq!(reduced_str_num_cmp_ignore_case("b", "A"), Ordering::Greater);
    assert_eq!(reduced_str_num_cmp_ignore_case("x01", "x1"), Ordering::Greater);
}

#[test]
fn alphanumeric_tokens_split_at_the_first_digit() {
    assert_eq!(parse_alphanumeric_pin_token("A12"), ("A".to_string(), Some(12)));
    assert_eq!(parse_alphanumeric_pin_token("GND"), ("GND".to_string(), None));
    assert_eq!(parse_alphanumeric_pin_token("5x"), ("".to_string(), None));
}

#[test]
fn stacked_pin_notation() {
    assert!(stacked_pin_notation_is_valid("12"));
    assert!(stacked_pin_notation_is_valid("[1,2,5-7]"));
    assert!(stacked_pin_notation_is_valid("[A1-A3]"));
    assert!(!stacked_pin_notation_is_valid("[1,2"));
    assert!(!stacked_pin_notation_is_valid("[7-5]"));
    assert!(!stacked_pin_notation_is_valid("[A1-B3]"));
    assert!(!stacked_pin_notation_is_valid("[ , ]"));
}

#[test]
fn text_assertions() {
    assert_eq!(parse_text_assertion("${ERC_WARNING  check me }"), Some((Severity::Warning, "check me".to_string())));
    assert_eq!(parse_text_assertion("${ERC_ERROR bad}tail"), Some((Severity::Error, "bad".to_string())));
    assert_eq!(parse_text_assertion("${ERC_ERROR bad"), None);
    assert_eq!(parse_text_assertion("text ${ERC_ERROR x}"), None);
}

#[test]
fn wildcards() {
    assert!(wildcard_matches("R_*", "R_0603"));
    assert!(wildcard_matches("C?", "C1"));
    assert!(!wildcard_matches("C?", "C12"));
    assert!(wildcard_matches("*", ""));
    assert!(!wildcard_matches("a*b", "acd"));
}

#[test]
fn rule_settings_and_defaults() {
    assert_eq!(rule_severity_setting("erc-missing-units"), Some(("missing_unit", Some(Severity::Warning))));
    assert_eq!(rule_severity_setting("erc-four-way-junction"), Some(("four_way_junction", None)));
    assert_eq!(rule_severity_setting("erc-generic-error"), None);
    assert_eq!(configured_rule_severity(Some(LoadedErcSeverity::Ignore), Some(Severity::Error)), None);
    assert_eq!(configured_rule_severity(None, Some(Severity::Error)), Some(Severity::Error));
    assert_eq!(configured_rule_severity(Some(LoadedErcSeverity::Warning), None), Some(Severity::Warning));
}

#[test]
fn configured_severities_apply_to_diagnostics() {
    let d = Diagnostic::validation("erc-pin-to-pin-error", "conflict".to_string());
    let warned = apply_configured_rule_severity(d.clone(), Some(LoadedErcSeverity::Warning)).expect("kept");
    assert_eq!(warned.severity, Severity::Warning);
    assert_eq!(warned.message, "conflict");
    assert!(apply_configured_rule_severity(d.clone(), Some(LoadedErcSeverity::Ignore)).is_none());

    let junction = Diagnostic::validation("erc-four-way-junction", "junction".to_string());
    assert!(apply_configured_rule_severity(junction.clone(), None).is_none());

    let generic = Diagnostic::error("erc-generic-error", "asserted".to_string());
    assert_eq!(apply_configured_rule_severity(generic.clone(), Some(LoadedErcSeverity::Ignore)).map(|x| x.severity), Some(Severity::Error));

    let kept = apply_configured_rule_severities(
        vec![d, junction, generic],
        &vec![None, None, None],
    );
    let codes: Vec<&str> = kept.iter().map(|x| x.code).collect();
    assert_eq!(codes, vec!["erc-pin-to-pin-error", "erc-generic-error"]);
}
