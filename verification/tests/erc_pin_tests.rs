use ki2::erc::pins::{reduced_erc_pins_are_stacked, reduced_preferred_missing_driver_pin, ReducedErcPinContext};
use ki2::erc::ReducedPinType;

fn position(x: f64, y: f64) -> [u64; 2] {
    [x.to_bits(), y.to_bits()]
}

fn test_pin(
    reference: &str,
    pin_number: &str,
    pin_type: ReducedPinType,
    visible: bool,
    is_power_symbol: bool,
) -> ReducedErcPinContext {
    ReducedErcPinContext {
        at: position(0.0, 0.0),
        visible,
        is_power_symbol,
        path: "root.kicad_sch".to_string(),
        sheet_instance_path: "/".to_string(),
        reference: reference.to_string(),
        pin_number: pin_number.to_string(),
        pin_name: Some(pin_number.to_string()),
        symbol_uuid: Some("sym".to_string()),
        pin_type,
    }
}

#[test]
fn missing_driver_prefers_visible_non_power_pin() {
    let pins = vec![
        test_pin("U1", "1", ReducedPinType::Input, false, false),
        test_pin("U2", "1", ReducedPinType::Input, true, false),
        test_pin("#PWR1", "1", ReducedPinType::PowerIn, true, true),
    ];

    let chosen = reduced_preferred_missing_driver_pin(&pins, false).expect("preferred missing driver");

    assert_eq!(chosen.reference, "U2");
    assert_eq!(chosen.pin_number, "1");
    assert!(chosen.visible);
    assert!(!chosen.is_power_symbol);
}

#[test]
fn missing_driver_falls_back_to_power_symbol_pins() {
    let pins = vec![
        test_pin("U1", "1", ReducedPinType::Output, true, false),
        test_pin("#PWR1", "1", ReducedPinType::Input, false, true),
        test_pin("#PWR2", "1", ReducedPinType::PowerIn, false, true),
    ];
    let chosen = reduced_preferred_missing_driver_pin(&pins, true).expect("power input");
    assert_eq!(chosen.reference, "#PWR2");
    let chosen = reduced_preferred_missing_driver_pin(&pins, false).expect("any input");
    assert_eq!(chosen.reference, "#PWR1");
    let drivers = vec![test_pin("U1", "1", ReducedPinType::Output, true, false)];
    assert!(reduced_preferred_missing_driver_pin(&drivers, false).is_none());
}

#[test]
fn stacked_pin_helper_only_matches_same_symbol_name_type_and_position() {
    let lhs = ReducedErcPinContext {
        at: position(10.0, 20.0),
        visible: true,
        is_power_symbol: false,
        path: "root.kicad_sch".to_string(),
        sheet_instance_path: "/".to_string(),
        reference: "U1".to_string(),
        pin_number: "1".to_string(),
        pin_name: Some("IO".to_string()),
        symbol_uuid: Some("sym".to_string()),
        pin_type: ReducedPinType::Output,
    };
    let mut rhs = ReducedErcPinContext {
        at: lhs.at,
        visible: lhs.visible,
        is_power_symbol: lhs.is_power_symbol,
        path: lhs.path.clone(),
        sheet_instance_path: lhs.sheet_instance_path.clone(),
        reference: lhs.reference.clone(),
        pin_number: "2".to_string(),
        pin_name: lhs.pin_name.clone(),
        symbol_uuid: lhs.symbol_uuid.clone(),
        pin_type: lhs.pin_type,
    };

    assert!(reduced_erc_pins_are_stacked(&lhs, &rhs));

    rhs.pin_name = Some("ALT".to_string());
    assert!(!reduced_erc_pins_are_stacked(&lhs, &rhs));
}

#[test]
fn stacked_pin_helper_keeps_reused_screen_occurrences_distinct() {
    let lhs = ReducedErcPinContext {
        at: position(10.0, 20.0),
        visible: true,
        is_power_symbol: false,
        path: "shared_child.kicad_sch".to_string(),
        sheet_instance_path: "/A".to_string(),
        reference: "U1".to_string(),
        pin_number: "2".to_string(),
        pin_name: Some("OUT".to_string()),
        symbol_uuid: Some("shared-sym".to_string()),
        pin_type: ReducedPinType::Output,
    };
    let rhs = ReducedErcPinContext {
        at: lhs.at,
        visible: lhs.visible,
        is_power_symbol: lhs.is_power_symbol,
        path: lhs.path.clone(),
        sheet_instance_path: "/B".to_string(),
        reference: "U2".to_string(),
        pin_number: lhs.pin_number.clone(),
        pin_name: lhs.pin_name.clone(),
        symbol_uuid: lhs.symbol_uuid.clone(),
        pin_type: lhs.pin_type,
    };

    assert!(!reduced_erc_pins_are_stacked(&lhs, &rhs));
}

#[test]
fn stacked_pins_differ_by_position_bits() {
    let lhs = test_pin("U1", "1", ReducedPinType::Output, true, false);
    let mut rhs = lhs.clone();
    rhs.at = position(0.0, 1.0);
    assert!(!reduced_erc_pins_are_stacked(&lhs, &rhs));
    rhs.at = position(-0.0, 0.0);
    assert!(!reduced_erc_pins_are_stacked(&lhs, &rhs));
    assert!(reduced_erc_pins_are_stacked(&lhs, &lhs.clone()));
}
