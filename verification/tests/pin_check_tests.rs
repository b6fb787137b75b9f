use ki2::diagnostic::Severity;
use ki2::erc::pin_check::{check_pin_to_pin, PinNet};
use ki2::erc::pins::ReducedErcPinContext;
use ki2::erc::ReducedPinType;

fn net_pin(reference: &str, path: &str, pin_type: ReducedPinType) -> ReducedErcPinContext {
    ReducedErcPinContext {
        at: [0.0f64.to_bits(), 0.0f64.to_bits()],
        visible: true,
        is_power_symbol: false,
        path: path.to_string(),
        sheet_instance_path: "/".to_string(),
        reference: reference.to_string(),
        pin_number: "1".to_string(),
        pin_name: None,
        symbol_uuid: Some(reference.to_string()),
        pin_type,
    }
}

fn d(x: f64) -> Option<u64> {
    Some(x.to_bits())
}

#[test]
fn conflicting_pins_report_against_their_nearest_conflict() {
    // Listed out of order: C, A, B; A is nearer to C than to B.
    let pins = vec![
        net_pin("U3", "c.kicad_sch", ReducedPinType::PowerOut),
        net_pin("U1", "a.kicad_sch", ReducedPinType::Output),
        net_pin("U2", "b.kicad_sch", ReducedPinType::Output),
    ];
    let mut same_file = pins.clone();
    for pin in &mut same_file {
        pin.path = "one.kicad_sch".to_string();
    }
    let distances = vec![
        vec![d(0.0), d(1.0), d(3.0)],
        vec![d(1.0), d(0.0), d(5.0)],
        vec![d(3.0), d(5.0), d(0.0)],
    ];
    let nets = vec![PinNet { pins: same_file, has_no_connect: false, distances }];
    let found = check_pin_to_pin(&nets, &Vec::new());
    assert_eq!(found.len(), 2);
    assert_eq!(found[0].severity, Severity::Error);
    assert_eq!(found[0].code, "erc-pin-to-pin-error");
    assert_eq!(found[0].message, "Pins of type Output and Power output are connected");
    assert_eq!(found[1].message, "Pins of type Output and Power output are connected");
}

#[test]
fn an_undriven_input_is_reported_unless_a_no_connect_sits_on_the_net() {
    let lone = PinNet { pins: vec![net_pin("U1", "a.kicad_sch", ReducedPinType::Input)], has_no_connect: false, distances: vec![] };
    let found = check_pin_to_pin(&vec![lone.clone()], &Vec::new());
    assert_eq!(found.len(), 1);
    assert_eq!(found[0].severity, Severity::Warning);
    assert_eq!(found[0].code, "erc-pin-not-driven");
    assert_eq!(found[0].message, "Input pin not driven by any Output pins");
    assert_eq!(found[0].path.as_deref(), Some("a.kicad_sch"));
    let marked = PinNet { has_no_connect: true, ..lone };
    assert!(check_pin_to_pin(&vec![marked], &Vec::new()).is_empty());
    assert!(check_pin_to_pin(&vec![PinNet { pins: vec![], has_no_connect: false, distances: vec![] }], &Vec::new()).is_empty());
}

#[test]
fn a_configured_matrix_entry_silences_a_conflict() {
    let pins = vec![
        net_pin("U1", "a.kicad_sch", ReducedPinType::Output),
        net_pin("U2", "a.kicad_sch", ReducedPinType::Output),
    ];
    let net = PinNet { pins, has_no_connect: false, distances: vec![] };
    let found = check_pin_to_pin(&vec![net.clone()], &Vec::new());
    assert_eq!(found.len(), 1);
    assert_eq!(found[0].path.as_deref(), Some("a.kicad_sch"));
    let mut matrix = vec![vec![None; 12]; 12];
    matrix[1][1] = Some(0);
    assert!(check_pin_to_pin(&vec![net], &matrix).is_empty());
}
