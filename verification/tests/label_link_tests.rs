use ki2::diagnostic::Severity;
use ki2::erc::label_links::{check_label_connectivity, LabelSubgraph, LinkedLabel, NamedSubgraph};
use ki2::model::LabelKind;

fn label(kind: LabelKind, dangling: bool) -> LinkedLabel {
    LinkedLabel { kind, on_bus: false, dangling }
}

fn subgraph(pins: usize, labels: Vec<LinkedLabel>, neighbors: Vec<NamedSubgraph>) -> LabelSubgraph {
    LabelSubgraph {
        sheet_file: Some("top.kicad_sch".to_string()),
        sheet_instance_path: "/".to_string(),
        code: 1,
        net_name: "SDA".to_string(),
        pin_count: pins,
        has_no_connect: false,
        has_local_hierarchy: false,
        neighbors,
        labels,
    }
}

fn neighbor(sheet: &str, code: u64, pins: usize) -> NamedSubgraph {
    NamedSubgraph { sheet_instance_path: sheet.to_string(), code, pin_count: pins, has_no_connect: false, has_local_hierarchy: false }
}

#[test]
fn labels_without_pins_or_with_one_pin_are_reported() {
    let found = check_label_connectivity(&vec![subgraph(0, vec![label(LabelKind::Global, false)], vec![])]);
    assert_eq!(found.len(), 1);
    assert_eq!(found[0].severity, Severity::Error);
    assert_eq!(found[0].code, "erc-label-dangling");
    assert_eq!(found[0].message, "Label not connected");
    assert_eq!(found[0].path.as_deref(), Some("top.kicad_sch"));

    let found = check_label_connectivity(&vec![subgraph(1, vec![label(LabelKind::Global, false)], vec![])]);
    assert_eq!(found.len(), 1);
    assert_eq!(found[0].severity, Severity::Warning);
    assert_eq!(found[0].code, "erc-isolated-pin-label");

    let own = neighbor("/", 1, 5);
    let far = neighbor("/sub", 2, 2);
    let found = check_label_connectivity(&vec![subgraph(1, vec![label(LabelKind::Global, false)], vec![own, far])]);
    assert!(found.is_empty());
}

#[test]
fn a_local_label_whose_pins_are_all_elsewhere_is_not_connected() {
    let far = neighbor("/sub", 2, 2);
    let found = check_label_connectivity(&vec![subgraph(0, vec![label(LabelKind::Local, false), label(LabelKind::Directive, true)], vec![far.clone()])]);
    assert_eq!(found.len(), 1);
    assert_eq!(found[0].code, "erc-label-dangling");
    let found = check_label_connectivity(&vec![subgraph(0, vec![label(LabelKind::Global, false)], vec![far])]);
    assert!(found.is_empty());
}
