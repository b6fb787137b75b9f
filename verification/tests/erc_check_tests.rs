use ki2::diagnostic::{DiagnosticKind, Severity};
use ki2::erc::checks::{
    check_duplicate_sheet_names, check_field_name_whitespace, check_footprint_filters, check_missing_units,
    check_multiunit_footprints, check_stacked_pin_notation, resolved_property_value, shown_sheet_name,
    check_text_assertions, check_unresolved_text_variables, text_assertion_diagnostic, unresolved_variable_diagnostic,
    FootprintCheck, InventoryPin, ItemField, ScreenItems, ScreenShownTexts, ScreenTexts, ShownText, SymbolOccurrence,
    TextSource,
};
use ki2::model::PropertyKind;

fn field(kind: PropertyKind, key: &str, value: &str) -> ItemField {
    ItemField { kind, key: key.to_string(), value: value.to_string() }
}

fn sheet(name: &str) -> Vec<ItemField> {
    vec![field(PropertyKind::SheetName, "Sheetname", name), field(PropertyKind::SheetFile, "Sheetfile", "x.kicad_sch")]
}

fn occurrence(path: &str, reference: &str, footprint: &str, unit: Option<i32>, count: Option<usize>) -> SymbolOccurrence {
    SymbolOccurrence {
        schematic_path: path.to_string(),
        reference: reference.to_string(),
        footprint: footprint.to_string(),
        unit,
        lib_unit_count: count,
    }
}

#[test]
fn assertion_and_variable_diagnostics() {
    let w = text_assertion_diagnostic("a.kicad_sch".to_string(), Severity::Warning, "check me".to_string());
    assert_eq!(w.code, "erc-generic-warning");
    assert_eq!(w.severity, Severity::Warning);
    assert_eq!(w.kind, DiagnosticKind::Validation);
    assert_eq!(w.path.as_deref(), Some("a.kicad_sch"));
    assert_eq!(w.message, "check me");
    let e = text_assertion_diagnostic("a.kicad_sch".to_string(), Severity::Error, "bad".to_string());
    assert_eq!(e.code, "erc-generic-error");
    let u = unresolved_variable_diagnostic("b.kicad_sch".to_string(), "Unresolved text variable".to_string());
    assert_eq!(u.code, "erc-unresolved-variable");
    assert_eq!(u.severity, Severity::Error);
    assert_eq!(u.line, None);
}

#[test]
fn property_values_resolve_by_token() {
    let fields = vec![
        field(PropertyKind::SymbolReference, "Ref", "R1"),
        field(PropertyKind::User, "MPN", "RC0603"),
        field(PropertyKind::User, "Reference", "shadowed"),
    ];
    assert_eq!(resolved_property_value(&fields, "REFERENCE"), Some("R1".to_string()));
    assert_eq!(resolved_property_value(&fields, "mpn"), Some("RC0603".to_string()));
    assert_eq!(resolved_property_value(&fields, "Value"), None);
}

#[test]
fn sheet_names_come_from_the_first_naming_field() {
    assert_eq!(shown_sheet_name(&sheet("Power")), Some("Power"));
    let by_key = vec![field(PropertyKind::User, "SHEETNAME", "Io"), field(PropertyKind::SheetName, "Sheetname", "Late")];
    assert_eq!(shown_sheet_name(&by_key), Some("Io"));
    assert_eq!(shown_sheet_name(&vec![field(PropertyKind::SheetFile, "Sheetfile", "f")]), None);
}

#[test]
fn duplicate_sheet_names_are_reported_per_pair() {
    let screens = vec![
        ScreenItems { path: "top.kicad_sch".to_string(), items: vec![sheet("Power"), sheet("IO"), sheet("power"), sheet("POWER")] },
        ScreenItems { path: "sub.kicad_sch".to_string(), items: vec![sheet("IO")] },
    ];
    let ds = check_duplicate_sheet_names(&screens);
    let messages: Vec<&str> = ds.iter().map(|d| d.message.as_str()).collect();
    assert_eq!(
        messages,
        vec!["Duplicate sheet name: 'Power'", "Duplicate sheet name: 'Power'", "Duplicate sheet name: 'power'"]
    );
    assert!(ds.iter().all(|d| d.code == "erc-duplicate-sheet-name" && d.severity == Severity::Error));
    assert!(ds.iter().all(|d| d.path.as_deref() == Some("top.kicad_sch")));
}

#[test]
fn padded_field_names_are_warned() {
    let screens = vec![ScreenItems {
        path: "top.kicad_sch".to_string(),
        items: vec![
            vec![field(PropertyKind::User, " MPN", "x"), field(PropertyKind::User, "ok", "y")],
            vec![field(PropertyKind::User, "Note\t", "z")],
        ],
    }];
    let ds = check_field_name_whitespace(&screens);
    assert_eq!(ds.len(), 2);
    assert_eq!(ds[0].message, "Field name has leading or trailing whitespace: ' MPN'");
    assert_eq!(ds[1].message, "Field name has leading or trailing whitespace: 'Note\t'");
    assert_eq!(ds[0].severity, Severity::Warning);
    assert_eq!(ds[0].code, "erc-field-name-whitespace");
}

#[test]
fn missing_units_by_reference() {
    let occ = vec![
        occurrence("b.kicad_sch", "U2", "", Some(1), Some(2)),
        occurrence("a.kicad_sch", "U1", "", Some(1), Some(2)),
        occurrence("c.kicad_sch", "U1", "", Some(2), Some(2)),
        occurrence("d.kicad_sch", "U3", "", Some(1), None),
        occurrence("e.kicad_sch", "U2", "", Some(1), Some(2)),
    ];
    let ds = check_missing_units(&occ);
    assert_eq!(ds.len(), 1);
    assert_eq!(ds[0].message, "Missing symbol units for reference 'U2'");
    assert_eq!(ds[0].path.as_deref(), Some("b.kicad_sch"));
    assert_eq!(ds[0].code, "erc-missing-units");
}

#[test]
fn missing_units_reported_in_reference_order() {
    let occ = vec![
        occurrence("z.kicad_sch", "U9", "", Some(1), Some(3)),
        occurrence("y.kicad_sch", "U10", "", None, Some(2)),
        occurrence("x.kicad_sch", "R1", "", Some(1), Some(1)),
    ];
    let ds = check_missing_units(&occ);
    let messages: Vec<&str> = ds.iter().map(|d| d.message.as_str()).collect();
    assert_eq!(messages, vec!["Missing symbol units for reference 'U10'", "Missing symbol units for reference 'U9'"]);
}

#[test]
fn differing_unit_footprints_are_reported() {
    let occ = vec![
        occurrence("a.kicad_sch", "U1", "", Some(1), Some(3)),
        occurrence("b.kicad_sch", "U1", "Pkg:SO8", Some(2), Some(3)),
        occurrence("c.kicad_sch", "U1", "Pkg:DIP8", Some(3), Some(3)),
        occurrence("d.kicad_sch", "U1", "Pkg:SO8", Some(3), Some(3)),
        occurrence("e.kicad_sch", "R1", "R:0603", Some(1), Some(1)),
    ];
    let ds = check_multiunit_footprints(&occ);
    assert_eq!(ds.len(), 1);
    assert_eq!(ds[0].message, "Different footprints assigned to reference 'U1'");
    assert_eq!(ds[0].path.as_deref(), Some("c.kicad_sch"));
    assert_eq!(ds[0].code, "erc-different-unit-footprint");
}

#[test]
fn first_footprint_set_is_the_reference() {
    let occ = vec![
        occurrence("a.kicad_sch", "U1", "Pkg:DIP8", Some(1), Some(2)),
        occurrence("b.kicad_sch", "U1", "Pkg:SO8", Some(2), Some(2)),
    ];
    let ds = check_multiunit_footprints(&occ);
    assert_eq!(ds.len(), 1);
    assert_eq!(ds[0].path.as_deref(), Some("b.kicad_sch"));
}

#[test]
fn footprint_filters_are_matched() {
    let entries = vec![
        FootprintCheck {
            schematic_path: "a.kicad_sch".to_string(),
            footprint: Some("Resistor_SMD:R_0603_1608Metric".to_string()),
            fp_filters: vec!["R_*".to_string()],
        },
        FootprintCheck {
            schematic_path: "b.kicad_sch".to_string(),
            footprint: Some("Capacitor_SMD:C_0603".to_string()),
            fp_filters: vec!["R_*".to_string(), "Resistor*:*".to_string()],
        },
        FootprintCheck {
            schematic_path: "c.kicad_sch".to_string(),
            footprint: Some("NoLibrary".to_string()),
            fp_filters: vec!["R_*".to_string()],
        },
        FootprintCheck {
            schematic_path: "d.kicad_sch".to_string(),
            footprint: Some("Lib:Anything".to_string()),
            fp_filters: Vec::new(),
        },
        FootprintCheck { schematic_path: "e.kicad_sch".to_string(), footprint: None, fp_filters: vec!["X".to_string()] },
        FootprintCheck {
            schematic_path: "f.kicad_sch".to_string(),
            footprint: Some("LIB:SOT-23".to_string()),
            fp_filters: vec!["sot?23".to_string()],
        },
    ];
    let ds = check_footprint_filters(&entries);
    assert_eq!(ds.len(), 1);
    assert_eq!(ds[0].message, "Assigned footprint (c_0603) doesn't match footprint filters (R_* Resistor*:*)");
    assert_eq!(ds[0].path.as_deref(), Some("b.kicad_sch"));
    assert_eq!(ds[0].code, "erc-footprint-link-issues");
}

#[test]
fn invalid_stacked_pin_numbers_are_warned_once_per_symbol() {
    let pin = |n: Option<&str>, p: &str| InventoryPin { number: n.map(str::to_string), schematic_path: p.to_string() };
    let symbols = vec![
        vec![pin(Some("1"), "a.kicad_sch"), pin(Some("[1,2"), "a.kicad_sch"), pin(Some("3]"), "a.kicad_sch")],
        vec![pin(Some("[1-3]"), "b.kicad_sch"), pin(None, "b.kicad_sch")],
        vec![pin(Some("[2,1]x"), "c.kicad_sch")],
    ];
    let ds = check_stacked_pin_notation(&symbols);
    let messages: Vec<&str> = ds.iter().map(|d| d.message.as_str()).collect();
    assert_eq!(
        messages,
        vec![
            "Pin number resembles stacked pin notation but is invalid: '[1,2'",
            "Pin number resembles stacked pin notation but is invalid: '[2,1]x'",
        ]
    );
    assert_eq!(ds[1].path.as_deref(), Some("c.kicad_sch"));
    assert_eq!(ds[0].severity, Severity::Warning);
    assert_eq!(ds[0].code, "erc-stacked-pin-syntax");
}

#[test]
fn text_assertions_are_reported_with_their_severity() {
    let screens = vec![
        ScreenTexts {
            path: "top.kicad_sch".to_string(),
            texts: vec![
                "${ERC_WARNING  check the clamp }".to_string(),
                "plain".to_string(),
                "${ERC_ERROR no pull-up} tail".to_string(),
                "${ERC_ERROR unterminated".to_string(),
            ],
        },
        ScreenTexts { path: "sub.kicad_sch".to_string(), texts: vec!["x ${ERC_ERROR late}".to_string()] },
    ];
    let ds = check_text_assertions(&screens);
    assert_eq!(ds.len(), 2);
    assert_eq!(ds[0].severity, Severity::Warning);
    assert_eq!(ds[0].code, "erc-generic-warning");
    assert_eq!(ds[0].message, "check the clamp");
    assert_eq!(ds[1].severity, Severity::Error);
    assert_eq!(ds[1].code, "erc-generic-error");
    assert_eq!(ds[1].message, "no pull-up");
    assert_eq!(ds[1].path.as_deref(), Some("top.kicad_sch"));
}

#[test]
fn unresolved_variables_name_their_source() {
    let shown = |source: TextSource, text: &str| ShownText { source, text: text.to_string() };
    let screens = vec![
        ScreenShownTexts {
            path: "top.kicad_sch".to_string(),
            texts: vec![
                shown(TextSource::SymbolField("MPN".to_string()), "${MPN}"),
                shown(TextSource::SymbolField("Value".to_string()), "10k"),
                shown(TextSource::LibraryText("text_box".to_string()), "a ${X} b"),
                shown(TextSource::LabelField("Net".to_string(), false), "${HIDDEN}"),
                shown(TextSource::LabelField("Net".to_string(), true), "${SHOWN}"),
                shown(TextSource::SheetField("Title".to_string()), "$ {not}"),
                shown(TextSource::SheetPin("IN".to_string()), "${PIN}"),
                shown(TextSource::SchematicText, "${T}"),
                shown(TextSource::SchematicTextBox, "${TB}"),
            ],
        },
        ScreenShownTexts { path: "top.kicad_sch".to_string(), texts: vec![shown(TextSource::DrawingSheet, "${REV}")] },
    ];
    let ds = check_unresolved_text_variables(&screens);
    let messages: Vec<&str> = ds.iter().map(|d| d.message.as_str()).collect();
    assert_eq!(
        messages,
        vec![
            "Unresolved text variable in symbol field 'MPN'",
            "Unresolved text variable in library text_box",
            "Unresolved text variable in label field 'Net'",
            "Unresolved text variable in sheet pin 'IN'",
            "Unresolved text variable in schematic text",
            "Unresolved text variable in schematic text box",
            "Unresolved text variable in drawing sheet",
        ]
    );
    assert!(ds.iter().all(|d| d.code == "erc-unresolved-variable" && d.severity == Severity::Error));
}
