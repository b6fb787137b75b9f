use ki2::model::property::Property;
use ki2::model::PropertyKind;
use ki2::netlist::libpart::{lib_symbol_to_xml_libpart, LibPartSource, LibPinEntry};

fn s(t: &str) -> String {
    t.to_string()
}

fn pin(number: Option<&str>, name: Option<&str>, kind: Option<&str>) -> LibPinEntry {
    LibPinEntry { number: number.map(s), name: name.map(s), electrical_type: kind.map(s) }
}

fn source() -> LibPartSource {
    LibPartSource {
        description: None,
        properties: vec![
            Property::new(PropertyKind::SymbolReference, s("U")),
            Property::new(PropertyKind::SymbolDatasheet, s("http://x/ds.pdf")),
            Property::new(PropertyKind::SymbolDescription, s("Quad gate")),
            Property::new_named(PropertyKind::User, "Vendor", s("ACME"), false),
        ],
        pins: vec![
            pin(Some("[1-3]"), Some("VCC"), Some("power_in")),
            pin(Some("10"), None, None),
            pin(None, Some("NC"), Some("passive")),
            pin(Some("2"), Some("OTHER"), Some("input")),
            pin(Some("b"), Some("B"), Some("output")),
        ],
        fp_filters: vec![s("SOIC*"), s(""), s("DIP*")],
    }
}

#[test]
fn libpart_splits_library_id_and_reads_fields() {
    let l = lib_symbol_to_xml_libpart("Logic:7400", &source());
    assert_eq!(l.lib, "Logic");
    assert_eq!(l.part, "7400");
    assert_eq!(l.docs, "http://x/ds.pdf");
    assert_eq!(l.description, "Quad gate");
    assert_eq!(
        l.fields,
        vec![
            (s("Reference"), s("U")),
            (s("Datasheet"), s("http://x/ds.pdf")),
            (s("Description"), s("Quad gate")),
            (s("Vendor"), s("ACME")),
        ]
    );
    assert_eq!(l.footprints, vec![s("SOIC*"), s("DIP*")]);
}

#[test]
fn libpart_without_library_keeps_whole_id_as_part() {
    let mut src = source();
    src.description = Some(s("Own text"));
    let l = lib_symbol_to_xml_libpart("7400", &src);
    assert_eq!(l.lib, "");
    assert_eq!(l.part, "7400");
    assert_eq!(l.description, "Own text");
}

#[test]
fn libpart_pins_expand_stack_keep_first_and_sort_naturally() {
    let l = lib_symbol_to_xml_libpart("Logic:7400", &source());
    let got: Vec<(String, String, String)> =
        l.pins.iter().map(|p| (p.number.clone(), p.name.clone(), p.electrical_type.clone())).collect();
    assert_eq!(
        got,
        vec![
            (s("1"), s("VCC"), s("power_in")),
            (s("2"), s("VCC"), s("power_in")),
            (s("3"), s("VCC"), s("power_in")),
            (s("10"), s("10"), s("")),
            (s("b"), s("B"), s("output")),
        ]
    );
}

#[test]
fn libpart_invalid_stack_notation_is_kept_as_one_pin() {
    let mut src = source();
    src.pins = vec![pin(Some("[3-1]"), Some("X"), None), pin(Some("4"), None, Some("input"))];
    let l = lib_symbol_to_xml_libpart("L:P", &src);
    let numbers: Vec<String> = l.pins.iter().map(|p| p.number.clone()).collect();
    assert_eq!(numbers, vec![s("4"), s("[3-1]")]);
}
