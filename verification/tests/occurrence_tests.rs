use ki2::loader::occurrence::{
    apply_selected_symbol_instance, apply_sheet_variant_state, apply_symbol_instance_state, apply_symbol_variant_state,
    occurrences_are_ready, refresh_live_sheet_variant_state, refresh_live_symbol_occurrence_state, reset_reused_screen_symbol_state,
    seed_first_symbol_instance_state, snapshot_sheet_occurrence_bases, snapshot_symbol_occurrence_bases, LiveSchematic,
    LiveSheet, LiveSymbol,
};
use ki2::loader::selection::{LoadedHierarchy, ScreenPageState};
use ki2::loader::LoadedSheetPath;
use ki2::model::property::Property;
use ki2::model::{ItemVariant, PropertyKind, SheetLocalInstance, SymbolLocalInstance};

fn s(t: &str) -> String {
    t.to_string()
}

fn occurrence(file: &str, instance: &str) -> LoadedSheetPath {
    LoadedSheetPath {
        schematic_path: s(file),
        instance_path: s(instance),
        symbol_path: s(instance),
        sheet_uuid: None,
        sheet_name: None,
        page: None,
        sheet_number: 1,
        sheet_count: 1,
    }
}

fn variant(name: &str, dnp: bool, fields: &[(&str, &str)]) -> ItemVariant {
    ItemVariant {
        name: s(name),
        dnp,
        excluded_from_sim: dnp,
        in_bom: !dnp,
        on_board: true,
        in_pos_files: true,
        fields: fields.iter().map(|(k, v)| (s(k), s(v))).collect(),
    }
}

fn instance(path: &str, reference: Option<&str>, value: Option<&str>, variants: Vec<ItemVariant>) -> SymbolLocalInstance {
    SymbolLocalInstance {
        project: s("demo"),
        path: s(path),
        reference: reference.map(s),
        unit: Some(1),
        value: value.map(s),
        footprint: None,
        variants,
    }
}

fn symbol(instances: Vec<SymbolLocalInstance>) -> LiveSymbol {
    LiveSymbol {
        uuid: None,
        power: false,
        prefix: s("R"),
        in_netlist: true,
        unit: None,
        excluded_from_sim: false,
        in_bom: true,
        on_board: true,
        in_pos_files: true,
        dnp: false,
        properties: vec![
            Property::new(PropertyKind::SymbolReference, s("R?")),
            Property::new(PropertyKind::SymbolValue, s("10k")),
            Property::new(PropertyKind::SymbolFootprint, s("")),
        ],
        sim_model_enabled: Some(true),
        instances,
        occurrence_base: None,
    }
}

fn value_of(props: &[Property], key: &str) -> Option<String> {
    props.iter().find(|p| p.key == key).map(|p| p.value.clone())
}

#[test]
fn selected_instance_sets_reference_value_and_prefix() {
    let mut sym = symbol(vec![]);
    let inst = instance("/a/b", Some("#PWR03"), Some("~"), vec![]);
    apply_selected_symbol_instance(&mut sym, &inst, None);
    assert_eq!(value_of(&sym.properties, "Reference"), Some(s("#PWR03")));
    assert_eq!(value_of(&sym.properties, "Value"), Some(s("10k")));
    assert_eq!(sym.prefix, "#PWR");
    assert!(!sym.in_netlist);
    assert_eq!(sym.unit, Some(1));
}

#[test]
fn selected_instance_applies_current_variant() {
    let mut sym = symbol(vec![]);
    let inst = instance(
        "/a",
        Some("R7"),
        Some("4k7"),
        vec![variant("Lite", true, &[("MPN", "X-1"), ("Value", "0R")])],
    );
    apply_selected_symbol_instance(&mut sym, &inst, Some("Lite"));
    assert_eq!(value_of(&sym.properties, "Reference"), Some(s("R7")));
    assert_eq!(value_of(&sym.properties, "Value"), Some(s("0R")));
    assert_eq!(value_of(&sym.properties, "MPN"), Some(s("X-1")));
    let added = sym.properties.iter().find(|p| p.key == "MPN").unwrap();
    assert_eq!(added.kind, PropertyKind::User);
    assert_eq!(added.ordinal, 42);
    assert!(sym.dnp);
    assert!(sym.excluded_from_sim);
    assert!(!sym.in_bom);
    assert_eq!(sym.sim_model_enabled, Some(false));
    assert_eq!(sym.prefix, "R");
}

#[test]
fn unknown_variant_leaves_instance_data_only() {
    let mut sym = symbol(vec![]);
    let inst = instance("/a", None, Some(""), vec![variant("Lite", true, &[])]);
    apply_selected_symbol_instance(&mut sym, &inst, Some("Full"));
    assert_eq!(value_of(&sym.properties, "Value"), Some(s("10k")));
    assert!(!sym.dnp);
    assert_eq!(sym.sim_model_enabled, Some(true));
}

#[test]
fn variant_fields_get_increasing_ordinals() {
    let mut sym = symbol(vec![]);
    apply_symbol_variant_state(&mut sym, &variant("V", false, &[("A", "1"), ("B", "2")]));
    let a = sym.properties.iter().find(|p| p.key == "A").unwrap();
    let b = sym.properties.iter().find(|p| p.key == "B").unwrap();
    assert_eq!((a.ordinal, b.ordinal), (42, 43));
    assert_eq!(sym.properties.len(), 5);
}

#[test]
fn sheet_variant_adds_sheet_user_fields() {
    let mut sheet = LiveSheet {
        excluded_from_sim: false,
        in_bom: true,
        on_board: true,
        dnp: false,
        properties: vec![
            Property::new(PropertyKind::SheetName, s("amp")),
            Property::new(PropertyKind::SheetFile, s("sub\\amp.kicad_sch")),
        ],
        instances: vec![],
        occurrence_base: None,
    };
    assert_eq!(sheet.name(), Some("amp"));
    assert_eq!(sheet.filename(), Some(s("sub/amp.kicad_sch")));
    apply_sheet_variant_state(&mut sheet, &variant("V", true, &[("Note", "x")]));
    let added = sheet.properties.iter().find(|p| p.key == "Note").unwrap();
    assert_eq!(added.kind, PropertyKind::SheetUser);
    assert!(sheet.dnp);
    assert!(!sheet.in_bom);
}

#[test]
fn restore_brings_back_captured_state() {
    let mut schematics = vec![LiveSchematic {
        path: s("/p/a.kicad_sch"),
        symbols: vec![symbol(vec![instance("/x", Some("R1"), Some("1k"), vec![])])],
        sheets: vec![],
        labels: vec![],
    }];
    snapshot_symbol_occurrence_bases(&mut schematics);
    apply_symbol_instance_state(&mut schematics[0], "/x", None);
    assert_eq!(value_of(&schematics[0].symbols[0].properties, "Value"), Some(s("1k")));
    apply_symbol_instance_state(&mut schematics[0], "/nowhere", None);
    assert_eq!(value_of(&schematics[0].symbols[0].properties, "Value"), Some(s("10k")));
    assert_eq!(value_of(&schematics[0].symbols[0].properties, "Reference"), Some(s("R?")));
    assert_eq!(schematics[0].symbols[0].unit, None);
}

#[test]
fn seeding_takes_first_instance() {
    let mut sch = LiveSchematic {
        path: s("/p/a.kicad_sch"),
        symbols: vec![symbol(vec![
            instance("/x", Some("R1"), None, vec![]),
            instance("/y", Some("R2"), None, vec![]),
        ])],
        sheets: vec![],
        labels: vec![],
    };
    seed_first_symbol_instance_state(&mut sch, None);
    assert_eq!(value_of(&sch.symbols[0].properties, "Reference"), Some(s("R1")));
}

fn two_occurrence_project() -> (Vec<LiveSchematic>, Vec<LoadedSheetPath>) {
    let schematics = vec![
        LiveSchematic { path: s("/p/top.kicad_sch"), symbols: vec![], sheets: vec![], labels: vec![] },
        LiveSchematic {
            path: s("/p/amp.kicad_sch"),
            symbols: vec![symbol(vec![
                instance("/a", Some("R1"), None, vec![]),
                instance("/b", Some("R2"), None, vec![]),
            ])],
            sheets: vec![],
            labels: vec![],
        },
    ];
    let paths = vec![
        occurrence("/p/top.kicad_sch", ""),
        occurrence("/p/amp.kicad_sch", "/a"),
        occurrence("/p/amp.kicad_sch", "/b"),
    ];
    (schematics, paths)
}

#[test]
fn live_refresh_follows_current_occurrence_of_reused_file() {
    let (mut schematics, paths) = two_occurrence_project();
    snapshot_symbol_occurrence_bases(&mut schematics);
    refresh_live_symbol_occurrence_state(&mut schematics, &paths, "/b", None);
    assert_eq!(value_of(&schematics[1].symbols[0].properties, "Reference"), Some(s("R2")));
    refresh_live_symbol_occurrence_state(&mut schematics, &paths, "", None);
    assert_eq!(value_of(&schematics[1].symbols[0].properties, "Reference"), Some(s("R1")));
}

#[test]
fn leaving_reused_file_reseeds_first_occurrence() {
    let (mut schematics, paths) = two_occurrence_project();
    snapshot_symbol_occurrence_bases(&mut schematics);
    refresh_live_symbol_occurrence_state(&mut schematics, &paths, "/b", None);
    reset_reused_screen_symbol_state(&mut schematics, &paths, Some(&paths[2]), Some(&paths[0]), None);
    assert_eq!(value_of(&schematics[1].symbols[0].properties, "Reference"), Some(s("R1")));
    refresh_live_symbol_occurrence_state(&mut schematics, &paths, "/b", None);
    reset_reused_screen_symbol_state(&mut schematics, &paths, Some(&paths[2]), Some(&paths[1]), None);
    assert_eq!(value_of(&schematics[1].symbols[0].properties, "Reference"), Some(s("R2")));
}

fn sheet_instance(path: &str, variants: Vec<ItemVariant>) -> SheetLocalInstance {
    SheetLocalInstance { project: s("demo"), path: s(path), page: None, variants }
}

#[test]
fn sheet_refresh_uses_longest_matching_instance() {
    let sheet = LiveSheet {
        excluded_from_sim: false,
        in_bom: true,
        on_board: true,
        dnp: false,
        properties: vec![Property::new(PropertyKind::SheetName, s("amp"))],
        instances: vec![
            sheet_instance("/a", vec![variant("V", false, &[("Tag", "short")])]),
            sheet_instance("/a/s1", vec![variant("V", true, &[("Tag", "long")])]),
            sheet_instance("/ab/s1", vec![variant("V", false, &[("Tag", "other")])]),
        ],
        occurrence_base: None,
    };
    let mut schematics = vec![LiveSchematic { path: s("/p/top.kicad_sch"), symbols: vec![], sheets: vec![sheet], labels: vec![] }];
    let paths = vec![occurrence("/p/top.kicad_sch", ""), occurrence("/p/amp.kicad_sch", "/a")];
    snapshot_sheet_occurrence_bases(&mut schematics);
    refresh_live_sheet_variant_state(&mut schematics, &paths, "/a", Some("V"));
    assert_eq!(value_of(&schematics[0].sheets[0].properties, "Tag"), Some(s("long")));
    assert!(schematics[0].sheets[0].dnp);
    refresh_live_sheet_variant_state(&mut schematics, &paths, "", Some("V"));
    assert_eq!(value_of(&schematics[0].sheets[0].properties, "Tag"), Some(s("short")));
    assert!(!schematics[0].sheets[0].dnp);
    refresh_live_sheet_variant_state(&mut schematics, &paths, "", None);
    assert_eq!(value_of(&schematics[0].sheets[0].properties, "Tag"), None);
}

#[test]
fn hierarchy_selection_refreshes_symbols_and_variants() {
    let (mut schematics, paths) = two_occurrence_project();
    schematics[1].symbols[0].instances[0].variants = vec![variant("Lite", true, &[("Value", "DNP")])];
    snapshot_symbol_occurrence_bases(&mut schematics);
    snapshot_sheet_occurrence_bases(&mut schematics);
    let mut h = LoadedHierarchy {
        project: None,
        project_local_settings: None,
        sheet_paths: paths,
        links: vec![],
        current_sheet_instance_path: String::new(),
        current_variant: None,
        intersheet_refs: vec![],
    };
    let mut screens: Vec<ScreenPageState> = vec![];
    assert!(h.set_current_sheet_path(&mut screens, &mut schematics, "/b"));
    assert_eq!(value_of(&schematics[1].symbols[0].properties, "Reference"), Some(s("R2")));
    assert!(h.set_current_sheet_path(&mut screens, &mut schematics, ""));
    assert_eq!(value_of(&schematics[1].symbols[0].properties, "Reference"), Some(s("R1")));
    h.set_current_variant(&mut schematics, Some(" Lite "));
    assert_eq!(value_of(&schematics[1].symbols[0].properties, "Value"), Some(s("DNP")));
    assert!(schematics[1].symbols[0].dnp);
    h.set_current_variant(&mut schematics, None);
    assert_eq!(value_of(&schematics[1].symbols[0].properties, "Value"), Some(s("10k")));
    assert!(!schematics[1].symbols[0].dnp);
    assert!(!h.set_current_sheet_path(&mut screens, &mut schematics, "/zzz"));
}

#[test]
fn captured_baselines_make_the_schematics_ready() {
    let sym = symbol(vec![instance("/a", Some("R1"), Some("1k"), vec![variant("Lite", true, &[("MPN", "X")])])]);
    let mut schematics = vec![LiveSchematic { path: s("/p/a.kicad_sch"), symbols: vec![sym], sheets: vec![], labels: vec![] }];
    assert!(!occurrences_are_ready(&schematics));
    snapshot_symbol_occurrence_bases(&mut schematics);
    snapshot_sheet_occurrence_bases(&mut schematics);
    assert!(occurrences_are_ready(&schematics));
    assert!(occurrences_are_ready(&Vec::new()));
}

#[test]
fn an_instance_reference_needs_a_reference_field() {
    let mut sym = symbol(vec![instance("/a", Some("R1"), None, vec![])]);
    sym.properties.remove(0);
    let mut schematics = vec![LiveSchematic { path: s("/p/a.kicad_sch"), symbols: vec![sym], sheets: vec![], labels: vec![] }];
    snapshot_symbol_occurrence_bases(&mut schematics);
    assert!(!occurrences_are_ready(&schematics));
}
