use ki2::loader::instances::{update_all_screen_references, update_sheet_instance_data, update_symbol_instance_data};
use ki2::loader::intersheet::RefsSettings;
use ki2::loader::occurrence::{LiveSchematic, LiveSymbol};
use ki2::model::property::Property;
use ki2::model::{PropertyKind, SymbolInstance, SymbolLocalInstance};
use ki2::loader::LoadedSheetPath;
use ki2::model::SheetInstance;

fn occurrence(instance: &str, page: Option<&str>) -> LoadedSheetPath {
    LoadedSheetPath {
        schematic_path: "/p/x.kicad_sch".to_string(),
        instance_path: instance.to_string(),
        symbol_path: instance.to_string(),
        sheet_uuid: None,
        sheet_name: None,
        page: page.map(str::to_string),
        sheet_number: 0,
        sheet_count: 0,
    }
}

fn instance(path: &str, page: Option<&str>) -> SheetInstance {
    SheetInstance { path: path.to_string(), page: page.map(str::to_string) }
}

#[test]
fn sheet_instances_give_pages_then_sort() {
    let mut paths = vec![occurrence("", None), occurrence("/b", None), occurrence("/a", None)];
    let instances = vec![instance("", Some("1")), instance("/a", Some("3")), instance("/b", Some("2")), instance("/a", Some("9"))];
    update_sheet_instance_data(&instances, &mut paths);
    let got: Vec<(String, Option<String>)> = paths.iter().map(|p| (p.instance_path.clone(), p.page.clone())).collect();
    assert_eq!(
        got,
        vec![
            (String::new(), Some("1".to_string())),
            ("/b".to_string(), Some("2".to_string())),
            ("/a".to_string(), Some("3".to_string())),
        ]
    );
}

#[test]
fn missing_pages_are_numbered_in_list_order() {
    let mut paths = vec![occurrence("", Some("1")), occurrence("/b", None), occurrence("/a", Some(" "))];
    update_sheet_instance_data(&vec![], &mut paths);
    let got: Vec<(String, Option<String>)> = paths.iter().map(|p| (p.instance_path.clone(), p.page.clone())).collect();
    assert_eq!(
        got,
        vec![
            (String::new(), Some("1".to_string())),
            ("/b".to_string(), Some("1".to_string())),
            ("/a".to_string(), Some("2".to_string())),
        ]
    );
}

fn live_symbol(uuid: &str) -> LiveSymbol {
    LiveSymbol {
        uuid: Some(uuid.to_string()),
        power: false,
        prefix: String::new(),
        in_netlist: true,
        unit: None,
        excluded_from_sim: false,
        in_bom: true,
        on_board: true,
        in_pos_files: true,
        dnp: false,
        properties: vec![
            Property::new(PropertyKind::SymbolReference, "R?".to_string()),
            Property::new(PropertyKind::SymbolValue, "R".to_string()),
            Property::new(PropertyKind::SymbolFootprint, String::new()),
        ],
        sim_model_enabled: None,
        instances: vec![],
        occurrence_base: None,
    }
}

fn sheet(file: &str, instance: &str, symbol: &str) -> LoadedSheetPath {
    LoadedSheetPath {
        schematic_path: file.to_string(),
        instance_path: instance.to_string(),
        symbol_path: symbol.to_string(),
        sheet_uuid: None,
        sheet_name: None,
        page: None,
        sheet_number: 0,
        sheet_count: 0,
    }
}

fn legacy(path: &str, reference: &str, value: Option<&str>) -> SymbolInstance {
    SymbolInstance { path: path.to_string(), reference: Some(reference.to_string()), unit: None, value: value.map(str::to_string), footprint: None }
}

fn legacy_project() -> (Vec<LiveSchematic>, Vec<LoadedSheetPath>, Vec<SymbolInstance>) {
    let schematics = vec![
        LiveSchematic { path: "/p/top.kicad_sch".to_string(), symbols: vec![], sheets: vec![], labels: vec![] },
        LiveSchematic { path: "/p/amp.kicad_sch".to_string(), symbols: vec![live_symbol("s1"), live_symbol("s9")], sheets: vec![], labels: vec![] },
    ];
    let paths = vec![
        sheet("/p/top.kicad_sch", "", "/r"),
        sheet("/p/amp.kicad_sch", "/a", "/r/a"),
        sheet("/p/amp.kicad_sch", "/b", "/r/b"),
    ];
    let instances = vec![legacy("/r/a/s1", "R1", Some("1k")), legacy("/r/b/s1", "R2", None)];
    (schematics, paths, instances)
}

fn value_of(s: &LiveSymbol, kind: PropertyKind) -> String {
    s.properties.iter().find(|p| p.kind == kind).unwrap().value.clone()
}

#[test]
fn legacy_symbol_instances_apply_per_occurrence() {
    let (mut schematics, paths, instances) = legacy_project();
    update_symbol_instance_data(20211014, &instances, &paths, &mut schematics);
    let s = &schematics[1].symbols[0];
    assert_eq!(value_of(s, PropertyKind::SymbolReference), "R2");
    assert_eq!(value_of(s, PropertyKind::SymbolValue), "1k");
    assert_eq!(s.unit, Some(1));
    let recorded: Vec<(String, Option<String>, Option<i32>)> =
        s.instances.iter().map(|i| (i.path.clone(), i.reference.clone(), i.unit)).collect();
    assert_eq!(recorded, vec![("/a".to_string(), Some("R1".to_string()), Some(1)), ("/b".to_string(), Some("R2".to_string()), Some(1))]);
    assert!(s.instances.iter().all(|i| i.project.is_empty() && i.variants.is_empty()));
    let untouched = &schematics[1].symbols[1];
    assert_eq!(value_of(untouched, PropertyKind::SymbolReference), "R?");
    assert!(untouched.instances.is_empty());
}

#[test]
fn newer_files_ignore_legacy_instances() {
    let (mut schematics, paths, instances) = legacy_project();
    update_symbol_instance_data(20221002, &instances, &paths, &mut schematics);
    assert_eq!(value_of(&schematics[1].symbols[0], PropertyKind::SymbolReference), "R?");
    assert!(schematics[1].symbols[0].instances.is_empty());
}

fn local(path: &str, reference: &str) -> SymbolLocalInstance {
    SymbolLocalInstance {
        project: "demo".to_string(),
        path: path.to_string(),
        reference: Some(reference.to_string()),
        unit: Some(2),
        value: None,
        footprint: Some("~".to_string()),
        variants: vec![],
    }
}

#[test]
fn screen_references_follow_instance_or_first_occurrence() {
    let (mut schematics, paths, _) = legacy_project();
    let mut top = live_symbol("t1");
    top.instances = vec![local("/x", "RX"), local("", "R0")];
    schematics[0].symbols = vec![top];
    schematics[1].symbols[0].instances = vec![local("/b", "R2"), local("/a", "R1")];
    update_all_screen_references(&paths, &mut schematics, &vec![], &no_refs());
    assert_eq!(value_of(&schematics[0].symbols[0], PropertyKind::SymbolReference), "R0");
    assert_eq!(schematics[0].symbols[0].unit, Some(2));
    assert_eq!(value_of(&schematics[0].symbols[0], PropertyKind::SymbolFootprint), "");
    assert_eq!(value_of(&schematics[1].symbols[0], PropertyKind::SymbolReference), "R2");
    assert_eq!(value_of(&schematics[1].symbols[1], PropertyKind::SymbolReference), "R?");
}

fn no_refs() -> RefsSettings {
    RefsSettings { show: false, own_page: None, short: None, prefix: None, suffix: None }
}
