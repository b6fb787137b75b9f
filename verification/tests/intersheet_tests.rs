use ki2::loader::intersheet::{refresh_current_sheet_intersheet_refs, RefsSettings};
use ki2::loader::occurrence::{LiveLabel, LiveSchematic};
use ki2::loader::LoadedSheetPath;
use ki2::model::property::Property;
use ki2::model::{LabelKind, PropertyKind};

fn occurrence(file: &str, instance: &str, number: usize, page: &str) -> LoadedSheetPath {
    LoadedSheetPath {
        schematic_path: file.to_string(),
        instance_path: instance.to_string(),
        symbol_path: instance.to_string(),
        sheet_uuid: None,
        sheet_name: None,
        page: Some(page.to_string()),
        sheet_number: number,
        sheet_count: 3,
    }
}

fn global(text: &str, shown: &str) -> LiveLabel {
    let mut refs = Property::new(PropertyKind::GlobalLabelIntersheetRefs, "${INTERSHEET_REFS}".to_string());
    refs.value = shown.to_string();
    refs.visible = false;
    LiveLabel { kind: LabelKind::Global, text: text.to_string(), properties: vec![refs] }
}

fn refs_of(l: &LiveLabel) -> (String, Option<String>, bool) {
    let p = &l.properties[0];
    (p.value.clone(), p.base_value.clone(), p.visible)
}

fn project() -> (Vec<LiveSchematic>, Vec<LoadedSheetPath>, Vec<(String, Vec<usize>, String)>) {
    let schematics = vec![
        LiveSchematic { path: "/p/top.kicad_sch".to_string(), symbols: vec![], sheets: vec![], labels: vec![global("SDA", "stale"), global("NEW", "x")] },
        LiveSchematic { path: "/p/sub.kicad_sch".to_string(), symbols: vec![], sheets: vec![], labels: vec![global("SDA", "old")] },
    ];
    let paths = vec![occurrence("/p/top.kicad_sch", "", 1, "1"), occurrence("/p/sub.kicad_sch", "/s", 2, "2")];
    let refs = vec![("SDA".to_string(), vec![1, 2], "[1,2]".to_string())];
    (schematics, paths, refs)
}

#[test]
fn current_sheet_labels_show_their_pages() {
    let (mut schematics, paths, refs) = project();
    let settings = RefsSettings { show: true, own_page: Some(false), short: None, prefix: Some("<".to_string()), suffix: Some(">".to_string()) };
    refresh_current_sheet_intersheet_refs(&mut schematics, &paths, "", &refs, &settings);
    assert_eq!(refs_of(&schematics[0].labels[0]), ("<2>".to_string(), Some("${INTERSHEET_REFS}".to_string()), true));
    assert_eq!(refs_of(&schematics[0].labels[1]), ("<?>".to_string(), Some("${INTERSHEET_REFS}".to_string()), true));
    assert_eq!(refs_of(&schematics[1].labels[0]), ("${INTERSHEET_REFS}".to_string(), Some("${INTERSHEET_REFS}".to_string()), false));
    assert_eq!(schematics[0].labels[0].properties[0].key, "Intersheet References");
}

#[test]
fn hidden_refs_keep_base_text() {
    let (mut schematics, paths, refs) = project();
    let settings = RefsSettings { show: false, own_page: None, short: None, prefix: None, suffix: None };
    refresh_current_sheet_intersheet_refs(&mut schematics, &paths, "/s", &refs, &settings);
    assert_eq!(refs_of(&schematics[1].labels[0]), ("${INTERSHEET_REFS}".to_string(), Some("${INTERSHEET_REFS}".to_string()), false));
    let settings = RefsSettings { show: true, own_page: None, short: None, prefix: None, suffix: None };
    refresh_current_sheet_intersheet_refs(&mut schematics, &paths, "/s", &refs, &settings);
    assert_eq!(refs_of(&schematics[1].labels[0]), ("[1,2]".to_string(), Some("${INTERSHEET_REFS}".to_string()), true));
    assert_eq!(refs_of(&schematics[0].labels[0]).0, "${INTERSHEET_REFS}");
}
