use ki2::loader::pages::{
    intersheet_ref_value, intersheet_refs_field_text, recompute_intersheet_refs, set_sheet_number_and_count,
    unlisted_intersheet_refs_text,
};
use ki2::loader::selection::ScreenPageState;
use ki2::loader::LoadedSheetPath;

fn occurrence(file: &str, instance: &str, page: Option<&str>) -> LoadedSheetPath {
    LoadedSheetPath {
        schematic_path: file.to_string(),
        instance_path: instance.to_string(),
        symbol_path: instance.to_string(),
        sheet_uuid: None,
        sheet_name: None,
        page: page.map(str::to_string),
        sheet_number: 0,
        sheet_count: 0,
    }
}

fn screen(path: &str, virtual_page: Option<usize>) -> ScreenPageState {
    ScreenPageState { path: path.to_string(), page_number: None, page_count: None, virtual_page_number: virtual_page }
}

fn numbered() -> Vec<LoadedSheetPath> {
    let mut paths = vec![
        occurrence("top", "", Some("1")),
        occurrence("amp", "/a", Some("2")),
        occurrence("amp", "/b", None),
        occurrence("io", "/c", None),
    ];
    let mut screens = Vec::new();
    set_sheet_number_and_count(&mut paths, &mut screens);
    paths
}

#[test]
fn sheets_are_numbered_in_order() {
    let mut paths = vec![occurrence("top", "", Some("1")), occurrence("amp", "/a", Some("2")), occurrence("amp", "/b", None), occurrence("io", "/c", None)];
    let mut screens = vec![
        screen("top", None),
        ScreenPageState { path: "amp".to_string(), page_number: Some("x".to_string()), page_count: Some(9), virtual_page_number: Some(9) },
        screen("io", Some(7)),
        screen("other", None),
    ];
    set_sheet_number_and_count(&mut paths, &mut screens);
    let numbers: Vec<(usize, usize)> = paths.iter().map(|p| (p.sheet_number, p.sheet_count)).collect();
    assert_eq!(numbers, vec![(1, 4), (2, 4), (3, 4), (4, 4)]);
    assert_eq!(screens[0].page_number.as_deref(), Some("1"));
    assert_eq!(screens[0].page_count, Some(4));
    assert_eq!(screens[0].virtual_page_number, Some(1));
    assert_eq!(screens[1], screen("amp", None));
    assert_eq!(screens[2], screen("io", Some(7)));
    assert_eq!(screens[3], screen("other", None));
}

#[test]
fn unpaged_sheets_show_their_number() {
    let mut paths = vec![occurrence("top", "", None)];
    let mut screens = vec![screen("top", None)];
    set_sheet_number_and_count(&mut paths, &mut screens);
    assert_eq!(screens[0].page_number.as_deref(), Some("1"));
}

#[test]
fn ref_values_list_page_texts() {
    let paths = numbered();
    assert_eq!(intersheet_ref_value(&vec![1, 3, 4], &paths), "[1,3,4]");
    assert_eq!(intersheet_ref_value(&vec![2, 9], &paths), "[2]");
    assert_eq!(intersheet_ref_value(&vec![], &paths), "[]");
}

#[test]
fn field_texts_follow_the_settings() {
    let paths = numbered();
    let pages = vec![1, 2, 3, 4];
    assert_eq!(intersheet_refs_field_text(&pages, &paths, 2, None, None, None, None), "[1,2,3,4]");
    assert_eq!(intersheet_refs_field_text(&pages, &paths, 2, Some(false), None, None, None), "[1,3,4]");
    assert_eq!(intersheet_refs_field_text(&pages, &paths, 2, Some(false), Some(true), None, None), "[1..4]");
    assert_eq!(intersheet_refs_field_text(&vec![1, 3], &paths, 2, None, Some(true), None, None), "[1,3]");
    assert_eq!(intersheet_refs_field_text(&pages, &paths, 2, None, None, Some("p."), Some(";")), "p.1,2,3,4;");
    assert_eq!(intersheet_refs_field_text(&vec![2], &paths, 2, Some(false), None, Some("<"), Some(">")), "<>");
    assert_eq!(intersheet_refs_field_text(&vec![2], &paths, 2, Some(false), None, None, None), "");
}

#[test]
fn unlisted_labels_show_their_known_value() {
    assert_eq!(unlisted_intersheet_refs_text(Some("[1,2]"), None, None), "[1,2]");
    assert_eq!(unlisted_intersheet_refs_text(None, None, None), "?");
    assert_eq!(unlisted_intersheet_refs_text(None, Some("("), None), "(?");
    assert_eq!(unlisted_intersheet_refs_text(Some("x"), Some(""), Some("")), "x");
}

#[test]
fn global_labels_gather_their_pages() {
    let paths = numbered();
    let labels = vec![
        vec!["SDA".to_string(), "CLK".to_string()],
        vec!["SDA".to_string()],
        vec!["SDA".to_string(), "SDA".to_string()],
        vec![],
    ];
    let refs = recompute_intersheet_refs(&paths, &labels);
    assert_eq!(
        refs,
        vec![
            ("CLK".to_string(), vec![1], "[1]".to_string()),
            ("SDA".to_string(), vec![1, 2, 3], "[1,2,3]".to_string()),
        ]
    );
}
