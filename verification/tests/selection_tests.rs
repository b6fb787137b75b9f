use ki2::diagnostic::{DiagnosticKind, Severity};
use ki2::loader::selection::{direct_ancestor_cycle, refresh_current_screen_page_state, LoadedHierarchy, ScreenPageState};
use ki2::loader::{HierarchyLink, LoadedSheetPath};

fn occurrence(file: &str, instance: &str, page: Option<&str>, number: usize, count: usize) -> LoadedSheetPath {
    LoadedSheetPath {
        schematic_path: file.to_string(),
        instance_path: instance.to_string(),
        symbol_path: instance.to_string(),
        sheet_uuid: None,
        sheet_name: None,
        page: page.map(str::to_string),
        sheet_number: number,
        sheet_count: count,
    }
}

fn link(parent: &str, child: &str) -> HierarchyLink {
    HierarchyLink {
        parent_path: parent.to_string(),
        child_path: child.to_string(),
        sheet_uuid: None,
        sheet_name: None,
        filename: child.to_string(),
        reused_existing_child: false,
    }
}

fn screen(path: &str) -> ScreenPageState {
    ScreenPageState { path: path.to_string(), page_number: None, page_count: None, virtual_page_number: None }
}

fn hierarchy() -> LoadedHierarchy {
    LoadedHierarchy {
        project: None,
        project_local_settings: None,
        sheet_paths: vec![
            occurrence("/p/top.kicad_sch", "", Some("1"), 1, 4),
            occurrence("/p/amp.kicad_sch", "/a", Some("2"), 2, 4),
            occurrence("/p/amp.kicad_sch", "/b", None, 3, 4),
            occurrence("/p/io.kicad_sch", "/c", Some("4"), 4, 4),
        ],
        links: vec![
            link("/p/top.kicad_sch", "/p/amp.kicad_sch"),
            link("/p/top.kicad_sch", "/p/amp.kicad_sch"),
            link("/p/top.kicad_sch", "/p/io.kicad_sch"),
        ],
        current_sheet_instance_path: String::new(),
        current_variant: None,
        intersheet_refs: vec![],
    }
}

#[test]
fn current_page_data_follows_the_current_occurrence() {
    let h = hierarchy();
    assert_eq!(h.root_sheet_path().map(|p| p.schematic_path.as_str()), Some("/p/top.kicad_sch"));
    assert_eq!(h.current_page_number(), Some("1"));
    assert_eq!(h.current_page_count(), Some(4));
    assert_eq!(h.current_virtual_page_number(), Some(1));
    let mut other = hierarchy();
    other.current_sheet_instance_path = "/missing".to_string();
    assert!(other.current_sheet_path().is_none());
    assert_eq!(other.current_page_number(), None);
    assert_eq!(other.current_page_count(), None);
}

#[test]
fn variants_are_trimmed_and_empty_ones_unset() {
    let mut h = hierarchy();
    h.set_current_variant(&mut Vec::new(), Some("  Lite "));
    assert_eq!(h.current_variant(), Some("Lite"));
    h.set_current_variant(&mut Vec::new(), Some("   "));
    assert_eq!(h.current_variant(), None);
    h.set_current_variant(&mut Vec::new(), Some("all"));
    assert_eq!(h.current_variant(), Some("all"));
    h.set_current_variant(&mut Vec::new(), None);
    assert_eq!(h.current_variant(), None);
}

#[test]
fn links_and_occurrences_by_file() {
    let h = hierarchy();
    assert_eq!(h.children_of("/p/top.kicad_sch").len(), 3);
    assert_eq!(h.parents_of("/p/amp.kicad_sch").len(), 2);
    assert_eq!(h.parents_of("/p/top.kicad_sch").len(), 0);
    let amps: Vec<&str> = h.sheet_paths_of("/p/amp.kicad_sch").iter().map(|p| p.instance_path.as_str()).collect();
    assert_eq!(amps, vec!["/a", "/b"]);
}

#[test]
fn switching_into_a_reused_screen_sets_its_page() {
    let h = hierarchy();
    let mut screens = vec![screen("/p/top.kicad_sch"), screen("/p/amp.kicad_sch"), screen("/p/io.kicad_sch")];
    refresh_current_screen_page_state(&mut screens, &h.sheet_paths, "", "/b");
    assert_eq!(screens[1].page_number.as_deref(), Some("3"));
    assert_eq!(screens[1].page_count, Some(4));
    assert_eq!(screens[1].virtual_page_number, Some(3));
    assert_eq!(screens[0], screen("/p/top.kicad_sch"));
    refresh_current_screen_page_state(&mut screens, &h.sheet_paths, "/b", "/a");
    assert_eq!(screens[1].page_number.as_deref(), Some("2"));
    refresh_current_screen_page_state(&mut screens, &h.sheet_paths, "/a", "/c");
    assert_eq!(screens[1], screen("/p/amp.kicad_sch"));
    assert_eq!(screens[2], screen("/p/io.kicad_sch"));
}

#[test]
fn selecting_a_sheet_path() {
    let mut h = hierarchy();
    let mut screens = vec![screen("/p/top.kicad_sch"), screen("/p/amp.kicad_sch")];
    assert!(h.set_current_sheet_path(&mut screens, &mut Vec::new(), "/a"));
    assert_eq!(h.current_sheet_instance_path, "/a");
    assert_eq!(h.current_page_number(), Some("2"));
    assert_eq!(screens[1].page_number.as_deref(), Some("2"));
    assert!(!h.set_current_sheet_path(&mut screens, &mut Vec::new(), "/zzz"));
    assert_eq!(h.current_sheet_instance_path, "/a");
}

#[test]
fn including_a_direct_ancestor_is_a_cycle() {
    let stack = vec!["/p/top.kicad_sch".to_string(), "/p/a.kicad_sch".to_string(), "/p/b.kicad_sch".to_string()];
    let d = direct_ancestor_cycle(&stack, "/p/a.kicad_sch").expect("cycle");
    assert_eq!(d.code, "sheet-cycle");
    assert_eq!(d.severity, Severity::Error);
    assert_eq!(d.kind, DiagnosticKind::Generic);
    assert_eq!(
        d.message,
        "sheet recursion detected through direct ancestors: /p/a.kicad_sch -> /p/b.kicad_sch -> /p/a.kicad_sch"
    );
    assert_eq!(d.path.as_deref(), Some("/p/a.kicad_sch"));
    assert!(direct_ancestor_cycle(&stack, "/p/c.kicad_sch").is_none());
    assert!(direct_ancestor_cycle(&Vec::new(), "/p/top.kicad_sch").is_none());
}
