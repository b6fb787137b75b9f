use ki2::loader::{
    all_sheet_page_numbers_empty, ancestor_sheet_paths, child_sheet_paths, compare_loaded_sheet_paths,
    compare_page_numbers, compare_pin_numbers, current_internal_source_primary_param_name,
    display_sim_library_source, format_sim_param_pair, is_supported_builtin_sim_type, looks_behavioral_value,
    migrated_sim_pins_value, parent_sheet_path, parse_legacy_dc_model_value, parse_legacy_source_model,
    parse_loader_sim_pin_pairs, set_initial_page_numbers, sheet_path, sheet_path_for_symbol_path,
    sim_params_field_value_escape, sort_loaded_sheet_paths, split_inferred_source_value, LoadedSheetPath,
};
use ki2::model::SimLibrarySource;
use std::cmp::Ordering;

fn sheet(instance: &str, symbol: &str, page: Option<&str>) -> LoadedSheetPath {
    LoadedSheetPath {
        schematic_path: format!("{instance}.kicad_sch"),
        instance_path: instance.to_string(),
        symbol_path: symbol.to_string(),
        sheet_uuid: None,
        sheet_name: None,
        page: page.map(|p| p.to_string()),
        sheet_number: 0,
        sheet_count: 0,
    }
}

fn hierarchy() -> Vec<LoadedSheetPath> {
    vec![
        sheet("", "", Some("1")),
        sheet("/a", "/a", Some("2")),
        sheet("/a/b", "/a/b", Some("3")),
        sheet("/c", "/c", Some("4")),
    ]
}

#[test]
fn page_numbers_order_numbers_first_then_text() {
    assert_eq!(compare_page_numbers("2", "10"), Ordering::Less);
    assert_eq!(compare_page_numbers("10", "2"), Ordering::Greater);
    assert_eq!(compare_page_numbers("3", "A"), Ordering::Less);
    assert_eq!(compare_page_numbers("A", "3"), Ordering::Greater);
    assert_eq!(compare_page_numbers("A2", "A10"), Ordering::Less);
    assert_eq!(compare_page_numbers("x", "x"), Ordering::Equal);
}

#[test]
fn page_number_order_is_antisymmetric_on_examples() {
    for (a, b) in [("1", "2"), ("B", "a"), ("A02", "A2"), ("7", "seven")] {
        assert_eq!(compare_page_numbers(a, b), compare_page_numbers(b, a).reverse());
    }
}

#[test]
fn initial_page_numbers_skip_the_root() {
    let mut paths = vec![sheet("", "", None), sheet("/a", "/a", None), sheet("/b", "/b", Some(" "))];
    assert!(all_sheet_page_numbers_empty(&paths));
    set_initial_page_numbers(&mut paths);
    assert_eq!(paths[0].page, None);
    assert_eq!(paths[1].page.as_deref(), Some("1"));
    assert_eq!(paths[2].page.as_deref(), Some("2"));
    assert!(!all_sheet_page_numbers_empty(&paths));
}

#[test]
fn sheet_paths_are_found_by_instance_and_symbol_path() {
    let paths = hierarchy();
    assert_eq!(sheet_path(&paths, "/a/b").map(|p| p.page.clone()), Some(Some("3".to_string())));
    assert!(sheet_path(&paths, "/z").is_none());
    assert_eq!(sheet_path_for_symbol_path(&paths, "/a/b/sym").map(|p| p.instance_path.as_str()), Some("/a/b"));
    assert_eq!(sheet_path_for_symbol_path(&paths, "/a/bx").map(|p| p.instance_path.as_str()), Some("/a"));
    assert_eq!(sheet_path_for_symbol_path(&paths, "/q").map(|p| p.instance_path.as_str()), Some(""));
}

#[test]
fn parents_ancestors_and_children_follow_the_symbol_paths() {
    let paths = hierarchy();
    assert_eq!(parent_sheet_path(&paths, "/a/b").map(|p| p.instance_path.as_str()), Some("/a"));
    assert_eq!(parent_sheet_path(&paths, "/a").map(|p| p.instance_path.as_str()), Some(""));
    assert!(parent_sheet_path(&paths, "").is_none());
    let ancestors: Vec<&str> = ancestor_sheet_paths(&paths, "/a/b").iter().map(|p| p.instance_path.as_str()).collect();
    assert_eq!(ancestors, vec!["/a", ""]);
    let children: Vec<&str> = child_sheet_paths(&paths, "").iter().map(|p| p.instance_path.as_str()).collect();
    assert_eq!(children, vec!["/a", "/c"]);
}

#[test]
fn sheet_paths_sort_by_page_then_original_position() {
    let mut paths = vec![
        sheet("/x", "/x", Some("3")),
        sheet("/y", "/y", None),
        sheet("/z", "/z", Some("1")),
        sheet("/w", "/w", Some("3")),
    ];
    let order: Vec<String> = paths.iter().map(|p| p.instance_path.clone()).collect();
    assert_eq!(compare_loaded_sheet_paths(&paths[0], &paths[3], &order), Ordering::Less);
    assert_eq!(compare_loaded_sheet_paths(&paths[1], &paths[2], &order), Ordering::Greater);
    sort_loaded_sheet_paths(&mut paths);
    let sorted: Vec<&str> = paths.iter().map(|p| p.instance_path.as_str()).collect();
    assert_eq!(sorted, vec!["/z", "/x", "/w", "/y"]);
}

#[test]
fn builtin_sim_types() {
    assert!(is_supported_builtin_sim_type(" R ", "POT"));
    assert!(is_supported_builtin_sim_type("V", "PWL"));
    assert!(is_supported_builtin_sim_type("NMOS", "BSIM4"));
    assert!(!is_supported_builtin_sim_type("NMOS", ""));
    assert!(!is_supported_builtin_sim_type("D", "ZENER"));
    assert_eq!(current_internal_source_primary_param_name(" SIN "), Some("dc"));
    assert_eq!(current_internal_source_primary_param_name("TRRANDOM"), Some("ts"));
    assert_eq!(current_internal_source_primary_param_name("PWL"), None);
}

#[test]
fn behavioral_values_and_source_values() {
    assert!(looks_behavioral_value("V(1)*2"));
    assert!(looks_behavioral_value("x"));
    assert!(!looks_behavioral_value("4.7k"));
    let (name, value) = split_inferred_source_value(" AC 1 ");
    assert_eq!(name, "ac");
    assert_eq!(value, "1");
    let (name, value) = split_inferred_source_value("5");
    assert_eq!(name, "dc");
    assert_eq!(value, "5");
}

#[test]
fn legacy_pin_lists_and_parameters() {
    assert_eq!(
        parse_loader_sim_pin_pairs("1=\"+\" 2=- junk"),
        vec![("1".to_string(), "+".to_string()), ("2".to_string(), "-".to_string())]
    );
    assert_eq!(format_sim_param_pair("gain", "2"), "gain=2");
    assert_eq!(format_sim_param_pair("name", "a b"), "name=\"a b\"");
    assert_eq!(format_sim_param_pair("q", "say \"hi\""), "q=\"say \\\"hi\\\"\"");
    assert_eq!(sim_params_field_value_escape("a\"b"), "a\\\"b");
    assert_eq!(compare_pin_numbers(&"2".to_string(), &"10".to_string()), Ordering::Less);
    assert_eq!(compare_pin_numbers(&"A".to_string(), &"10".to_string()), Ordering::Greater);
}

#[test]
fn legacy_models() {
    assert_eq!(parse_legacy_dc_model_value("dc 5"), Some("5".to_string()));
    assert_eq!(parse_legacy_dc_model_value("DC(3.3)"), Some("3.3".to_string()));
    assert_eq!(parse_legacy_dc_model_value("dc 1 2"), None);
    let model = parse_legacy_source_model("sin(0 1 1k)").expect("sine");
    assert_eq!(model.kind, "SIN");
    assert_eq!(model.params, vec![("dc", "0".to_string()), ("ampl", "1".to_string()), ("f", "1k".to_string())]);
    let pwl = parse_legacy_source_model("pwl( 0 0 1m 5 )").expect("pwl");
    assert_eq!(pwl.kind, "PWL");
    assert_eq!(pwl.params, vec![("pwl", "0 0 1m 5".to_string())]);
    assert!(parse_legacy_source_model("foo(1)").is_none());
    assert!(parse_legacy_source_model(")sin(").is_none());
}

#[test]
fn legacy_pin_indexes_migrate() {
    let sp = vec!["1".to_string(), "2".to_string()];
    assert_eq!(migrated_sim_pins_value("R", &sp, &["1", "2"]), "1=+ 2=-");
    assert_eq!(migrated_sim_pins_value("C", &sp, &["2", "1"]), "1=- 2=+");
    assert_eq!(migrated_sim_pins_value("U", &sp, &["3", "1", "2"]), "1=3 2=1");
}

#[test]
fn library_sources_display_their_location() {
    assert_eq!(display_sim_library_source(&SimLibrarySource::Filesystem("/lib/a.lib".to_string())), "/lib/a.lib");
    assert_eq!(
        display_sim_library_source(&SimLibrarySource::SchematicEmbedded { name: "emb.lib".to_string() }),
        "emb.lib"
    );
}
