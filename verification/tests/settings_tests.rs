use ki2::loader::selection::LoadedHierarchy;
use ki2::loader::settings::{json_member, JsonMember, JsonValue, LoadedProjectSettings};

fn member(key: &str, value: JsonValue) -> JsonMember {
    JsonMember { key: key.to_string(), value }
}

fn settings(json: JsonValue) -> LoadedProjectSettings {
    LoadedProjectSettings { path: "/p/demo.kicad_pro".to_string(), json }
}

fn full_project() -> LoadedProjectSettings {
    settings(JsonValue::Object(vec![
        member("meta", JsonValue::Object(vec![member("filename", JsonValue::Text("demo.kicad_pro".to_string())), member("version", JsonValue::Integer(1))])),
        member(
            "drawing",
            JsonValue::Object(vec![
                member("intersheets_ref_own_page", JsonValue::Bool(false)),
                member("intersheets_ref_prefix", JsonValue::Text("<".to_string())),
                member("intersheets_ref_short", JsonValue::Bool(true)),
                member("intersheets_ref_show", JsonValue::Bool(true)),
                member("intersheets_ref_suffix", JsonValue::Text(">".to_string())),
            ]),
        ),
    ]))
}

fn hierarchy(project: Option<LoadedProjectSettings>) -> LoadedHierarchy {
    LoadedHierarchy {
        project,
        project_local_settings: None,
        sheet_paths: vec![],
        links: vec![],
        current_sheet_instance_path: String::new(),
        current_variant: None,
        intersheet_refs: vec![],
    }
}

#[test]
fn settings_read_meta_version_and_drawing_section() {
    let p = full_project();
    assert_eq!(p.meta_version(), Some(1));
    assert_eq!(p.intersheet_refs_show(), Some(true));
    assert_eq!(p.intersheet_refs_own_page(), Some(false));
    assert_eq!(p.intersheet_refs_short(), Some(true));
    assert_eq!(p.intersheet_refs_prefix(), Some("<".to_string()));
    assert_eq!(p.intersheet_refs_suffix(), Some(">".to_string()));
}

#[test]
fn settings_of_wrong_type_or_range_are_absent() {
    let p = settings(JsonValue::Object(vec![
        member("meta", JsonValue::Object(vec![member("version", JsonValue::Integer(4_000_000_000))])),
        member(
            "drawing",
            JsonValue::Object(vec![
                member("intersheets_ref_show", JsonValue::Text("yes".to_string())),
                member("intersheets_ref_prefix", JsonValue::Bool(true)),
            ]),
        ),
    ]));
    assert_eq!(p.meta_version(), None);
    assert_eq!(p.intersheet_refs_show(), None);
    assert_eq!(p.intersheet_refs_prefix(), None);
    assert_eq!(p.intersheet_refs_own_page(), None);
    let q = settings(JsonValue::Object(vec![member("meta", JsonValue::Integer(3))]));
    assert_eq!(q.meta_version(), None);
    let r = settings(JsonValue::Array(vec![JsonValue::Null]));
    assert_eq!(r.intersheet_refs_short(), None);
    let n = settings(JsonValue::Object(vec![member("meta", JsonValue::Object(vec![member("version", JsonValue::OtherNumber)]))]));
    assert_eq!(n.meta_version(), None);
}

#[test]
fn member_lookup_takes_first_key() {
    let v = JsonValue::Object(vec![member("a", JsonValue::Bool(true)), member("a", JsonValue::Bool(false))]);
    assert!(matches!(json_member(&v, "a"), Some(JsonValue::Bool(true))));
    assert!(json_member(&v, "b").is_none());
    assert!(json_member(&JsonValue::Null, "a").is_none());
}

#[test]
fn hierarchy_settings_default_without_project() {
    let h = hierarchy(None);
    assert!(!h.intersheet_refs_show());
    assert_eq!(h.intersheet_refs_own_page(), None);
    assert_eq!(h.intersheet_refs_prefix(), None);
    assert!(h.project().is_none());
    assert!(h.project_local_settings().is_none());
    let g = hierarchy(Some(full_project()));
    assert!(g.intersheet_refs_show());
    assert_eq!(g.intersheet_refs_short(), Some(true));
    assert_eq!(g.intersheet_refs_suffix(), Some(">".to_string()));
    assert_eq!(g.project().map(|p| p.path.clone()), Some("/p/demo.kicad_pro".to_string()));
}
