use ki2::loader::sheet_list::build_sheet_list_sorted_by_page_numbers;
use ki2::loader::HierarchyLink;
use ki2::model::SheetInstance;

fn link(parent: &str, child: &str, uuid: Option<&str>, name: &str) -> HierarchyLink {
    HierarchyLink {
        parent_path: parent.to_string(),
        child_path: child.to_string(),
        sheet_uuid: uuid.map(str::to_string),
        sheet_name: Some(name.to_string()),
        filename: child.to_string(),
        reused_existing_child: false,
    }
}

#[test]
fn sheet_list_walks_links_depth_first() {
    let links = vec![
        link("/p/top.kicad_sch", "/p/amp.kicad_sch", Some("u1"), "amp"),
        link("/p/amp.kicad_sch", "/p/io.kicad_sch", Some("u3"), "io"),
        link("/p/top.kicad_sch", "/p/amp.kicad_sch", Some("u2"), "amp2"),
        link("/p/top.kicad_sch", "/p/none.kicad_sch", None, "skip"),
    ];
    let paths = build_sheet_list_sorted_by_page_numbers(
        &"/p/top.kicad_sch".to_string(),
        &None,
        &Some("r0".to_string()),
        &None,
        &vec![SheetInstance { path: "/r0".to_string(), page: Some("1".to_string()) }],
        &links,
    );
    let got: Vec<(String, String, Option<String>)> =
        paths.iter().map(|p| (p.schematic_path.clone(), p.instance_path.clone(), p.page.clone())).collect();
    assert_eq!(
        got,
        vec![
            ("/p/top.kicad_sch".to_string(), String::new(), Some("1".to_string())),
            ("/p/amp.kicad_sch".to_string(), "/r0/u1".to_string(), None),
            ("/p/io.kicad_sch".to_string(), "/r0/u1/u3".to_string(), None),
            ("/p/amp.kicad_sch".to_string(), "/r0/u2".to_string(), None),
            ("/p/io.kicad_sch".to_string(), "/r0/u2/u3".to_string(), None),
        ]
    );
    assert_eq!(paths[0].symbol_path, "/r0");
    assert_eq!(paths[2].sheet_name, Some("io".to_string()));
}

#[test]
fn sheet_list_without_root_uuid_is_empty() {
    let paths = build_sheet_list_sorted_by_page_numbers(&"/p/top.kicad_sch".to_string(), &None, &None, &None, &vec![], &vec![]);
    assert!(paths.is_empty());
}
