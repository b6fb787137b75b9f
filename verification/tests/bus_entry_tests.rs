use ki2::erc::bus_entry::{check_bus_to_bus_entry_conflicts, BusEntrySubgraph, ConnectionKind, NamedConnection};

fn conn(kind: ConnectionKind, local: &str, full: &str) -> NamedConnection {
    NamedConnection { kind, local_name: local.to_string(), full_local_name: full.to_string() }
}

fn subgraph(link: &str) -> BusEntrySubgraph {
    BusEntrySubgraph {
        sheet_file: Some("top.kicad_sch".to_string()),
        has_bus_entry: true,
        entry_at_text: "10, 20".to_string(),
        bus: conn(ConnectionKind::Bus, "D[0..1]", "/D[0..1]"),
        bus_members: vec!["/D0".to_string(), "/D1".to_string()],
        drivers: vec![],
        driver: conn(ConnectionKind::Net, "", ""),
        driver_name: "Net-1".to_string(),
        links: vec![conn(ConnectionKind::Net, link, &format!("/{link}"))],
        non_bus_driver_priority: None,
    }
}

#[test]
fn a_net_that_is_no_member_of_the_bus_is_reported() {
    let found = check_bus_to_bus_entry_conflicts(&vec![subgraph("X")]);
    assert_eq!(found.len(), 1);
    assert_eq!(found[0].code, "erc-bus-entry-conflict");
    assert_eq!(found[0].message, "Net /X is graphically connected to bus D[0..1] but is not a member of that bus at 10, 20");
    assert_eq!(found[0].path.as_deref(), Some("top.kicad_sch"));
}

#[test]
fn members_strong_drivers_and_plain_nets_are_not_reported() {
    let mut member = subgraph("D0");
    member.drivers = vec![("/D0".to_string(), "D0".to_string())];
    assert!(check_bus_to_bus_entry_conflicts(&vec![member]).is_empty());
    let mut strong = subgraph("X");
    strong.non_bus_driver_priority = Some(6);
    assert!(check_bus_to_bus_entry_conflicts(&vec![strong]).is_empty());
    let mut net = subgraph("X");
    net.bus.kind = ConnectionKind::Net;
    assert!(check_bus_to_bus_entry_conflicts(&vec![net]).is_empty());
    let mut empty = subgraph("X");
    empty.links.clear();
    let found = check_bus_to_bus_entry_conflicts(&vec![empty]);
    assert_eq!(found.len(), 1);
    assert_eq!(found[0].message, "Net Net-1 is graphically connected to bus D[0..1] but is not a member of that bus at 10, 20");
}
