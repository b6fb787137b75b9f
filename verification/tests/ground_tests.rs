use ki2::diagnostic::Severity;
use ki2::erc::ground::{check_ground_pins, NetPin, SymbolNetPins};

fn pin(kind: Option<&str>, name: Option<&str>, net: &str, path: &str) -> NetPin {
    NetPin {
        electrical_type: kind.map(str::to_string),
        name: name.map(str::to_string),
        net_name: net.to_string(),
        schematic_path: path.to_string(),
    }
}

#[test]
fn ground_named_pin_off_ground_net_is_reported() {
    let symbols = vec![
        SymbolNetPins {
            sheet_file: "/p/top.kicad_sch".to_string(),
            pins: vec![
                pin(Some("power_in"), Some("VCC"), "/agnd", "/p/a.kicad_sch"),
                pin(Some("power_in"), Some("gnd"), "/VDD", "/p/a.kicad_sch"),
                pin(Some("input"), Some("GND2"), "/VDD", "/p/a.kicad_sch"),
                pin(Some("power_out"), Some("PGND"), "/Net-1", "/p/a.kicad_sch"),
            ],
        },
        SymbolNetPins {
            sheet_file: "/p/top.kicad_sch".to_string(),
            pins: vec![pin(Some("power_in"), Some("GND"), "/VDD", "/p/b.kicad_sch")],
        },
        SymbolNetPins { sheet_file: "/p/top.kicad_sch".to_string(), pins: vec![] },
    ];
    let ds = check_ground_pins(&symbols);
    let got: Vec<(String, Option<String>)> = ds.iter().map(|d| (d.message.clone(), d.path.clone())).collect();
    assert_eq!(
        got,
        vec![
            ("Pin gnd not connected to ground net".to_string(), Some("/p/a.kicad_sch".to_string())),
            ("Pin PGND not connected to ground net".to_string(), Some("/p/a.kicad_sch".to_string())),
        ]
    );
    assert!(ds.iter().all(|d| d.severity == Severity::Error && d.code == "erc-ground-pin-not-ground"));
}
