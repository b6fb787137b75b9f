use ki2::loader::occurrence::{LiveSchematic, LiveSymbol};
use ki2::loader::power::{
    annotate_power_symbols, fix_legacy_power_symbol_mismatches, legacy_power_pin_name, LegacyPowerFacts, LibItemFacts,
};
use ki2::model::property::Property;
use ki2::model::PropertyKind;

fn symbol(power: bool, reference: &str) -> LiveSymbol {
    LiveSymbol {
        uuid: None,
        power,
        prefix: String::new(),
        in_netlist: true,
        unit: None,
        excluded_from_sim: false,
        in_bom: true,
        on_board: true,
        in_pos_files: true,
        dnp: false,
        properties: vec![Property::new(PropertyKind::SymbolReference, reference.to_string()), Property::new(PropertyKind::SymbolValue, "GND".to_string())],
        sim_model_enabled: None,
        instances: vec![],
        occurrence_base: None,
    }
}

fn reference(s: &LiveSymbol) -> String {
    s.properties[0].value.clone()
}

#[test]
fn power_references_are_hidden_and_repeats_lose_numbers() {
    let mut schematics = vec![
        LiveSchematic {
            path: "/p/a.kicad_sch".to_string(),
            symbols: vec![symbol(true, "#PWR01"), symbol(true, "PWR01"), symbol(false, "R1")],
            sheets: vec![],
            labels: vec![],
        },
        LiveSchematic {
            path: "/p/b.kicad_sch".to_string(),
            symbols: vec![symbol(true, "#PWR01"), symbol(true, ""), symbol(true, "GND7"), symbol(true, "GND7")],
            sheets: vec![],
            labels: vec![],
        },
    ];
    annotate_power_symbols(&mut schematics);
    let a: Vec<String> = schematics[0].symbols.iter().map(reference).collect();
    let b: Vec<String> = schematics[1].symbols.iter().map(reference).collect();
    assert_eq!(a, vec!["#PWR01", "#PWR01", "R1"]);
    assert_eq!(b, vec!["#PWR", "", "#GND7", "#GND"]);
    assert!(!schematics[0].symbols[1].in_netlist);
    assert_eq!(schematics[0].symbols[1].prefix, "#PWR");
    assert!(schematics[0].symbols[2].in_netlist);
    assert!(schematics[1].symbols[1].in_netlist);
}

fn item(unit: i32, is_pin: bool, etype: Option<&str>, visible: bool, name: Option<&str>) -> LibItemFacts {
    LibItemFacts {
        unit_number: unit,
        body_style: 1,
        is_pin,
        electrical_type: etype.map(|t| t.to_string()),
        visible,
        name: name.map(|t| t.to_string()),
    }
}

fn facts(global_power: bool, items: Vec<LibItemFacts>) -> LegacyPowerFacts {
    LegacyPowerFacts { global_power, items, body_style: None }
}

fn value(s: &LiveSymbol) -> String {
    s.properties[1].value.clone()
}

#[test]
fn legacy_power_symbols_take_their_hidden_pin_name() {
    let vcc = facts(
        true,
        vec![
            item(2, true, Some("power_in"), false, Some("WRONG")),
            item(1, false, None, true, None),
            item(1, true, Some("power_in"), false, Some("VCC")),
            item(1, true, Some("power_in"), false, Some("LATER")),
        ],
    );
    assert_eq!(legacy_power_pin_name(&vcc, None), Some("VCC".to_string()));
    assert_eq!(legacy_power_pin_name(&vcc, Some(2)), Some("WRONG".to_string()));
    assert_eq!(legacy_power_pin_name(&facts(false, vcc.items.clone()), None), None);
    let shown = facts(true, vec![item(1, true, Some("power_in"), true, Some("VCC"))]);
    assert_eq!(legacy_power_pin_name(&shown, None), None);
    let passive = facts(true, vec![item(1, true, Some("passive"), false, Some("VCC"))]);
    assert_eq!(legacy_power_pin_name(&passive, None), None);

    let mut schematics = vec![
        LiveSchematic {
            path: "/p/a.kicad_sch".to_string(),
            symbols: vec![symbol(true, "#PWR01"), symbol(false, "R1")],
            sheets: vec![],
            labels: vec![],
        },
        LiveSchematic {
            path: "/p/b.kicad_sch".to_string(),
            symbols: vec![symbol(true, "#PWR02")],
            sheets: vec![],
            labels: vec![],
        },
    ];
    let gnd = facts(true, vec![item(1, true, Some("power_in"), false, Some("GND"))]);
    let all = vec![vec![vcc.clone(), facts(false, vec![])], vec![gnd.clone()]];

    let unchanged = fix_legacy_power_symbol_mismatches(20230221, &mut schematics, &all);
    assert_eq!(unchanged, vec![false, false]);
    assert_eq!(value(&schematics[0].symbols[0]), "GND");

    let modified = fix_legacy_power_symbol_mismatches(20220101, &mut schematics, &all);
    assert_eq!(modified, vec![true, false]);
    assert_eq!(value(&schematics[0].symbols[0]), "VCC");
    assert_eq!(value(&schematics[0].symbols[1]), "GND");
    assert_eq!(value(&schematics[1].symbols[0]), "GND");
}
