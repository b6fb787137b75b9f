use ki2::model::sim_fields::SimSymbol;
use ki2::model::{PropertyKind, SimModelOrigin, SimValueBinding, SymbolPin, TitleBlock};
use std::collections::BTreeMap;

fn symbol_with(fields: &[(&str, &str)]) -> SimSymbol {
    let mut symbol = SimSymbol::new();
    for (key, value) in fields {
        symbol.push_user_field(key, value.to_string());
    }
    symbol
}

#[test]
fn current_value_backed_sim_binding_variant_exists_for_loader_hydration() {
    let _binding = SimValueBinding::Value;
    assert_eq!(_binding, SimValueBinding::Value);
}

#[test]
fn symbol_pins_start_with_empty_optional_state() {
    let pin = SymbolPin::new("1".to_string());

    assert_eq!(pin.number, "1");
    assert_eq!(pin.alternate, None);
    assert_eq!(pin.uuid, None);
}

#[test]
fn reference_updates_refresh_symbol_prefix() {
    let mut symbol = SimSymbol::new();

    symbol.set_field_text(PropertyKind::SymbolReference, "J12".to_string());
    assert_eq!(symbol.prefix, "J");
    assert!(symbol.in_netlist);

    symbol.set_field_text(PropertyKind::SymbolReference, "TP?".to_string());
    assert_eq!(symbol.prefix, "TP");
    assert!(symbol.in_netlist);

    symbol.set_field_text(PropertyKind::SymbolReference, "#PWR01".to_string());
    assert_eq!(symbol.prefix, "#PWR");
    assert!(!symbol.in_netlist);

    symbol.set_field_text(PropertyKind::SymbolReference, "".to_string());
    assert_eq!(symbol.prefix, "");
    assert!(symbol.in_netlist);
}

#[test]
fn shared_symbol_field_setter_preserves_mandatory_identity() {
    let mut symbol = SimSymbol::new();

    symbol.set_field_text(PropertyKind::SymbolValue, "10k".to_string());
    symbol.set_field_text(PropertyKind::SymbolFootprint, "Resistor_SMD:R_0603".to_string());

    let value = symbol
        .properties
        .iter()
        .find(|property| property.kind == PropertyKind::SymbolValue)
        .expect("value field");
    assert_eq!(value.id, Some(2));
    assert_eq!(value.key, "Value");
    assert_eq!(value.value, "10k");

    let footprint = symbol
        .properties
        .iter()
        .find(|property| property.kind == PropertyKind::SymbolFootprint)
        .expect("footprint field");
    assert_eq!(footprint.id, Some(3));
    assert_eq!(footprint.key, "Footprint");
    assert_eq!(footprint.value, "Resistor_SMD:R_0603");
}

#[test]
fn symbol_syncs_structured_sim_model_fields() {
    let mut symbol = symbol_with(&[
        ("Sim.Device", "SPICE"),
        ("Sim.Params", r#"type="Q" model="BC\"547" lib="models.lib""#),
        ("Sim.Library", "models.kicad_sim"),
        ("Sim.Name", "2N3904"),
        ("Sim.Ibis.Pin", "A1"),
        ("Sim.Ibis.Model", "TX_MODEL"),
        ("Sim.Ibis.Diff", "1"),
        ("Sim.Pins", "1=1 2=2"),
    ]);

    symbol.sync_sim_model_from_properties();

    let m = symbol.sim_model.as_ref().expect("model");
    assert_eq!(m.device.as_deref(), Some("SPICE"));
    assert_eq!(m.library.as_deref(), Some("models.kicad_sim"));
    assert_eq!(m.name.as_deref(), Some("2N3904"));
    assert_eq!(m.ibis_pin.as_deref(), Some("A1"));
    assert_eq!(m.ibis_model.as_deref(), Some("TX_MODEL"));
    assert!(m.ibis_diff);
    assert_eq!(m.model_type.as_deref(), Some("Q"));
    assert_eq!(
        m.param_pairs,
        vec![
            ("type".to_string(), "Q".to_string()),
            ("model".to_string(), "BC\"547".to_string()),
            ("lib".to_string(), "models.lib".to_string()),
        ]
    );
    assert_eq!(
        m.param_values,
        BTreeMap::from([
            ("lib".to_string(), "models.lib".to_string()),
            ("model".to_string(), "BC\"547".to_string()),
            ("type".to_string(), "Q".to_string()),
        ])
    );
    assert_eq!(
        m.pin_pairs,
        vec![("1".to_string(), "1".to_string()), ("2".to_string(), "2".to_string())]
    );
    assert_eq!(
        m.pins,
        BTreeMap::from([("1".to_string(), "1".to_string()), ("2".to_string(), "2".to_string())])
    );
    assert_eq!(m.value_binding, None);
    assert!(m.enabled);
    assert_eq!(m.origin, Some(SimModelOrigin::Ibis));
}

#[test]
fn symbol_treats_explicit_ibis_device_field_as_ibis_state() {
    let mut symbol = symbol_with(&[("Sim.Device", "IBIS"), ("Sim.Library", "driver.ibs"), ("Sim.Name", "DRIVER")]);

    symbol.sync_sim_model_from_properties();

    assert_eq!(symbol.sim_model.as_ref().and_then(|m| m.origin), Some(SimModelOrigin::Ibis));
}

#[test]
fn symbol_syncs_library_backed_sim_state_from_raw_params() {
    let mut symbol = symbol_with(&[
        ("Sim.Device", "SPICE"),
        ("Sim.Params", r#"type="Q" model="BC\"547" lib="models.lib""#),
    ]);

    symbol.sync_sim_model_from_properties();

    let m = symbol.sim_model.as_ref().expect("model");
    assert_eq!(m.device.as_deref(), Some("SPICE"));
    assert_eq!(m.model_type.as_deref(), Some("Q"));
    assert_eq!(m.library.as_deref(), Some("models.lib"));
    assert_eq!(m.name.as_deref(), Some("BC\"547"));
    assert_eq!(
        m.param_pairs,
        vec![
            ("type".to_string(), "Q".to_string()),
            ("model".to_string(), "BC\"547".to_string()),
            ("lib".to_string(), "models.lib".to_string()),
        ]
    );
    assert_eq!(
        m.param_values,
        BTreeMap::from([
            ("lib".to_string(), "models.lib".to_string()),
            ("model".to_string(), "BC\"547".to_string()),
            ("type".to_string(), "Q".to_string()),
        ])
    );
    assert_eq!(m.value_binding, None);
    assert!(m.enabled);
    assert_eq!(m.origin, Some(SimModelOrigin::LibraryReference));
}

#[test]
fn symbol_preserves_duplicate_and_ordered_sim_param_pairs() {
    let mut symbol = symbol_with(&[("Sim.Params", r#"gain=1 gain=2 mode="fast" extra="x y""#)]);

    symbol.sync_sim_model_from_properties();

    assert_eq!(
        symbol.sim_model.as_ref().map(|m| m.param_pairs.clone()),
        Some(vec![
            ("gain".to_string(), "1".to_string()),
            ("gain".to_string(), "2".to_string()),
            ("mode".to_string(), "fast".to_string()),
            ("extra".to_string(), "x y".to_string()),
        ])
    );
    assert_eq!(
        symbol.sim_model.as_ref().map(|m| m.param_values.clone()),
        Some(BTreeMap::from([
            ("extra".to_string(), "x y".to_string()),
            ("gain".to_string(), "2".to_string()),
            ("mode".to_string(), "fast".to_string()),
        ]))
    );
}

#[test]
fn symbol_preserves_flag_and_quoted_sim_param_pairs() {
    let mut symbol = symbol_with(&[("Sim.Params", r#"flag gain=2 model="BC\"547" extra="x y""#)]);

    symbol.sync_sim_model_from_properties();

    assert_eq!(
        symbol.sim_model.as_ref().map(|m| m.param_pairs.clone()),
        Some(vec![
            ("flag".to_string(), "1".to_string()),
            ("gain".to_string(), "2".to_string()),
            ("model".to_string(), "BC\"547".to_string()),
            ("extra".to_string(), "x y".to_string()),
        ])
    );
    assert_eq!(
        symbol.sim_model.as_ref().map(|m| m.param_values.clone()),
        Some(BTreeMap::from([
            ("extra".to_string(), "x y".to_string()),
            ("flag".to_string(), "1".to_string()),
            ("gain".to_string(), "2".to_string()),
            ("model".to_string(), "BC\"547".to_string()),
        ]))
    );
}

#[test]
fn symbol_normalizes_sim_param_pair_si_values() {
    let mut symbol = symbol_with(&[("Sim.Params", r#"gain=1Meg bias=3,300u extra="x y""#)]);

    symbol.sync_sim_model_from_properties();

    assert_eq!(
        symbol.sim_model.as_ref().map(|m| m.param_pairs.clone()),
        Some(vec![
            ("gain".to_string(), "1M".to_string()),
            ("bias".to_string(), "3300u".to_string()),
            ("extra".to_string(), "x y".to_string()),
        ])
    );
    assert_eq!(
        symbol.sim_model.as_ref().map(|m| m.param_values.clone()),
        Some(BTreeMap::from([
            ("bias".to_string(), "3300u".to_string()),
            ("extra".to_string(), "x y".to_string()),
            ("gain".to_string(), "1M".to_string()),
        ]))
    );
}

#[test]
fn symbol_preserves_ordered_sim_pin_pairs() {
    let mut symbol = symbol_with(&[("Sim.Pins", "2=1 1=2 10=3")]);

    symbol.sync_sim_model_from_properties();

    assert_eq!(
        symbol.sim_model.as_ref().map(|m| m.pin_pairs.clone()),
        Some(vec![
            ("2".to_string(), "1".to_string()),
            ("1".to_string(), "2".to_string()),
            ("10".to_string(), "3".to_string()),
        ])
    );
    assert_eq!(
        symbol.sim_model.as_ref().map(|m| m.pins.clone()),
        Some(BTreeMap::from([
            ("1".to_string(), "2".to_string()),
            ("2".to_string(), "1".to_string()),
            ("10".to_string(), "3".to_string()),
        ]))
    );
}

#[test]
fn symbol_preserves_quoted_sim_pin_pairs() {
    let mut symbol = symbol_with(&[("Sim.Pins", r#"1="PIN A" 2=B"#)]);

    symbol.sync_sim_model_from_properties();

    assert_eq!(
        symbol.sim_model.as_ref().map(|m| m.pin_pairs.clone()),
        Some(vec![("1".to_string(), "PIN A".to_string()), ("2".to_string(), "B".to_string())])
    );
    assert_eq!(
        symbol.sim_model.as_ref().map(|m| m.pins.clone()),
        Some(BTreeMap::from([
            ("1".to_string(), "PIN A".to_string()),
            ("2".to_string(), "B".to_string()),
        ]))
    );
}

#[test]
fn symbol_tracks_sim_value_binding_placeholders() {
    let mut symbol = SimSymbol::new();
    symbol.set_field_text(PropertyKind::SymbolValue, "${SIM.PARAMS}".to_string());
    symbol.push_user_field("Sim.Device", "SPICE".to_string());

    symbol.sync_sim_model_from_properties();

    assert_eq!(symbol.sim_model.as_ref().and_then(|m| m.value_binding), Some(SimValueBinding::Params));

    symbol.set_field_text(PropertyKind::SymbolValue, "${SIM.NAME}".to_string());
    symbol.sync_sim_model_from_properties();

    assert_eq!(symbol.sim_model.as_ref().and_then(|m| m.value_binding), Some(SimValueBinding::Name));
}

#[test]
fn symbol_tracks_sim_enabled_state() {
    let mut symbol = SimSymbol::new();
    symbol.excluded_from_sim = true;
    symbol.push_user_field("Sim.Device", "SPICE".to_string());

    symbol.sync_sim_model_from_properties();

    assert_eq!(symbol.sim_model.as_ref().map(|m| m.enabled), Some(false));
    assert_eq!(symbol.sim_model.as_ref().and_then(|m| m.origin), Some(SimModelOrigin::RawSpice));
}

#[test]
fn symbol_treats_ibis_diff_field_as_ibis_state() {
    let mut symbol = symbol_with(&[("Sim.Ibis.Diff", "1")]);

    symbol.sync_sim_model_from_properties();

    assert_eq!(symbol.sim_model.as_ref().map(|m| m.ibis_diff), Some(true));
    assert_eq!(symbol.sim_model.as_ref().and_then(|m| m.origin), Some(SimModelOrigin::Ibis));
}

#[test]
fn symbol_without_sim_fields_has_no_model() {
    let mut symbol = SimSymbol::new();
    symbol.sync_sim_model_from_properties();
    assert!(symbol.sim_model.is_none());
}

#[test]
fn builtin_device_and_type_give_builtin_origin() {
    let mut symbol = symbol_with(&[("Sim.Device", "R"), ("Sim.Type", "POT")]);
    symbol.sync_sim_model_from_properties();
    assert_eq!(symbol.sim_model.as_ref().and_then(|m| m.origin), Some(SimModelOrigin::BuiltIn));

    let mut symbol = symbol_with(&[("Sim.Device", "Q")]);
    symbol.sync_sim_model_from_properties();
    assert_eq!(symbol.sim_model.as_ref().and_then(|m| m.origin), Some(SimModelOrigin::Fields));
}

#[test]
fn property_kinds_have_distinct_ids_and_keys() {
    assert_eq!(PropertyKind::SymbolValue.default_field_id(), Some(2));
    assert_eq!(PropertyKind::User.default_field_id(), Some(0));
    assert_eq!(PropertyKind::SymbolReference.canonical_key(), "Reference");
    assert_eq!(PropertyKind::User.canonical_key(), "");
    assert!(PropertyKind::SheetUser.is_user_field());
    assert!(PropertyKind::SheetName.is_mandatory());
}

#[test]
fn title_block_comments_count_the_filled_slots() {
    let mut block = TitleBlock::default();
    assert_eq!(block.comment_count(), 0);
    block.comments[0] = Some("first".to_string());
    block.comments[4] = Some("fifth".to_string());
    assert_eq!(block.comment_count(), 2);
    assert_eq!(block.comment(1), Some("first"));
    assert_eq!(block.comment(2), None);
    assert_eq!(block.comment(5), Some("fifth"));
}

#[test]
fn placed_symbols_start_with_mandatory_fields() {
    let symbol = SimSymbol::new();

    assert_eq!(symbol.prefix, "U");
    assert!(symbol.in_netlist);
    assert_eq!(
        symbol.properties.iter().map(|property| property.kind).collect::<Vec<_>>(),
        vec![
            PropertyKind::SymbolReference,
            PropertyKind::SymbolValue,
            PropertyKind::SymbolFootprint,
            PropertyKind::SymbolDatasheet,
            PropertyKind::SymbolDescription,
        ]
    );
    let fields = symbol
        .properties
        .iter()
        .map(|field| ki2::model::property::Property::new(field.kind, field.value.clone()))
        .collect::<Vec<_>>();
    assert_eq!(ki2::model::property::next_field_ordinal(&fields), 42);
}
