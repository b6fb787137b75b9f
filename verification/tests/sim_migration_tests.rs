use ki2::model::sim_fields::{
    default_sim_pins_value, legacy_spice_pin_map, pot_sim_pins_update, push_warning_once, rand_sim_params_update,
    rand_sim_type_update, ResolvedSimModel, SimSymbol,
};
use ki2::model::{
    PropertyKind, ResolvedSimLibrary, ResolvedSimModelKind, SimLibraryKind, SimLibrarySource, SimModelOrigin,
    SimValueBinding,
};

fn pins(list: &[&str]) -> Vec<String> {
    list.iter().map(|p| p.to_string()).collect()
}

fn keyed<'a>(symbol: &'a SimSymbol, key: &str) -> Option<&'a str> {
    symbol.properties.iter().find(|f| f.key == key).map(|f| f.value.as_str())
}

fn value_text(symbol: &SimSymbol) -> &str {
    symbol
        .properties
        .iter()
        .find(|f| f.kind == PropertyKind::SymbolValue)
        .map(|f| f.value.as_str())
        .unwrap_or("")
}

fn keys(symbol: &SimSymbol) -> Vec<&str> {
    symbol.properties.iter().map(|f| f.key.as_str()).collect()
}

#[test]
fn legacy_node_sequences_become_pin_maps() {
    assert_eq!(legacy_spice_pin_map("1 2"), "1=1 2=2");
    assert_eq!(legacy_spice_pin_map("{2:1}"), "2=1 1=2");
    assert_eq!(legacy_spice_pin_map("3,x;7"), "3=1 1=2 7=3");
    assert_eq!(legacy_spice_pin_map(""), "");
    assert_eq!(default_sim_pins_value(&pins(&["A1", "B2"])), "A1=1 B2=2");
}

#[test]
fn inferred_passive_keeps_only_its_pin_map() {
    let mut symbol = SimSymbol::new();
    symbol.set_field_text(PropertyKind::SymbolReference, "R1".to_string());
    symbol.push_user_field("Spice_Primitive", "R".to_string());
    symbol.push_user_field("Spice_Node_Sequence", "2 1".to_string());
    symbol.push_user_field("Spice_Netlist_Enabled", "Y".to_string());

    assert!(symbol.library_probe().is_none());
    let migrated = symbol.migrate_sim_model(&pins(&["1", "2"]), false);

    assert!(migrated);
    assert_eq!(keys(&symbol), vec!["Reference", "Value", "Footprint", "Datasheet", "Description", "Sim.Pins"]);
    assert_eq!(keyed(&symbol, "Sim.Pins"), Some("2=1 1=2"));
    let m = symbol.sim_model.as_ref().expect("model");
    assert_eq!(m.pin_pairs, vec![("2".to_string(), "1".to_string()), ("1".to_string(), "2".to_string())]);
    assert_eq!(m.origin, Some(SimModelOrigin::Fields));
}

#[test]
fn legacy_dc_source_becomes_builtin_dc_model() {
    let mut symbol = SimSymbol::new();
    symbol.set_field_text(PropertyKind::SymbolReference, "V1".to_string());
    symbol.push_user_field("Spice_Primitive", "V".to_string());
    symbol.push_user_field("Spice_Model", "dc 5".to_string());

    let migrated = symbol.migrate_sim_model(&pins(&["1", "2"]), false);

    assert!(migrated);
    assert_eq!(value_text(&symbol), "5");
    assert_eq!(keyed(&symbol, "Sim.Device"), Some("V"));
    assert_eq!(keyed(&symbol, "Sim.Type"), Some("DC"));
    assert_eq!(keyed(&symbol, "Sim.Pins"), Some("1=1 2=2"));
    assert_eq!(keyed(&symbol, "Spice_Model"), None);
    assert_eq!(symbol.sim_model.as_ref().and_then(|m| m.origin), Some(SimModelOrigin::BuiltIn));
}

#[test]
fn legacy_waveform_source_becomes_named_parameters() {
    let mut symbol = SimSymbol::new();
    symbol.set_field_text(PropertyKind::SymbolReference, "V2".to_string());
    symbol.push_user_field("Spice_Primitive", "V".to_string());
    symbol.push_user_field("Spice_Model", "sin(0 1 1k)".to_string());
    symbol.push_user_field("Spice_Node_Sequence", "1 2".to_string());

    let migrated = symbol.migrate_sim_model(&pins(&["1", "2"]), false);

    assert!(migrated);
    assert_eq!(keyed(&symbol, "Sim.Device"), Some("V"));
    assert_eq!(keyed(&symbol, "Sim.Type"), Some("SIN"));
    assert_eq!(keyed(&symbol, "Sim.Params"), Some("dc=0 ampl=1 f=1k"));
    assert_eq!(keyed(&symbol, "Sim.Pins"), Some("1=1 2=2"));
    assert_eq!(value_text(&symbol), "");
}

#[test]
fn waveform_from_the_value_binds_the_value_to_the_parameters() {
    let mut symbol = SimSymbol::new();
    symbol.set_field_text(PropertyKind::SymbolReference, "J1".to_string());
    symbol.set_field_text(PropertyKind::SymbolValue, "pulse(0 5 1u)".to_string());
    symbol.push_user_field("Spice_Primitive", "I".to_string());
    symbol.push_user_field("Spice_Netlist_Enabled", "Y".to_string());

    let migrated = symbol.migrate_sim_model(&pins(&["1", "2"]), false);

    assert!(migrated);
    assert_eq!(keyed(&symbol, "Sim.Device"), Some("I"));
    assert_eq!(keyed(&symbol, "Sim.Type"), Some("PULSE"));
    assert_eq!(keyed(&symbol, "Sim.Params"), Some("y1=0 y2=5 td=1u"));
    assert_eq!(keyed(&symbol, "Sim.Pins"), Some("1=1 2=2"));
    assert_eq!(value_text(&symbol), "${SIM.PARAMS}");
    assert_eq!(symbol.sim_model.as_ref().and_then(|m| m.value_binding), Some(SimValueBinding::Params));
}

#[test]
fn resolved_library_reference_names_library_and_model() {
    let mut symbol = SimSymbol::new();
    symbol.set_field_text(PropertyKind::SymbolReference, "Q1".to_string());
    symbol.push_user_field("Spice_Primitive", "Q".to_string());
    symbol.push_user_field("Spice_Model", "2N3904 bf=200".to_string());
    symbol.push_user_field("Spice_Lib_File", "models.lib".to_string());

    let probe = symbol.library_probe().expect("a library reference is tried");
    assert_eq!(keyed(&probe, "Sim.Library"), Some("models.lib"));
    assert_eq!(keyed(&probe, "Sim.Name"), Some("2N3904"));
    assert_eq!(keyed(&probe, "Sim.Params"), Some("bf=200"));
    assert_eq!(probe.sim_model.as_ref().and_then(|m| m.origin), Some(SimModelOrigin::LibraryReference));

    let migrated = symbol.migrate_sim_model(&pins(&["1", "2", "3"]), true);
    assert!(migrated);
    assert_eq!(
        keys(&symbol),
        vec!["Reference", "Value", "Footprint", "Datasheet", "Description", "Sim.Library", "Sim.Name", "Sim.Params"]
    );
}

#[test]
fn unresolved_library_reference_falls_back_to_raw_spice() {
    let mut symbol = SimSymbol::new();
    symbol.set_field_text(PropertyKind::SymbolReference, "Q1".to_string());
    symbol.push_user_field("Spice_Primitive", "Q".to_string());
    symbol.push_user_field("Spice_Model", "2N3904".to_string());
    symbol.push_user_field("Spice_Lib_File", "models.lib".to_string());

    let migrated = symbol.migrate_sim_model(&pins(&["1", "2", "3"]), false);

    assert!(migrated);
    assert_eq!(keyed(&symbol, "Sim.Device"), Some("SPICE"));
    assert_eq!(keyed(&symbol, "Sim.Params"), Some(r#"type="Q" model="2N3904" lib="models.lib""#));
    assert_eq!(keyed(&symbol, "Sim.Pins"), None);
    assert_eq!(symbol.sim_model.as_ref().and_then(|m| m.origin), Some(SimModelOrigin::LibraryReference));
}

#[test]
fn raw_model_without_device_or_library_keeps_the_model_text() {
    let mut symbol = SimSymbol::new();
    symbol.set_field_text(PropertyKind::SymbolReference, "X1".to_string());
    symbol.set_field_text(PropertyKind::SymbolValue, "OPAMP".to_string());
    symbol.push_user_field("Spice_Node_Sequence", "3 2 1".to_string());

    let migrated = symbol.migrate_sim_model(&pins(&["1", "2", "3"]), false);

    assert!(migrated);
    assert_eq!(keyed(&symbol, "Sim.Device"), Some("SPICE"));
    assert_eq!(keyed(&symbol, "Sim.Params"), Some("OPAMP"));
    assert_eq!(keyed(&symbol, "Sim.Pins"), Some("3=1 2=2 1=3"));
    assert_eq!(value_text(&symbol), "${SIM.PARAMS}");
}

#[test]
fn legacy_fields_without_a_model_change_nothing() {
    let mut symbol = SimSymbol::new();
    symbol.set_field_text(PropertyKind::SymbolReference, "U1".to_string());
    symbol.push_user_field("Spice_Netlist_Enabled", "N".to_string());

    let migrated = symbol.migrate_sim_model(&pins(&["1"]), false);

    assert!(!migrated);
    assert_eq!(keyed(&symbol, "Spice_Netlist_Enabled"), Some("N"));
}

#[test]
fn underscored_keys_are_renamed_and_potentiometer_pins_follow() {
    let mut symbol = SimSymbol::new();
    symbol.set_field_text(PropertyKind::SymbolReference, "RV1".to_string());
    symbol.push_user_field("Sim_Device", "R".to_string());
    symbol.push_user_field("Sim_Type", "pot".to_string());
    symbol.push_user_field("Sim_Pins", "1 2".to_string());

    let migrated = symbol.migrate_sim_model(&pins(&["1", "2"]), false);

    assert!(migrated);
    assert_eq!(keyed(&symbol, "Sim.Device"), Some("R"));
    assert_eq!(keyed(&symbol, "Sim.Type"), Some("pot"));
    assert_eq!(keyed(&symbol, "Sim.Pins"), Some("1=r1 2=r0"));
}

#[test]
fn random_sources_use_gaussian_and_time_steps() {
    let mut symbol = SimSymbol::new();
    symbol.push_user_field("Sim.Device", "V".to_string());
    symbol.push_user_field("Sim.Type", "randnormal".to_string());
    symbol.push_user_field("Sim.Params", "min=0 max=0 dt=1m".to_string());

    let migrated = symbol.migrate_sim_model(&pins(&[]), false);

    assert!(migrated);
    assert_eq!(keyed(&symbol, "Sim.Type"), Some("RANDGAUSSIAN"));
    assert_eq!(keyed(&symbol, "Sim.Params"), Some("ts=1m"));
}

#[test]
fn mutual_inductance_becomes_a_k_device() {
    let mut symbol = SimSymbol::new();
    symbol.push_user_field("Sim.Type", "MUTUAL".to_string());
    symbol.push_user_field("Sim.Params", "k=0.9".to_string());

    let migrated = symbol.migrate_sim_model(&pins(&[]), false);

    assert!(migrated);
    assert_eq!(keyed(&symbol, "Sim.Type"), None);
    assert_eq!(keyed(&symbol, "Sim.Device"), Some("K"));
}

#[test]
fn current_fields_need_no_migration() {
    let mut symbol = SimSymbol::new();
    symbol.push_user_field("Sim.Device", "SPICE".to_string());
    assert!(!symbol.migrate_sim_model(&pins(&[]), false));
    assert_eq!(symbol.sim_model.as_ref().and_then(|m| m.origin), Some(SimModelOrigin::RawSpice));
}

#[test]
fn pin_and_parameter_renames() {
    assert_eq!(pot_sim_pins_update("1=+ 2=- 3=w"), "1=r1 2=r0 3=w");
    assert_eq!(rand_sim_type_update("RANDNORMAL"), "RANDGAUSSIAN");
    assert_eq!(rand_sim_type_update("RANDUNIFORM"), "RANDUNIFORM");
    assert_eq!(rand_sim_params_update("min=0 max=0 dt=5u"), "ts=5u");
    assert_eq!(rand_sim_params_update("min=1 dt=5u"), "min=1 ts=5u");
}

#[test]
fn two_pin_passive_value_infers_a_model() {
    let mut symbol = SimSymbol::new();
    symbol.set_field_text(PropertyKind::SymbolReference, "R7".to_string());
    symbol.set_field_text(PropertyKind::SymbolValue, "10k".to_string());

    assert!(symbol.needs_inferred_model());
    assert!(symbol.infer_sim_model(&pins(&["1", "2"])));

    let m = symbol.sim_model.as_ref().expect("model");
    assert_eq!(m.device.as_deref(), Some("R"));
    assert_eq!(m.model_type, None);
    assert_eq!(m.params.as_deref(), Some(r#"r="10k""#));
    assert_eq!(m.param_pairs, vec![("r".to_string(), "10k".to_string())]);
    assert_eq!(m.pin_pairs, vec![("1".to_string(), "+".to_string()), ("2".to_string(), "-".to_string())]);
    assert_eq!(m.value_binding, Some(SimValueBinding::Value));
    assert_eq!(m.stored_value.as_deref(), Some("10k"));
    assert_eq!(m.origin, Some(SimModelOrigin::InferredValue));
}

#[test]
fn source_value_infers_a_dc_model_and_three_pins_do_not() {
    let mut symbol = SimSymbol::new();
    symbol.set_field_text(PropertyKind::SymbolReference, "V3".to_string());
    symbol.set_field_text(PropertyKind::SymbolValue, "AC 1".to_string());
    assert!(symbol.infer_sim_model(&pins(&["1", "2"])));
    let m = symbol.sim_model.as_ref().expect("model");
    assert_eq!(m.device.as_deref(), Some("V"));
    assert_eq!(m.model_type.as_deref(), Some("DC"));
    assert_eq!(m.params.as_deref(), Some(r#"ac="1""#));

    let mut other = SimSymbol::new();
    other.set_field_text(PropertyKind::SymbolReference, "V4".to_string());
    other.set_field_text(PropertyKind::SymbolValue, "5".to_string());
    assert!(!other.infer_sim_model(&pins(&["1", "2", "3"])));
    assert!(other.sim_model.is_none());
}

#[test]
fn value_backed_passive_gets_its_main_parameter_and_pins() {
    let mut symbol = SimSymbol::new();
    symbol.set_field_text(PropertyKind::SymbolReference, "R2".to_string());
    symbol.set_field_text(PropertyKind::SymbolValue, "4k7".to_string());
    symbol.push_user_field("Sim.Device", "R".to_string());
    symbol.sync_sim_model_from_properties();

    assert!(symbol.hydrate_value_backed_sim_model(&pins(&["1", "2"])));

    let m = symbol.sim_model.as_ref().expect("model");
    assert_eq!(m.param_pairs.len(), 1);
    assert_eq!(m.param_pairs[0].0, "r");
    assert_eq!(m.value_binding, Some(SimValueBinding::Value));
    assert_eq!(m.stored_value.as_deref(), Some("4k7"));
    assert_eq!(m.pin_pairs, vec![("1".to_string(), "+".to_string()), ("2".to_string(), "-".to_string())]);
}

#[test]
fn value_backed_source_keeps_an_existing_parameter_slot() {
    let mut symbol = SimSymbol::new();
    symbol.set_field_text(PropertyKind::SymbolReference, "V1".to_string());
    symbol.set_field_text(PropertyKind::SymbolValue, "DC 3".to_string());
    symbol.push_user_field("Sim.Device", "V".to_string());
    symbol.push_user_field("Sim.Params", "DC=1 ac=2".to_string());
    symbol.sync_sim_model_from_properties();

    assert!(symbol.hydrate_value_backed_sim_model(&pins(&["1", "2"])));

    let m = symbol.sim_model.as_ref().expect("model");
    assert_eq!(m.model_type.as_deref(), Some("DC"));
    assert_eq!(m.param_pairs, vec![("DC".to_string(), "3".to_string()), ("ac".to_string(), "2".to_string())]);
    assert_eq!(m.params.as_deref(), Some("DC=3 ac=2"));
}

#[test]
fn raw_spice_model_is_bound_to_the_value() {
    let mut symbol = SimSymbol::new();
    symbol.set_field_text(PropertyKind::SymbolValue, "BC547".to_string());
    symbol.push_user_field("Sim.Device", "SPICE".to_string());
    symbol.sync_sim_model_from_properties();

    assert!(symbol.hydrate_raw_spice_value());
    let m = symbol.sim_model.as_ref().expect("model");
    assert_eq!(m.value_binding, Some(SimValueBinding::Value));
    assert_eq!(m.stored_value.as_deref(), Some("BC547"));
    assert!(!symbol.hydrate_raw_spice_value());
}

#[test]
fn unsupported_builtin_type_is_reported() {
    let mut symbol = SimSymbol::new();
    symbol.set_field_text(PropertyKind::SymbolReference, "D1".to_string());
    symbol.push_user_field("Sim.Device", "D".to_string());
    symbol.push_user_field("Sim.Type", "ZENER".to_string());
    symbol.sync_sim_model_from_properties();

    assert_eq!(
        symbol.unresolved_builtin_sim_model_warning().as_deref(),
        Some("No simulation model definition found for symbol 'D1'.")
    );

    let mut anonymous = SimSymbol::new();
    anonymous.push_user_field("Sim.Device", "D".to_string());
    anonymous.push_user_field("Sim.Type", "ZENER".to_string());
    anonymous.sync_sim_model_from_properties();
    assert_eq!(
        anonymous.unresolved_builtin_sim_model_warning().as_deref(),
        Some("No simulation model definition found.")
    );

    let mut supported = SimSymbol::new();
    supported.push_user_field("Sim.Device", "D".to_string());
    supported.push_user_field("Sim.Type", "".to_string());
    supported.sync_sim_model_from_properties();
    assert_eq!(supported.unresolved_builtin_sim_model_warning(), None);
}

#[test]
fn library_models_get_pins_from_the_resolved_model() {
    let mut symbol = SimSymbol::new();
    symbol.push_user_field("Sim.Library", "ibis/driver.ibs".to_string());
    symbol.push_user_field("Sim.Name", "DRV".to_string());
    symbol.sync_sim_model_from_properties();

    let model_pins = pins(&["A", "B"]);
    assert!(symbol.default_resolved_pins(&pins(&["1", "2"]), Some(&model_pins)));
    assert_eq!(keyed(&symbol, "Sim.Pins"), Some("1=A 2=B"));
    assert!(!symbol.default_resolved_pins(&pins(&["1", "2"]), Some(&model_pins)));

    let mut mismatched = SimSymbol::new();
    mismatched.push_user_field("Sim.Library", "models.lib".to_string());
    mismatched.push_user_field("Sim.Name", "Q".to_string());
    mismatched.sync_sim_model_from_properties();
    assert!(mismatched.default_resolved_pins(&pins(&["1", "2", "3"]), Some(&model_pins)));
    assert_eq!(keyed(&mismatched, "Sim.Pins"), Some("1=1 2=2 3=3"));
}

#[test]
fn resolution_results_are_recorded() {
    let mut symbol = SimSymbol::new();
    symbol.push_user_field("Sim.Library", "driver.ibs".to_string());
    symbol.push_user_field("Sim.Name", "  ".to_string());
    symbol.sync_sim_model_from_properties();

    let library = ResolvedSimLibrary {
        source: SimLibrarySource::Filesystem("/tmp/driver.ibs".to_string()),
        kind: SimLibraryKind::Ibis,
    };
    symbol.apply_resolution(Some(library.clone()), None);
    let m = symbol.sim_model.as_ref().expect("model");
    assert_eq!(m.resolved_library, Some(library));
    assert_eq!(m.resolved_name.as_deref(), Some("unknown"));
    assert_eq!(m.origin, Some(SimModelOrigin::Ibis));

    let resolved = ResolvedSimModel {
        name: "DRV".to_string(),
        kind: ResolvedSimModelKind::IbisDriverDc,
        model_type: None,
        ibis_model_type: Some("Output".to_string()),
        diff_pin: None,
        params: vec![("vinl".to_string(), Some("0.8".to_string()))],
        pins: vec!["1".to_string()],
    };
    symbol.apply_resolution(None, Some(resolved));
    let m = symbol.sim_model.as_ref().expect("model");
    assert_eq!(m.resolved_name.as_deref(), Some("DRV"));
    assert_eq!(m.resolved_kind, Some(ResolvedSimModelKind::IbisDriverDc));
    assert_eq!(m.generated_pin_names, vec!["1".to_string()]);
    assert_eq!(m.origin, Some(SimModelOrigin::Ibis));
}

#[test]
fn warnings_are_listed_once() {
    let mut warnings = vec!["a".to_string()];
    push_warning_once(&mut warnings, "b".to_string());
    push_warning_once(&mut warnings, "a".to_string());
    push_warning_once(&mut warnings, "b".to_string());
    assert_eq!(warnings, vec!["a".to_string(), "b".to_string()]);
}

#[test]
fn normalized_mantissas_keep_digits_and_one_dot() {
    assert_eq!(ki2::model::sim_params::normalize_sim_si_mantissa("1 234,5"), Some("1234.5".to_string()));
    assert_eq!(ki2::model::sim_params::normalize_sim_si_mantissa("1,234.5"), Some("1234.5".to_string()));
    assert_eq!(ki2::model::sim_params::normalize_sim_si_mantissa("1.2.3"), None);
    assert_eq!(ki2::model::sim_params::normalize_sim_si_mantissa("1a"), None);
    assert_eq!(ki2::model::sim_params::normalize_sim_si_mantissa("   "), None);
}
