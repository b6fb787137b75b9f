//! A placed symbol's simulation state read from its fields: the model that the
//! `Sim.*` fields describe, and the upgrade of older field sets to them.

use crate::loader::{
    builtin_sim_type, escape_quotes, legacy_dc_value, legacy_source_model, map_of_pairs, param_pair_text,
    string_map_insert,
};
use crate::model::sim_params::{param_pairs_from, parse_sim_param_pairs, parse_sim_pin_pairs, pin_pairs_from};
use crate::model::{
    PropertyKind, ResolvedSimLibrary, ResolvedSimModelKind, SimLibraryKind, SimModel, SimModelOrigin,
    SimValueBinding,
};
use crate::text::{opt_view, str_eq, trim, trimmed_chars, vec_eq_str};
use std::collections::BTreeMap;
use vstd::prelude::*;

verus! {

/// The text of one field of a placed symbol, with the position in the symbol's
/// property list of the property whose placement and style it carries (`None` for a
/// fresh user field).
#[derive(Debug, Clone, PartialEq, Eq)]
pub struct FieldText {
    pub id: Option<i32>,
    pub kind: PropertyKind,
    pub key: String,
    pub value: String,
    pub origin: Option<usize>,
}

/// A field as a mathematical value.
pub struct FieldView {
    pub id: Option<i32>,
    pub kind: PropertyKind,
    pub key: Seq<char>,
    pub value: Seq<char>,
    pub origin: Option<usize>,
}

impl View for FieldText {
    type V = FieldView;

    open spec fn view(&self) -> FieldView {
        FieldView {
            id: self.id,
            kind: self.kind,
            key: self.key@,
            value: self.value@,
            origin: self.origin,
        }
    }
}

/// The views of a list of fields.
pub open spec fn views(s: Seq<FieldText>) -> Seq<FieldView> {
    s.map_values(|f: FieldText| f@)
}

/// The simulation-relevant state of a placed symbol: its fields, its reference prefix,
/// whether it is in the netlist, whether it is left out of simulation, and the model read
/// from the fields.
#[derive(Debug, Clone)]
pub struct SimSymbol {
    pub properties: Vec<FieldText>,
    pub prefix: String,
    pub in_netlist: bool,
    pub excluded_from_sim: bool,
    pub sim_model: Option<SimModel>,
}

/// Index of the first field at or after `i` with the given key, or the length.
pub open spec fn key_index(fv: Seq<FieldView>, key: Seq<char>, i: int) -> int
    decreases fv.len() - i,
{
    if 0 <= i < fv.len() && fv[i].key != key {
        key_index(fv, key, i + 1)
    } else {
        i
    }
}

/// Index of the first field at or after `i` of the given kind, or the length.
pub open spec fn kind_index(fv: Seq<FieldView>, kind: PropertyKind, i: int) -> int
    decreases fv.len() - i,
{
    if 0 <= i < fv.len() && fv[i].kind != kind {
        kind_index(fv, kind, i + 1)
    } else {
        i
    }
}

/// The text of the first field with the given key.
pub open spec fn keyed(fv: Seq<FieldView>, key: Seq<char>) -> Option<Seq<char>> {
    let k = key_index(fv, key, 0);
    if 0 <= k < fv.len() {
        Some(fv[k].value)
    } else {
        None
    }
}

/// What the first value field binds the value to: the parameters or the model name.
pub open spec fn value_binding_of(fv: Seq<FieldView>) -> Option<SimValueBinding> {
    let k = kind_index(fv, PropertyKind::SymbolValue, 0);
    if 0 <= k < fv.len() {
        if fv[k].value == "${SIM.PARAMS}"@ {
            Some(SimValueBinding::Params)
        } else if fv[k].value == "${SIM.NAME}"@ {
            Some(SimValueBinding::Name)
        } else {
            None
        }
    } else {
        None
    }
}

/// The value of the last pair with the given name.
pub open spec fn last_pair_value(pairs: Seq<(Seq<char>, Seq<char>)>, name: Seq<char>) -> Option<Seq<char>>
    decreases pairs.len(),
{
    if pairs.len() == 0 {
        None
    } else if pairs.last().0 == name {
        Some(pairs.last().1)
    } else {
        last_pair_value(pairs.drop_last(), name)
    }
}

/// A text option with empty texts dropped.
pub open spec fn nonblank(o: Option<Seq<char>>) -> Option<Seq<char>> {
    match o {
        Some(t) => if t.len() > 0 {
            Some(t)
        } else {
            None
        },
        None => None,
    }
}

/// The first option where it is set, else the second.
pub open spec fn either(a: Option<Seq<char>>, b: Option<Seq<char>>) -> Option<Seq<char>> {
    if a is Some {
        a
    } else {
        b
    }
}

/// The parameter pairs of the `Sim.Params` field.
pub open spec fn param_pairs_of(fv: Seq<FieldView>) -> Seq<(Seq<char>, Seq<char>)> {
    match keyed(fv, "Sim.Params"@) {
        Some(p) => param_pairs_from(p, 0, Seq::empty()),
        None => Seq::empty(),
    }
}

/// The symbol-pin to model-pin pairs of the `Sim.Pins` field.
pub open spec fn pin_pairs_of(fv: Seq<FieldView>) -> Seq<(Seq<char>, Seq<char>)> {
    match keyed(fv, "Sim.Pins"@) {
        Some(p) => pin_pairs_from(p, 0, Seq::empty()),
        None => Seq::empty(),
    }
}

/// The model type: the `Sim.Type` field, else a non-empty `type` parameter.
pub open spec fn model_type_of(fv: Seq<FieldView>) -> Option<Seq<char>> {
    either(keyed(fv, "Sim.Type"@), nonblank(last_pair_value(param_pairs_of(fv), "type"@)))
}

/// The library: the `Sim.Library` field, else a non-empty `lib` parameter.
pub open spec fn library_of(fv: Seq<FieldView>) -> Option<Seq<char>> {
    either(keyed(fv, "Sim.Library"@), nonblank(last_pair_value(param_pairs_of(fv), "lib"@)))
}

/// The model name: the `Sim.Name` field, else a non-empty `model` parameter.
pub open spec fn name_of(fv: Seq<FieldView>) -> Option<Seq<char>> {
    either(keyed(fv, "Sim.Name"@), nonblank(last_pair_value(param_pairs_of(fv), "model"@)))
}

/// The `Sim.Ibis.Diff` field reads `1`.
pub open spec fn ibis_diff_of(fv: Seq<FieldView>) -> bool {
    keyed(fv, "Sim.Ibis.Diff"@) matches Some(v) && trim(v) == "1"@
}

/// The text of an option, empty where there is none.
pub open spec fn text_or_empty(o: Option<Seq<char>>) -> Seq<char> {
    match o {
        Some(t) => t,
        None => Seq::empty(),
    }
}

/// Where the model that the fields describe comes from.
pub open spec fn origin_of(fv: Seq<FieldView>) -> Option<SimModelOrigin> {
    let device = keyed(fv, "Sim.Device"@);
    let ibis_diff = ibis_diff_of(fv);
    if (device matches Some(d) && trim(d) == "IBIS"@) || ibis_diff || keyed(fv, "Sim.Ibis.Pin"@) is Some
        || keyed(fv, "Sim.Ibis.Model"@) is Some {
        Some(SimModelOrigin::Ibis)
    } else if library_of(fv) is Some || (keyed(fv, "Sim.Library"@) is Some && keyed(fv, "Sim.Name"@) is Some) {
        Some(SimModelOrigin::LibraryReference)
    } else if device == Some("SPICE"@) {
        Some(SimModelOrigin::RawSpice)
    } else if device matches Some(d) && builtin_sim_type(trim(d), trim(text_or_empty(model_type_of(fv)))) {
        Some(SimModelOrigin::BuiltIn)
    } else if value_binding_of(fv) is Some {
        Some(SimModelOrigin::InferredValue)
    } else if device is Some || ibis_diff || library_of(fv) is Some || name_of(fv) is Some || keyed(
        fv,
        "Sim.Params"@,
    ) is Some || pin_pairs_of(fv).len() > 0 {
        Some(SimModelOrigin::Fields)
    } else {
        None
    }
}

/// The fields describe no simulation model at all.
pub open spec fn no_sim_fields(fv: Seq<FieldView>) -> bool {
    &&& keyed(fv, "Sim.Device"@) is None
    &&& model_type_of(fv) is None
    &&& library_of(fv) is None
    &&& name_of(fv) is None
    &&& keyed(fv, "Sim.Ibis.Pin"@) is None
    &&& keyed(fv, "Sim.Ibis.Model"@) is None
    &&& !ibis_diff_of(fv)
    &&& keyed(fv, "Sim.Params"@) is None
    &&& pin_pairs_of(fv).len() == 0
}

/// `m` is the model that the fields describe, enabled unless the symbol is left out of
/// simulation, with nothing resolved yet.
pub open spec fn model_from_fields(m: SimModel, fv: Seq<FieldView>, excluded: bool) -> bool {
    &&& opt_view(m.device) == keyed(fv, "Sim.Device"@)
    &&& opt_view(m.model_type) == model_type_of(fv)
    &&& opt_view(m.library) == library_of(fv)
    &&& opt_view(m.name) == name_of(fv)
    &&& opt_view(m.ibis_pin) == keyed(fv, "Sim.Ibis.Pin"@)
    &&& opt_view(m.ibis_model) == keyed(fv, "Sim.Ibis.Model"@)
    &&& m.ibis_diff == ibis_diff_of(fv)
    &&& opt_view(m.params) == keyed(fv, "Sim.Params"@)
    &&& m.param_pairs.deep_view() == param_pairs_of(fv)
    &&& m.param_values@ == map_of_pairs(m.param_pairs@)
    &&& m.pin_pairs.deep_view() == pin_pairs_of(fv)
    &&& m.pins@ == map_of_pairs(m.pin_pairs@)
    &&& m.value_binding == value_binding_of(fv)
    &&& m.stored_value is None
    &&& m.enabled == !excluded
    &&& m.origin == origin_of(fv)
    &&& m.resolved_library is None
    &&& m.resolved_name is None
    &&& m.resolved_kind is None
    &&& m.resolved_model_type is None
    &&& m.resolved_ibis_model_type is None
    &&& m.resolved_ibis_diff_pin is None
    &&& m.generated_pin_names@.len() == 0
    &&& m.generated_param_pairs@.len() == 0
}

fn find_key(props: &Vec<FieldText>, key: &str) -> (r: usize)
    ensures
        r == key_index(views(props@), key@, 0),
        r <= props.len(),
{
    let ghost fv = views(props@);
    let mut i: usize = 0;
    while i < props.len() && !str_eq(props[i].key.as_str(), key)
        invariant
            0 <= i <= props.len(),
            fv == views(props@),
            key_index(fv, key@, 0) == key_index(fv, key@, i as int),
        decreases props.len() - i,
    {
        i = i + 1;
    }
    i
}

fn find_kind(props: &Vec<FieldText>, kind: PropertyKind) -> (r: usize)
    ensures
        r == kind_index(views(props@), kind, 0),
        r <= props.len(),
{
    let ghost fv = views(props@);
    let mut i: usize = 0;
    while i < props.len() && props[i].kind != kind
        invariant
            0 <= i <= props.len(),
            fv == views(props@),
            kind_index(fv, kind, 0) == kind_index(fv, kind, i as int),
        decreases props.len() - i,
    {
        i = i + 1;
    }
    i
}

fn keyed_text(props: &Vec<FieldText>, key: &str) -> (r: Option<String>)
    ensures
        opt_view(r) == keyed(views(props@), key@),
{
    let k = find_key(props, key);
    if k < props.len() {
        Some(props[k].value.clone())
    } else {
        None
    }
}

fn last_pair_nonblank(pairs: &Vec<(String, String)>, name: &str) -> (r: Option<String>)
    ensures
        opt_view(r) == nonblank(last_pair_value(pairs.deep_view(), name@)),
{
    let ghost pv = pairs.deep_view();
    let mut i = pairs.len();
    assert(pv.subrange(0, pv.len() as int) =~= pv);
    while i > 0 && !str_eq(pairs[i - 1].0.as_str(), name)
        invariant
            0 <= i <= pairs.len(),
            pv == pairs.deep_view(),
            last_pair_value(pv, name@) == last_pair_value(pv.subrange(0, i as int), name@),
        decreases i,
    {
        assert(pv.subrange(0, i as int).drop_last() =~= pv.subrange(0, i - 1));
        i = i - 1;
    }
    if i == 0 {
        return None;
    }
    assert(pv.subrange(0, i as int).last() == pv[i - 1]);
    let v = pairs[i - 1].1.clone();
    if v.as_str().is_empty() {
        None
    } else {
        Some(v)
    }
}

fn map_from_pairs(pairs: &Vec<(String, String)>) -> (m: BTreeMap<String, String>)
    ensures
        m@ == map_of_pairs(pairs@),
{
    let mut m: BTreeMap<String, String> = BTreeMap::new();
    let mut i: usize = 0;
    while i < pairs.len()
        invariant
            0 <= i <= pairs.len(),
            m@ == map_of_pairs(pairs@.subrange(0, i as int)),
        decreases pairs.len() - i,
    {
        assert(pairs@.subrange(0, i + 1).drop_last() =~= pairs@.subrange(0, i as int));
        string_map_insert(&mut m, pairs[i].0.clone(), pairs[i].1.clone());
        i = i + 1;
    }
    assert(pairs@.subrange(0, pairs@.len() as int) =~= pairs@);
    m
}

fn value_binding_exec(props: &Vec<FieldText>) -> (r: Option<SimValueBinding>)
    ensures
        r == value_binding_of(views(props@)),
{
    let k = find_kind(props, PropertyKind::SymbolValue);
    if k < props.len() {
        if str_eq(props[k].value.as_str(), "${SIM.PARAMS}") {
            Some(SimValueBinding::Params)
        } else if str_eq(props[k].value.as_str(), "${SIM.NAME}") {
            Some(SimValueBinding::Name)
        } else {
            None
        }
    } else {
        None
    }
}

fn opt_or(a: Option<String>, b: Option<String>) -> (r: Option<String>)
    ensures
        opt_view(r) == either(opt_view(a), opt_view(b)),
{
    match a {
        Some(x) => Some(x),
        None => b,
    }
}

fn trimmed_is(o: &Option<String>, t: &str) -> (r: bool)
    ensures
        r == (opt_view(*o) matches Some(v) && trim(v) == t@),
{
    match o {
        Some(s) => vec_eq_str(&trimmed_chars(s.as_str()), t),
        None => false,
    }
}

/// A fresh user field: no key, no text, default placement.
pub open spec fn fresh_field() -> FieldView {
    FieldView { id: Some(0), kind: PropertyKind::User, key: Seq::empty(), value: Seq::empty(), origin: None }
}

/// A field made from a template: its id, kind and placement, with a new key and text.
pub open spec fn from_template(t: FieldView, key: Seq<char>, value: Seq<char>) -> FieldView {
    FieldView { id: t.id, kind: t.kind, key, value, origin: t.origin }
}

/// The first template where there is one, else `b`.
pub open spec fn or_field(a: Option<FieldView>, b: FieldView) -> FieldView {
    match a {
        Some(f) => f,
        None => b,
    }
}

/// The view of an optional field.
pub open spec fn opt_field(o: Option<FieldText>) -> Option<FieldView> {
    match o {
        Some(f) => Some(f@),
        None => None,
    }
}

/// Index of the first user field at or after `i` with the given key, or the length.
pub open spec fn user_index(fv: Seq<FieldView>, key: Seq<char>, i: int) -> int
    decreases fv.len() - i,
{
    if 0 <= i < fv.len() && !(crate::model::spec_is_user_field(fv[i].kind) && fv[i].key == key) {
        user_index(fv, key, i + 1)
    } else {
        i
    }
}

/// The first user field with the given key, taken out of the list.
pub open spec fn take_user(fv: Seq<FieldView>, key: Seq<char>) -> (Seq<FieldView>, Option<FieldView>) {
    let k = user_index(fv, key, 0);
    if 0 <= k < fv.len() {
        (fv.remove(k), Some(fv[k]))
    } else {
        (fv, None)
    }
}

/// The first value field gets the text, with the value field's id and key.
pub open spec fn set_value(fv: Seq<FieldView>, text: Seq<char>) -> Seq<FieldView> {
    let k = kind_index(fv, PropertyKind::SymbolValue, 0);
    fv.update(
        k,
        FieldView {
            id: Some(crate::model::spec_default_field_id(PropertyKind::SymbolValue)),
            kind: fv[k].kind,
            key: crate::model::spec_canonical_key(PropertyKind::SymbolValue),
            value: text,
            origin: fv[k].origin,
        },
    )
}

/// One item of a pin map converted from a legacy node sequence: the symbol pin (1 where the
/// token is no number) and the model pin, counted from one.
pub open spec fn pin_map_item(tok: Seq<char>, i: int) -> Seq<char> {
    let pin: int = match crate::text::parse_i32_spec(tok) {
        Some(n) => n as int,
        None => 1,
    };
    crate::text::int_text(pin) + seq!['='] + crate::text::decimal((i + 1) as nat)
}

/// The pin map of a legacy node sequence such as `{2:1}`: its numbers, read between
/// braces, colons, commas, semicolons and white space, each mapped to the next model pin.
pub open spec fn legacy_pin_map(value: Seq<char>) -> Seq<char> {
    let toks = crate::text::tokens(value, 3);
    crate::text::join_with(Seq::new(toks.len(), |i: int| pin_map_item(toks[i], i)), " "@)
}

/// The pin map that assigns the symbol's pins to model pins 1, 2, … in order.
pub open spec fn default_pin_map(pins: Seq<Seq<char>>) -> Seq<char> {
    crate::text::join_with(
        Seq::new(pins.len(), |i: int| pins[i] + seq!['='] + crate::text::decimal((i + 1) as nat)),
        " "@,
    )
}

/// A legacy node-sequence field turned into a `Sim.Pins` field.
pub open spec fn pin_map_field(n: FieldView) -> FieldView {
    from_template(n, "Sim.Pins"@, legacy_pin_map(n.value))
}

/// A key of the fields that older versions wrote for simulation.
pub open spec fn legacy_key(k: Seq<char>) -> bool {
    ||| k == "Spice_Primitive"@
    ||| k == "Spice_Node_Sequence"@
    ||| k == "Spice_Model"@
    ||| k == "Spice_Netlist_Enabled"@
    ||| k == "Spice_Lib_File"@
}

/// Some field has a legacy simulation key.
pub open spec fn has_legacy_fields(fv: Seq<FieldView>) -> bool {
    exists|i: int| 0 <= i < fv.len() && legacy_key(#[trigger] fv[i].key)
}

/// Some field, of any kind, has the key.
pub open spec fn has_key(fv: Seq<FieldView>, key: Seq<char>) -> bool {
    key_index(fv, key, 0) < fv.len()
}

/// Some user field has the key.
pub open spec fn has_user_key(fv: Seq<FieldView>, key: Seq<char>) -> bool {
    user_index(fv, key, 0) < fv.len()
}

/// The text of the first user field with the key.
pub open spec fn user_text(fv: Seq<FieldView>, key: Seq<char>) -> Option<Seq<char>> {
    let k = user_index(fv, key, 0);
    if 0 <= k < fv.len() {
        Some(fv[k].value)
    } else {
        None
    }
}

/// A text option, trimmed.
pub open spec fn trim_opt(o: Option<Seq<char>>) -> Option<Seq<char>> {
    match o {
        Some(t) => Some(trim(t)),
        None => None,
    }
}

/// The trimmed text of the first value field, or nothing.
pub open spec fn value_text(fv: Seq<FieldView>) -> Seq<char> {
    let k = kind_index(fv, PropertyKind::SymbolValue, 0);
    if 0 <= k < fv.len() {
        trim(fv[k].value)
    } else {
        Seq::empty()
    }
}

/// The first value field.
pub open spec fn value_template(fv: Seq<FieldView>) -> Option<FieldView> {
    let k = kind_index(fv, PropertyKind::SymbolValue, 0);
    if 0 <= k < fv.len() {
        Some(fv[k])
    } else {
        None
    }
}

/// The legacy device letter (`Spice_Primitive`), trimmed.
pub open spec fn legacy_device(fv: Seq<FieldView>) -> Seq<char> {
    text_or_empty(trim_opt(user_text(fv, "Spice_Primitive"@)))
}

/// The legacy model text: the trimmed `Spice_Model` field where it is not empty, else
/// the trimmed value.
pub open spec fn legacy_model(fv: Seq<FieldView>) -> Seq<char> {
    match nonblank(trim_opt(user_text(fv, "Spice_Model"@))) {
        Some(m) => m,
        None => value_text(fv),
    }
}

/// `p` is a prefix of `s`.
pub open spec fn starts_with(s: Seq<char>, p: Seq<char>) -> bool {
    p.len() <= s.len() && s.subrange(0, p.len() as int) == p
}

/// A passive or source whose value alone says what it simulates: its legacy device is
/// one of R, L, C, V, I, begins the reference prefix, and no model or library is named.
pub open spec fn can_infer(fv: Seq<FieldView>, prefix: Seq<char>) -> bool {
    let d = legacy_device(fv);
    &&& d.len() > 0
    &&& !has_key(fv, "Spice_Model"@)
    &&& !has_key(fv, "Spice_Lib_File"@)
    &&& (d == "R"@ || d == "L"@ || d == "C"@ || d == "V"@ || d == "I"@)
    &&& starts_with(prefix, d)
}

/// A voltage or current source device.
pub open spec fn is_source_device(d: Seq<char>) -> bool {
    d == "V"@ || d == "I"@
}

/// A source without library whose model is a `dc <value>` text.
pub open spec fn dc_applies(fv: Seq<FieldView>) -> bool {
    !has_user_key(fv, "Spice_Lib_File"@) && is_source_device(legacy_device(fv))
        && legacy_dc_value(legacy_model(fv)) is Some
}

/// A source without library whose model is a waveform such as `sin(0 1 1k)`.
pub open spec fn source_applies(fv: Seq<FieldView>) -> bool {
    !has_user_key(fv, "Spice_Lib_File"@) && is_source_device(legacy_device(fv))
        && legacy_source_model(legacy_model(fv)) is Some
}

/// Some model or library is named, or the value can stand for the model.
pub open spec fn raw_applies(fv: Seq<FieldView>) -> bool {
    has_key(fv, "Spice_Model"@) || has_key(fv, "Spice_Lib_File"@) || legacy_model(fv).len() > 0
}

/// The fields left once the legacy user fields are taken out, and those taken.
pub struct LegacyTaken {
    pub rest: Seq<FieldView>,
    pub prim: Option<FieldView>,
    pub node: Option<FieldView>,
    pub model: Option<FieldView>,
    pub lib: Option<FieldView>,
}

/// Takes out the first user field of each legacy key, in the order primitive, node
/// sequence, model, netlist switch, library.
pub open spec fn take_legacy(fv: Seq<FieldView>) -> LegacyTaken {
    let a = take_user(fv, "Spice_Primitive"@);
    let b = take_user(a.0, "Spice_Node_Sequence"@);
    let c = take_user(b.0, "Spice_Model"@);
    let d = take_user(c.0, "Spice_Netlist_Enabled"@);
    let e = take_user(d.0, "Spice_Lib_File"@);
    LegacyTaken { rest: e.0, prim: a.1, node: b.1, model: c.1, lib: e.1 }
}

/// The text that the source branches read their model from: the taken model field's own
/// text, else the trimmed value.
pub open spec fn legacy_model_arg(fv: Seq<FieldView>) -> Seq<char> {
    match take_legacy(fv).model {
        Some(m) => m.value,
        None => value_text(fv),
    }
}

/// No model field was taken and the value is not empty: the value stood for the model.
pub open spec fn model_from_value(fv: Seq<FieldView>) -> bool {
    take_legacy(fv).model is None && value_text(fv).len() > 0
}

/// The fields of an inferred passive or source: the legacy fields but the model taken
/// out, and the node sequence turned into a pin map.
pub open spec fn infer_fields(fv: Seq<FieldView>) -> Seq<FieldView> {
    let a = take_user(fv, "Spice_Primitive"@);
    let b = take_user(a.0, "Spice_Node_Sequence"@);
    let c = take_user(b.0, "Spice_Netlist_Enabled"@);
    let d = take_user(c.0, "Spice_Lib_File"@);
    match b.1 {
        Some(n) => d.0.push(pin_map_field(n)),
        None => d.0,
    }
}

/// The pin map after the new fields: from the node sequence where there was one, else
/// the symbol's pins in order where it has any.
pub open spec fn pins_after(s: Seq<FieldView>, node: Option<FieldView>, tmpl: FieldView, pins: Seq<Seq<char>>) -> Seq<FieldView> {
    match node {
        Some(n) => s.push(pin_map_field(n)),
        None => if pins.len() > 0 {
            s.push(from_template(tmpl, "Sim.Pins"@, default_pin_map(pins)))
        } else {
            s
        },
    }
}

/// The fields of a DC source: the value becomes the DC value, and the device and type
/// `DC` fields are added.
pub open spec fn dc_fields(fv: Seq<FieldView>, pins: Seq<Seq<char>>) -> Seq<FieldView> {
    let t = take_legacy(fv);
    let tmpl = or_field(t.model, fresh_field());
    let s = set_value(t.rest, legacy_dc_value(legacy_model_arg(fv))->0).push(
        from_template(tmpl, "Sim.Device"@, legacy_device(fv)),
    ).push(from_template(tmpl, "Sim.Type"@, "DC"@));
    pins_after(s, t.node, tmpl, pins)
}

/// The parameters written as `name=value` items joined by spaces.
pub open spec fn params_text(ps: Seq<(Seq<char>, Seq<char>)>) -> Seq<char> {
    crate::text::join_with(Seq::new(ps.len(), |i: int| param_pair_text(ps[i].0, ps[i].1)), " "@)
}

/// The fields of a waveform source: device, type and parameters are added, and a value
/// that stood for the model refers to the parameters.
pub open spec fn source_fields(fv: Seq<FieldView>, pins: Seq<Seq<char>>) -> Seq<FieldView> {
    let t = take_legacy(fv);
    let sm = legacy_source_model(legacy_model_arg(fv))->0;
    let dt = or_field(t.prim, or_field(t.model, fresh_field()));
    let pt = or_field(t.model, or_field(t.prim, fresh_field()));
    let s = t.rest.push(from_template(dt, "Sim.Device"@, legacy_device(fv))).push(
        from_template(dt, "Sim.Type"@, sm.0),
    ).push(from_template(pt, "Sim.Params"@, params_text(sm.1)));
    let s2 = pins_after(s, t.node, or_field(t.model, fresh_field()), pins);
    if model_from_value(fv) {
        set_value(s2, "${SIM.PARAMS}"@)
    } else {
        s2
    }
}

/// The text before the first space, or the whole text.
pub open spec fn first_word(r: Seq<char>) -> Seq<char> {
    let k = crate::text::index_of_from(r, ' ', 0);
    if k < r.len() {
        r.subrange(0, k)
    } else {
        r
    }
}

/// The trimmed text after the first space, where there is a non-empty one.
pub open spec fn after_first_word(r: Seq<char>) -> Option<Seq<char>> {
    let k = crate::text::index_of_from(r, ' ', 0);
    if k < r.len() {
        nonblank(Some(trim(r.subrange(k + 1, r.len() as int))))
    } else {
        None
    }
}

/// The raw model line: the trimmed taken model field where it is not empty, else the
/// trimmed value.
pub open spec fn raw_model(fv: Seq<FieldView>) -> Seq<char> {
    match take_legacy(fv).model {
        Some(m) => if trim(m.value).len() > 0 {
            trim(m.value)
        } else {
            value_text(fv)
        },
        None => value_text(fv),
    }
}

/// The model name: with a library, the first word of the model line.
pub open spec fn raw_model_name(fv: Seq<FieldView>) -> Seq<char> {
    if take_legacy(fv).lib is Some {
        first_word(raw_model(fv))
    } else {
        raw_model(fv)
    }
}

/// The trimmed library path.
pub open spec fn raw_lib(fv: Seq<FieldView>) -> Seq<char> {
    match take_legacy(fv).lib {
        Some(l) => trim(l.value),
        None => Seq::empty(),
    }
}

/// With a library, the parameters after the model name on the model line.
pub open spec fn raw_model_params(fv: Seq<FieldView>) -> Option<Seq<char>> {
    if take_legacy(fv).lib is Some {
        after_first_word(raw_model(fv))
    } else {
        None
    }
}

/// A library and a model name are both given.
pub open spec fn library_reference_applies(fv: Seq<FieldView>) -> bool {
    raw_lib(fv).len() > 0 && raw_model_name(fv).len() > 0
}

/// The library, name and (where given) parameter fields of a library reference, made
/// from the taken primitive, model and library fields and the value field.
pub open spec fn library_fields_of(
    prim: Option<FieldView>,
    model: Option<FieldView>,
    lib_f: Option<FieldView>,
    vt: Option<FieldView>,
    lib: Seq<char>,
    name: Seq<char>,
    params: Option<Seq<char>>,
) -> Seq<FieldView> {
    let base = or_field(prim, or_field(model, or_field(lib_f, or_field(vt, fresh_field()))));
    let name_t = or_field(model, or_field(vt, or_field(lib_f, base)));
    let lib_t = or_field(lib_f, base);
    let params_t = or_field(model, or_field(vt, or_field(prim, base)));
    let s = seq![from_template(lib_t, "Sim.Library"@, lib), from_template(name_t, "Sim.Name"@, name)];
    match params {
        Some(p) => s.push(from_template(params_t, "Sim.Params"@, p)),
        None => s,
    }
}

/// The library, name and (where given) parameter fields of a library reference.
pub open spec fn library_fields(fv: Seq<FieldView>) -> Seq<FieldView> {
    let t = take_legacy(fv);
    library_fields_of(t.prim, t.model, t.lib, value_template(fv), raw_lib(fv), raw_model_name(fv), raw_model_params(fv))
}

/// The fields of the model that is tried against the library before it is kept.
pub open spec fn library_candidate_fields(fv: Seq<FieldView>) -> Seq<FieldView> {
    take_legacy(fv).rest + library_fields(fv)
}

/// The fields of a library reference that resolved: the library fields, the pin map of
/// the node sequence, and a value that stood for the model refers to the model name.
pub open spec fn library_result(fv: Seq<FieldView>) -> Seq<FieldView> {
    let s = library_candidate_fields(fv);
    let s2 = match take_legacy(fv).node {
        Some(n) => s.push(pin_map_field(n)),
        None => s,
    };
    if model_from_value(fv) {
        set_value(s2, "${SIM.NAME}"@)
    } else {
        s2
    }
}

/// The `Sim.Params` text of a raw SPICE model: the model alone, or the quoted device,
/// model and library.
pub open spec fn spice_params(device: Seq<char>, model: Seq<char>, lib: Seq<char>) -> Seq<char> {
    if device.len() == 0 && lib.len() == 0 {
        model
    } else {
        "type=\""@ + device + "\" model=\""@ + escape_quotes(model) + "\" lib=\""@ + lib + "\""@
    }
}

/// The fields of a raw SPICE model: device `SPICE`, the parameters, the pin map, and a
/// value that stood for the model refers to the parameters.
pub open spec fn spice_result(fv: Seq<FieldView>, pins: Seq<Seq<char>>) -> Seq<FieldView> {
    let t = take_legacy(fv);
    let dt = or_field(t.prim, or_field(t.model, or_field(t.lib, fresh_field())));
    let pt = or_field(t.model, or_field(t.prim, or_field(t.lib, fresh_field())));
    let device = match t.prim {
        Some(p) => trim(p.value),
        None => Seq::empty(),
    };
    let pin_map: Option<FieldView> = match t.node {
        Some(n) => Some(pin_map_field(n)),
        None => if pins.len() > 0 && t.lib is None {
            Some(from_template(dt, "Sim.Pins"@, default_pin_map(pins)))
        } else {
            None
        },
    };
    let s = t.rest.push(from_template(dt, "Sim.Device"@, "SPICE"@)).push(
        from_template(pt, "Sim.Params"@, spice_params(device, raw_model_name(fv), raw_lib(fv))),
    );
    let s2 = match pin_map {
        Some(p) => s.push(p),
        None => s,
    };
    if model_from_value(fv) {
        set_value(s2, "${SIM.PARAMS}"@)
    } else {
        s2
    }
}

/// The fields after the legacy fields are upgraded, and whether anything changed; where
/// a library reference is tried, `resolves` tells whether its model was found.
pub open spec fn legacy_migration(fv: Seq<FieldView>, prefix: Seq<char>, pins: Seq<Seq<char>>, resolves: bool) -> (Seq<FieldView>, bool) {
    if can_infer(fv, prefix) {
        (infer_fields(fv), true)
    } else if dc_applies(fv) {
        (dc_fields(fv, pins), true)
    } else if source_applies(fv) {
        (source_fields(fv, pins), true)
    } else if !raw_applies(fv) {
        (fv, false)
    } else if library_reference_applies(fv) && resolves {
        (library_result(fv), true)
    } else {
        (spice_result(fv, pins), true)
    }
}

/// The upgrade reads its model text without fault: a DC source has a value field and its
/// model text is a DC value, and a waveform source's model text is a waveform.
pub open spec fn legacy_migration_safe(fv: Seq<FieldView>, prefix: Seq<char>) -> bool {
    can_infer(fv, prefix) || {
        &&& dc_applies(fv) ==> legacy_dc_value(legacy_model_arg(fv)) is Some && kind_index(
            fv,
            PropertyKind::SymbolValue,
            0,
        ) < fv.len()
        &&& !dc_applies(fv) && source_applies(fv) ==> legacy_source_model(legacy_model_arg(fv)) is Some
    }
}

// The Unicode upper-case mapping that `str::to_uppercase` applies to a text.
pub uninterp spec fn uppercase_of(s: Seq<char>) -> Seq<char>;

// The Unicode lower-case mapping that `str::to_lowercase` applies to a text.
pub uninterp spec fn lowercase_of(s: Seq<char>) -> Seq<char>;

/// `str::to_uppercase`. Its result is the text's Unicode upper-case mapping, a function
/// of the text alone, named `uppercase_of`; nothing more of it is stated.
#[verifier::external_body]
fn to_uppercase_text(s: &str) -> (r: String)
    ensures
        r@ == uppercase_of(s@),
{
    s.to_uppercase()
}

/// `str::to_lowercase`. Its result is the text's Unicode lower-case mapping, a function
/// of the text alone, named `lowercase_of`; nothing more of it is stated.
#[verifier::external_body]
fn to_lowercase_text(s: &str) -> (r: String)
    ensures
        r@ == lowercase_of(s@),
{
    s.to_lowercase()
}

/// The dotted key that an underscored simulation key of an older version became.
pub open spec fn renamed_key(k: Seq<char>) -> Option<Seq<char>> {
    if k == "Sim_Type"@ {
        Some("Sim.Type"@)
    } else if k == "Sim_Device"@ {
        Some("Sim.Device"@)
    } else if k == "Sim_Pins"@ {
        Some("Sim.Pins"@)
    } else if k == "Sim_Params"@ {
        Some("Sim.Params"@)
    } else {
        None
    }
}

/// A field with a new text.
pub open spec fn with_value(f: FieldView, v: Seq<char>) -> FieldView {
    FieldView { id: f.id, kind: f.kind, key: f.key, value: v, origin: f.origin }
}

/// A field after its key is renamed; a pin field of a symbol with pins gets its legacy
/// pin indexes rewritten.
pub open spec fn rename_field(f: FieldView, prefix: Seq<char>, pins: Seq<Seq<char>>) -> FieldView {
    match renamed_key(f.key) {
        Some(k) => if f.key == "Sim_Pins"@ && pins.len() > 0 {
            FieldView {
                id: f.id,
                kind: f.kind,
                key: k,
                value: crate::loader::migrated_pins(prefix, pins, crate::text::tokens(f.value, 0)),
                origin: f.origin,
            }
        } else {
            FieldView { id: f.id, kind: f.kind, key: k, value: f.value, origin: f.origin }
        },
        None => f,
    }
}

/// Every field with its key renamed.
pub open spec fn renamed_fields(fv: Seq<FieldView>, prefix: Seq<char>, pins: Seq<Seq<char>>) -> Seq<FieldView> {
    Seq::new(fv.len(), |i: int| rename_field(fv[i], prefix, pins))
}

/// Some field has an underscored simulation key.
pub open spec fn any_renamed(fv: Seq<FieldView>) -> bool {
    exists|i: int| 0 <= i < fv.len() && (#[trigger] renamed_key(fv[i].key)) is Some
}

/// The upper-cased model type of the first `Sim.Type` field.
pub open spec fn subtype_of(fv: Seq<FieldView>) -> Option<Seq<char>> {
    let k = key_index(fv, "Sim.Type"@, 0);
    if 0 <= k < fv.len() {
        Some(uppercase_of(fv[k].value))
    } else {
        None
    }
}

/// Potentiometer pins `+`/`-` renamed to `r1`/`r0`.
pub open spec fn pot_pins(v: Seq<char>) -> Seq<char> {
    crate::text::replace_all(crate::text::replace_all(v, "=+"@, "=r1"@), "=-"@, "=r0"@)
}

/// The random-source type with `NORMAL` renamed to `GAUSSIAN`.
pub open spec fn rand_type(upper: Seq<char>) -> Seq<char> {
    crate::text::replace_all(upper, "NORMAL"@, "GAUSSIAN"@)
}

/// Random-source parameters without zero bounds, and `dt` renamed to `ts`.
pub open spec fn rand_params(lower: Seq<char>) -> Seq<char> {
    crate::text::replace_all(
        crate::text::replace_all(crate::text::replace_all(lower, "min=0 "@, ""@), "max=0 "@, ""@),
        "dt="@,
        "ts="@,
    )
}

/// Sets the text of the first field with the key where that changes it.
pub open spec fn update_keyed(fv: Seq<FieldView>, key: Seq<char>, new_value: spec_fn(Seq<char>) -> Seq<char>) -> (Seq<FieldView>, bool) {
    let j = key_index(fv, key, 0);
    if 0 <= j < fv.len() && new_value(fv[j].value) != fv[j].value {
        (fv.update(j, with_value(fv[j], new_value(fv[j].value))), true)
    } else {
        (fv, false)
    }
}

/// A potentiometer's pins renamed.
pub open spec fn pot_step(fv: Seq<FieldView>) -> (Seq<FieldView>, bool) {
    update_keyed(fv, "Sim.Pins"@, |v: Seq<char>| pot_pins(v))
}

/// A random source's type and parameters renamed.
pub open spec fn rand_step(fv: Seq<FieldView>) -> (Seq<FieldView>, bool) {
    let a = update_keyed(fv, "Sim.Type"@, |v: Seq<char>| rand_type(uppercase_of(v)));
    let b = update_keyed(a.0, "Sim.Params"@, |v: Seq<char>| rand_params(lowercase_of(v)));
    (b.0, a.1 || b.1)
}

/// A mutual inductance: the type field dropped and the device set to `K`.
pub open spec fn mutual_step(fv: Seq<FieldView>) -> Seq<FieldView> {
    let s = fv.remove(key_index(fv, "Sim.Type"@, 0));
    let j = key_index(s, "Sim.Device"@, 0);
    if 0 <= j < s.len() {
        if s[j].value != "K"@ {
            s.update(j, with_value(s[j], "K"@))
        } else {
            s
        }
    } else {
        s.push(from_template(fresh_field(), "Sim.Device"@, "K"@))
    }
}

/// The upgrade of fields that already use the `Sim.*` scheme: renamed keys, and the
/// potentiometer, random-source and mutual-inductance conventions of later versions.
pub open spec fn current_migration(fv: Seq<FieldView>, prefix: Seq<char>, pins: Seq<Seq<char>>) -> (Seq<FieldView>, bool) {
    let r = renamed_fields(fv, prefix, pins);
    let m = any_renamed(fv);
    match subtype_of(r) {
        Some(st) => if st == "POT"@ {
            (pot_step(r).0, m || pot_step(r).1)
        } else if starts_with(st, "RAND"@) {
            (rand_step(r).0, m || rand_step(r).1)
        } else if st == "MUTUAL"@ {
            (mutual_step(r), true)
        } else {
            (r, m)
        },
        None => (r, m),
    }
}

/// The fields after the simulation fields are upgraded, and whether anything changed.
pub open spec fn sim_field_migration(fv: Seq<FieldView>, prefix: Seq<char>, pins: Seq<Seq<char>>, resolves: bool) -> (Seq<FieldView>, bool) {
    if has_legacy_fields(fv) {
        legacy_migration(fv, prefix, pins, resolves)
    } else {
        current_migration(fv, prefix, pins)
    }
}

/// A symbol's simulation state agrees with its fields: no model where no field describes
/// one, else the model they describe.
pub open spec fn model_synced(sym: SimSymbol) -> bool {
    let fv = views(sym.properties@);
    &&& no_sim_fields(fv) ==> sym.sim_model is None
    &&& !no_sim_fields(fv) ==> (sym.sim_model matches Some(m) && model_from_fields(m, fv, sym.excluded_from_sim))
}

/// The trimmed text of the first field with the key, or nothing.
pub open spec fn keyed_trim(fv: Seq<FieldView>, key: Seq<char>) -> Seq<char> {
    text_or_empty(trim_opt(keyed(fv, key)))
}

/// The text holds an operator, a bracket or a letter that is no multiplier.
pub open spec fn is_behavioral(v: Seq<char>) -> bool {
    exists|i: int| 0 <= i < v.len() && crate::loader::is_behavioral_char(#[trigger] v[i])
}

/// `=` for a behavioral value, else nothing.
pub open spec fn behavioral_type(v: Seq<char>) -> Seq<char> {
    if is_behavioral(v) {
        "="@
    } else {
        Seq::empty()
    }
}

/// The parameter of a passive: its lower-case device letter bound to the quoted value,
/// SI-normalized where possible.
pub open spec fn passive_params(dev: Seq<char>, value: Seq<char>) -> Seq<char> {
    dev.map_values(|c: char| crate::text::lower_ascii(c)) + "=\""@ + crate::loader::si_or_raw(value) + "\""@
}

/// The parameter of a source: `dc` or `ac` bound to the quoted value.
pub open spec fn source_params(value: Seq<char>) -> Seq<char> {
    crate::loader::split_source_value(value).0 + "=\""@ + crate::loader::split_source_value(value).1 + "\""@
}

/// The device, model type and parameters that a symbol's value stands for, where no
/// library or model name is given: a passive (by its device, else by the first letter of
/// its reference prefix) gets its value as parameter, a source (likewise) a DC value.
pub open spec fn inferred_plan(fv: Seq<FieldView>, prefix: Seq<char>) -> Option<(Seq<char>, Seq<char>, Seq<char>)> {
    let value = value_text(fv);
    let dev = keyed_trim(fv, "Sim.Device"@);
    let ty = keyed_trim(fv, "Sim.Type"@);
    let params = keyed_trim(fv, "Sim.Params"@);
    let p = trim(prefix);
    if value.len() == 0 || keyed_trim(fv, "Sim.Library"@).len() > 0 || keyed_trim(fv, "Sim.Name"@).len() > 0 {
        None
    } else if (dev == "R"@ || dev == "L"@ || dev == "C"@) && ty.len() == 0 {
        if params.len() == 0 {
            Some((dev, behavioral_type(value), passive_params(dev, value)))
        } else {
            Some((dev, ty, params))
        }
    } else if dev.len() == 0 && ty.len() == 0 && p.len() > 0 && (p[0] == 'R' || p[0] == 'L' || p[0] == 'C') {
        Some((seq![p[0]], behavioral_type(value), passive_params(seq![p[0]], value)))
    } else if (dev == "V"@ || dev == "I"@) && (ty.len() == 0 || ty == "DC"@) {
        if params.len() == 0 {
            Some((dev, "DC"@, source_params(value)))
        } else {
            Some((dev, ty, params))
        }
    } else if dev.len() == 0 && ty.len() == 0 && p.len() > 0 && (p[0] == 'V' || p[0] == 'I') {
        Some((seq![p[0]], "DC"@, source_params(value)))
    } else {
        None
    }
}

/// A field key of the simulation model: it starts with `Sim.`.
pub open spec fn sim_key(k: Seq<char>) -> bool {
    k.len() >= 4 && k.subrange(0, 4) == "Sim."@
}

proof fn lemma_key_absent(fv: Seq<FieldView>, key: Seq<char>, i: int)
    requires
        0 <= i <= fv.len(),
        forall|j: int| 0 <= j < fv.len() ==> (#[trigger] fv[j]).key != key,
    ensures
        key_index(fv, key, i) == fv.len(),
    decreases fv.len() - i,
{
    if i < fv.len() {
        lemma_key_absent(fv, key, i + 1);
    }
}

proof fn lemma_sim_field_absent(fv: Seq<FieldView>, key: Seq<char>)
    requires
        forall|j: int| 0 <= j < fv.len() ==> !sim_key(#[trigger] fv[j].key),
        sim_key(key),
    ensures
        keyed_trim(fv, key) == Seq::<char>::empty(),
{
    assert forall|j: int| 0 <= j < fv.len() implies (#[trigger] fv[j]).key != key by {
        assert(!sim_key(fv[j].key));
    }
    lemma_key_absent(fv, key, 0);
}

proof fn lemma_trim_end_keeps_head(s: Seq<char>)
    requires
        s.len() > 0,
        !crate::text::is_ws(s[0]),
    ensures
        crate::text::trim_end(s).len() > 0,
        crate::text::trim_end(s)[0] == s[0],
    decreases s.len(),
{
    if crate::text::is_ws(s.last()) {
        assert(s.len() > 1);
        lemma_trim_end_keeps_head(s.drop_last());
    }
}

proof fn lemma_trim_keeps_head(s: Seq<char>)
    requires
        s.len() > 0,
        !crate::text::is_ws(s[0]),
    ensures
        trim(s).len() > 0,
        trim(s)[0] == s[0],
{
    assert(crate::text::trim_start(s) == s);
    lemma_trim_end_keeps_head(s);
}

proof fn lemma_no_sim_fields(fv: Seq<FieldView>)
    requires
        forall|j: int| 0 <= j < fv.len() ==> !sim_key(#[trigger] fv[j].key),
    ensures
        keyed_trim(fv, "Sim.Device"@) == Seq::<char>::empty(),
        keyed_trim(fv, "Sim.Type"@) == Seq::<char>::empty(),
        keyed_trim(fv, "Sim.Params"@) == Seq::<char>::empty(),
        keyed_trim(fv, "Sim.Library"@) == Seq::<char>::empty(),
        keyed_trim(fv, "Sim.Name"@) == Seq::<char>::empty(),
{
    reveal_strlit("Sim.");
    reveal_strlit("Sim.Device");
    reveal_strlit("Sim.Type");
    reveal_strlit("Sim.Params");
    reveal_strlit("Sim.Library");
    reveal_strlit("Sim.Name");
    assert(sim_key("Sim.Device"@)) by {
        assert("Sim.Device"@.subrange(0, 4) =~= "Sim."@);
    }
    assert(sim_key("Sim.Type"@)) by {
        assert("Sim.Type"@.subrange(0, 4) =~= "Sim."@);
    }
    assert(sim_key("Sim.Params"@)) by {
        assert("Sim.Params"@.subrange(0, 4) =~= "Sim."@);
    }
    assert(sim_key("Sim.Library"@)) by {
        assert("Sim.Library"@.subrange(0, 4) =~= "Sim."@);
    }
    assert(sim_key("Sim.Name"@)) by {
        assert("Sim.Name"@.subrange(0, 4) =~= "Sim."@);
    }
    lemma_sim_field_absent(fv, "Sim.Device"@);
    lemma_sim_field_absent(fv, "Sim.Type"@);
    lemma_sim_field_absent(fv, "Sim.Params"@);
    lemma_sim_field_absent(fv, "Sim.Library"@);
    lemma_sim_field_absent(fv, "Sim.Name"@);
}

/// A symbol with a value and no simulation fields whose reference prefix starts with `R`,
/// `L` or `C` gets a passive model inferred from its value, with that letter as its
/// device; one whose prefix starts with `V` or `I` gets a DC source of that letter.
pub proof fn law_model_inferred_from_reference(fv: Seq<FieldView>, prefix: Seq<char>)
    requires
        value_text(fv).len() > 0,
        forall|j: int| 0 <= j < fv.len() ==> !sim_key(#[trigger] fv[j].key),
        prefix.len() > 0,
    ensures
        (prefix[0] == 'R' || prefix[0] == 'L' || prefix[0] == 'C') ==> (inferred_plan(fv, prefix) matches Some(p)
            && p.0 == seq![prefix[0]]),
        (prefix[0] == 'V' || prefix[0] == 'I') ==> (inferred_plan(fv, prefix) matches Some(p) && p.0 == seq![prefix[0]]
            && p.1 == "DC"@),
{
    lemma_no_sim_fields(fv);
    reveal_strlit("R");
    reveal_strlit("L");
    reveal_strlit("C");
    reveal_strlit("V");
    reveal_strlit("I");
    reveal_strlit("DC");
    if prefix[0] == 'R' || prefix[0] == 'L' || prefix[0] == 'C' || prefix[0] == 'V' || prefix[0] == 'I' {
        lemma_trim_keeps_head(prefix);
    }
}

proof fn lemma_keyed_absent(fv: Seq<FieldView>, key: Seq<char>)
    requires
        forall|j: int| 0 <= j < fv.len() ==> !sim_key(#[trigger] fv[j].key),
        key.len() >= 4 && key.subrange(0, 4) == "Sim."@,
    ensures
        keyed(fv, key) is None,
{
    assert forall|j: int| 0 <= j < fv.len() implies (#[trigger] fv[j]).key != key by {
        assert(!sim_key(fv[j].key));
    }
    lemma_key_absent(fv, key, 0);
}

proof fn lemma_key_present(fv: Seq<FieldView>, key: Seq<char>, i: int, j: int)
    requires
        0 <= i <= j < fv.len(),
        fv[j].key == key,
    ensures
        i <= key_index(fv, key, i) <= j,
        fv[key_index(fv, key, i)].key == key,
    decreases j - i,
{
    if fv[i].key != key {
        lemma_key_present(fv, key, i + 1, j);
    }
}

/// A symbol gets a simulation model from its fields only through fields of the model:
/// with no field keyed `Sim.…` there is none; with a `Sim.Device` field there is one, of
/// the first such field's device.
pub proof fn law_sim_model_needs_sim_fields(fv: Seq<FieldView>)
    ensures
        (forall|j: int| 0 <= j < fv.len() ==> !sim_key(#[trigger] fv[j].key)) ==> no_sim_fields(fv),
        (exists|j: int| 0 <= j < fv.len() && (#[trigger] fv[j]).key == "Sim.Device"@) ==> !no_sim_fields(fv),
{
    if forall|j: int| 0 <= j < fv.len() ==> !sim_key(#[trigger] fv[j].key) {
        reveal_strlit("Sim.");
        reveal_strlit("Sim.Device");
        reveal_strlit("Sim.Type");
        reveal_strlit("Sim.Library");
        reveal_strlit("Sim.Name");
        reveal_strlit("Sim.Ibis.Pin");
        reveal_strlit("Sim.Ibis.Model");
        reveal_strlit("Sim.Ibis.Diff");
        reveal_strlit("Sim.Params");
        reveal_strlit("Sim.Pins");
        assert("Sim.Device"@.subrange(0, 4) =~= "Sim."@);
        assert("Sim.Type"@.subrange(0, 4) =~= "Sim."@);
        assert("Sim.Library"@.subrange(0, 4) =~= "Sim."@);
        assert("Sim.Name"@.subrange(0, 4) =~= "Sim."@);
        assert("Sim.Ibis.Pin"@.subrange(0, 4) =~= "Sim."@);
        assert("Sim.Ibis.Model"@.subrange(0, 4) =~= "Sim."@);
        assert("Sim.Ibis.Diff"@.subrange(0, 4) =~= "Sim."@);
        assert("Sim.Params"@.subrange(0, 4) =~= "Sim."@);
        assert("Sim.Pins"@.subrange(0, 4) =~= "Sim."@);
        lemma_keyed_absent(fv, "Sim.Device"@);
        lemma_keyed_absent(fv, "Sim.Type"@);
        lemma_keyed_absent(fv, "Sim.Library"@);
        lemma_keyed_absent(fv, "Sim.Name"@);
        lemma_keyed_absent(fv, "Sim.Ibis.Pin"@);
        lemma_keyed_absent(fv, "Sim.Ibis.Model"@);
        lemma_keyed_absent(fv, "Sim.Ibis.Diff"@);
        lemma_keyed_absent(fv, "Sim.Params"@);
        lemma_keyed_absent(fv, "Sim.Pins"@);
    }
    if exists|j: int| 0 <= j < fv.len() && (#[trigger] fv[j]).key == "Sim.Device"@ {
        let j = choose|j: int| 0 <= j < fv.len() && (#[trigger] fv[j]).key == "Sim.Device"@;
        lemma_key_present(fv, "Sim.Device"@, 0, j);
    }
}

/// `m` is the model inferred from the value by the plan: the pins of the `Sim.Pins` field,
/// else the two symbol pins as `+` and `-`.
pub open spec fn inferred_model(m: SimModel, plan: (Seq<char>, Seq<char>, Seq<char>), fv: Seq<FieldView>, pins: Seq<Seq<char>>, excluded: bool) -> bool {
    &&& opt_view(m.device) == nonblank(Some(plan.0))
    &&& opt_view(m.model_type) == nonblank(Some(plan.1))
    &&& m.library is None
    &&& m.name is None
    &&& m.ibis_pin is None
    &&& m.ibis_model is None
    &&& !m.ibis_diff
    &&& opt_view(m.params) == nonblank(Some(plan.2))
    &&& m.param_pairs.deep_view() == param_pairs_from(plan.2, 0, Seq::empty())
    &&& m.param_values@ == map_of_pairs(m.param_pairs@)
    &&& m.pin_pairs.deep_view() == match keyed(fv, "Sim.Pins"@) {
        Some(p) => crate::loader::loader_pin_pairs(crate::text::tokens(p, 0)),
        None => seq![(pins[0], "+"@), (pins[1], "-"@)],
    }
    &&& m.pins@ == map_of_pairs(m.pin_pairs@)
    &&& m.value_binding == Some(SimValueBinding::Value)
    &&& opt_view(m.stored_value) == Some(value_text(fv))
    &&& m.enabled == !excluded
    &&& m.origin == Some(SimModelOrigin::InferredValue)
    &&& m.resolved_library is None
    &&& m.resolved_name is None
    &&& m.resolved_kind is None
    &&& m.resolved_model_type is None
    &&& m.resolved_ibis_model_type is None
    &&& m.resolved_ibis_diff_pin is None
    &&& m.generated_pin_names@.len() == 0
    &&& m.generated_param_pairs@.len() == 0
}

/// The trimmed value where it is neither empty nor a reference to the parameters or the
/// model name: the value that a model takes its main parameter from.
pub open spec fn backing_value(fv: Seq<FieldView>) -> Option<Seq<char>> {
    let v = value_text(fv);
    if v.len() > 0 && v != "${SIM.PARAMS}"@ && v != "${SIM.NAME}"@ {
        Some(v)
    } else {
        None
    }
}

/// The parameter named by the reference prefix: its first letter in lower case.
pub open spec fn prefix_param(prefix: Seq<char>) -> Seq<char> {
    if prefix.len() > 0 {
        seq![crate::text::lower_ascii(prefix[0])]
    } else {
        Seq::empty()
    }
}

/// The main parameter that a model takes from the value, with the model type it gets
/// (`None`: unchanged): a two-pin passive its prefix letter (type `=` for a behavioral
/// value), a two-pin DC source `dc` or `ac` (type `DC` where it had none), a controlled
/// source its `gain`, a two-pin waveform source its first waveform parameter; none where
/// the value is already bound or cannot be read.
pub open spec fn primary_update(m: SimModel, value: Seq<char>, prefix: Seq<char>, npins: nat) -> Option<(Seq<char>, Seq<char>, Option<Seq<char>>)> {
    let d = crate::loader::opt_trim(m.device);
    let t = crate::loader::opt_trim(m.model_type);
    let blank = t is None || t == Some(""@);
    if (d == Some("R"@) || d == Some("C"@) || d == Some("L"@)) && blank {
        if npins != 2 || m.value_binding is Some {
            None
        } else {
            Some((prefix_param(prefix), crate::loader::si_or_raw(value), if is_behavioral(value) { Some("="@) } else { None }))
        }
    } else if (d == Some("V"@) || d == Some("I"@)) && (blank || t == Some("DC"@)) {
        if npins != 2 || m.value_binding is Some {
            None
        } else {
            let sp = crate::loader::split_source_value(value);
            Some((sp.0, sp.1, if m.model_type is None { Some("DC"@) } else { None }))
        }
    } else if (d == Some("E"@) || d == Some("F"@) || d == Some("G"@) || d == Some("H"@)) && blank {
        if m.value_binding is Some {
            None
        } else {
            match crate::model::sim_params::si_value(value) {
                Some(x) => Some(("gain"@, x, None)),
                None => None,
            }
        }
    } else if (d == Some("V"@) || d == Some("I"@)) && t is Some && crate::loader::is_internal_source_type(t->0)
        && t->0 != "PWL"@ {
        if npins != 2 || m.value_binding is Some {
            None
        } else {
            match (crate::loader::primary_param_name(t->0), crate::model::sim_params::si_value(value)) {
                (Some(n), Some(x)) => Some((n, x, None)),
                _ => None,
            }
        }
    } else {
        None
    }
}

/// Index of the first pair at or after `i` whose name equals `name` without regard to
/// ASCII case, or the length.
pub open spec fn ci_index(ps: Seq<(Seq<char>, Seq<char>)>, name: Seq<char>, i: int) -> int
    decreases ps.len() - i,
{
    if 0 <= i < ps.len() && !crate::model::sim_params::eq_ignore_ascii_case(ps[i].0, name) {
        ci_index(ps, name, i + 1)
    } else {
        i
    }
}

/// The pairs with the first pair of that name (in any ASCII case) given the value, or
/// with the pair put in front where there is none.
pub open spec fn upsert_pairs(ps: Seq<(Seq<char>, Seq<char>)>, name: Seq<char>, val: Seq<char>) -> Seq<(Seq<char>, Seq<char>)> {
    let k = ci_index(ps, name, 0);
    if 0 <= k < ps.len() {
        ps.update(k, (ps[k].0, val))
    } else {
        seq![(name, val)] + ps
    }
}

/// `m2` is `m1` with the main parameter set from the value: the pairs updated, the map
/// and parameter text rebuilt, the model bound to the value, and the model type set where
/// the update gives one.
pub open spec fn primary_applied(m1: SimModel, m2: SimModel, u: (Seq<char>, Seq<char>, Option<Seq<char>>), value: Seq<char>) -> bool {
    &&& m2.device == m1.device
    &&& (u.2 is None ==> m2.model_type == m1.model_type)
    &&& (u.2 matches Some(t) ==> opt_view(m2.model_type) == Some(t))
    &&& m2.library == m1.library
    &&& m2.name == m1.name
    &&& m2.ibis_pin == m1.ibis_pin
    &&& m2.ibis_model == m1.ibis_model
    &&& m2.ibis_diff == m1.ibis_diff
    &&& m2.param_pairs.deep_view() == upsert_pairs(m1.param_pairs.deep_view(), u.0, u.1)
    &&& m2.param_values@ == map_of_pairs(m2.param_pairs@)
    &&& opt_view(m2.params) == Some(params_text(m2.param_pairs.deep_view()))
    &&& m2.pin_pairs == m1.pin_pairs
    &&& m2.pins == m1.pins
    &&& m2.value_binding == Some(SimValueBinding::Value)
    &&& opt_view(m2.stored_value) == Some(value)
    &&& m2.enabled == m1.enabled
    &&& m2.origin == m1.origin
    &&& m2.resolved_library == m1.resolved_library
    &&& m2.resolved_name == m1.resolved_name
    &&& m2.resolved_kind == m1.resolved_kind
    &&& m2.resolved_model_type == m1.resolved_model_type
    &&& m2.resolved_ibis_model_type == m1.resolved_ibis_model_type
    &&& m2.resolved_ibis_diff_pin == m1.resolved_ibis_diff_pin
    &&& m2.generated_pin_names == m1.generated_pin_names
    &&& m2.generated_param_pairs == m1.generated_param_pairs
}

/// The model after it is backed by the value: given its default pins, then, where the
/// value gives a main parameter, that parameter set and the default pins given again;
/// `r` tells whether the parameter was set or the first defaulting changed the pins.
pub open spec fn value_backed(m0: SimModel, mf: SimModel, fv: Seq<FieldView>, prefix: Seq<char>, pins: Seq<Seq<char>>, r: bool) -> bool {
    exists|m1: SimModel, d1: bool| {
        &&& #[trigger] crate::loader::defaulted_pins(m0, m1, pins, d1)
        &&& match backing_value(fv) {
            Some(v) => match primary_update(m1, v, prefix, pins.len()) {
                Some(u) => r && exists|m2: SimModel, d2: bool| primary_applied(m1, m2, u, v)
                    && #[trigger] crate::loader::defaulted_pins(m2, mf, pins, d2),
                None => mf == m1 && r == d1,
            },
            None => mf == m1 && r == d1,
        }
    }
}

/// A model found in a simulation library: its name and kind, the model and IBIS types
/// and differential pin where the library gives them, its parameters with their default
/// values, and its pin names in order.
#[derive(Debug, Clone, PartialEq, Eq)]
pub struct ResolvedSimModel {
    pub name: String,
    pub kind: ResolvedSimModelKind,
    pub model_type: Option<String>,
    pub ibis_model_type: Option<String>,
    pub diff_pin: Option<String>,
    pub params: Vec<(String, Option<String>)>,
    pub pins: Vec<String>,
}

/// Pins paired with model pins in order, joined by spaces.
pub open spec fn zip_pin_map(sp: Seq<Seq<char>>, mp: Seq<Seq<char>>) -> Seq<char> {
    crate::text::join_with(Seq::new(sp.len(), |i: int| sp[i] + seq!['='] + mp[i]), " "@)
}

/// A key of the fields that name a library model.
pub open spec fn is_model_key(k: Seq<char>) -> bool {
    k == "Sim.Name"@ || k == "Sim.Library"@ || k == "Sim.Device"@
}

/// Index of the first field at or after `i` that names a library model, or the length.
pub open spec fn model_key_index(fv: Seq<FieldView>, i: int) -> int
    decreases fv.len() - i,
{
    if 0 <= i < fv.len() && !is_model_key(fv[i].key) {
        model_key_index(fv, i + 1)
    } else {
        i
    }
}

proof fn lemma_model_key_index(fv: Seq<FieldView>, i: int)
    requires
        0 <= i <= fv.len(),
    ensures
        i <= model_key_index(fv, i) <= fv.len(),
    decreases fv.len() - i,
{
    if 0 <= i < fv.len() && !is_model_key(fv[i].key) {
        lemma_model_key_index(fv, i + 1);
    }
}

/// A library or IBIS model without pin assignments gets them from the symbol's pins:
/// paired with the model's pins where their numbers agree, else with 1, 2, … .
pub open spec fn needs_resolved_pins(m: Option<SimModel>, pins: Seq<Seq<char>>) -> bool {
    m matches Some(sm) && (sm.origin == Some(SimModelOrigin::LibraryReference) || sm.origin == Some(
        SimModelOrigin::Ibis,
    )) && sm.pin_pairs@.len() == 0 && pins.len() > 0
}

/// The `Sim.Pins` field that such a model gets, made from the first field that names the
/// model.
pub open spec fn resolved_pins_field(fv: Seq<FieldView>, pins: Seq<Seq<char>>, model_pins: Option<Seq<Seq<char>>>) -> FieldView {
    let k = model_key_index(fv, 0);
    let t = if 0 <= k < fv.len() {
        fv[k]
    } else {
        fresh_field()
    };
    let value = match model_pins {
        Some(mp) => if mp.len() == pins.len() {
            zip_pin_map(pins, mp)
        } else {
            default_pin_map(pins)
        },
        None => default_pin_map(pins),
    };
    from_template(t, "Sim.Pins"@, value)
}

/// The name under which a model is reported as resolved: the library's model name, else,
/// for a library reference, its trimmed name (`unknown` where empty).
pub open spec fn resolved_name_of(m: SimModel, model: Option<ResolvedSimModel>) -> Option<Seq<char>> {
    match model {
        Some(r) => Some(r.name@),
        None => if m.library is Some {
            let n = text_or_empty(trim_opt(opt_view(m.name)));
            if n.len() == 0 {
                Some("unknown"@)
            } else {
                Some(n)
            }
        } else {
            None
        },
    }
}

/// `m2` is `m1` with what the library lookup found recorded; a model from an IBIS library
/// becomes an IBIS model.
pub open spec fn resolution_applied(m1: SimModel, m2: SimModel, library: Option<ResolvedSimLibrary>, model: Option<ResolvedSimModel>) -> bool {
    &&& m2.resolved_library == library
    &&& opt_view(m2.resolved_name) == resolved_name_of(m1, model)
    &&& m2.resolved_kind == (match model {
        Some(r) => Some(r.kind),
        None => None,
    })
    &&& m2.resolved_model_type == (match model {
        Some(r) => r.model_type,
        None => None,
    })
    &&& m2.resolved_ibis_model_type == (match model {
        Some(r) => r.ibis_model_type,
        None => None,
    })
    &&& m2.resolved_ibis_diff_pin == (match model {
        Some(r) => r.diff_pin,
        None => None,
    })
    &&& m2.generated_param_pairs@ == (match model {
        Some(r) => r.params@,
        None => Seq::empty(),
    })
    &&& m2.generated_pin_names@ == (match model {
        Some(r) => r.pins@,
        None => Seq::empty(),
    })
    &&& m2.origin == (if library matches Some(l) && l.kind == SimLibraryKind::Ibis {
        Some(SimModelOrigin::Ibis)
    } else {
        m1.origin
    })
    &&& m2.device == m1.device
    &&& m2.model_type == m1.model_type
    &&& m2.library == m1.library
    &&& m2.name == m1.name
    &&& m2.ibis_pin == m1.ibis_pin
    &&& m2.ibis_model == m1.ibis_model
    &&& m2.ibis_diff == m1.ibis_diff
    &&& m2.params == m1.params
    &&& m2.param_pairs == m1.param_pairs
    &&& m2.param_values == m1.param_values
    &&& m2.pin_pairs == m1.pin_pairs
    &&& m2.pins == m1.pins
    &&& m2.value_binding == m1.value_binding
    &&& m2.stored_value == m1.stored_value
    &&& m2.enabled == m1.enabled
}

/// The model is missing, or it comes from fields that name nothing.
pub open spec fn needs_inferred(m: Option<SimModel>) -> bool {
    m is None || (m matches Some(sm) && sm.origin == Some(SimModelOrigin::Fields) && sm.device is None
        && sm.model_type is None && sm.library is None && sm.name is None && sm.params is None)
}

/// The text of the first reference field, or nothing.
pub open spec fn reference_text(fv: Seq<FieldView>) -> Seq<char> {
    let k = kind_index(fv, PropertyKind::SymbolReference, 0);
    if 0 <= k < fv.len() {
        fv[k].value
    } else {
        Seq::empty()
    }
}

/// The warning for a model that names a device and type that the built-in models do not
/// cover and no library: with the symbol's reference where it has one.
pub open spec fn builtin_warning(m: Option<SimModel>, fv: Seq<FieldView>) -> Option<Seq<char>> {
    match m {
        Some(sm) => {
            let d = crate::loader::opt_trim(sm.device);
            let t = crate::loader::opt_trim(sm.model_type);
            if sm.library is Some || d is None || t is None || d->0.len() == 0 || t->0.len() == 0
                || builtin_sim_type(d->0, t->0) {
                None
            } else if reference_text(fv).len() == 0 {
                Some("No simulation model definition found."@)
            } else {
                Some("No simulation model definition found for symbol '"@ + reference_text(fv) + "'."@)
            }
        },
        None => None,
    }
}

/// A character that a reference's trailing number may hold: an ASCII digit, `?` or `*`.
pub open spec fn is_ref_suffix_char(c: char) -> bool {
    crate::text::is_digit(c) || c == '?' || c == '*'
}

/// The text without its trailing reference-number characters.
pub open spec fn trim_ref_suffix(s: Seq<char>) -> Seq<char>
    decreases s.len(),
{
    if s.len() > 0 && is_ref_suffix_char(s.last()) {
        trim_ref_suffix(s.drop_last())
    } else {
        s
    }
}

/// The reference text with every `~` read as a space.
pub open spec fn reference_spaced(fv: Seq<FieldView>) -> Seq<char> {
    crate::model::sim_params::replace_char(reference_text(fv), '~', ' ')
}

/// The reference prefix that a reference gives: trimmed, without its number, trimmed again.
pub open spec fn prefix_of_reference(r: Seq<char>) -> Seq<char> {
    trim(trim_ref_suffix(trim(r)))
}

/// A fresh field of a mandatory kind, for a new symbol.
pub open spec fn mandatory_field(kind: PropertyKind, origin: usize) -> FieldView {
    FieldView {
        id: Some(crate::model::spec_default_field_id(kind)),
        kind,
        key: crate::model::spec_canonical_key(kind),
        value: Seq::empty(),
        origin: Some(origin),
    }
}

/// The fields after one field of the kind gets a text: the first field of that kind gets
/// the kind's id and key.
pub open spec fn set_kind_text(fv: Seq<FieldView>, kind: PropertyKind, text: Seq<char>) -> Seq<FieldView> {
    let k = kind_index(fv, kind, 0);
    fv.update(
        k,
        FieldView {
            id: Some(crate::model::spec_default_field_id(kind)),
            kind: fv[k].kind,
            key: crate::model::spec_canonical_key(kind),
            value: text,
            origin: fv[k].origin,
        },
    )
}

fn field_from(t: &FieldText, key: &str, value: String) -> (r: FieldText)
    ensures
        r@ == from_template(t@, key@, value@),
{
    FieldText { id: t.id, kind: t.kind, key: key.to_owned(), value, origin: t.origin }
}

fn fresh() -> (r: FieldText)
    ensures
        r@ == fresh_field(),
{
    FieldText { id: Some(0), kind: PropertyKind::User, key: String::new(), value: String::new(), origin: None }
}

fn clone_field(f: &FieldText) -> (r: FieldText)
    ensures
        r@ == f@,
{
    FieldText { id: f.id, kind: f.kind, key: f.key.clone(), value: f.value.clone(), origin: f.origin }
}

fn clone_opt(o: &Option<FieldText>) -> (r: Option<FieldText>)
    ensures
        opt_field(r) == opt_field(*o),
{
    match o {
        Some(f) => Some(clone_field(f)),
        None => None,
    }
}

fn field_or(a: &Option<FieldText>, b: FieldText) -> (r: FieldText)
    ensures
        r@ == or_field(opt_field(*a), b@),
{
    match a {
        Some(f) => clone_field(f),
        None => b,
    }
}

proof fn lemma_views_remove(s: Seq<FieldText>, k: int)
    requires
        0 <= k < s.len(),
    ensures
        views(s.remove(k)) == views(s).remove(k),
{
    assert(views(s.remove(k)) =~= views(s).remove(k));
}

proof fn lemma_views_push(s: Seq<FieldText>, f: FieldText)
    ensures
        views(s.push(f)) == views(s).push(f@),
{
    assert(views(s.push(f)) =~= views(s).push(f@));
}

proof fn lemma_views_update(s: Seq<FieldText>, k: int, f: FieldText)
    requires
        0 <= k < s.len(),
    ensures
        views(s.update(k, f)) == views(s).update(k, f@),
{
    assert(views(s.update(k, f)) =~= views(s).update(k, f@));
}

/// Appends a field.
fn push_field(props: &mut Vec<FieldText>, f: FieldText)
    ensures
        views(final(props)@) == views(old(props)@).push(f@),
{
    let ghost before = props@;
    props.push(f);
    proof {
        lemma_views_push(before, f);
    }
}

/// Takes the first user field with the given key out of the list.
fn take_user_field(props: &mut Vec<FieldText>, key: &str) -> (r: Option<FieldText>)
    ensures
        (views(final(props)@), opt_field(r)) == take_user(views(old(props)@), key@),
{
    let ghost fv = views(props@);
    let mut i: usize = 0;
    while i < props.len() && !(props[i].kind.is_user_field() && str_eq(props[i].key.as_str(), key))
        invariant
            0 <= i <= props.len(),
            fv == views(props@),
            user_index(fv, key@, 0) == user_index(fv, key@, i as int),
        decreases props.len() - i,
    {
        i = i + 1;
    }
    if i < props.len() {
        let ghost before = props@;
        let f = props.remove(i);
        proof {
            lemma_views_remove(before, i as int);
        }
        Some(f)
    } else {
        None
    }
}

/// Sets the text of the first value field, as `Symbol::set_field_text` does for the value.
fn set_value_field(props: &mut Vec<FieldText>, text: String)
    requires
        kind_index(views(old(props)@), PropertyKind::SymbolValue, 0) < old(props).len(),
    ensures
        views(final(props)@) == set_value(views(old(props)@), text@),
{
    let k = find_kind(props, PropertyKind::SymbolValue);
    let kind = PropertyKind::SymbolValue;
    let f = FieldText {
        id: kind.default_field_id(),
        kind: props[k].kind,
        key: kind.canonical_key().to_owned(),
        value: text,
        origin: props[k].origin,
    };
    let ghost before = props@;
    props.set(k, f);
    proof {
        lemma_views_update(before, k as int, f);
    }
}

/// The pin map text of a legacy node sequence.
pub fn legacy_spice_pin_map(value: &str) -> (r: String)
    ensures
        r@ == legacy_pin_map(value@),
{
    let v = crate::text::str_to_chars(value);
    let toks = crate::text::split_tokens(&v, 0, v.len(), 3);
    assert(v@.subrange(0, v@.len() as int) =~= v@);
    let ghost tv = toks.deep_view();
    let ghost target = Seq::new(tv.len(), |i: int| pin_map_item(tv[i], i));
    let mut items: Vec<String> = Vec::new();
    let mut i: usize = 0;
    while i < toks.len()
        invariant
            0 <= i <= toks.len(),
            tv == toks.deep_view(),
            tv == crate::text::tokens(value@, 3),
            target == Seq::new(tv.len(), |i: int| pin_map_item(tv[i], i)),
            items.deep_view() == target.take(i as int),
        decreases toks.len() - i,
    {
        assert(toks[i as int]@ == tv[i as int]) by {
            assert(toks[i as int].deep_view() =~= toks[i as int]@);
        }
        let pin: i32 = match crate::text::parse_i32_all(&toks[i]) {
            Some(n) => n,
            None => 1,
        };
        let mut t: Vec<char> = Vec::new();
        crate::text::push_int(&mut t, pin as i64);
        t.push('=');
        crate::text::push_decimal(&mut t, (i + 1) as u64);
        assert(t@ =~= pin_map_item(tv[i as int], i as int));
        let ghost before = items.deep_view();
        items.push(crate::text::seq_to_string(&t));
        assert(items.deep_view() =~= before.push(pin_map_item(tv[i as int], i as int)));
        assert(target.take(i + 1) =~= target.take(i as int).push(target[i as int]));
        i = i + 1;
    }
    assert(target.take(toks.len() as int) =~= target);
    crate::text::join_strings(&items, " ")
}

/// The pin map text that assigns the given symbol pins to model pins 1, 2, … in order.
pub fn default_sim_pins_value(source_pins: &Vec<String>) -> (r: String)
    ensures
        r@ == default_pin_map(source_pins.deep_view()),
{
    let ghost pv = source_pins.deep_view();
    let ghost target = Seq::new(pv.len(), |i: int| pv[i] + seq!['='] + crate::text::decimal((i + 1) as nat));
    let mut items: Vec<String> = Vec::new();
    let mut i: usize = 0;
    while i < source_pins.len()
        invariant
            0 <= i <= source_pins.len(),
            pv == source_pins.deep_view(),
            target == Seq::new(pv.len(), |i: int| pv[i] + seq!['='] + crate::text::decimal((i + 1) as nat)),
            items.deep_view() == target.take(i as int),
        decreases source_pins.len() - i,
    {
        let mut t: Vec<char> = crate::text::str_to_chars(source_pins[i].as_str());
        t.push('=');
        crate::text::push_decimal(&mut t, (i + 1) as u64);
        assert(t@ =~= target[i as int]);
        let ghost before = items.deep_view();
        items.push(crate::text::seq_to_string(&t));
        assert(items.deep_view() =~= before.push(target[i as int]));
        assert(target.take(i + 1) =~= target.take(i as int).push(target[i as int]));
        i = i + 1;
    }
    assert(target.take(source_pins.len() as int) =~= target);
    crate::text::join_strings(&items, " ")
}

fn pin_map_from(n: &FieldText) -> (r: FieldText)
    ensures
        r@ == pin_map_field(n@),
{
    field_from(n, "Sim.Pins", legacy_spice_pin_map(n.value.as_str()))
}

/// Some field is a value field.
pub open spec fn has_value_field(fv: Seq<FieldView>) -> bool {
    exists|i: int| 0 <= i < fv.len() && (#[trigger] fv[i]).kind == PropertyKind::SymbolValue
}

proof fn lemma_kind_index(fv: Seq<FieldView>, kind: PropertyKind, i: int)
    requires
        0 <= i <= fv.len(),
    ensures
        i <= kind_index(fv, kind, i) <= fv.len(),
        kind_index(fv, kind, i) < fv.len() ==> fv[kind_index(fv, kind, i)].kind == kind,
        forall|j: int| i <= j < kind_index(fv, kind, i) ==> (#[trigger] fv[j]).kind != kind,
    decreases fv.len() - i,
{
    if 0 <= i < fv.len() && fv[i].kind != kind {
        lemma_kind_index(fv, kind, i + 1);
    }
}

proof fn lemma_kind_index_at(fv: Seq<FieldView>, kind: PropertyKind, k: int)
    requires
        0 <= k < fv.len(),
        fv[k].kind == kind,
        forall|j: int| 0 <= j < k ==> (#[trigger] fv[j]).kind != kind,
    ensures
        kind_index(fv, kind, 0) == k,
{
    lemma_kind_index(fv, kind, 0);
    let r = kind_index(fv, kind, 0);
    if r < k {
        assert(fv[r].kind == kind);
    } else if r > k {
        assert(fv[k].kind != kind);
    }
}

proof fn lemma_value_field(fv: Seq<FieldView>)
    ensures
        has_value_field(fv) <==> kind_index(fv, PropertyKind::SymbolValue, 0) < fv.len(),
{
    lemma_kind_index(fv, PropertyKind::SymbolValue, 0);
    let k = kind_index(fv, PropertyKind::SymbolValue, 0);
    if k < fv.len() {
        assert(fv[k].kind == PropertyKind::SymbolValue);
    }
}

proof fn lemma_user_index(fv: Seq<FieldView>, key: Seq<char>, i: int)
    requires
        0 <= i <= fv.len(),
    ensures
        i <= user_index(fv, key, i) <= fv.len(),
        user_index(fv, key, i) < fv.len() ==> crate::model::spec_is_user_field(
            fv[user_index(fv, key, i)].kind,
        ) && fv[user_index(fv, key, i)].key == key,
    decreases fv.len() - i,
{
    if 0 <= i < fv.len() && !(crate::model::spec_is_user_field(fv[i].kind) && fv[i].key == key) {
        lemma_user_index(fv, key, i + 1);
    }
}

proof fn lemma_take_keeps_value_field(fv: Seq<FieldView>, key: Seq<char>)
    requires
        has_value_field(fv),
    ensures
        has_value_field(take_user(fv, key).0),
{
    lemma_user_index(fv, key, 0);
    let u = user_index(fv, key, 0);
    let j = choose|j: int| 0 <= j < fv.len() && (#[trigger] fv[j]).kind == PropertyKind::SymbolValue;
    if u < fv.len() {
        let r = fv.remove(u);
        if j < u {
            assert(r[j] == fv[j]);
        } else {
            assert(j != u);
            assert(r[j - 1] == fv[j]);
        }
    }
}

proof fn lemma_push_keeps_value_field(fv: Seq<FieldView>, f: FieldView)
    requires
        has_value_field(fv),
    ensures
        has_value_field(fv.push(f)),
{
    let j = choose|j: int| 0 <= j < fv.len() && (#[trigger] fv[j]).kind == PropertyKind::SymbolValue;
    assert(fv.push(f)[j] == fv[j]);
}

proof fn lemma_take_legacy_keeps_value_field(fv: Seq<FieldView>)
    requires
        has_value_field(fv),
    ensures
        has_value_field(take_legacy(fv).rest),
{
    let a = take_user(fv, "Spice_Primitive"@);
    lemma_take_keeps_value_field(fv, "Spice_Primitive"@);
    let b = take_user(a.0, "Spice_Node_Sequence"@);
    lemma_take_keeps_value_field(a.0, "Spice_Node_Sequence"@);
    let c = take_user(b.0, "Spice_Model"@);
    lemma_take_keeps_value_field(b.0, "Spice_Model"@);
    let d = take_user(c.0, "Spice_Netlist_Enabled"@);
    lemma_take_keeps_value_field(c.0, "Spice_Netlist_Enabled"@);
    lemma_take_keeps_value_field(d.0, "Spice_Lib_File"@);
}

/// The legacy user fields taken out of a symbol.
struct TakenFields {
    prim: Option<FieldText>,
    node: Option<FieldText>,
    model: Option<FieldText>,
    lib: Option<FieldText>,
}

fn take_legacy_fields(props: &mut Vec<FieldText>) -> (t: TakenFields)
    ensures
        views(final(props)@) == take_legacy(views(old(props)@)).rest,
        opt_field(t.prim) == take_legacy(views(old(props)@)).prim,
        opt_field(t.node) == take_legacy(views(old(props)@)).node,
        opt_field(t.model) == take_legacy(views(old(props)@)).model,
        opt_field(t.lib) == take_legacy(views(old(props)@)).lib,
{
    let prim = take_user_field(props, "Spice_Primitive");
    let node = take_user_field(props, "Spice_Node_Sequence");
    let model = take_user_field(props, "Spice_Model");
    let _enable = take_user_field(props, "Spice_Netlist_Enabled");
    let lib = take_user_field(props, "Spice_Lib_File");
    TakenFields { prim, node, model, lib }
}

fn user_text_exec(props: &Vec<FieldText>, key: &str) -> (r: Option<String>)
    ensures
        opt_view(r) == user_text(views(props@), key@),
{
    let ghost fv = views(props@);
    let mut i: usize = 0;
    while i < props.len() && !(props[i].kind.is_user_field() && str_eq(props[i].key.as_str(), key))
        invariant
            0 <= i <= props.len(),
            fv == views(props@),
            user_index(fv, key@, 0) == user_index(fv, key@, i as int),
        decreases props.len() - i,
    {
        i = i + 1;
    }
    if i < props.len() {
        Some(props[i].value.clone())
    } else {
        None
    }
}

fn value_text_exec(props: &Vec<FieldText>) -> (r: String)
    ensures
        r@ == value_text(views(props@)),
{
    let k = find_kind(props, PropertyKind::SymbolValue);
    if k < props.len() {
        crate::text::trim_string(props[k].value.as_str())
    } else {
        String::new()
    }
}

fn value_template_exec(props: &Vec<FieldText>) -> (r: Option<FieldText>)
    ensures
        opt_field(r) == value_template(views(props@)),
{
    let k = find_kind(props, PropertyKind::SymbolValue);
    if k < props.len() {
        Some(clone_field(&props[k]))
    } else {
        None
    }
}

fn trimmed_or_empty(o: &Option<String>) -> (r: String)
    ensures
        r@ == text_or_empty(trim_opt(opt_view(*o))),
{
    match o {
        Some(t) => crate::text::trim_string(t.as_str()),
        None => String::new(),
    }
}

fn legacy_model_exec(props: &Vec<FieldText>, current: &String) -> (r: String)
    requires
        current@ == value_text(views(props@)),
    ensures
        r@ == legacy_model(views(props@)),
{
    match user_text_exec(props, "Spice_Model") {
        Some(m) => {
            let t = crate::text::trim_string(m.as_str());
            if t.as_str().is_empty() {
                current.clone()
            } else {
                t
            }
        },
        None => current.clone(),
    }
}

fn is_one_of(d: &String, options: &Vec<&'static str>) -> (r: bool)
    ensures
        r == exists|i: int| 0 <= i < options.len() && d@ == (#[trigger] options@[i])@,
{
    let mut i: usize = 0;
    while i < options.len()
        invariant
            0 <= i <= options.len(),
            forall|j: int| 0 <= j < i ==> d@ != (#[trigger] options@[j])@,
        decreases options.len() - i,
    {
        if str_eq(d.as_str(), options[i]) {
            return true;
        }
        i = i + 1;
    }
    false
}

fn starts_with_exec(s: &String, p: &String) -> (r: bool)
    ensures
        r == starts_with(s@, p@),
{
    let sv = crate::text::str_to_chars(s.as_str());
    let pv = crate::text::str_to_chars(p.as_str());
    if pv.len() > sv.len() {
        return false;
    }
    let r = crate::text::range_eq(&sv, 0, pv.len(), &pv, 0, pv.len());
    assert(pv@.subrange(0, pv@.len() as int) =~= pv@);
    r
}

fn pins_after_exec(props: &mut Vec<FieldText>, node: &Option<FieldText>, tmpl: &FieldText, pins: &Vec<String>)
    ensures
        views(final(props)@) == pins_after(views(old(props)@), opt_field(*node), tmpl@, pins.deep_view()),
{
    match node {
        Some(n) => push_field(props, pin_map_from(n)),
        None => {
            if pins.len() > 0 {
                push_field(props, field_from(tmpl, "Sim.Pins", default_sim_pins_value(pins)));
            }
        },
    }
}

fn infer_branch(props: &mut Vec<FieldText>)
    ensures
        views(final(props)@) == infer_fields(views(old(props)@)),
{
    let _prim = take_user_field(props, "Spice_Primitive");
    let node = take_user_field(props, "Spice_Node_Sequence");
    let _enable = take_user_field(props, "Spice_Netlist_Enabled");
    let _lib = take_user_field(props, "Spice_Lib_File");
    match node {
        Some(n) => push_field(props, pin_map_from(&n)),
        None => {},
    }
}

fn dc_branch(props: &mut Vec<FieldText>, pins: &Vec<String>, device: String)
    requires
        device@ == legacy_device(views(old(props)@)),
        legacy_dc_value(legacy_model_arg(views(old(props)@))) is Some,
        kind_index(views(old(props)@), PropertyKind::SymbolValue, 0) < old(props).len(),
    ensures
        views(final(props)@) == dc_fields(views(old(props)@), pins.deep_view()),
{
    let ghost fv = views(props@);
    let current = value_text_exec(props);
    let t = take_legacy_fields(props);
    let arg = match &t.model {
        Some(m) => m.value.clone(),
        None => current.clone(),
    };
    proof {
        lemma_value_field(fv);
        lemma_take_legacy_keeps_value_field(fv);
        lemma_value_field(views(props@));
    }
    match crate::loader::parse_legacy_dc_model_value(arg.as_str()) {
        Some(dc) => {
            set_value_field(props, dc);
            let tmpl = field_or(&t.model, fresh());
            push_field(props, field_from(&tmpl, "Sim.Device", device));
            push_field(props, field_from(&tmpl, "Sim.Type", "DC".to_owned()));
            pins_after_exec(props, &t.node, &tmpl, pins);
        },
        None => {
            proof {
                assert(false);
            }
        },
    }
}

fn params_text_exec(params: &Vec<(&'static str, String)>) -> (r: String)
    ensures
        r@ == params_text(crate::loader::param_views(params@)),
{
    let ghost pv = crate::loader::param_views(params@);
    let ghost target = Seq::new(pv.len(), |i: int| param_pair_text(pv[i].0, pv[i].1));
    let mut items: Vec<String> = Vec::new();
    let mut i: usize = 0;
    while i < params.len()
        invariant
            0 <= i <= params.len(),
            pv == crate::loader::param_views(params@),
            target == Seq::new(pv.len(), |i: int| param_pair_text(pv[i].0, pv[i].1)),
            items.deep_view() == target.take(i as int),
        decreases params.len() - i,
    {
        let item = crate::loader::format_sim_param_pair(params[i].0, params[i].1.as_str());
        let ghost before = items.deep_view();
        items.push(item);
        assert(items.deep_view() =~= before.push(target[i as int]));
        assert(target.take(i + 1) =~= target.take(i as int).push(target[i as int]));
        i = i + 1;
    }
    assert(target.take(params.len() as int) =~= target);
    crate::text::join_strings(&items, " ")
}

fn source_branch(props: &mut Vec<FieldText>, pins: &Vec<String>, device: String)
    requires
        device@ == legacy_device(views(old(props)@)),
        legacy_source_model(legacy_model_arg(views(old(props)@))) is Some,
    ensures
        views(final(props)@) == source_fields(views(old(props)@), pins.deep_view()),
{
    let ghost fv = views(props@);
    let current = value_text_exec(props);
    let t = take_legacy_fields(props);
    let model_from_value_field = t.model.is_none() && !current.as_str().is_empty();
    let arg = match &t.model {
        Some(m) => m.value.clone(),
        None => current.clone(),
    };
    match crate::loader::parse_legacy_source_model(arg.as_str()) {
        Some(sm) => {
            let dt = field_or(&t.prim, field_or(&t.model, fresh()));
            let pt = field_or(&t.model, field_or(&t.prim, fresh()));
            push_field(props, field_from(&dt, "Sim.Device", device));
            push_field(props, field_from(&dt, "Sim.Type", sm.kind.to_owned()));
            push_field(props, field_from(&pt, "Sim.Params", params_text_exec(&sm.params)));
            let pin_t = field_or(&t.model, fresh());
            pins_after_exec(props, &t.node, &pin_t, pins);
            if model_from_value_field {
                proof {
                    lemma_kind_index(fv, PropertyKind::SymbolValue, 0);
                    lemma_value_field(fv);
                    let s = views(props@);
                    lemma_take_legacy_keeps_value_field(fv);
                    let r = take_legacy(fv).rest;
                    let s1 = r.push(from_template(dt@, "Sim.Device"@, device@));
                    lemma_push_keeps_value_field(r, from_template(dt@, "Sim.Device"@, device@));
                    let s2 = s1.push(from_template(dt@, "Sim.Type"@, sm.kind@));
                    lemma_push_keeps_value_field(s1, from_template(dt@, "Sim.Type"@, sm.kind@));
                    let s3 = s2.push(from_template(pt@, "Sim.Params"@, params_text(crate::loader::param_views(sm.params@))));
                    lemma_push_keeps_value_field(s2, from_template(pt@, "Sim.Params"@, params_text(crate::loader::param_views(sm.params@))));
                    if s.len() > s3.len() {
                        lemma_push_keeps_value_field(s3, s.last());
                        assert(s =~= s3.push(s.last()));
                    } else {
                        assert(s =~= s3);
                    }
                    lemma_value_field(s);
                }
                set_value_field(props, "${SIM.PARAMS}".to_owned());
            }
        },
        None => {
            proof {
                assert(false);
            }
        },
    }
}

fn first_word_exec(r: &String) -> (w: String)
    ensures
        w@ == first_word(r@),
{
    let v = crate::text::str_to_chars(r.as_str());
    let k = crate::text::find_char(&v, 0, v.len(), ' ');
    assert(v@.subrange(0, v@.len() as int) =~= v@);
    if k < v.len() {
        crate::text::chars_to_string(&v, 0, k)
    } else {
        r.clone()
    }
}

fn after_first_word_exec(r: &String) -> (w: Option<String>)
    ensures
        opt_view(w) == after_first_word(r@),
{
    let v = crate::text::str_to_chars(r.as_str());
    let k = crate::text::find_char(&v, 0, v.len(), ' ');
    assert(v@.subrange(0, v@.len() as int) =~= v@);
    if k < v.len() {
        let (a, b) = crate::text::trim_bounds(&v, k + 1, v.len());
        if a == b {
            None
        } else {
            Some(crate::text::chars_to_string(&v, a, b))
        }
    } else {
        None
    }
}

fn library_fields_exec(
    prim: &Option<FieldText>,
    model: &Option<FieldText>,
    lib_f: &Option<FieldText>,
    vt: &Option<FieldText>,
    lib: String,
    name: String,
    params: Option<String>,
) -> (r: Vec<FieldText>)
    ensures
        views(r@) == library_fields_of(
            opt_field(*prim),
            opt_field(*model),
            opt_field(*lib_f),
            opt_field(*vt),
            lib@,
            name@,
            opt_view(params),
        ),
{
    let base = field_or(prim, field_or(model, field_or(lib_f, field_or(vt, fresh()))));
    let name_t = field_or(model, field_or(vt, field_or(lib_f, clone_field(&base))));
    let lib_t = field_or(lib_f, clone_field(&base));
    let params_t = field_or(model, field_or(vt, field_or(prim, clone_field(&base))));
    let mut out: Vec<FieldText> = Vec::new();
    push_field(&mut out, field_from(&lib_t, "Sim.Library", lib));
    push_field(&mut out, field_from(&name_t, "Sim.Name", name));
    match params {
        Some(p) => push_field(&mut out, field_from(&params_t, "Sim.Params", p)),
        None => {},
    }
    assert(views(Seq::<FieldText>::empty()) =~= Seq::<FieldView>::empty());
    out
}

fn append_fields(props: &mut Vec<FieldText>, extra: Vec<FieldText>)
    ensures
        views(final(props)@) == views(old(props)@) + views(extra@),
{
    let mut i: usize = 0;
    while i < extra.len()
        invariant
            0 <= i <= extra.len(),
            views(props@) == views(old(props)@) + views(extra@).take(i as int),
        decreases extra.len() - i,
    {
        push_field(props, clone_field(&extra[i]));
        assert(views(extra@).take(i + 1) =~= views(extra@).take(i as int).push(extra@[i as int]@));
        assert(views(old(props)@) + views(extra@).take(i + 1) =~= (views(old(props)@) + views(extra@).take(i as int)).push(extra@[i as int]@));
        i = i + 1;
    }
    assert(views(extra@).take(extra.len() as int) =~= views(extra@));
}

/// The parts of a raw model that the library branch reads.
struct RawParts {
    taken: TakenFields,
    current: String,
    value_tmpl: Option<FieldText>,
    model_name: String,
    lib: String,
    params: Option<String>,
}

fn raw_parts(props: &mut Vec<FieldText>) -> (r: RawParts)
    ensures
        views(final(props)@) == take_legacy(views(old(props)@)).rest,
        opt_field(r.taken.prim) == take_legacy(views(old(props)@)).prim,
        opt_field(r.taken.node) == take_legacy(views(old(props)@)).node,
        opt_field(r.taken.model) == take_legacy(views(old(props)@)).model,
        opt_field(r.taken.lib) == take_legacy(views(old(props)@)).lib,
        r.current@ == value_text(views(old(props)@)),
        opt_field(r.value_tmpl) == value_template(views(old(props)@)),
        r.model_name@ == raw_model_name(views(old(props)@)),
        r.lib@ == raw_lib(views(old(props)@)),
        opt_view(r.params) == raw_model_params(views(old(props)@)),
{
    let current = value_text_exec(props);
    let value_tmpl = value_template_exec(props);
    let t = take_legacy_fields(props);
    let raw = match &t.model {
        Some(m) => {
            let tm = crate::text::trim_string(m.value.as_str());
            if tm.as_str().is_empty() {
                current.clone()
            } else {
                tm
            }
        },
        None => current.clone(),
    };
    let model_name = if t.lib.is_some() {
        first_word_exec(&raw)
    } else {
        raw.clone()
    };
    let lib = match &t.lib {
        Some(l) => crate::text::trim_string(l.value.as_str()),
        None => String::new(),
    };
    let params = if t.lib.is_some() {
        after_first_word_exec(&raw)
    } else {
        None
    };
    RawParts { taken: t, current, value_tmpl, model_name, lib, params }
}

fn spice_params_exec(device: &String, model: &String, lib: &String) -> (r: String)
    ensures
        r@ == spice_params(device@, model@, lib@),
{
    if device.as_str().is_empty() && lib.as_str().is_empty() {
        return model.clone();
    }
    let mut v: Vec<char> = Vec::new();
    crate::text::push_str(&mut v, "type=\"");
    crate::text::push_str(&mut v, device.as_str());
    crate::text::push_str(&mut v, "\" model=\"");
    let escaped = crate::loader::sim_params_field_value_escape(model.as_str());
    crate::text::push_str(&mut v, escaped.as_str());
    crate::text::push_str(&mut v, "\" lib=\"");
    crate::text::push_str(&mut v, lib.as_str());
    crate::text::push_str(&mut v, "\"");
    crate::text::seq_to_string(&v)
}

proof fn lemma_pushes_keep_value_field(r: Seq<FieldView>, s: Seq<FieldView>)
    requires
        has_value_field(r),
        s.len() >= r.len(),
        s.subrange(0, r.len() as int) == r,
    ensures
        has_value_field(s),
{
    let j = choose|j: int| 0 <= j < r.len() && (#[trigger] r[j]).kind == PropertyKind::SymbolValue;
    assert(s[j] == s.subrange(0, r.len() as int)[j]);
}

fn raw_branch(props: &mut Vec<FieldText>, pins: &Vec<String>, resolves: bool)
    ensures
        views(final(props)@) == (if library_reference_applies(views(old(props)@)) && resolves {
            library_result(views(old(props)@))
        } else {
            spice_result(views(old(props)@), pins.deep_view())
        }),
{
    let ghost fv = views(props@);
    let parts = raw_parts(props);
    let ghost rest = views(props@);
    let t = parts.taken;
    let mfv = t.model.is_none() && !parts.current.as_str().is_empty();
    proof {
        if mfv {
            lemma_kind_index(fv, PropertyKind::SymbolValue, 0);
            lemma_value_field(fv);
            lemma_take_legacy_keeps_value_field(fv);
        }
    }
    if !parts.lib.as_str().is_empty() && !parts.model_name.as_str().is_empty() && resolves {
        let extra = library_fields_exec(
            &t.prim,
            &t.model,
            &t.lib,
            &parts.value_tmpl,
            parts.lib,
            parts.model_name,
            parts.params,
        );
        append_fields(props, extra);
        match &t.node {
            Some(n) => push_field(props, pin_map_from(n)),
            None => {},
        }
        if mfv {
            proof {
                let s = views(props@);
                assert(s.subrange(0, rest.len() as int) =~= rest);
                lemma_pushes_keep_value_field(rest, s);
                lemma_value_field(s);
            }
            set_value_field(props, "${SIM.NAME}".to_owned());
        }
        return;
    }
    let dt = field_or(&t.prim, field_or(&t.model, field_or(&t.lib, fresh())));
    let pt = field_or(&t.model, field_or(&t.prim, field_or(&t.lib, fresh())));
    let device = match &t.prim {
        Some(p) => crate::text::trim_string(p.value.as_str()),
        None => String::new(),
    };
    let pin_map: Option<FieldText> = match &t.node {
        Some(n) => Some(pin_map_from(n)),
        None => if pins.len() > 0 && t.lib.is_none() {
            Some(field_from(&dt, "Sim.Pins", default_sim_pins_value(pins)))
        } else {
            None
        },
    };
    push_field(props, field_from(&dt, "Sim.Device", "SPICE".to_owned()));
    let params = spice_params_exec(&device, &parts.model_name, &parts.lib);
    push_field(props, field_from(&pt, "Sim.Params", params));
    match pin_map {
        Some(p) => push_field(props, p),
        None => {},
    }
    if mfv {
        proof {
            let s = views(props@);
            assert(s.subrange(0, rest.len() as int) =~= rest);
            lemma_pushes_keep_value_field(rest, s);
            lemma_value_field(s);
        }
        set_value_field(props, "${SIM.PARAMS}".to_owned());
    }
}

/// Renames a potentiometer's `+`/`-` model pins to `r1`/`r0` in a `Sim.Pins` text.
pub fn pot_sim_pins_update(pins: &str) -> (r: String)
    ensures
        r@ == pot_pins(pins@),
{
    proof {
        reveal_strlit("=+");
        reveal_strlit("=-");
    }
    let a = crate::text::replace_str(pins, "=+", "=r1");
    crate::text::replace_str(a.as_str(), "=-", "=r0")
}

/// Renames `NORMAL` to `GAUSSIAN` in an upper-cased random-source type.
pub fn rand_sim_type_update(upper: &str) -> (r: String)
    ensures
        r@ == rand_type(upper@),
{
    proof {
        reveal_strlit("NORMAL");
    }
    crate::text::replace_str(upper, "NORMAL", "GAUSSIAN")
}

/// Drops zero `min`/`max` bounds and renames `dt` to `ts` in lower-cased random-source
/// parameters.
pub fn rand_sim_params_update(lower: &str) -> (r: String)
    ensures
        r@ == rand_params(lower@),
{
    proof {
        reveal_strlit("min=0 ");
        reveal_strlit("max=0 ");
        reveal_strlit("dt=");
    }
    let a = crate::text::replace_str(lower, "min=0 ", "");
    let b = crate::text::replace_str(a.as_str(), "max=0 ", "");
    crate::text::replace_str(b.as_str(), "dt=", "ts=")
}

fn renamed_key_exec(k: &String) -> (r: Option<&'static str>)
    ensures
        match renamed_key(k@) {
            Some(n) => r matches Some(x) && x@ == n,
            None => r is None,
        },
{
    if str_eq(k.as_str(), "Sim_Type") {
        Some("Sim.Type")
    } else if str_eq(k.as_str(), "Sim_Device") {
        Some("Sim.Device")
    } else if str_eq(k.as_str(), "Sim_Pins") {
        Some("Sim.Pins")
    } else if str_eq(k.as_str(), "Sim_Params") {
        Some("Sim.Params")
    } else {
        None
    }
}

fn rename_fields(props: &mut Vec<FieldText>, prefix: &String, pins: &Vec<String>) -> (m: bool)
    ensures
        views(final(props)@) == renamed_fields(views(old(props)@), prefix@, pins.deep_view()),
        m == any_renamed(views(old(props)@)),
{
    let ghost fv = views(props@);
    let ghost pv = pins.deep_view();
    assert(crate::loader::string_views(pins@) =~= pv);
    let mut m = false;
    let mut i: usize = 0;
    while i < props.len()
        invariant
            0 <= i <= props.len(),
            props.len() == fv.len(),
            pv == pins.deep_view(),
            crate::loader::string_views(pins@) == pv,
            forall|j: int| 0 <= j < i ==> (#[trigger] views(props@)[j]) == rename_field(fv[j], prefix@, pv),
            forall|j: int| i <= j < fv.len() ==> (#[trigger] views(props@)[j]) == fv[j],
            m == exists|j: int| 0 <= j < i && (#[trigger] renamed_key(fv[j].key)) is Some,
        decreases props.len() - i,
    {
        assert(views(props@)[i as int] == fv[i as int]);
        match renamed_key_exec(&props[i].key) {
            Some(k) => {
                let is_pins = str_eq(props[i].key.as_str(), "Sim_Pins");
                let value = if is_pins && pins.len() > 0 {
                    let v = crate::text::str_to_chars(props[i].value.as_str());
                    let toks = crate::text::split_tokens(&v, 0, v.len(), 0);
                    assert(v@.subrange(0, v@.len() as int) =~= v@);
                    crate::loader::migrated_pins_text(prefix.as_str(), pins.as_slice(), &toks)
                } else {
                    props[i].value.clone()
                };
                let f = FieldText {
                    id: props[i].id,
                    kind: props[i].kind,
                    key: k.to_owned(),
                    value,
                    origin: props[i].origin,
                };
                let ghost before = props@;
                props.set(i, f);
                proof {
                    lemma_views_update(before, i as int, f);
                }
                m = true;
            },
            None => {},
        }
        i = i + 1;
    }
    assert(views(props@) =~= renamed_fields(fv, prefix@, pv));
    m
}

fn set_text_at(props: &mut Vec<FieldText>, j: usize, value: String)
    requires
        j < old(props).len(),
    ensures
        views(final(props)@) == views(old(props)@).update(j as int, with_value(views(old(props)@)[j as int], value@)),
{
    let f = FieldText { id: props[j].id, kind: props[j].kind, key: props[j].key.clone(), value, origin: props[j].origin };
    let ghost before = props@;
    props.set(j, f);
    proof {
        lemma_views_update(before, j as int, f);
    }
}

fn pot_step_exec(props: &mut Vec<FieldText>) -> (m: bool)
    ensures
        (views(final(props)@), m) == pot_step(views(old(props)@)),
{
    let j = find_key(props, "Sim.Pins");
    if j < props.len() {
        let u = pot_sim_pins_update(props[j].value.as_str());
        if u != props[j].value {
            set_text_at(props, j, u);
            return true;
        }
    }
    false
}

fn rand_step_exec(props: &mut Vec<FieldText>) -> (m: bool)
    ensures
        (views(final(props)@), m) == rand_step(views(old(props)@)),
{
    let mut m = false;
    let k = find_key(props, "Sim.Type");
    if k < props.len() {
        let upper = to_uppercase_text(props[k].value.as_str());
        let u = rand_sim_type_update(upper.as_str());
        if u != props[k].value {
            set_text_at(props, k, u);
            m = true;
        }
    }
    let j = find_key(props, "Sim.Params");
    if j < props.len() {
        let lower = to_lowercase_text(props[j].value.as_str());
        let u = rand_sim_params_update(lower.as_str());
        if u != props[j].value {
            set_text_at(props, j, u);
            m = true;
        }
    }
    m
}

fn mutual_step_exec(props: &mut Vec<FieldText>)
    requires
        key_index(views(old(props)@), "Sim.Type"@, 0) < old(props).len(),
    ensures
        views(final(props)@) == mutual_step(views(old(props)@)),
{
    let k = find_key(props, "Sim.Type");
    let ghost before = props@;
    let _removed = props.remove(k);
    proof {
        lemma_views_remove(before, k as int);
    }
    let j = find_key(props, "Sim.Device");
    if j < props.len() {
        if !str_eq(props[j].value.as_str(), "K") {
            set_text_at(props, j, "K".to_owned());
        }
    } else {
        push_field(props, field_from(&fresh(), "Sim.Device", "K".to_owned()));
    }
}

fn current_branch(props: &mut Vec<FieldText>, prefix: &String, pins: &Vec<String>) -> (m: bool)
    ensures
        (views(final(props)@), m) == current_migration(views(old(props)@), prefix@, pins.deep_view()),
{
    let renamed = rename_fields(props, prefix, pins);
    let k = find_key(props, "Sim.Type");
    if k >= props.len() {
        return renamed;
    }
    let st = to_uppercase_text(props[k].value.as_str());
    proof {
        reveal_strlit("RAND");
    }
    let rand_prefix = "RAND".to_owned();
    if str_eq(st.as_str(), "POT") {
        let p = pot_step_exec(props);
        renamed || p
    } else if starts_with_exec(&st, &rand_prefix) {
        let p = rand_step_exec(props);
        renamed || p
    } else if str_eq(st.as_str(), "MUTUAL") {
        mutual_step_exec(props);
        true
    } else {
        renamed
    }
}

fn has_legacy_exec(props: &Vec<FieldText>) -> (r: bool)
    ensures
        r == has_legacy_fields(views(props@)),
{
    let ghost fv = views(props@);
    let mut i: usize = 0;
    while i < props.len()
        invariant
            0 <= i <= props.len(),
            fv == views(props@),
            forall|j: int| 0 <= j < i ==> !legacy_key(#[trigger] fv[j].key),
        decreases props.len() - i,
    {
        let k = props[i].key.as_str();
        if str_eq(k, "Spice_Primitive") || str_eq(k, "Spice_Node_Sequence") || str_eq(k, "Spice_Model")
            || str_eq(k, "Spice_Netlist_Enabled") || str_eq(k, "Spice_Lib_File") {
            assert(legacy_key(fv[i as int].key));
            return true;
        }
        i = i + 1;
    }
    false
}

fn has_key_exec(props: &Vec<FieldText>, key: &str) -> (r: bool)
    ensures
        r == has_key(views(props@), key@),
{
    find_key(props, key) < props.len()
}

fn has_user_key_exec(props: &Vec<FieldText>, key: &str) -> (r: bool)
    ensures
        r == has_user_key(views(props@), key@),
{
    let ghost fv = views(props@);
    let mut i: usize = 0;
    while i < props.len() && !(props[i].kind.is_user_field() && str_eq(props[i].key.as_str(), key))
        invariant
            0 <= i <= props.len(),
            fv == views(props@),
            user_index(fv, key@, 0) == user_index(fv, key@, i as int),
        decreases props.len() - i,
    {
        i = i + 1;
    }
    i < props.len()
}

fn keyed_trim_exec(props: &Vec<FieldText>, key: &str) -> (r: String)
    ensures
        r@ == keyed_trim(views(props@), key@),
{
    trimmed_or_empty(&keyed_text(props, key))
}

fn lower_first(c: char) -> (r: String)
    ensures
        r@ == seq![c].map_values(|c: char| crate::text::lower_ascii(c)),
{
    let mut v: Vec<char> = Vec::new();
    v.push(crate::text::to_ascii_lowercase(c));
    assert(v@ =~= seq![c].map_values(|c: char| crate::text::lower_ascii(c)));
    crate::text::seq_to_string(&v)
}

fn passive_params_exec(dev: char, value: &String) -> (r: String)
    ensures
        r@ == passive_params(seq![dev], value@),
{
    let key = lower_first(dev);
    let normalized = crate::model::sim_params::normalize_sim_param_value(value.as_str());
    let mut v: Vec<char> = Vec::new();
    crate::text::push_str(&mut v, key.as_str());
    crate::text::push_str(&mut v, "=\"");
    crate::text::push_str(&mut v, normalized.as_str());
    crate::text::push_str(&mut v, "\"");
    crate::text::seq_to_string(&v)
}

fn source_params_exec(value: &String) -> (r: String)
    ensures
        r@ == source_params(value@),
{
    let (name, v) = crate::loader::split_inferred_source_value(value.as_str());
    let mut out: Vec<char> = Vec::new();
    crate::text::push_str(&mut out, name);
    crate::text::push_str(&mut out, "=\"");
    crate::text::push_str(&mut out, v.as_str());
    crate::text::push_str(&mut out, "\"");
    crate::text::seq_to_string(&out)
}

fn some_nonblank(s: String) -> (r: Option<String>)
    ensures
        opt_view(r) == nonblank(Some(s@)),
{
    if s.as_str().is_empty() {
        None
    } else {
        Some(s)
    }
}

fn first_char_of(s: &String) -> (r: Option<char>)
    ensures
        match r {
            Some(c) => s@.len() > 0 && c == s@[0],
            None => s@.len() == 0,
        },
{
    let v = crate::text::str_to_chars(s.as_str());
    if v.len() > 0 {
        Some(v[0])
    } else {
        None
    }
}

fn inferred_plan_exec(props: &Vec<FieldText>, prefix: &String) -> (r: Option<(String, String, String)>)
    ensures
        match inferred_plan(views(props@), prefix@) {
            Some(p) => r matches Some(x) && x.0@ == p.0 && x.1@ == p.1 && x.2@ == p.2,
            None => r is None,
        },
{
    let ghost fv = views(props@);
    let value = value_text_exec(props);
    let dev = keyed_trim_exec(props, "Sim.Device");
    let ty = keyed_trim_exec(props, "Sim.Type");
    let params = keyed_trim_exec(props, "Sim.Params");
    let lib = keyed_trim_exec(props, "Sim.Library");
    let name = keyed_trim_exec(props, "Sim.Name");
    let p = crate::text::trim_string(prefix.as_str());
    let first = first_char_of(&p);
    if value.as_str().is_empty() || !lib.as_str().is_empty() || !name.as_str().is_empty() {
        return None;
    }
    let d = dev.as_str();
    proof {
        reveal_strlit("=");
        reveal_strlit("");
    }
    if (str_eq(d, "R") || str_eq(d, "L") || str_eq(d, "C")) && ty.as_str().is_empty() {
        if params.as_str().is_empty() {
            let c = first_char_of(&dev);
            match c {
                Some(ch) => {
                    assert(dev@ =~= seq![ch]) by {
                        reveal_strlit("R");
                        reveal_strlit("L");
                        reveal_strlit("C");
                    }
                    let t = if crate::loader::looks_behavioral_value(value.as_str()) {
                        "=".to_owned()
                    } else {
                        String::new()
                    };
                    let pp = passive_params_exec(ch, &value);
                    return Some((dev, t, pp));
                },
                None => {
                    proof {
                        reveal_strlit("R");
                        reveal_strlit("L");
                        reveal_strlit("C");
                    }
                    return None;
                },
            }
        }
        return Some((dev, ty, params));
    }
    if dev.as_str().is_empty() && ty.as_str().is_empty() {
        match first {
            Some(ch) => {
                if ch == 'R' || ch == 'L' || ch == 'C' {
                    let mut dv: Vec<char> = Vec::new();
                    dv.push(ch);
                    let t = if crate::loader::looks_behavioral_value(value.as_str()) {
                        "=".to_owned()
                    } else {
                        String::new()
                    };
                    let pp = passive_params_exec(ch, &value);
                    assert(dv@ =~= seq![ch]);
                    return Some((crate::text::seq_to_string(&dv), t, pp));
                }
            },
            None => {},
        }
    }
    if (str_eq(d, "V") || str_eq(d, "I")) && (ty.as_str().is_empty() || str_eq(ty.as_str(), "DC")) {
        if params.as_str().is_empty() {
            return Some((dev, "DC".to_owned(), source_params_exec(&value)));
        }
        return Some((dev, ty, params));
    }
    if dev.as_str().is_empty() && ty.as_str().is_empty() {
        match first {
            Some(ch) => {
                if ch == 'V' || ch == 'I' {
                    let mut dv: Vec<char> = Vec::new();
                    dv.push(ch);
                    assert(dv@ =~= seq![ch]);
                    return Some((crate::text::seq_to_string(&dv), "DC".to_owned(), source_params_exec(&value)));
                }
            },
            None => {},
        }
    }
    None
}

fn backing_value_exec(props: &Vec<FieldText>) -> (r: Option<String>)
    ensures
        opt_view(r) == backing_value(views(props@)),
{
    let v = value_text_exec(props);
    if !v.as_str().is_empty() && !str_eq(v.as_str(), "${SIM.PARAMS}") && !str_eq(v.as_str(), "${SIM.NAME}") {
        Some(v)
    } else {
        None
    }
}

fn prefix_param_exec(prefix: &String) -> (r: String)
    ensures
        r@ == prefix_param(prefix@),
{
    match first_char_of(prefix) {
        Some(c) => {
            let mut v: Vec<char> = Vec::new();
            v.push(crate::text::to_ascii_lowercase(c));
            assert(v@ =~= seq![crate::text::lower_ascii(c)]);
            crate::text::seq_to_string(&v)
        },
        None => String::new(),
    }
}

fn opt_trim_is(o: &Option<String>, t: &str) -> (r: bool)
    ensures
        r == (crate::loader::opt_trim(*o) == Some(t@)),
{
    match o {
        Some(s) => vec_eq_str(&trimmed_chars(s.as_str()), t),
        None => false,
    }
}

fn primary_update_exec(m: &SimModel, value: &String, prefix: &String, npins: usize) -> (r: Option<(String, String, Option<String>)>)
    ensures
        match primary_update(*m, value@, prefix@, npins as nat) {
            Some(u) => r matches Some(x) && x.0@ == u.0 && x.1@ == u.1 && opt_view(x.2) == u.2,
            None => r is None,
        },
{
    proof {
        reveal_strlit("");
    }
    let blank = m.model_type.is_none() || opt_trim_is(&m.model_type, "");
    let is_dc = opt_trim_is(&m.model_type, "DC");
    let bound = m.value_binding.is_some();
    if (opt_trim_is(&m.device, "R") || opt_trim_is(&m.device, "C") || opt_trim_is(&m.device, "L")) && blank {
        if npins != 2 || bound {
            return None;
        }
        let t = if crate::loader::looks_behavioral_value(value.as_str()) {
            Some("=".to_owned())
        } else {
            None
        };
        return Some((prefix_param_exec(prefix), crate::model::sim_params::normalize_sim_param_value(value.as_str()), t));
    }
    if (opt_trim_is(&m.device, "V") || opt_trim_is(&m.device, "I")) && (blank || is_dc) {
        if npins != 2 || bound {
            return None;
        }
        let (n, v) = crate::loader::split_inferred_source_value(value.as_str());
        let t = if m.model_type.is_none() {
            Some("DC".to_owned())
        } else {
            None
        };
        return Some((n.to_owned(), v, t));
    }
    if (opt_trim_is(&m.device, "E") || opt_trim_is(&m.device, "F") || opt_trim_is(&m.device, "G")
        || opt_trim_is(&m.device, "H")) && blank {
        if bound {
            return None;
        }
        return match crate::model::sim_params::normalize_sim_si_value(value.as_str()) {
            Some(x) => Some(("gain".to_owned(), x, None)),
            None => None,
        };
    }
    if opt_trim_is(&m.device, "V") || opt_trim_is(&m.device, "I") {
        match &m.model_type {
            Some(t) => {
                let tt = trimmed_chars(t.as_str());
                if crate::loader::internal_source_type(&tt) && !vec_eq_str(&tt, "PWL") {
                    if npins != 2 || bound {
                        return None;
                    }
                    let name = crate::loader::current_internal_source_primary_param_name(t.as_str());
                    let si = crate::model::sim_params::normalize_sim_si_value(value.as_str());
                    return match (name, si) {
                        (Some(n), Some(x)) => Some((n.to_owned(), x, None)),
                        _ => None,
                    };
                }
            },
            None => {},
        }
    }
    None
}

fn pairs_text(ps: &Vec<(String, String)>) -> (r: String)
    ensures
        r@ == params_text(ps.deep_view()),
{
    let ghost pv = ps.deep_view();
    let ghost target = Seq::new(pv.len(), |i: int| param_pair_text(pv[i].0, pv[i].1));
    let mut items: Vec<String> = Vec::new();
    let mut i: usize = 0;
    while i < ps.len()
        invariant
            0 <= i <= ps.len(),
            pv == ps.deep_view(),
            target == Seq::new(pv.len(), |i: int| param_pair_text(pv[i].0, pv[i].1)),
            items.deep_view() == target.take(i as int),
        decreases ps.len() - i,
    {
        let item = crate::loader::format_sim_param_pair(ps[i].0.as_str(), ps[i].1.as_str());
        let ghost before = items.deep_view();
        items.push(item);
        assert(items.deep_view() =~= before.push(target[i as int]));
        assert(target.take(i + 1) =~= target.take(i as int).push(target[i as int]));
        i = i + 1;
    }
    assert(target.take(ps.len() as int) =~= target);
    crate::text::join_strings(&items, " ")
}

fn upsert_pair(ps: &mut Vec<(String, String)>, name: String, val: String)
    ensures
        final(ps).deep_view() == upsert_pairs(old(ps).deep_view(), name@, val@),
{
    let ghost pv = ps.deep_view();
    let mut i: usize = 0;
    while i < ps.len()
        && !crate::model::sim_params::eq_ignore_case_str(&crate::text::str_to_chars(ps[i].0.as_str()), name.as_str())
        invariant
            0 <= i <= ps.len(),
            pv == ps.deep_view(),
            ci_index(pv, name@, 0) == ci_index(pv, name@, i as int),
        decreases ps.len() - i,
    {
        i = i + 1;
    }
    if i < ps.len() {
        let first = ps[i].0.clone();
        ps.set(i, (first, val));
        assert(ps.deep_view() =~= pv.update(i as int, (pv[i as int].0, val@)));
    } else {
        ps.insert(0, (name, val));
        assert(ps.deep_view() =~= seq![(name@, val@)] + pv);
    }
}

fn zip_pin_map_exec(sp: &Vec<String>, mp: &Vec<String>) -> (r: String)
    requires
        sp.len() == mp.len(),
    ensures
        r@ == zip_pin_map(sp.deep_view(), mp.deep_view()),
{
    let ghost sv = sp.deep_view();
    let ghost mv = mp.deep_view();
    let ghost target = Seq::new(sv.len(), |i: int| sv[i] + seq!['='] + mv[i]);
    let mut items: Vec<String> = Vec::new();
    let mut i: usize = 0;
    while i < sp.len()
        invariant
            0 <= i <= sp.len(),
            sp.len() == mp.len(),
            sv == sp.deep_view(),
            mv == mp.deep_view(),
            target == Seq::new(sv.len(), |i: int| sv[i] + seq!['='] + mv[i]),
            items.deep_view() == target.take(i as int),
        decreases sp.len() - i,
    {
        let mut t: Vec<char> = crate::text::str_to_chars(sp[i].as_str());
        t.push('=');
        crate::text::push_str(&mut t, mp[i].as_str());
        assert(t@ =~= target[i as int]);
        let ghost before = items.deep_view();
        items.push(crate::text::seq_to_string(&t));
        assert(items.deep_view() =~= before.push(target[i as int]));
        assert(target.take(i + 1) =~= target.take(i as int).push(target[i as int]));
        i = i + 1;
    }
    assert(target.take(sp.len() as int) =~= target);
    crate::text::join_strings(&items, " ")
}

fn model_key_field(props: &Vec<FieldText>) -> (r: FieldText)
    ensures
        r@ == (if model_key_index(views(props@), 0) < props.len() {
            views(props@)[model_key_index(views(props@), 0)]
        } else {
            fresh_field()
        }),
{
    let ghost fv = views(props@);
    let mut i: usize = 0;
    while i < props.len() && !(str_eq(props[i].key.as_str(), "Sim.Name") || str_eq(props[i].key.as_str(), "Sim.Library")
        || str_eq(props[i].key.as_str(), "Sim.Device"))
        invariant
            0 <= i <= props.len(),
            fv == views(props@),
            model_key_index(fv, 0) == model_key_index(fv, i as int),
        decreases props.len() - i,
    {
        i = i + 1;
    }
    if i < props.len() {
        clone_field(&props[i])
    } else {
        fresh()
    }
}

/// Adds the warning unless it is already listed.
pub fn push_warning_once(warnings: &mut Vec<String>, warning: String)
    ensures
        old(warnings).deep_view().contains(warning@) ==> final(warnings).deep_view() == old(warnings).deep_view(),
        !old(warnings).deep_view().contains(warning@) ==> final(warnings).deep_view() == old(warnings).deep_view().push(
            warning@,
        ),
{
    let ghost wv = warnings.deep_view();
    let mut i: usize = 0;
    while i < warnings.len()
        invariant
            0 <= i <= warnings.len(),
            wv == warnings.deep_view(),
            forall|j: int| 0 <= j < i ==> wv[j] != warning@,
        decreases warnings.len() - i,
    {
        if warnings[i] == warning {
            assert(wv[i as int] == warning@);
            return;
        }
        i = i + 1;
    }
    assert(!wv.contains(warning@));
    warnings.push(warning);
    assert(warnings.deep_view() =~= wv.push(warning@));
}

/// The reference prefix of a reference text, and whether a symbol with that reference
/// is in the netlist: `~` is read as a space; a reference starting with `#` is left out;
/// the prefix is the reference without its number, trimmed.
pub(crate) fn reference_prefix(reference: &str) -> (r: (String, bool))
    ensures
        ({
            let sp = crate::model::sim_params::replace_char(reference@, '~', ' ');
            &&& r.0@ == prefix_of_reference(sp)
            &&& r.1 == !(sp.len() > 0 && sp[0] == '#')
        }),
{
    let v = crate::text::str_to_chars(reference);
    let spaced = crate::model::sim_params::replace_char_vec(&v, '~', ' ');
    let in_netlist = !(spaced.len() > 0 && spaced[0] == '#');
    let (a, b) = crate::text::trim_bounds(&spaced, 0, spaced.len());
    assert(spaced@.subrange(0, spaced@.len() as int) =~= spaced@);
    let mut e = b;
    while e > a && (crate::text::is_ascii_digit(spaced[e - 1]) || spaced[e - 1] == '?' || spaced[e - 1] == '*')
        invariant
            a <= e <= b <= spaced.len(),
            trim_ref_suffix(spaced@.subrange(a as int, b as int)) == trim_ref_suffix(spaced@.subrange(a as int, e as int)),
        decreases e - a,
    {
        assert(spaced@.subrange(a as int, e as int).drop_last() =~= spaced@.subrange(a as int, e - 1));
        e = e - 1;
    }
    assert(trim_ref_suffix(spaced@.subrange(a as int, e as int)) == spaced@.subrange(a as int, e as int));
    let (c, d) = crate::text::trim_bounds(&spaced, a, e);
    (crate::text::chars_to_string(&spaced, c, d), in_netlist)
}

impl SimSymbol {
    /// A placed symbol as it starts: the reference, value, footprint, datasheet and
    /// description fields, empty; prefix `U`; in the netlist and in simulation; no model.
    pub fn new() -> (r: Self)
        ensures
            views(r.properties@) == seq![
                mandatory_field(PropertyKind::SymbolReference, 0),
                mandatory_field(PropertyKind::SymbolValue, 1),
                mandatory_field(PropertyKind::SymbolFootprint, 2),
                mandatory_field(PropertyKind::SymbolDatasheet, 3),
                mandatory_field(PropertyKind::SymbolDescription, 4),
            ],
            r.prefix@ == "U"@,
            r.in_netlist,
            !r.excluded_from_sim,
            r.sim_model is None,
    {
        let kinds = [
            PropertyKind::SymbolReference,
            PropertyKind::SymbolValue,
            PropertyKind::SymbolFootprint,
            PropertyKind::SymbolDatasheet,
            PropertyKind::SymbolDescription,
        ];
        let mut properties: Vec<FieldText> = Vec::new();
        let mut i: usize = 0;
        while i < 5
            invariant
                0 <= i <= 5,
                kinds@ == seq![
                    PropertyKind::SymbolReference,
                    PropertyKind::SymbolValue,
                    PropertyKind::SymbolFootprint,
                    PropertyKind::SymbolDatasheet,
                    PropertyKind::SymbolDescription,
                ],
                views(properties@) == Seq::new(i as nat, |j: int| mandatory_field(kinds@[j], j as usize)),
            decreases 5 - i,
        {
            let kind = kinds[i];
            let f = FieldText {
                id: kind.default_field_id(),
                kind,
                key: kind.canonical_key().to_owned(),
                value: String::new(),
                origin: Some(i),
            };
            push_field(&mut properties, f);
            assert(views(properties@) =~= Seq::new((i + 1) as nat, |j: int| mandatory_field(kinds@[j], j as usize)));
            i = i + 1;
        }
        assert(views(properties@) =~= seq![
            mandatory_field(PropertyKind::SymbolReference, 0),
            mandatory_field(PropertyKind::SymbolValue, 1),
            mandatory_field(PropertyKind::SymbolFootprint, 2),
            mandatory_field(PropertyKind::SymbolDatasheet, 3),
            mandatory_field(PropertyKind::SymbolDescription, 4),
        ]);
        SimSymbol { properties, prefix: "U".to_owned(), in_netlist: true, excluded_from_sim: false, sim_model: None }
    }

    /// Adds a user field with the key and text, as a fresh property does.
    pub fn push_user_field(&mut self, key: &str, value: String)
        ensures
            views(final(self).properties@) == views(old(self).properties@).push(
                from_template(fresh_field(), key@, value@),
            ),
            final(self).prefix == old(self).prefix,
            final(self).in_netlist == old(self).in_netlist,
            final(self).excluded_from_sim == old(self).excluded_from_sim,
            final(self).sim_model == old(self).sim_model,
    {
        push_field(&mut self.properties, field_from(&fresh(), key, value));
    }

    /// Reads the reference prefix and whether the symbol is in the netlist from the
    /// reference field: a reference starting with `#` (after `~` is read as a space) is
    /// left out of the netlist; the prefix is the reference without its number.
    pub fn update_prefix_from_reference(&mut self)
        ensures
            final(self).properties == old(self).properties,
            final(self).excluded_from_sim == old(self).excluded_from_sim,
            final(self).sim_model == old(self).sim_model,
            kind_index(views(old(self).properties@), PropertyKind::SymbolReference, 0) < old(self).properties.len() ==> {
                let r = reference_spaced(views(old(self).properties@));
                &&& final(self).in_netlist == !(r.len() > 0 && r[0] == '#')
                &&& final(self).prefix@ == prefix_of_reference(r)
            },
            kind_index(views(old(self).properties@), PropertyKind::SymbolReference, 0) >= old(self).properties.len()
                ==> *final(self) == *old(self),
    {
        let k = find_kind(&self.properties, PropertyKind::SymbolReference);
        if k >= self.properties.len() {
            return;
        }
        let (prefix, in_netlist) = reference_prefix(self.properties[k].value.as_str());
        self.in_netlist = in_netlist;
        self.prefix = prefix;
    }

    /// Sets the text of the first field of a kind, giving it the kind's id and key; a new
    /// reference updates the prefix.
    pub fn set_field_text(&mut self, kind: PropertyKind, value: String)
        requires
            kind_index(views(old(self).properties@), kind, 0) < old(self).properties.len(),
        ensures
            views(final(self).properties@) == set_kind_text(views(old(self).properties@), kind, value@),
            final(self).excluded_from_sim == old(self).excluded_from_sim,
            final(self).sim_model == old(self).sim_model,
            kind != PropertyKind::SymbolReference ==> final(self).prefix == old(self).prefix
                && final(self).in_netlist == old(self).in_netlist,
            kind == PropertyKind::SymbolReference ==> {
                let r = crate::model::sim_params::replace_char(value@, '~', ' ');
                &&& final(self).in_netlist == !(r.len() > 0 && r[0] == '#')
                &&& final(self).prefix@ == prefix_of_reference(r)
            },
    {
        let k = find_kind(&self.properties, kind);
        let f = FieldText {
            id: kind.default_field_id(),
            kind: self.properties[k].kind,
            key: kind.canonical_key().to_owned(),
            value,
            origin: self.properties[k].origin,
        };
        let ghost before = self.properties@;
        self.properties.set(k, f);
        proof {
            lemma_views_update(before, k as int, f);
            lemma_kind_index(views(before), kind, 0);
        }
        if kind == PropertyKind::SymbolReference {
            proof {
                let nv = views(self.properties@);
                lemma_kind_index(nv, kind, 0);
                assert(forall|j: int| 0 <= j < k ==> nv[j] == views(before)[j]);
                assert(kind_index(nv, kind, 0) == k) by {
                    lemma_kind_index_at(nv, kind, k as int);
                }
            }
            self.update_prefix_from_reference();
        }
    }

    /// Upgrades the simulation fields that older versions wrote, then reads the model
    /// from the fields. `source_pins` are the symbol's pin numbers in pin order;
    /// `library_resolves` tells whether the library reference that
    /// [`SimSymbol::library_probe`] offers was found. Whether anything changed in the
    /// fields is returned.
    pub fn migrate_sim_model(&mut self, source_pins: &Vec<String>, library_resolves: bool) -> (migrated: bool)
        requires
            has_legacy_fields(views(old(self).properties@)) ==> legacy_migration_safe(
                views(old(self).properties@),
                old(self).prefix@,
            ),
        ensures
            (views(final(self).properties@), migrated) == sim_field_migration(
                views(old(self).properties@),
                old(self).prefix@,
                source_pins.deep_view(),
                library_resolves,
            ),
            final(self).prefix == old(self).prefix,
            final(self).in_netlist == old(self).in_netlist,
            final(self).excluded_from_sim == old(self).excluded_from_sim,
            model_synced(*final(self)),
    {
        let migrated = self.migrate_fields(source_pins, library_resolves);
        self.sync_sim_model_from_properties();
        migrated
    }

    fn migrate_fields(&mut self, source_pins: &Vec<String>, library_resolves: bool) -> (migrated: bool)
        requires
            has_legacy_fields(views(old(self).properties@)) ==> legacy_migration_safe(
                views(old(self).properties@),
                old(self).prefix@,
            ),
        ensures
            (views(final(self).properties@), migrated) == sim_field_migration(
                views(old(self).properties@),
                old(self).prefix@,
                source_pins.deep_view(),
                library_resolves,
            ),
            final(self).prefix == old(self).prefix,
            final(self).in_netlist == old(self).in_netlist,
            final(self).excluded_from_sim == old(self).excluded_from_sim,
    {
        if !has_legacy_exec(&self.properties) {
            return current_branch(&mut self.properties, &self.prefix, source_pins);
        }
        let current = value_text_exec(&self.properties);
        let device = trimmed_or_empty(&user_text_exec(&self.properties, "Spice_Primitive"));
        let d = device.as_str();
        let can_infer = !d.is_empty() && !has_key_exec(&self.properties, "Spice_Model") && !has_key_exec(
            &self.properties,
            "Spice_Lib_File",
        ) && (str_eq(d, "R") || str_eq(d, "L") || str_eq(d, "C") || str_eq(d, "V") || str_eq(d, "I"))
            && starts_with_exec(&self.prefix, &device);
        if can_infer {
            infer_branch(&mut self.properties);
            return true;
        }
        let model = legacy_model_exec(&self.properties, &current);
        let has_lib = has_user_key_exec(&self.properties, "Spice_Lib_File");
        let source_device = str_eq(d, "V") || str_eq(d, "I");
        if !has_lib && source_device && crate::loader::parse_legacy_dc_model_value(model.as_str()).is_some() {
            dc_branch(&mut self.properties, source_pins, device);
            return true;
        }
        if !has_lib && source_device && crate::loader::parse_legacy_source_model(model.as_str()).is_some() {
            source_branch(&mut self.properties, source_pins, device);
            return true;
        }
        let raw = has_key_exec(&self.properties, "Spice_Model") || has_key_exec(&self.properties, "Spice_Lib_File")
            || !model.as_str().is_empty();
        if !raw {
            return false;
        }
        raw_branch(&mut self.properties, source_pins, library_resolves);
        true
    }

    /// The symbol as it would read with a legacy library reference upgraded, for checking
    /// that the library holds the model before the upgrade keeps it; `None` where the
    /// upgrade tries no library reference.
    pub fn library_probe(&self) -> (r: Option<SimSymbol>)
        ensures
            r is Some <==> {
                let fv = views(self.properties@);
                &&& has_legacy_fields(fv)
                &&& !can_infer(fv, self.prefix@)
                &&& !dc_applies(fv)
                &&& !source_applies(fv)
                &&& raw_applies(fv)
                &&& library_reference_applies(fv)
            },
            r matches Some(c) ==> {
                &&& views(c.properties@) == library_candidate_fields(views(self.properties@))
                &&& c.prefix == self.prefix
                &&& c.excluded_from_sim == self.excluded_from_sim
                &&& model_synced(c)
            },
    {
        if !has_legacy_exec(&self.properties) {
            return None;
        }
        let current = value_text_exec(&self.properties);
        let device = trimmed_or_empty(&user_text_exec(&self.properties, "Spice_Primitive"));
        let d = device.as_str();
        let can_infer = !d.is_empty() && !has_key_exec(&self.properties, "Spice_Model") && !has_key_exec(
            &self.properties,
            "Spice_Lib_File",
        ) && (str_eq(d, "R") || str_eq(d, "L") || str_eq(d, "C") || str_eq(d, "V") || str_eq(d, "I"))
            && starts_with_exec(&self.prefix, &device);
        if can_infer {
            return None;
        }
        let model = legacy_model_exec(&self.properties, &current);
        let has_lib = has_user_key_exec(&self.properties, "Spice_Lib_File");
        let source_device = str_eq(d, "V") || str_eq(d, "I");
        if !has_lib && source_device && crate::loader::parse_legacy_dc_model_value(model.as_str()).is_some() {
            return None;
        }
        if !has_lib && source_device && crate::loader::parse_legacy_source_model(model.as_str()).is_some() {
            return None;
        }
        let raw = has_key_exec(&self.properties, "Spice_Model") || has_key_exec(&self.properties, "Spice_Lib_File")
            || !model.as_str().is_empty();
        if !raw {
            return None;
        }
        let mut props: Vec<FieldText> = Vec::new();
        let mut i: usize = 0;
        while i < self.properties.len()
            invariant
                0 <= i <= self.properties.len(),
                views(props@) == views(self.properties@).take(i as int),
            decreases self.properties.len() - i,
        {
            push_field(&mut props, clone_field(&self.properties[i]));
            assert(views(self.properties@).take(i + 1) =~= views(self.properties@).take(i as int).push(
                self.properties@[i as int]@,
            ));
            i = i + 1;
        }
        assert(views(self.properties@).take(self.properties.len() as int) =~= views(self.properties@));
        let parts = raw_parts(&mut props);
        if parts.lib.as_str().is_empty() || parts.model_name.as_str().is_empty() {
            return None;
        }
        let t = parts.taken;
        let extra = library_fields_exec(
            &t.prim,
            &t.model,
            &t.lib,
            &parts.value_tmpl,
            parts.lib,
            parts.model_name,
            parts.params,
        );
        append_fields(&mut props, extra);
        let mut candidate = SimSymbol {
            properties: props,
            prefix: self.prefix.clone(),
            in_netlist: self.in_netlist,
            excluded_from_sim: self.excluded_from_sim,
            sim_model: None,
        };
        candidate.sync_sim_model_from_properties();
        Some(candidate)
    }

    /// Infers a two-pin symbol's model from its value where no model is named (the
    /// inferred-value model); whether it did so is returned.
    pub fn infer_sim_model(&mut self, source_pins: &Vec<String>) -> (r: bool)
        ensures
            final(self).properties == old(self).properties,
            final(self).prefix == old(self).prefix,
            final(self).in_netlist == old(self).in_netlist,
            final(self).excluded_from_sim == old(self).excluded_from_sim,
            r == (source_pins@.len() == 2 && inferred_plan(views(old(self).properties@), old(self).prefix@) is Some),
            r ==> (final(self).sim_model matches Some(m) && inferred_model(
                m,
                inferred_plan(views(old(self).properties@), old(self).prefix@)->0,
                views(old(self).properties@),
                source_pins.deep_view(),
                old(self).excluded_from_sim,
            )),
            !r ==> final(self).sim_model == old(self).sim_model,
    {
        if source_pins.len() != 2 {
            return false;
        }
        let plan = inferred_plan_exec(&self.properties, &self.prefix);
        let (device, model_type, params) = match plan {
            Some(x) => x,
            None => {
                return false;
            },
        };
        let ghost fv = views(self.properties@);
        let value = value_text_exec(&self.properties);
        let pin_pairs = match keyed_text(&self.properties, "Sim.Pins") {
            Some(p) => crate::loader::parse_loader_sim_pin_pairs(p.as_str()),
            None => {
                let mut v: Vec<(String, String)> = Vec::new();
                v.push((source_pins[0].clone(), "+".to_owned()));
                v.push((source_pins[1].clone(), "-".to_owned()));
                assert(v.deep_view() =~= seq![(source_pins.deep_view()[0], "+"@), (source_pins.deep_view()[1], "-"@)]);
                v
            },
        };
        let pins = map_from_pairs(&pin_pairs);
        let param_pairs = parse_sim_param_pairs(params.as_str());
        let param_values = map_from_pairs(&param_pairs);
        self.sim_model = Some(
            SimModel {
                device: some_nonblank(device),
                model_type: some_nonblank(model_type),
                library: None,
                name: None,
                ibis_pin: None,
                ibis_model: None,
                ibis_diff: false,
                params: some_nonblank(params),
                param_pairs,
                param_values,
                pin_pairs,
                pins,
                value_binding: Some(SimValueBinding::Value),
                stored_value: Some(value),
                enabled: !self.excluded_from_sim,
                origin: Some(SimModelOrigin::InferredValue),
                resolved_library: None,
                resolved_name: None,
                resolved_kind: None,
                resolved_model_type: None,
                resolved_ibis_model_type: None,
                resolved_ibis_diff_pin: None,
                generated_pin_names: Vec::new(),
                generated_param_pairs: Vec::new(),
            },
        );
        true
    }

    /// Backs the model by the symbol's value: gives it its default pins, and sets its main
    /// parameter from the value where the model takes one (see [`primary_update`]).
    /// Whether the model changed in either way is returned.
    pub fn hydrate_value_backed_sim_model(&mut self, source_pins: &Vec<String>) -> (r: bool)
        ensures
            final(self).properties == old(self).properties,
            final(self).prefix == old(self).prefix,
            final(self).in_netlist == old(self).in_netlist,
            final(self).excluded_from_sim == old(self).excluded_from_sim,
            old(self).sim_model is None ==> !r && final(self).sim_model is None,
            old(self).sim_model matches Some(m0) ==> (final(self).sim_model matches Some(mf) && value_backed(
                m0,
                mf,
                views(old(self).properties@),
                old(self).prefix@,
                source_pins.deep_view(),
                r,
            )),
    {
        let value = backing_value_exec(&self.properties);
        let mut taken: Option<SimModel> = None;
        std::mem::swap(&mut taken, &mut self.sim_model);
        let mut m = match taken {
            Some(m) => m,
            None => {
                return false;
            },
        };
        let ghost m0 = m;
        let ghost pins = source_pins.deep_view();
        assert(crate::loader::string_views(source_pins@) =~= pins);
        let defaulted = crate::loader::maybe_default_current_sim_pins(&mut m, source_pins.as_slice());
        let ghost m1 = m;
        let v = match value {
            Some(v) => v,
            None => {
                self.sim_model = Some(m);
                assert(crate::loader::defaulted_pins(m0, m1, pins, defaulted));
                return defaulted;
            },
        };
        let u = primary_update_exec(&m, &v, &self.prefix, source_pins.len());
        let (name, val, new_type) = match u {
            Some(x) => x,
            None => {
                self.sim_model = Some(m);
                assert(crate::loader::defaulted_pins(m0, m1, pins, defaulted));
                return defaulted;
            },
        };
        match new_type {
            Some(t) => {
                m.model_type = Some(t);
            },
            None => {},
        }
        upsert_pair(&mut m.param_pairs, name, val);
        m.param_values = map_from_pairs(&m.param_pairs);
        m.params = if m.param_pairs.len() > 0 {
            Some(pairs_text(&m.param_pairs))
        } else {
            None
        };
        m.value_binding = Some(SimValueBinding::Value);
        m.stored_value = Some(v);
        let ghost m2 = m;
        assert(primary_applied(m1, m2, primary_update(m1, backing_value(views(self.properties@))->0, self.prefix@, pins.len()) -> 0, backing_value(views(self.properties@))->0));
        let d2 = crate::loader::maybe_default_current_sim_pins(&mut m, source_pins.as_slice());
        assert(crate::loader::defaulted_pins(m2, m, pins, d2));
        assert(crate::loader::defaulted_pins(m0, m1, pins, defaulted));
        self.sim_model = Some(m);
        true
    }

    /// A raw SPICE model without parameters, binding or stored value is bound to the
    /// symbol's value where it has one; whether it was is returned.
    pub fn hydrate_raw_spice_value(&mut self) -> (r: bool)
        ensures
            final(self).properties == old(self).properties,
            final(self).prefix == old(self).prefix,
            final(self).in_netlist == old(self).in_netlist,
            final(self).excluded_from_sim == old(self).excluded_from_sim,
            r == (old(self).sim_model matches Some(m) && m.origin == Some(SimModelOrigin::RawSpice)
                && m.params is None && m.value_binding is None && m.stored_value is None && backing_value(
                views(old(self).properties@),
            ) is Some),
            r ==> (old(self).sim_model matches Some(m) && final(self).sim_model matches Some(mf) && mf == SimModel {
                value_binding: Some(SimValueBinding::Value),
                stored_value: mf.stored_value,
                ..m
            } && opt_view(mf.stored_value) == backing_value(views(old(self).properties@))),
            !r ==> final(self).sim_model == old(self).sim_model,
    {
        let value = backing_value_exec(&self.properties);
        let mut taken: Option<SimModel> = None;
        std::mem::swap(&mut taken, &mut self.sim_model);
        let mut m = match taken {
            Some(m) => m,
            None => {
                return false;
            },
        };
        if m.origin != Some(SimModelOrigin::RawSpice) || m.params.is_some() || m.value_binding.is_some()
            || m.stored_value.is_some() {
            self.sim_model = Some(m);
            return false;
        }
        match value {
            Some(v) => {
                m.value_binding = Some(SimValueBinding::Value);
                m.stored_value = Some(v);
                self.sim_model = Some(m);
                true
            },
            None => {
                self.sim_model = Some(m);
                false
            },
        }
    }

    /// Gives a library or IBIS model without pin assignments a `Sim.Pins` field (see
    /// [`needs_resolved_pins`]) and reads the model again; `model_pins` are the pins of
    /// the model that the library lookup found. Whether the field was added is returned.
    pub fn default_resolved_pins(&mut self, source_pins: &Vec<String>, model_pins: Option<&Vec<String>>) -> (r: bool)
        ensures
            r == needs_resolved_pins(old(self).sim_model, source_pins.deep_view()),
            r ==> views(final(self).properties@) == views(old(self).properties@).push(
                resolved_pins_field(
                    views(old(self).properties@),
                    source_pins.deep_view(),
                    match model_pins {
                        Some(mp) => Some(mp.deep_view()),
                        None => None,
                    },
                ),
            ),
            r ==> model_synced(*final(self)),
            !r ==> *final(self) == *old(self),
            final(self).prefix == old(self).prefix,
            final(self).in_netlist == old(self).in_netlist,
            final(self).excluded_from_sim == old(self).excluded_from_sim,
    {
        let should = match &self.sim_model {
            Some(m) => (m.origin == Some(SimModelOrigin::LibraryReference) || m.origin == Some(SimModelOrigin::Ibis))
                && m.pin_pairs.len() == 0,
            None => false,
        };
        if !should || source_pins.len() == 0 {
            return false;
        }
        let value = match model_pins {
            Some(mp) => if mp.len() == source_pins.len() {
                assert(mp.deep_view().len() == mp.len());
                zip_pin_map_exec(source_pins, mp)
            } else {
                default_sim_pins_value(source_pins)
            },
            None => default_sim_pins_value(source_pins),
        };
        proof {
            match model_pins {
                Some(mp) => {
                    assert(mp.deep_view().len() == mp.len());
                },
                None => {},
            }
        }
        let t = model_key_field(&self.properties);
        proof {
            lemma_model_key_index(views(self.properties@), 0);
        }
        push_field(&mut self.properties, field_from(&t, "Sim.Pins", value));
        self.sync_sim_model_from_properties();
        true
    }

    /// Records what the library lookup found in the model (see [`resolution_applied`]);
    /// a symbol without a model is left alone.
    pub fn apply_resolution(&mut self, library: Option<ResolvedSimLibrary>, model: Option<ResolvedSimModel>)
        ensures
            final(self).properties == old(self).properties,
            final(self).prefix == old(self).prefix,
            final(self).in_netlist == old(self).in_netlist,
            final(self).excluded_from_sim == old(self).excluded_from_sim,
            old(self).sim_model is None ==> final(self).sim_model is None,
            old(self).sim_model matches Some(m1) ==> (final(self).sim_model matches Some(m2) && resolution_applied(
                m1,
                m2,
                library,
                model,
            )),
    {
        let mut taken: Option<SimModel> = None;
        std::mem::swap(&mut taken, &mut self.sim_model);
        let mut m = match taken {
            Some(m) => m,
            None => {
                return;
            },
        };
        let ghost m1 = m;
        let ibis = match &library {
            Some(l) => l.kind == SimLibraryKind::Ibis,
            None => false,
        };
        let fallback_name = if m.library.is_some() {
            let n = trimmed_or_empty(&m.name);
            proof {
                reveal_strlit("unknown");
            }
            if n.as_str().is_empty() {
                Some("unknown".to_owned())
            } else {
                Some(n)
            }
        } else {
            None
        };
        m.resolved_library = library;
        match model {
            Some(r) => {
                m.resolved_name = Some(r.name);
                m.resolved_kind = Some(r.kind);
                m.resolved_model_type = r.model_type;
                m.resolved_ibis_model_type = r.ibis_model_type;
                m.resolved_ibis_diff_pin = r.diff_pin;
                m.generated_param_pairs = r.params;
                m.generated_pin_names = r.pins;
            },
            None => {
                m.resolved_name = fallback_name;
                m.resolved_kind = None;
                m.resolved_model_type = None;
                m.resolved_ibis_model_type = None;
                m.resolved_ibis_diff_pin = None;
                m.generated_param_pairs = Vec::new();
                m.generated_pin_names = Vec::new();
            },
        }
        if ibis {
            m.origin = Some(SimModelOrigin::Ibis);
        }
        self.sim_model = Some(m);
    }

    /// Whether the model is missing or names nothing, so that the value is to be read as
    /// the model.
    pub fn needs_inferred_model(&self) -> (r: bool)
        ensures
            r == needs_inferred(self.sim_model),
    {
        match &self.sim_model {
            Some(m) => m.origin == Some(SimModelOrigin::Fields) && m.device.is_none() && m.model_type.is_none()
                && m.library.is_none() && m.name.is_none() && m.params.is_none(),
            None => true,
        }
    }

    /// The warning for a device and model type that no built-in model covers.
    pub fn unresolved_builtin_sim_model_warning(&self) -> (r: Option<String>)
        ensures
            opt_view(r) == builtin_warning(self.sim_model, views(self.properties@)),
    {
        let m = match &self.sim_model {
            Some(m) => m,
            None => {
                return None;
            },
        };
        if m.library.is_some() {
            return None;
        }
        let d = match &m.device {
            Some(d) => crate::text::trim_string(d.as_str()),
            None => {
                return None;
            },
        };
        let t = match &m.model_type {
            Some(t) => crate::text::trim_string(t.as_str()),
            None => {
                return None;
            },
        };
        if d.as_str().is_empty() || t.as_str().is_empty() || crate::loader::is_supported_builtin_sim_type(
            d.as_str(),
            t.as_str(),
        ) {
            proof {
                crate::text::lemma_trim_idempotent(m.device->0@);
                crate::text::lemma_trim_idempotent(m.model_type->0@);
            }
            return None;
        }
        proof {
            crate::text::lemma_trim_idempotent(m.device->0@);
            crate::text::lemma_trim_idempotent(m.model_type->0@);
        }
        let k = find_kind(&self.properties, PropertyKind::SymbolReference);
        let reference = if k < self.properties.len() {
            self.properties[k].value.clone()
        } else {
            String::new()
        };
        if reference.as_str().is_empty() {
            Some("No simulation model definition found.".to_owned())
        } else {
            let mut v: Vec<char> = Vec::new();
            crate::text::push_str(&mut v, "No simulation model definition found for symbol '");
            crate::text::push_str(&mut v, reference.as_str());
            crate::text::push_str(&mut v, "'.");
            Some(crate::text::seq_to_string(&v))
        }
    }

    /// Reads the simulation model from the `Sim.*` fields; a symbol with none of them
    /// has no model.
    pub fn sync_sim_model_from_properties(&mut self)
        ensures
            final(self).properties == old(self).properties,
            final(self).prefix == old(self).prefix,
            final(self).in_netlist == old(self).in_netlist,
            final(self).excluded_from_sim == old(self).excluded_from_sim,
            no_sim_fields(views(old(self).properties@)) ==> final(self).sim_model is None,
            !no_sim_fields(views(old(self).properties@)) ==> (final(self).sim_model matches Some(m)
                && model_from_fields(m, views(old(self).properties@), old(self).excluded_from_sim)),
    {
        let ghost fv = views(self.properties@);
        let value_binding = value_binding_exec(&self.properties);
        let device = keyed_text(&self.properties, "Sim.Device");
        let explicit_model_type = keyed_text(&self.properties, "Sim.Type");
        let explicit_library = keyed_text(&self.properties, "Sim.Library");
        let has_explicit_library = explicit_library.is_some();
        let explicit_name = keyed_text(&self.properties, "Sim.Name");
        let has_explicit_name = explicit_name.is_some();
        let ibis_pin = keyed_text(&self.properties, "Sim.Ibis.Pin");
        let ibis_model = keyed_text(&self.properties, "Sim.Ibis.Model");
        let ibis_diff = trimmed_is(&keyed_text(&self.properties, "Sim.Ibis.Diff"), "1");
        let params = keyed_text(&self.properties, "Sim.Params");
        let param_pairs = match &params {
            Some(p) => parse_sim_param_pairs(p.as_str()),
            None => Vec::new(),
        };
        assert(param_pairs.deep_view() =~= param_pairs_of(fv));
        let param_values = map_from_pairs(&param_pairs);
        let model_type = opt_or(explicit_model_type, last_pair_nonblank(&param_pairs, "type"));
        let library = opt_or(explicit_library, last_pair_nonblank(&param_pairs, "lib"));
        let name = opt_or(explicit_name, last_pair_nonblank(&param_pairs, "model"));
        let pin_pairs = match keyed_text(&self.properties, "Sim.Pins") {
            Some(p) => parse_sim_pin_pairs(p.as_str()),
            None => Vec::new(),
        };
        assert(pin_pairs.deep_view() =~= pin_pairs_of(fv));
        let pins = map_from_pairs(&pin_pairs);
        proof {
            reveal_strlit("");
            assert(""@ =~= Seq::<char>::empty());
        }
        let builtin = match &device {
            Some(d) => crate::loader::is_supported_builtin_sim_type(
                d.as_str(),
                match &model_type {
                    Some(t) => t.as_str(),
                    None => "",
                },
            ),
            None => false,
        };
        let spice = match &device {
            Some(d) => str_eq(d.as_str(), "SPICE"),
            None => false,
        };
        let origin = if trimmed_is(&device, "IBIS") || ibis_diff || ibis_pin.is_some()
            || ibis_model.is_some() {
            Some(SimModelOrigin::Ibis)
        } else if library.is_some() || (has_explicit_library && has_explicit_name) {
            Some(SimModelOrigin::LibraryReference)
        } else if spice {
            Some(SimModelOrigin::RawSpice)
        } else if builtin {
            Some(SimModelOrigin::BuiltIn)
        } else if value_binding.is_some() {
            Some(SimModelOrigin::InferredValue)
        } else if device.is_some() || ibis_diff || library.is_some() || name.is_some()
            || params.is_some() || pin_pairs.len() > 0 {
            Some(SimModelOrigin::Fields)
        } else {
            None
        };
        if device.is_none() && model_type.is_none() && library.is_none() && name.is_none()
            && ibis_pin.is_none() && ibis_model.is_none() && !ibis_diff && params.is_none()
            && pin_pairs.len() == 0 {
            self.sim_model = None;
            return;
        }
        self.sim_model = Some(
            SimModel {
                device,
                model_type,
                library,
                name,
                ibis_pin,
                ibis_model,
                ibis_diff,
                params,
                param_pairs,
                param_values,
                pin_pairs,
                pins,
                value_binding,
                stored_value: None,
                enabled: !self.excluded_from_sim,
                origin,
                resolved_library: None,
                resolved_name: None,
                resolved_kind: None,
                resolved_model_type: None,
                resolved_ibis_model_type: None,
                resolved_ibis_diff_pin: None,
                generated_pin_names: Vec::new(),
                generated_param_pairs: Vec::new(),
            },
        );
    }
}

} // verus!
