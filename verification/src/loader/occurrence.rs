//! Occurrence state of placed symbols and sheets: the baseline captured after loading,
//! the instance data of the selected sheet occurrence (reference, unit, value, footprint)
//! and the fields and flags of the current variant laid over that baseline.
//!
//! Only what this refresh reads and writes is held here: a symbol's reference prefix,
//! unit, flags, fields, whether its simulation model is enabled, its instances and its
//! captured baseline; a sheet's flags, fields, instances and baseline.

use crate::loader::{pair_views, sheet_path, instance_index, LoadedSheetPath};
use crate::model::property::{
    new_field_view, next_field_ordinal, ordinal_after, ordinals_fit, prop_views, sort_ordinal_of, Property,
    PropertyView,
};
use crate::model::sim_fields::{prefix_of_reference, reference_prefix};
use crate::model::sim_params::replace_char;
use crate::model::{
    spec_canonical_key, spec_default_field_id, spec_is_user_field, ItemVariant, LabelKind, PropertyKind,
    SheetLocalInstance, SymbolLocalInstance,
};
use vstd::prelude::*;

verus! {

/// The occurrence state of a symbol as it was before any instance or variant data was
/// laid over it.
#[derive(Debug, Clone)]
pub struct SymbolOccurrenceBase {
    pub unit: Option<i32>,
    pub excluded_from_sim: bool,
    pub in_bom: bool,
    pub on_board: bool,
    pub in_pos_files: bool,
    pub dnp: bool,
    pub properties: Vec<Property>,
    pub sim_model_enabled: Option<bool>,
}

/// The occurrence state of a sheet as it was before any variant data was laid over it.
#[derive(Debug, Clone)]
pub struct SheetOccurrenceBase {
    pub excluded_from_sim: bool,
    pub in_bom: bool,
    pub on_board: bool,
    pub dnp: bool,
    pub properties: Vec<Property>,
}

/// A placed symbol as the loader's passes see it: its UUID, whether its library symbol
/// is a power symbol, its reference prefix, whether it is in the netlist, its unit,
/// flags and fields, whether its simulation model (if it has one) is enabled, its
/// instances, and the captured baseline.
#[derive(Debug, Clone)]
pub struct LiveSymbol {
    pub uuid: Option<String>,
    pub power: bool,
    pub prefix: String,
    pub in_netlist: bool,
    pub unit: Option<i32>,
    pub excluded_from_sim: bool,
    pub in_bom: bool,
    pub on_board: bool,
    pub in_pos_files: bool,
    pub dnp: bool,
    pub properties: Vec<Property>,
    pub sim_model_enabled: Option<bool>,
    pub instances: Vec<SymbolLocalInstance>,
    pub occurrence_base: Option<SymbolOccurrenceBase>,
}

/// A placed sheet as occurrence refresh sees it: its flags and fields, its instances,
/// and the captured baseline.
#[derive(Debug, Clone)]
pub struct LiveSheet {
    pub excluded_from_sim: bool,
    pub in_bom: bool,
    pub on_board: bool,
    pub dnp: bool,
    pub properties: Vec<Property>,
    pub instances: Vec<SheetLocalInstance>,
    pub occurrence_base: Option<SheetOccurrenceBase>,
}

/// The occurrence state of a symbol as values.
pub struct SymbolView {
    pub prefix: Seq<char>,
    pub in_netlist: bool,
    pub unit: Option<i32>,
    pub excluded_from_sim: bool,
    pub in_bom: bool,
    pub on_board: bool,
    pub in_pos_files: bool,
    pub dnp: bool,
    pub properties: Seq<PropertyView>,
    pub sim_model_enabled: Option<bool>,
}

/// The occurrence state of a sheet as values.
pub struct SheetView {
    pub excluded_from_sim: bool,
    pub in_bom: bool,
    pub on_board: bool,
    pub dnp: bool,
    pub properties: Seq<PropertyView>,
}

impl LiveSymbol {
    /// The symbol's occurrence state.
    pub open spec fn state(self) -> SymbolView {
        SymbolView {
            prefix: self.prefix@,
            in_netlist: self.in_netlist,
            unit: self.unit,
            excluded_from_sim: self.excluded_from_sim,
            in_bom: self.in_bom,
            on_board: self.on_board,
            in_pos_files: self.in_pos_files,
            dnp: self.dnp,
            properties: prop_views(self.properties@),
            sim_model_enabled: self.sim_model_enabled,
        }
    }
}

impl LiveSheet {
    /// The sheet's occurrence state.
    pub open spec fn state(self) -> SheetView {
        SheetView {
            excluded_from_sim: self.excluded_from_sim,
            in_bom: self.in_bom,
            on_board: self.on_board,
            dnp: self.dnp,
            properties: prop_views(self.properties@),
        }
    }
}

/// The state captured from a symbol.
pub open spec fn symbol_base_of(s: SymbolView) -> (Option<i32>, bool, bool, bool, bool, bool, Seq<PropertyView>, Option<bool>) {
    (s.unit, s.excluded_from_sim, s.in_bom, s.on_board, s.in_pos_files, s.dnp, s.properties, s.sim_model_enabled)
}

/// A captured symbol baseline as values.
pub open spec fn symbol_base_view(b: SymbolOccurrenceBase) -> (Option<i32>, bool, bool, bool, bool, bool, Seq<PropertyView>, Option<bool>) {
    (b.unit, b.excluded_from_sim, b.in_bom, b.on_board, b.in_pos_files, b.dnp, prop_views(b.properties@), b.sim_model_enabled)
}

/// The symbol state with a captured baseline put back (the prefix and netlist flag stay).
pub open spec fn symbol_restored(s: SymbolView, base: Option<(Option<i32>, bool, bool, bool, bool, bool, Seq<PropertyView>, Option<bool>)>) -> SymbolView {
    match base {
        Some(b) => SymbolView {
            prefix: s.prefix,
            in_netlist: s.in_netlist,
            unit: b.0,
            excluded_from_sim: b.1,
            in_bom: b.2,
            on_board: b.3,
            in_pos_files: b.4,
            dnp: b.5,
            properties: b.6,
            sim_model_enabled: b.7,
        },
        None => s,
    }
}

/// The captured baseline of a symbol, as values.
pub open spec fn symbol_base_opt(s: LiveSymbol) -> Option<(Option<i32>, bool, bool, bool, bool, bool, Seq<PropertyView>, Option<bool>)> {
    match s.occurrence_base {
        Some(b) => Some(symbol_base_view(b)),
        None => None,
    }
}

/// The state captured from a sheet.
pub open spec fn sheet_base_of(s: SheetView) -> (bool, bool, bool, bool, Seq<PropertyView>) {
    (s.excluded_from_sim, s.in_bom, s.on_board, s.dnp, s.properties)
}

/// The captured baseline of a sheet, as values.
pub open spec fn sheet_base_opt(s: LiveSheet) -> Option<(bool, bool, bool, bool, Seq<PropertyView>)> {
    match s.occurrence_base {
        Some(b) => Some((b.excluded_from_sim, b.in_bom, b.on_board, b.dnp, prop_views(b.properties@))),
        None => None,
    }
}

/// The sheet state with a captured baseline put back.
pub open spec fn sheet_restored(s: SheetView, base: Option<(bool, bool, bool, bool, Seq<PropertyView>)>) -> SheetView {
    match base {
        Some(b) => SheetView { excluded_from_sim: b.0, in_bom: b.1, on_board: b.2, dnp: b.3, properties: b.4 },
        None => s,
    }
}

/// Position of the first field of the kind, from `i` on, or the number of fields.
pub open spec fn kind_from(pv: Seq<PropertyView>, kind: PropertyKind, i: int) -> int
    decreases pv.len() - i,
{
    if 0 <= i < pv.len() && pv[i].kind != kind {
        kind_from(pv, kind, i + 1)
    } else {
        i
    }
}

/// Position of the first field with the key, from `i` on, or the number of fields.
pub open spec fn key_from(pv: Seq<PropertyView>, key: Seq<char>, i: int) -> int
    decreases pv.len() - i,
{
    if 0 <= i < pv.len() && pv[i].key != key {
        key_from(pv, key, i + 1)
    } else {
        i
    }
}

pub proof fn lemma_kind_from(pv: Seq<PropertyView>, kind: PropertyKind, i: int)
    requires
        0 <= i <= pv.len(),
    ensures
        i <= kind_from(pv, kind, i) <= pv.len(),
        kind_from(pv, kind, i) < pv.len() ==> pv[kind_from(pv, kind, i)].kind == kind,
        forall|j: int| i <= j < kind_from(pv, kind, i) ==> (#[trigger] pv[j]).kind != kind,
    decreases pv.len() - i,
{
    if i < pv.len() && pv[i].kind != kind {
        lemma_kind_from(pv, kind, i + 1);
    }
}

pub proof fn lemma_key_from(pv: Seq<PropertyView>, key: Seq<char>, i: int)
    requires
        0 <= i <= pv.len(),
    ensures
        i <= key_from(pv, key, i) <= pv.len(),
        key_from(pv, key, i) < pv.len() ==> pv[key_from(pv, key, i)].key == key,
        forall|j: int| i <= j < key_from(pv, key, i) ==> (#[trigger] pv[j]).key != key,
    decreases pv.len() - i,
{
    if i < pv.len() && pv[i].key != key {
        lemma_key_from(pv, key, i + 1);
    }
}

/// The first field with the key is at `k`: it has the key and no earlier one has.
proof fn lemma_key_from_at(pv: Seq<PropertyView>, key: Seq<char>, k: int)
    requires
        0 <= k < pv.len(),
        pv[k].key == key,
        forall|j: int| 0 <= j < k ==> (#[trigger] pv[j]).key != key,
    ensures
        key_from(pv, key, 0) == k,
{
    lemma_key_from(pv, key, 0);
}

/// No field has the key.
proof fn lemma_key_from_none(pv: Seq<PropertyView>, key: Seq<char>)
    requires
        forall|j: int| 0 <= j < pv.len() ==> (#[trigger] pv[j]).key != key,
    ensures
        key_from(pv, key, 0) == pv.len(),
{
    lemma_key_from(pv, key, 0);
}

/// A field given the text of its kind: the kind's default id and canonical key.
pub open spec fn with_kind_text(p: PropertyView, kind: PropertyKind, value: Seq<char>) -> PropertyView {
    PropertyView { id: Some(spec_default_field_id(kind)), key: spec_canonical_key(kind), value, ..p }
}

/// The fields with the first field of the kind given the text.
pub open spec fn kind_text_set(pv: Seq<PropertyView>, kind: PropertyKind, value: Seq<char>) -> Seq<PropertyView> {
    let k = kind_from(pv, kind, 0);
    if k < pv.len() {
        pv.update(k, with_kind_text(pv[k], kind, value))
    } else {
        pv
    }
}

/// Setting a field's text touches one field only: where a field of the kind exists, the
/// first such field takes the text, the kind's canonical key and its default id, and
/// every other field and the number of fields stay.
pub proof fn law_set_field_text_touches_one_field(pv: Seq<PropertyView>, kind: PropertyKind, value: Seq<char>)
    requires
        exists|i: int| 0 <= i < pv.len() && (#[trigger] pv[i]).kind == kind,
    ensures
        ({
            let k = kind_from(pv, kind, 0);
            let n = kind_text_set(pv, kind, value);
            &&& 0 <= k < pv.len()
            &&& pv[k].kind == kind
            &&& forall|j: int| 0 <= j < k ==> (#[trigger] pv[j]).kind != kind
            &&& n.len() == pv.len()
            &&& n[k].value == value
            &&& n[k].key == spec_canonical_key(kind)
            &&& n[k].id == Some(spec_default_field_id(kind))
            &&& forall|j: int| 0 <= j < pv.len() && j != k ==> n[j] == pv[j]
        }),
{
    lemma_kind_from(pv, kind, 0);
    let i = choose|i: int| 0 <= i < pv.len() && (#[trigger] pv[i]).kind == kind;
    if kind_from(pv, kind, 0) >= pv.len() {
        assert(pv[i].kind != kind);
    }
}

/// A symbol with the first field of the kind given the text; a new reference also gives
/// the reference prefix and whether the symbol is in the netlist.
pub open spec fn symbol_text_set(s: SymbolView, kind: PropertyKind, value: Seq<char>) -> SymbolView {
    let props = kind_text_set(s.properties, kind, value);
    if kind == PropertyKind::SymbolReference {
        let sp = replace_char(value, '~', ' ');
        SymbolView { properties: props, prefix: prefix_of_reference(sp), in_netlist: !(sp.len() > 0 && sp[0] == '#'), ..s }
    } else {
        SymbolView { properties: props, ..s }
    }
}

/// The fields after a variant field: the first field with the name takes the text; with
/// none, a new user field of the kind with the name and text is added, with the next
/// free ordinal.
pub open spec fn variant_field_set(pv: Seq<PropertyView>, user_kind: PropertyKind, name: Seq<char>, value: Seq<char>) -> Seq<PropertyView> {
    let k = key_from(pv, name, 0);
    if k < pv.len() {
        pv.update(k, PropertyView { value, ..pv[k] })
    } else {
        pv.push(PropertyView { ordinal: ordinal_after(pv) as i32, ..new_field_view(user_kind, name, value, false) })
    }
}

/// The fields after the variant fields, in order.
pub open spec fn variant_fields_set(pv: Seq<PropertyView>, user_kind: PropertyKind, fields: Seq<(Seq<char>, Seq<char>)>) -> Seq<PropertyView>
    decreases fields.len(),
{
    if fields.len() == 0 {
        pv
    } else {
        let rest = variant_fields_set(pv, user_kind, fields.drop_last());
        variant_field_set(rest, user_kind, fields.last().0, fields.last().1)
    }
}

/// Room for `n` new fields: every sort ordinal stays below the largest `i32` when `n` is
/// added, and so does the least ordinal.
pub open spec fn leaves_room(pv: Seq<PropertyView>, n: int) -> bool {
    &&& 0 <= n
    &&& 42 + n < i32::MAX
    &&& forall|i: int| 0 <= i < pv.len() ==> #[trigger] sort_ordinal_of(pv[i]) + n < i32::MAX
}

/// A symbol with a variant laid over it: the variant's flags, its fields as user fields,
/// and the simulation model enabled unless the variant leaves the symbol out of
/// simulation.
pub open spec fn symbol_variant_applied(s: SymbolView, v: ItemVariant) -> SymbolView {
    SymbolView {
        dnp: v.dnp,
        excluded_from_sim: v.excluded_from_sim,
        in_bom: v.in_bom,
        on_board: v.on_board,
        in_pos_files: v.in_pos_files,
        properties: variant_fields_set(s.properties, PropertyKind::User, pair_views(v.fields@)),
        sim_model_enabled: match s.sim_model_enabled {
            Some(_) => Some(!v.excluded_from_sim),
            None => None,
        },
        ..s
    }
}

/// A sheet with a variant laid over it: the variant's flags and its fields as sheet
/// user fields.
pub open spec fn sheet_variant_applied(s: SheetView, v: ItemVariant) -> SheetView {
    SheetView {
        dnp: v.dnp,
        excluded_from_sim: v.excluded_from_sim,
        in_bom: v.in_bom,
        on_board: v.on_board,
        properties: variant_fields_set(s.properties, PropertyKind::SheetUser, pair_views(v.fields@)),
    }
}

/// The ordinal after the fields is the least ordinal or one above some field's.
proof fn lemma_ordinal_after_source(pv: Seq<PropertyView>)
    ensures
        ordinal_after(pv) == 42 || exists|i: int| 0 <= i < pv.len() && ordinal_after(pv) == sort_ordinal_of(#[trigger] pv[i]) + 1,
    decreases pv.len(),
{
    if pv.len() > 0 {
        let rest = pv.drop_last();
        lemma_ordinal_after_source(rest);
        if ordinal_after(pv) != 42 && ordinal_after(pv) != sort_ordinal_of(pv[pv.len() - 1]) + 1 {
            let i = choose|i: int| 0 <= i < rest.len() && ordinal_after(rest) == sort_ordinal_of(#[trigger] rest[i]) + 1;
            assert(rest[i] == pv[i]);
        }
    }
}

/// Room for `n` new fields leaves room for `n - 1` after one new field.
proof fn lemma_room_after_push(pv: Seq<PropertyView>, n: int, p: PropertyView)
    requires
        leaves_room(pv, n),
        n >= 1,
        sort_ordinal_of(p) == ordinal_after(pv),
    ensures
        leaves_room(pv.push(p), n - 1),
        ordinals_fit(pv),
        ordinal_after(pv) < i32::MAX,
{
    lemma_ordinal_after_source(pv);
    if ordinal_after(pv) != 42 {
        let i = choose|i: int| 0 <= i < pv.len() && ordinal_after(pv) == sort_ordinal_of(#[trigger] pv[i]) + 1;
        assert(sort_ordinal_of(pv[i]) + n < i32::MAX);
    }
    let q = pv.push(p);
    assert forall|i: int| 0 <= i < q.len() implies #[trigger] sort_ordinal_of(q[i]) + (n - 1) < i32::MAX by {
        if i < pv.len() {
            assert(q[i] == pv[i]);
        }
    }
    assert forall|i: int| 0 <= i < pv.len() implies #[trigger] sort_ordinal_of(pv[i]) < i32::MAX by {}
}

/// A copy of a field.
pub(crate) fn copy_property(p: &Property) -> (r: Property)
    ensures
        r == *p,
{
    Property {
        id: p.id,
        ordinal: p.ordinal,
        key: p.key.clone(),
        value: p.value.clone(),
        base_value: match &p.base_value {
            Some(b) => Some(b.clone()),
            None => None,
        },
        kind: p.kind,
        is_private: p.is_private,
        visible: p.visible,
        show_name: p.show_name,
        can_autoplace: p.can_autoplace,
        has_effects: p.has_effects,
    }
}

/// A copy of a list of fields.
fn copy_properties(v: &Vec<Property>) -> (r: Vec<Property>)
    ensures
        r@ == v@,
{
    let mut r: Vec<Property> = Vec::new();
    let mut i: usize = 0;
    while i < v.len()
        invariant
            0 <= i <= v.len(),
            r@ == v@.take(i as int),
        decreases v.len() - i,
    {
        r.push(copy_property(&v[i]));
        assert(r@ =~= v@.take(i + 1));
        i = i + 1;
    }
    assert(v@.take(v.len() as int) =~= v@);
    r
}

/// Position of the first field of the kind, or the number of fields.
pub(crate) fn find_kind_index(props: &Vec<Property>, kind: PropertyKind) -> (r: usize)
    ensures
        r == kind_from(prop_views(props@), kind, 0),
{
    let ghost pv = prop_views(props@);
    let mut i: usize = 0;
    while i < props.len() && props[i].kind != kind
        invariant
            0 <= i <= props.len(),
            pv == prop_views(props@),
            kind_from(pv, kind, 0) == kind_from(pv, kind, i as int),
        decreases props.len() - i,
    {
        i = i + 1;
    }
    i
}

/// Position of the first field with the key, or the number of fields.
fn find_key_index(props: &Vec<Property>, key: &String) -> (r: usize)
    ensures
        r == key_from(prop_views(props@), key@, 0),
{
    let ghost pv = prop_views(props@);
    let mut i: usize = 0;
    while i < props.len() && props[i].key != *key
        invariant
            0 <= i <= props.len(),
            pv == prop_views(props@),
            key_from(pv, key@, 0) == key_from(pv, key@, i as int),
        decreases props.len() - i,
    {
        i = i + 1;
    }
    i
}

/// Lays the variant fields over the fields: each name's first field takes its text, or
/// a new user field of the kind is added with the next free ordinal.
fn apply_variant_fields(props: &mut Vec<Property>, user_kind: PropertyKind, fields: &Vec<(String, String)>)
    requires
        spec_is_user_field(user_kind),
        leaves_room(prop_views(old(props)@), fields@.len() as int),
    ensures
        prop_views(final(props)@) == variant_fields_set(prop_views(old(props)@), user_kind, pair_views(fields@)),
{
    let ghost start = prop_views(props@);
    let ghost fv = pair_views(fields@);
    let mut i: usize = 0;
    assert(fv.take(0) =~= Seq::<(Seq<char>, Seq<char>)>::empty());
    while i < fields.len()
        invariant
            0 <= i <= fields.len(),
            spec_is_user_field(user_kind),
            start == prop_views(old(props)@),
            fv == pair_views(fields@),
            prop_views(props@) == variant_fields_set(start, user_kind, fv.take(i as int)),
            leaves_room(prop_views(props@), fields@.len() - i),
        decreases fields.len() - i,
    {
        let ghost before = prop_views(props@);
        assert(fv.take(i + 1).drop_last() =~= fv.take(i as int));
        assert(fv.take(i + 1).last() == fv[i as int]);
        let name = &fields[i].0;
        let value = &fields[i].1;
        let k = find_key_index(props, name);
        if k < props.len() {
            let old_p = copy_property(&props[k]);
            let np = Property { value: value.clone(), ..old_p };
            props.set(k, np);
            proof {
                assert(prop_views(props@) =~= before.update(k as int, PropertyView { value: value@, ..before[k as int] }));
                let after = prop_views(props@);
                assert forall|j: int| 0 <= j < after.len() implies #[trigger] sort_ordinal_of(after[j]) + (fields@.len() - (i + 1)) < i32::MAX by {
                    assert(sort_ordinal_of(after[j]) == sort_ordinal_of(before[j]));
                }
            }
        } else {
            proof {
                assert forall|j: int| 0 <= j < before.len() implies #[trigger] sort_ordinal_of(before[j]) < i32::MAX by {}
            }
            let ord = next_field_ordinal(props);
            let fresh = Property::new_named(user_kind, name.as_str(), value.clone(), false);
            let np = Property { ordinal: ord, ..fresh };
            props.push(np);
            proof {
                assert(np@ == PropertyView { ordinal: ordinal_after(before) as i32, ..new_field_view(user_kind, name@, value@, false) });
                assert(sort_ordinal_of(np@) == ordinal_after(before));
                lemma_room_after_push(before, fields@.len() - i, np@);
                assert(prop_views(props@) =~= before.push(np@));
            }
        }
        i = i + 1;
    }
    assert(fv.take(fields@.len() as int) =~= fv);
}

impl LiveSymbol {
    /// Records the current occurrence state as the baseline.
    pub fn capture_occurrence_base(&mut self)
        ensures
            symbol_base_opt(*final(self)) == Some(symbol_base_of(old(self).state())),
            final(self).state() == old(self).state(),
            final(self).instances == old(self).instances,
            final(self).uuid == old(self).uuid,
            final(self).power == old(self).power,
    {
        let base = SymbolOccurrenceBase {
            unit: self.unit,
            excluded_from_sim: self.excluded_from_sim,
            in_bom: self.in_bom,
            on_board: self.on_board,
            in_pos_files: self.in_pos_files,
            dnp: self.dnp,
            properties: copy_properties(&self.properties),
            sim_model_enabled: self.sim_model_enabled,
        };
        self.occurrence_base = Some(base);
    }

    /// Puts the captured baseline back, where there is one; the reference prefix and the
    /// netlist flag stay as they are.
    pub fn restore_occurrence_base(&mut self)
        ensures
            final(self).state() == symbol_restored(old(self).state(), symbol_base_opt(*old(self))),
            final(self).occurrence_base == old(self).occurrence_base,
            final(self).instances == old(self).instances,
            final(self).uuid == old(self).uuid,
            final(self).power == old(self).power,
    {
        match &self.occurrence_base {
            Some(base) => {
                let unit = base.unit;
                let excluded_from_sim = base.excluded_from_sim;
                let in_bom = base.in_bom;
                let on_board = base.on_board;
                let in_pos_files = base.in_pos_files;
                let dnp = base.dnp;
                let properties = copy_properties(&base.properties);
                let sim_model_enabled = base.sim_model_enabled;
                self.unit = unit;
                self.excluded_from_sim = excluded_from_sim;
                self.in_bom = in_bom;
                self.on_board = on_board;
                self.in_pos_files = in_pos_files;
                self.dnp = dnp;
                self.properties = properties;
                self.sim_model_enabled = sim_model_enabled;
            },
            None => {},
        }
    }

    /// The ordinal a field added to the symbol gets.
    pub fn next_field_ordinal(&self) -> (r: i32)
        requires
            ordinals_fit(prop_views(self.properties@)),
        ensures
            r == ordinal_after(prop_views(self.properties@)),
    {
        next_field_ordinal(&self.properties)
    }

    /// Gives the first field of the kind the text, with the kind's id and key; a new
    /// reference also sets the reference prefix and whether the symbol is in the netlist.
    pub fn set_field_text(&mut self, kind: PropertyKind, value: String)
        requires
            kind_from(prop_views(old(self).properties@), kind, 0) < old(self).properties@.len(),
        ensures
            final(self).state() == symbol_text_set(old(self).state(), kind, value@),
            final(self).instances == old(self).instances,
            final(self).occurrence_base == old(self).occurrence_base,
            final(self).uuid == old(self).uuid,
            final(self).power == old(self).power,
    {
        let ghost before = prop_views(self.properties@);
        let k = find_kind_index(&self.properties, kind);
        let old_p = copy_property(&self.properties[k]);
        let np = Property { id: kind.default_field_id(), key: kind.canonical_key().to_owned(), value, ..old_p };
        self.properties.set(k, np);
        proof {
            assert(prop_views(self.properties@) =~= before.update(k as int, with_kind_text(before[k as int], kind, np.value@)));
        }
        if kind == PropertyKind::SymbolReference {
            let (prefix, in_netlist) = reference_prefix(self.properties[k].value.as_str());
            self.prefix = prefix;
            self.in_netlist = in_netlist;
        }
    }
}

/// A label as the loader's passes see it: its kind, its text and its fields.
#[derive(Debug, Clone)]
pub struct LiveLabel {
    pub kind: LabelKind,
    pub text: String,
    pub properties: Vec<Property>,
}

/// A schematic file as the loader's passes see it: its path, and its placed symbols,
/// sheets and labels.
#[derive(Debug, Clone)]
pub struct LiveSchematic {
    pub path: String,
    pub symbols: Vec<LiveSymbol>,
    pub sheets: Vec<LiveSheet>,
    pub labels: Vec<LiveLabel>,
}

/// An instance text that overrides a field: present, not empty and not `~`.
pub open spec fn text_override(o: Option<String>) -> Option<Seq<char>> {
    match o {
        Some(v) => if v@.len() > 0 && v@ != seq!['~'] {
            Some(v@)
        } else {
            None
        },
        None => None,
    }
}

/// Position of the first variant with the name, from `i` on, or the number of variants.
pub open spec fn variant_from(vs: Seq<ItemVariant>, name: Seq<char>, i: int) -> int
    decreases vs.len() - i,
{
    if 0 <= i < vs.len() && vs[i].name@ != name {
        variant_from(vs, name, i + 1)
    } else {
        i
    }
}

/// The variant with the name, where there is one.
pub open spec fn variant_named(vs: Seq<ItemVariant>, name: Seq<char>) -> Option<ItemVariant> {
    let k = variant_from(vs, name, 0);
    if 0 <= k < vs.len() {
        Some(vs[k])
    } else {
        None
    }
}

/// The variant of the current variant's name, where there is a current variant and the
/// variants have it.
pub open spec fn selected_variant(vs: Seq<ItemVariant>, current_variant: Option<Seq<char>>) -> Option<ItemVariant> {
    match current_variant {
        Some(n) => variant_named(vs, n),
        None => None,
    }
}

/// A symbol with a selected instance laid over it: the instance's reference, unit,
/// value and footprint (a value or footprint only where it overrides), then the current
/// variant of the instance.
pub open spec fn symbol_instance_applied(s: SymbolView, inst: SymbolLocalInstance, current_variant: Option<Seq<char>>) -> SymbolView {
    let s1 = match inst.reference {
        Some(r) => symbol_text_set(s, PropertyKind::SymbolReference, r@),
        None => s,
    };
    let s2 = match inst.unit {
        Some(u) => SymbolView { unit: Some(u), ..s1 },
        None => s1,
    };
    let s3 = match text_override(inst.value) {
        Some(v) => symbol_text_set(s2, PropertyKind::SymbolValue, v),
        None => s2,
    };
    let s4 = match text_override(inst.footprint) {
        Some(f) => symbol_text_set(s3, PropertyKind::SymbolFootprint, f),
        None => s3,
    };
    match selected_variant(inst.variants@, current_variant) {
        Some(v) => symbol_variant_applied(s4, v),
        None => s4,
    }
}

/// The symbol has the fields that the instance sets, and room for the fields of its
/// current variant.
pub open spec fn instance_applicable(s: SymbolView, inst: SymbolLocalInstance, current_variant: Option<Seq<char>>) -> bool {
    &&& (inst.reference is Some ==> kind_from(s.properties, PropertyKind::SymbolReference, 0) < s.properties.len())
    &&& (text_override(inst.value) is Some ==> kind_from(s.properties, PropertyKind::SymbolValue, 0) < s.properties.len())
    &&& (text_override(inst.footprint) is Some ==> kind_from(s.properties, PropertyKind::SymbolFootprint, 0)
        < s.properties.len())
    &&& (selected_variant(inst.variants@, current_variant) matches Some(v) ==> leaves_room(
        s.properties,
        v.fields@.len() as int,
    ))
}

/// Fields with the same kinds in the same places have their first field of a kind in
/// the same place.
proof fn lemma_kind_from_same_kinds(a: Seq<PropertyView>, b: Seq<PropertyView>, kind: PropertyKind, i: int)
    requires
        a.len() == b.len(),
        forall|j: int| 0 <= j < a.len() ==> (#[trigger] a[j]).kind == b[j].kind,
    ensures
        kind_from(a, kind, i) == kind_from(b, kind, i),
    decreases a.len() - i,
{
    if 0 <= i < a.len() && a[i].kind != kind {
        lemma_kind_from_same_kinds(a, b, kind, i + 1);
    }
}

/// Setting the text of a mandatory field keeps every kind and the room for new fields.
pub(crate) proof fn lemma_text_set_keeps(pv: Seq<PropertyView>, kind: PropertyKind, value: Seq<char>, n: int, other: PropertyKind)
    requires
        !spec_is_user_field(kind),
    ensures
        leaves_room(pv, n) ==> leaves_room(kind_text_set(pv, kind, value), n),
        kind_from(kind_text_set(pv, kind, value), other, 0) == kind_from(pv, other, 0),
        kind_text_set(pv, kind, value).len() == pv.len(),
{
    let q = kind_text_set(pv, kind, value);
    lemma_kind_from(pv, kind, 0);
    assert forall|j: int| 0 <= j < pv.len() implies (#[trigger] q[j]).kind == pv[j].kind by {}
    lemma_kind_from_same_kinds(q, pv, other, 0);
    if leaves_room(pv, n) {
        assert forall|j: int| 0 <= j < q.len() implies #[trigger] sort_ordinal_of(q[j]) + n < i32::MAX by {
            if j != kind_from(pv, kind, 0) {
                assert(q[j] == pv[j]);
            }
        }
    }
}

/// Position of the first variant with the name, or the number of variants.
fn find_variant_index(vs: &Vec<ItemVariant>, name: &str) -> (r: usize)
    ensures
        r == variant_from(vs@, name@, 0),
{
    let mut i: usize = 0;
    while i < vs.len() && !crate::text::str_eq(vs[i].name.as_str(), name)
        invariant
            0 <= i <= vs.len(),
            variant_from(vs@, name@, 0) == variant_from(vs@, name@, i as int),
        decreases vs.len() - i,
    {
        i = i + 1;
    }
    i
}

/// The text of an instance that overrides a field.
fn override_text(o: &Option<String>) -> (r: Option<String>)
    ensures
        match text_override(*o) {
            Some(v) => r matches Some(t) && t@ == v,
            None => r is None,
        },
{
    match o {
        Some(v) => {
            proof {
                reveal_strlit("~");
                assert("~"@ =~= seq!['~']);
            }
            if !v.as_str().is_empty() && !crate::text::str_eq(v.as_str(), "~") {
                Some(v.clone())
            } else {
                None
            }
        },
        None => None,
    }
}

/// Lays a variant over a symbol: its flags, its fields as user fields, and the
/// simulation model enabled unless the variant leaves the symbol out of simulation.
pub fn apply_symbol_variant_state(symbol: &mut LiveSymbol, variant: &ItemVariant)
    requires
        leaves_room(prop_views(old(symbol).properties@), variant.fields@.len() as int),
    ensures
        final(symbol).state() == symbol_variant_applied(old(symbol).state(), *variant),
        final(symbol).instances == old(symbol).instances,
        final(symbol).occurrence_base == old(symbol).occurrence_base,
        final(symbol).uuid == old(symbol).uuid,
        final(symbol).power == old(symbol).power,
{
    symbol.dnp = variant.dnp;
    symbol.excluded_from_sim = variant.excluded_from_sim;
    symbol.in_bom = variant.in_bom;
    symbol.on_board = variant.on_board;
    symbol.in_pos_files = variant.in_pos_files;
    apply_variant_fields(&mut symbol.properties, PropertyKind::User, &variant.fields);
    if symbol.sim_model_enabled.is_some() {
        symbol.sim_model_enabled = Some(!symbol.excluded_from_sim);
    }
}

/// Lays a selected instance over a symbol: its reference, unit, value and footprint (a
/// value or footprint only where it is neither empty nor `~`), then the instance's
/// variant of the current variant's name, where it has one.
#[verifier::spinoff_prover]
#[verifier::rlimit(40)]
pub fn apply_selected_symbol_instance(symbol: &mut LiveSymbol, instance: &SymbolLocalInstance, current_variant: Option<&str>)
    requires
        instance_applicable(
            old(symbol).state(),
            *instance,
            match current_variant {
                Some(n) => Some(n@),
                None => None,
            },
        ),
    ensures
        final(symbol).state() == symbol_instance_applied(
            old(symbol).state(),
            *instance,
            match current_variant {
                Some(n) => Some(n@),
                None => None,
            },
        ),
        final(symbol).instances == old(symbol).instances,
        final(symbol).occurrence_base == old(symbol).occurrence_base,
        final(symbol).uuid == old(symbol).uuid,
        final(symbol).power == old(symbol).power,
{
    let ghost cv = match current_variant {
        Some(n) => Some(n@),
        None => None::<Seq<char>>,
    };
    let ghost n: int = match selected_variant(instance.variants@, cv) {
        Some(v) => v.fields@.len() as int,
        None => 0,
    };
    let ghost s0 = symbol.state();
    match &instance.reference {
        Some(reference) => {
            proof {
                lemma_text_set_keeps(s0.properties, PropertyKind::SymbolReference, reference@, n, PropertyKind::SymbolValue);
                lemma_text_set_keeps(s0.properties, PropertyKind::SymbolReference, reference@, n, PropertyKind::SymbolFootprint);
            }
            symbol.set_field_text(PropertyKind::SymbolReference, reference.clone());
        },
        None => {},
    }
    match instance.unit {
        Some(unit) => {
            symbol.unit = Some(unit);
        },
        None => {},
    }
    let ghost s2 = symbol.state();
    match override_text(&instance.value) {
        Some(value) => {
            proof {
                lemma_text_set_keeps(s2.properties, PropertyKind::SymbolValue, value@, n, PropertyKind::SymbolFootprint);
            }
            symbol.set_field_text(PropertyKind::SymbolValue, value);
        },
        None => {},
    }
    let ghost s3 = symbol.state();
    match override_text(&instance.footprint) {
        Some(footprint) => {
            proof {
                lemma_text_set_keeps(s3.properties, PropertyKind::SymbolFootprint, footprint@, n, PropertyKind::SymbolValue);
            }
            symbol.set_field_text(PropertyKind::SymbolFootprint, footprint);
        },
        None => {},
    }
    match current_variant {
        Some(name) => {
            let k = find_variant_index(&instance.variants, name);
            if k < instance.variants.len() {
                apply_symbol_variant_state(symbol, &instance.variants[k]);
            }
        },
        None => {},
    }
}

/// Position of the first instance with the path, from `i` on, or the number of instances.
pub open spec fn instance_from(insts: Seq<SymbolLocalInstance>, path: Seq<char>, i: int) -> int
    decreases insts.len() - i,
{
    if 0 <= i < insts.len() && insts[i].path@ != path {
        instance_from(insts, path, i + 1)
    } else {
        i
    }
}

/// The instance with the path, where there is one.
pub open spec fn instance_at_path(insts: Seq<SymbolLocalInstance>, path: Seq<char>) -> Option<SymbolLocalInstance> {
    let k = instance_from(insts, path, 0);
    if 0 <= k < insts.len() {
        Some(insts[k])
    } else {
        None
    }
}

/// The first instance, where there is one.
pub open spec fn first_instance(insts: Seq<SymbolLocalInstance>) -> Option<SymbolLocalInstance> {
    if insts.len() > 0 {
        Some(insts[0])
    } else {
        None
    }
}

/// A symbol refreshed for an occurrence: its baseline put back, then the chosen
/// instance, if any, laid over it.
pub open spec fn symbol_refreshed(s: LiveSymbol, chosen: Option<SymbolLocalInstance>, current_variant: Option<Seq<char>>) -> SymbolView {
    let r = symbol_restored(s.state(), symbol_base_opt(s));
    match chosen {
        Some(inst) => symbol_instance_applied(r, inst, current_variant),
        None => r,
    }
}

/// The chosen instance can be laid over the symbol's baseline.
pub open spec fn refresh_applicable(s: LiveSymbol, chosen: Option<SymbolLocalInstance>, current_variant: Option<Seq<char>>) -> bool {
    chosen matches Some(inst) ==> instance_applicable(symbol_restored(s.state(), symbol_base_opt(s)), inst, current_variant)
}

/// `n` is `o` refreshed for the chosen instance: the state as [`symbol_refreshed`]
/// says, instances and baseline unchanged.
pub open spec fn symbol_refreshed_to(o: LiveSymbol, n: LiveSymbol, chosen: Option<SymbolLocalInstance>, current_variant: Option<Seq<char>>) -> bool {
    &&& n.state() == symbol_refreshed(o, chosen, current_variant)
    &&& n.instances == o.instances
    &&& n.occurrence_base == o.occurrence_base
    &&& n.uuid == o.uuid
    &&& n.power == o.power
}

/// The current variant as values.
pub open spec fn variant_view(current_variant: Option<&str>) -> Option<Seq<char>> {
    match current_variant {
        Some(n) => Some(n@),
        None => None,
    }
}

/// Position of the first instance with the path, or the number of instances.
pub(crate) fn find_instance_index(insts: &Vec<SymbolLocalInstance>, path: &str) -> (r: usize)
    ensures
        r == instance_from(insts@, path@, 0),
{
    let mut i: usize = 0;
    while i < insts.len() && !crate::text::str_eq(insts[i].path.as_str(), path)
        invariant
            0 <= i <= insts.len(),
            instance_from(insts@, path@, 0) == instance_from(insts@, path@, i as int),
        decreases insts.len() - i,
    {
        i = i + 1;
    }
    i
}

/// Puts the symbol's baseline back and lays its instance at position `k` over it (none
/// where `k` is past the instances).
fn refresh_symbol(symbol: &mut LiveSymbol, k: usize, current_variant: Option<&str>)
    requires
        refresh_applicable(
            *old(symbol),
            if k < old(symbol).instances@.len() {
                Some(old(symbol).instances@[k as int])
            } else {
                None
            },
            variant_view(current_variant),
        ),
    ensures
        symbol_refreshed_to(
            *old(symbol),
            *final(symbol),
            if k < old(symbol).instances@.len() {
                Some(old(symbol).instances@[k as int])
            } else {
                None
            },
            variant_view(current_variant),
        ),
{
    symbol.restore_occurrence_base();
    if k < symbol.instances.len() {
        let mut insts: Vec<SymbolLocalInstance> = Vec::new();
        std::mem::swap(&mut insts, &mut symbol.instances);
        apply_selected_symbol_instance(symbol, &insts[k], current_variant);
        std::mem::swap(&mut insts, &mut symbol.instances);
    }
}

/// Refreshes every symbol of the schematic for the occurrence with the instance path:
/// each symbol's baseline is put back and its instance with that path, if any, laid
/// over it.
pub fn apply_symbol_instance_state(schematic: &mut LiveSchematic, instance_path: &str, current_variant: Option<&str>)
    requires
        forall|i: int| 0 <= i < old(schematic).symbols@.len() ==> refresh_applicable(
            #[trigger] old(schematic).symbols@[i],
            instance_at_path(old(schematic).symbols@[i].instances@, instance_path@),
            variant_view(current_variant),
        ),
    ensures
        final(schematic).path == old(schematic).path,
        final(schematic).sheets == old(schematic).sheets,
        final(schematic).labels == old(schematic).labels,
        final(schematic).symbols@.len() == old(schematic).symbols@.len(),
        forall|i: int| 0 <= i < old(schematic).symbols@.len() ==> symbol_refreshed_to(
            #[trigger] old(schematic).symbols@[i],
            final(schematic).symbols@[i],
            instance_at_path(old(schematic).symbols@[i].instances@, instance_path@),
            variant_view(current_variant),
        ),
{
    let ghost start = schematic.symbols@;
    let mut i: usize = 0;
    while i < schematic.symbols.len()
        invariant
            0 <= i <= schematic.symbols@.len(),
            schematic.symbols@.len() == start.len(),
            start == old(schematic).symbols@,
            schematic.path == old(schematic).path,
            schematic.sheets == old(schematic).sheets,
            schematic.labels == old(schematic).labels,
            forall|j: int| 0 <= j < start.len() ==> refresh_applicable(
                #[trigger] start[j],
                instance_at_path(start[j].instances@, instance_path@),
                variant_view(current_variant),
            ),
            forall|j: int| i <= j < start.len() ==> #[trigger] schematic.symbols@[j] == start[j],
            forall|j: int| 0 <= j < i ==> symbol_refreshed_to(
                #[trigger] start[j],
                schematic.symbols@[j],
                instance_at_path(start[j].instances@, instance_path@),
                variant_view(current_variant),
            ),
        decreases start.len() - i,
    {
        let k = find_instance_index(&schematic.symbols[i].instances, instance_path);
        assert(schematic.symbols@[i as int] == start[i as int]);
        refresh_symbol(&mut schematic.symbols[i], k, current_variant);
        i = i + 1;
    }
}

/// Refreshes every symbol of the schematic for its first instance: each symbol's
/// baseline is put back and its first instance, if any, laid over it.
pub fn seed_first_symbol_instance_state(schematic: &mut LiveSchematic, current_variant: Option<&str>)
    requires
        forall|i: int| 0 <= i < old(schematic).symbols@.len() ==> refresh_applicable(
            #[trigger] old(schematic).symbols@[i],
            first_instance(old(schematic).symbols@[i].instances@),
            variant_view(current_variant),
        ),
    ensures
        final(schematic).path == old(schematic).path,
        final(schematic).sheets == old(schematic).sheets,
        final(schematic).labels == old(schematic).labels,
        final(schematic).symbols@.len() == old(schematic).symbols@.len(),
        forall|i: int| 0 <= i < old(schematic).symbols@.len() ==> symbol_refreshed_to(
            #[trigger] old(schematic).symbols@[i],
            final(schematic).symbols@[i],
            first_instance(old(schematic).symbols@[i].instances@),
            variant_view(current_variant),
        ),
{
    let ghost start = schematic.symbols@;
    let mut i: usize = 0;
    while i < schematic.symbols.len()
        invariant
            0 <= i <= schematic.symbols@.len(),
            schematic.symbols@.len() == start.len(),
            start == old(schematic).symbols@,
            schematic.path == old(schematic).path,
            schematic.sheets == old(schematic).sheets,
            schematic.labels == old(schematic).labels,
            forall|j: int| 0 <= j < start.len() ==> refresh_applicable(
                #[trigger] start[j],
                first_instance(start[j].instances@),
                variant_view(current_variant),
            ),
            forall|j: int| i <= j < start.len() ==> #[trigger] schematic.symbols@[j] == start[j],
            forall|j: int| 0 <= j < i ==> symbol_refreshed_to(
                #[trigger] start[j],
                schematic.symbols@[j],
                first_instance(start[j].instances@),
                variant_view(current_variant),
            ),
        decreases start.len() - i,
    {
        assert(schematic.symbols@[i as int] == start[i as int]);
        refresh_symbol(&mut schematic.symbols[i], 0, current_variant);
        i = i + 1;
    }
}

/// The text of the first field of the kind, where there is one.
pub open spec fn kind_value(pv: Seq<PropertyView>, kind: PropertyKind) -> Option<Seq<char>> {
    let k = kind_from(pv, kind, 0);
    if 0 <= k < pv.len() {
        Some(pv[k].value)
    } else {
        None
    }
}

impl LiveSheet {
    /// Records the current occurrence state as the baseline.
    pub fn capture_occurrence_base(&mut self)
        ensures
            sheet_base_opt(*final(self)) == Some(sheet_base_of(old(self).state())),
            final(self).state() == old(self).state(),
            final(self).instances == old(self).instances,
    {
        let base = SheetOccurrenceBase {
            excluded_from_sim: self.excluded_from_sim,
            in_bom: self.in_bom,
            on_board: self.on_board,
            dnp: self.dnp,
            properties: copy_properties(&self.properties),
        };
        self.occurrence_base = Some(base);
    }

    /// Puts the captured baseline back, where there is one.
    pub fn restore_occurrence_base(&mut self)
        ensures
            final(self).state() == sheet_restored(old(self).state(), sheet_base_opt(*old(self))),
            final(self).occurrence_base == old(self).occurrence_base,
            final(self).instances == old(self).instances,
    {
        match &self.occurrence_base {
            Some(base) => {
                let excluded_from_sim = base.excluded_from_sim;
                let in_bom = base.in_bom;
                let on_board = base.on_board;
                let dnp = base.dnp;
                let properties = copy_properties(&base.properties);
                self.excluded_from_sim = excluded_from_sim;
                self.in_bom = in_bom;
                self.on_board = on_board;
                self.dnp = dnp;
                self.properties = properties;
            },
            None => {},
        }
    }

    /// The ordinal a field added to the sheet gets.
    pub fn next_field_ordinal(&self) -> (r: i32)
        requires
            ordinals_fit(prop_views(self.properties@)),
        ensures
            r == ordinal_after(prop_views(self.properties@)),
    {
        next_field_ordinal(&self.properties)
    }

    /// The sheet's name: the text of its first sheet-name field.
    pub fn name(&self) -> (r: Option<&str>)
        ensures
            match kind_value(prop_views(self.properties@), PropertyKind::SheetName) {
                Some(v) => r matches Some(t) && t@ == v,
                None => r is None,
            },
    {
        let k = find_kind_index(&self.properties, PropertyKind::SheetName);
        proof {
            lemma_kind_from(prop_views(self.properties@), PropertyKind::SheetName, 0);
        }
        if k < self.properties.len() {
            Some(self.properties[k].value.as_str())
        } else {
            None
        }
    }

    /// The file the sheet loads: the text of its first sheet-file field, with every `\`
    /// read as `/`.
    pub fn filename(&self) -> (r: Option<String>)
        ensures
            match kind_value(prop_views(self.properties@), PropertyKind::SheetFile) {
                Some(v) => r matches Some(t) && t@ == replace_char(v, '\\', '/'),
                None => r is None,
            },
    {
        let k = find_kind_index(&self.properties, PropertyKind::SheetFile);
        proof {
            lemma_kind_from(prop_views(self.properties@), PropertyKind::SheetFile, 0);
        }
        if k < self.properties.len() {
            let v = crate::text::str_to_chars(self.properties[k].value.as_str());
            let w = crate::model::sim_params::replace_char_vec(&v, '\\', '/');
            Some(crate::text::seq_to_string(&w))
        } else {
            None
        }
    }
}

/// Lays a variant over a sheet: its flags and its fields as sheet user fields.
pub fn apply_sheet_variant_state(sheet: &mut LiveSheet, variant: &ItemVariant)
    requires
        leaves_room(prop_views(old(sheet).properties@), variant.fields@.len() as int),
    ensures
        final(sheet).state() == sheet_variant_applied(old(sheet).state(), *variant),
        final(sheet).instances == old(sheet).instances,
        final(sheet).occurrence_base == old(sheet).occurrence_base,
{
    sheet.dnp = variant.dnp;
    sheet.excluded_from_sim = variant.excluded_from_sim;
    sheet.in_bom = variant.in_bom;
    sheet.on_board = variant.on_board;
    apply_variant_fields(&mut sheet.properties, PropertyKind::SheetUser, &variant.fields);
}

/// The length of a text in bytes, as `str::len` gives it.
pub open spec fn byte_len(t: Seq<char>) -> usize {
    vstd::utf8::encode_utf8(t).len() as usize
}

/// A sheet instance belongs to the selected occurrence: its path is the occurrence's,
/// or lies below it.
pub open spec fn sheet_instance_matches(path: Seq<char>, selected: Seq<char>) -> bool {
    path == selected || (selected.push('/')).is_prefix_of(path)
}

/// Among the first `n` instances, the position of the matching one with the longest
/// path (in bytes; the last of equally long ones), where one matches.
pub open spec fn best_sheet_instance(insts: Seq<SheetLocalInstance>, selected: Seq<char>, n: int) -> Option<int>
    decreases n,
{
    if n <= 0 {
        None
    } else {
        let r = best_sheet_instance(insts, selected, n - 1);
        if sheet_instance_matches(insts[n - 1].path@, selected) {
            match r {
                Some(b) => if byte_len(insts[n - 1].path@) >= byte_len(insts[b].path@) {
                    Some(n - 1)
                } else {
                    Some(b)
                },
                None => Some(n - 1),
            }
        } else {
            r
        }
    }
}

/// The instance of a sheet whose variant applies: with a selected occurrence (not the
/// root), the matching instance with the longest path, else the first instance.
pub open spec fn active_sheet_instance(insts: Seq<SheetLocalInstance>, selected: Option<Seq<char>>) -> Option<SheetLocalInstance> {
    let first = if insts.len() > 0 {
        Some(insts[0])
    } else {
        None
    };
    match selected {
        Some(sel) => match best_sheet_instance(insts, sel, insts.len() as int) {
            Some(b) => Some(insts[b]),
            None => first,
        },
        None => first,
    }
}

/// The variant laid over a sheet: the current variant of its active instance.
pub open spec fn sheet_variant_of(s: LiveSheet, selected: Option<Seq<char>>, current_variant: Option<Seq<char>>) -> Option<ItemVariant> {
    match current_variant {
        Some(name) => match active_sheet_instance(s.instances@, selected) {
            Some(inst) => variant_named(inst.variants@, name),
            None => None,
        },
        None => None,
    }
}

/// A sheet refreshed for the current variant: its baseline put back, then the variant,
/// if any, laid over it.
pub open spec fn sheet_refreshed(s: LiveSheet, selected: Option<Seq<char>>, current_variant: Option<Seq<char>>) -> SheetView {
    let r = sheet_restored(s.state(), sheet_base_opt(s));
    match sheet_variant_of(s, selected, current_variant) {
        Some(v) => sheet_variant_applied(r, v),
        None => r,
    }
}

/// The sheet has room for the fields of the variant laid over it.
pub open spec fn sheet_refresh_applicable(s: LiveSheet, selected: Option<Seq<char>>, current_variant: Option<Seq<char>>) -> bool {
    sheet_variant_of(s, selected, current_variant) matches Some(v) ==> leaves_room(
        sheet_restored(s.state(), sheet_base_opt(s)).properties,
        v.fields@.len() as int,
    )
}

/// `n` is `o` refreshed: the state as [`sheet_refreshed`] says, instances and baseline
/// unchanged.
pub open spec fn sheet_refreshed_to(o: LiveSheet, n: LiveSheet, selected: Option<Seq<char>>, current_variant: Option<Seq<char>>) -> bool {
    &&& n.state() == sheet_refreshed(o, selected, current_variant)
    &&& n.instances == o.instances
    &&& n.occurrence_base == o.occurrence_base
}

/// Whether `p` starts with `q` followed by `/`.
fn starts_below(p: &str, q: &str) -> (r: bool)
    ensures
        r == (q@.push('/')).is_prefix_of(p@),
{
    let pv = crate::text::str_to_chars(p);
    let qv = crate::text::str_to_chars(q);
    if pv.len() <= qv.len() {
        proof {
            if q@.push('/').is_prefix_of(p@) {
                assert(q@.push('/').len() <= p@.len());
            }
        }
        return false;
    }
    let mut i: usize = 0;
    while i < qv.len()
        invariant
            0 <= i <= qv.len() < pv.len(),
            pv@ == p@,
            qv@ == q@,
            forall|j: int| 0 <= j < i ==> pv@[j] == qv@[j],
        decreases qv.len() - i,
    {
        if pv[i] != qv[i] {
            proof {
                assert(q@.push('/')[i as int] == q@[i as int]);
            }
            return false;
        }
        i = i + 1;
    }
    let r = pv[qv.len()] == '/';
    proof {
        if r {
            assert forall|j: int| 0 <= j < q@.push('/').len() implies q@.push('/')[j] == p@[j] by {
                if j < q@.len() {
                    assert(q@.push('/')[j] == q@[j]);
                }
            }
        } else {
            assert(q@.push('/')[q@.len() as int] == '/');
        }
    }
    r
}

/// Position of the instance whose variant applies: as [`active_sheet_instance`] says,
/// or the number of instances where there is none.
fn active_sheet_instance_index(insts: &Vec<SheetLocalInstance>, selected: Option<&str>) -> (r: usize)
    ensures
        match active_sheet_instance(
            insts@,
            match selected {
                Some(t) => Some(t@),
                None => None,
            },
        ) {
            Some(inst) => r < insts@.len() && insts@[r as int] == inst,
            None => r >= insts@.len(),
        },
{
    match selected {
        Some(sel) => {
            let mut best: Option<usize> = None;
            let mut best_len: usize = 0;
            let mut i: usize = 0;
            while i < insts.len()
                invariant
                    0 <= i <= insts.len(),
                    best == match best_sheet_instance(insts@, sel@, i as int) {
                        Some(b) => Some(b as usize),
                        None => None::<usize>,
                    },
                    best_sheet_instance(insts@, sel@, i as int) matches Some(b) ==> 0 <= b < i && best_len
                        == byte_len(insts@[b].path@),
                decreases insts.len() - i,
            {
                let path = insts[i].path.as_str();
                let hit = crate::text::str_eq(path, sel) || starts_below(path, sel);
                assert(hit == sheet_instance_matches(insts@[i as int].path@, sel@));
                if hit {
                    let len = path.len();
                    assert(len == byte_len(insts@[i as int].path@));
                    match best {
                        Some(_) => {
                            if len >= best_len {
                                best = Some(i);
                                best_len = len;
                            }
                        },
                        None => {
                            best = Some(i);
                            best_len = len;
                        },
                    }
                }
                i = i + 1;
            }
            match best {
                Some(b) => b,
                None => 0,
            }
        },
        None => 0,
    }
}

/// Puts the sheet's baseline back and, with a current variant, lays the variant of its
/// active instance over it.
fn refresh_sheet(sheet: &mut LiveSheet, selected: Option<&str>, current_variant: Option<&str>)
    requires
        sheet_refresh_applicable(
            *old(sheet),
            match selected {
                Some(t) => Some(t@),
                None => None,
            },
            variant_view(current_variant),
        ),
    ensures
        sheet_refreshed_to(
            *old(sheet),
            *final(sheet),
            match selected {
                Some(t) => Some(t@),
                None => None,
            },
            variant_view(current_variant),
        ),
{
    sheet.restore_occurrence_base();
    match current_variant {
        Some(name) => {
            let k = active_sheet_instance_index(&sheet.instances, selected);
            if k < sheet.instances.len() {
                let vi = find_variant_index(&sheet.instances[k].variants, name);
                if vi < sheet.instances[k].variants.len() {
                    let mut insts: Vec<SheetLocalInstance> = Vec::new();
                    std::mem::swap(&mut insts, &mut sheet.instances);
                    apply_sheet_variant_state(sheet, &insts[k].variants[vi]);
                    std::mem::swap(&mut insts, &mut sheet.instances);
                }
            }
        },
        None => {},
    }
}

/// `n` is the schematic `o` with each sheet refreshed.
pub open spec fn sheets_refreshed(o: LiveSchematic, n: LiveSchematic, selected: Option<Seq<char>>, current_variant: Option<Seq<char>>) -> bool {
    &&& n.path == o.path
    &&& n.symbols == o.symbols
    &&& n.labels == o.labels
    &&& n.sheets@.len() == o.sheets@.len()
    &&& forall|i: int| 0 <= i < o.sheets@.len() ==> sheet_refreshed_to(#[trigger] o.sheets@[i], n.sheets@[i], selected, current_variant)
}

/// Every sheet of the schematic has room for the variant laid over it.
pub open spec fn sheets_ready(o: LiveSchematic, selected: Option<Seq<char>>, current_variant: Option<Seq<char>>) -> bool {
    forall|i: int| 0 <= i < o.sheets@.len() ==> sheet_refresh_applicable(#[trigger] o.sheets@[i], selected, current_variant)
}

fn refresh_sheets_of(schematic: &mut LiveSchematic, selected: Option<&str>, current_variant: Option<&str>)
    requires
        sheets_ready(
            *old(schematic),
            match selected {
                Some(t) => Some(t@),
                None => None,
            },
            variant_view(current_variant),
        ),
    ensures
        sheets_refreshed(
            *old(schematic),
            *final(schematic),
            match selected {
                Some(t) => Some(t@),
                None => None,
            },
            variant_view(current_variant),
        ),
{
    let ghost sel = match selected {
        Some(t) => Some(t@),
        None => None::<Seq<char>>,
    };
    let ghost start = schematic.sheets@;
    let mut i: usize = 0;
    while i < schematic.sheets.len()
        invariant
            0 <= i <= schematic.sheets@.len(),
            schematic.sheets@.len() == start.len(),
            start == old(schematic).sheets@,
            schematic.path == old(schematic).path,
            schematic.symbols == old(schematic).symbols,
            schematic.labels == old(schematic).labels,
            sel == match selected {
                Some(t) => Some(t@),
                None => None::<Seq<char>>,
            },
            forall|j: int| 0 <= j < start.len() ==> sheet_refresh_applicable(#[trigger] start[j], sel, variant_view(current_variant)),
            forall|j: int| i <= j < start.len() ==> #[trigger] schematic.sheets@[j] == start[j],
            forall|j: int| 0 <= j < i ==> sheet_refreshed_to(#[trigger] start[j], schematic.sheets@[j], sel, variant_view(current_variant)),
        decreases start.len() - i,
    {
        assert(schematic.sheets@[i as int] == start[i as int]);
        refresh_sheet(&mut schematic.sheets[i], selected, current_variant);
        i = i + 1;
    }
}

/// The occurrence selected as current, when it is not the root: its instance path.
pub open spec fn selected_below_root(sheet_paths: Seq<LoadedSheetPath>, current: Seq<char>) -> Option<Seq<char>> {
    match crate::loader::selection::occurrence_at(sheet_paths, current) {
        Some(sel) => if sel.instance_path@.len() > 0 {
            Some(sel.instance_path@)
        } else {
            None
        },
        None => None,
    }
}

/// `n` is `o` with every sheet refreshed for the current variant, as
/// [`refresh_live_sheet_variant_state`] does.
pub open spec fn live_sheets_refreshed(
    o: Seq<LiveSchematic>,
    n: Seq<LiveSchematic>,
    sheet_paths: Seq<LoadedSheetPath>,
    current: Seq<char>,
    current_variant: Option<Seq<char>>,
) -> bool {
    &&& n.len() == o.len()
    &&& forall|j: int| 0 <= j < o.len() ==> sheets_refreshed(
        #[trigger] o[j],
        n[j],
        selected_below_root(sheet_paths, current),
        current_variant,
    )
}

/// Refreshes every sheet of every schematic for the current variant: each sheet's
/// baseline is put back, and the variant of its active instance laid over it. The
/// active instance is the one below the current occurrence with the longest path, else
/// the sheet's first instance.
pub fn refresh_live_sheet_variant_state(
    schematics: &mut Vec<LiveSchematic>,
    sheet_paths: &Vec<LoadedSheetPath>,
    current_sheet_instance_path: &str,
    current_variant: Option<&str>,
)
    requires
        forall|j: int| 0 <= j < old(schematics)@.len() ==> sheets_ready(
            #[trigger] old(schematics)@[j],
            selected_below_root(sheet_paths@, current_sheet_instance_path@),
            variant_view(current_variant),
        ),
    ensures
        live_sheets_refreshed(
            old(schematics)@,
            final(schematics)@,
            sheet_paths@,
            current_sheet_instance_path@,
            variant_view(current_variant),
        ),
{
    let selected_path = sheet_path(sheet_paths, current_sheet_instance_path);
    let selected: Option<&str> = match selected_path {
        Some(p) => if !p.instance_path.as_str().is_empty() {
            Some(p.instance_path.as_str())
        } else {
            None
        },
        None => None,
    };
    let ghost sel = selected_below_root(sheet_paths@, current_sheet_instance_path@);
    assert(sel == match selected {
        Some(t) => Some(t@),
        None => None::<Seq<char>>,
    });
    let ghost start = schematics@;
    let mut j: usize = 0;
    while j < schematics.len()
        invariant
            0 <= j <= schematics@.len(),
            schematics@.len() == start.len(),
            start == old(schematics)@,
            sel == match selected {
                Some(t) => Some(t@),
                None => None::<Seq<char>>,
            },
            forall|k: int| 0 <= k < start.len() ==> sheets_ready(#[trigger] start[k], sel, variant_view(current_variant)),
            forall|k: int| j <= k < start.len() ==> #[trigger] schematics@[k] == start[k],
            forall|k: int| 0 <= k < j ==> sheets_refreshed(#[trigger] start[k], schematics@[k], sel, variant_view(current_variant)),
        decreases start.len() - j,
    {
        assert(schematics@[j as int] == start[j as int]);
        refresh_sheets_of(&mut schematics[j], selected, current_variant);
        j = j + 1;
    }
}

/// `n` is the schematic `o` with the baseline of each symbol captured.
pub open spec fn symbol_bases_captured(o: LiveSchematic, n: LiveSchematic) -> bool {
    &&& n.path == o.path
    &&& n.sheets == o.sheets
    &&& n.labels == o.labels
    &&& n.symbols@.len() == o.symbols@.len()
    &&& forall|i: int| 0 <= i < o.symbols@.len() ==> {
        &&& symbol_base_opt(#[trigger] n.symbols@[i]) == Some(symbol_base_of(o.symbols@[i].state()))
        &&& n.symbols@[i].state() == o.symbols@[i].state()
        &&& n.symbols@[i].instances == o.symbols@[i].instances
        &&& n.symbols@[i].uuid == o.symbols@[i].uuid
        &&& n.symbols@[i].power == o.symbols@[i].power
    }
}

/// `n` is the schematic `o` with the baseline of each sheet captured.
pub open spec fn sheet_bases_captured(o: LiveSchematic, n: LiveSchematic) -> bool {
    &&& n.path == o.path
    &&& n.symbols == o.symbols
    &&& n.labels == o.labels
    &&& n.sheets@.len() == o.sheets@.len()
    &&& forall|i: int| 0 <= i < o.sheets@.len() ==> {
        &&& sheet_base_opt(#[trigger] n.sheets@[i]) == Some(sheet_base_of(o.sheets@[i].state()))
        &&& n.sheets@[i].state() == o.sheets@[i].state()
        &&& n.sheets@[i].instances == o.sheets@[i].instances
    }
}

fn capture_symbol_bases(schematic: &mut LiveSchematic)
    ensures
        symbol_bases_captured(*old(schematic), *final(schematic)),
{
    let ghost start = schematic.symbols@;
    let mut i: usize = 0;
    while i < schematic.symbols.len()
        invariant
            0 <= i <= schematic.symbols@.len(),
            schematic.symbols@.len() == start.len(),
            start == old(schematic).symbols@,
            schematic.path == old(schematic).path,
            schematic.sheets == old(schematic).sheets,
            schematic.labels == old(schematic).labels,
            forall|k: int| i <= k < start.len() ==> #[trigger] schematic.symbols@[k] == start[k],
            forall|k: int| 0 <= k < i ==> {
                &&& symbol_base_opt(#[trigger] schematic.symbols@[k]) == Some(symbol_base_of(start[k].state()))
                &&& schematic.symbols@[k].state() == start[k].state()
                &&& schematic.symbols@[k].instances == start[k].instances
                &&& schematic.symbols@[k].uuid == start[k].uuid
                &&& schematic.symbols@[k].power == start[k].power
            },
        decreases start.len() - i,
    {
        assert(schematic.symbols@[i as int] == start[i as int]);
        schematic.symbols[i].capture_occurrence_base();
        i = i + 1;
    }
}

fn capture_sheet_bases(schematic: &mut LiveSchematic)
    ensures
        sheet_bases_captured(*old(schematic), *final(schematic)),
{
    let ghost start = schematic.sheets@;
    let mut i: usize = 0;
    while i < schematic.sheets.len()
        invariant
            0 <= i <= schematic.sheets@.len(),
            schematic.sheets@.len() == start.len(),
            start == old(schematic).sheets@,
            schematic.path == old(schematic).path,
            schematic.symbols == old(schematic).symbols,
            schematic.labels == old(schematic).labels,
            forall|k: int| i <= k < start.len() ==> #[trigger] schematic.sheets@[k] == start[k],
            forall|k: int| 0 <= k < i ==> {
                &&& sheet_base_opt(#[trigger] schematic.sheets@[k]) == Some(sheet_base_of(start[k].state()))
                &&& schematic.sheets@[k].state() == start[k].state()
                &&& schematic.sheets@[k].instances == start[k].instances
            },
        decreases start.len() - i,
    {
        assert(schematic.sheets@[i as int] == start[i as int]);
        schematic.sheets[i].capture_occurrence_base();
        i = i + 1;
    }
}

/// Captures the baseline of every placed symbol of every schematic.
pub fn snapshot_symbol_occurrence_bases(schematics: &mut Vec<LiveSchematic>)
    ensures
        final(schematics)@.len() == old(schematics)@.len(),
        forall|j: int| 0 <= j < old(schematics)@.len() ==> symbol_bases_captured(#[trigger] old(schematics)@[j], final(schematics)@[j]),
{
    let ghost start = schematics@;
    let mut j: usize = 0;
    while j < schematics.len()
        invariant
            0 <= j <= schematics@.len(),
            schematics@.len() == start.len(),
            start == old(schematics)@,
            forall|k: int| j <= k < start.len() ==> #[trigger] schematics@[k] == start[k],
            forall|k: int| 0 <= k < j ==> symbol_bases_captured(#[trigger] start[k], schematics@[k]),
        decreases start.len() - j,
    {
        assert(schematics@[j as int] == start[j as int]);
        capture_symbol_bases(&mut schematics[j]);
        j = j + 1;
    }
}

/// Captures the baseline of every placed sheet of every schematic.
pub fn snapshot_sheet_occurrence_bases(schematics: &mut Vec<LiveSchematic>)
    ensures
        final(schematics)@.len() == old(schematics)@.len(),
        forall|j: int| 0 <= j < old(schematics)@.len() ==> sheet_bases_captured(#[trigger] old(schematics)@[j], final(schematics)@[j]),
{
    let ghost start = schematics@;
    let mut j: usize = 0;
    while j < schematics.len()
        invariant
            0 <= j <= schematics@.len(),
            schematics@.len() == start.len(),
            start == old(schematics)@,
            forall|k: int| j <= k < start.len() ==> #[trigger] schematics@[k] == start[k],
            forall|k: int| 0 <= k < j ==> sheet_bases_captured(#[trigger] start[k], schematics@[k]),
        decreases start.len() - j,
    {
        assert(schematics@[j as int] == start[j as int]);
        capture_sheet_bases(&mut schematics[j]);
        j = j + 1;
    }
}

/// Position of the first schematic with the path, from `i` on, or the number of
/// schematics.
pub open spec fn schematic_from(schs: Seq<LiveSchematic>, path: Seq<char>, i: int) -> int
    decreases schs.len() - i,
{
    if 0 <= i < schs.len() && schs[i].path@ != path {
        schematic_from(schs, path, i + 1)
    } else {
        i
    }
}

/// Position of the first occurrence of the file, from `i` on, or the number of
/// occurrences.
pub open spec fn file_occurrence_from(sps: Seq<LoadedSheetPath>, file: Seq<char>, i: int) -> int
    decreases sps.len() - i,
{
    if 0 <= i < sps.len() && sps[i].schematic_path@ != file {
        file_occurrence_from(sps, file, i + 1)
    } else {
        i
    }
}

/// `n` is the schematic `o` with each symbol refreshed for the instance path.
pub open spec fn symbols_refreshed_for(o: LiveSchematic, n: LiveSchematic, instance_path: Seq<char>, current_variant: Option<Seq<char>>) -> bool {
    &&& n.path == o.path
    &&& n.sheets == o.sheets
    &&& n.labels == o.labels
    &&& n.symbols@.len() == o.symbols@.len()
    &&& forall|i: int| 0 <= i < o.symbols@.len() ==> symbol_refreshed_to(
        #[trigger] o.symbols@[i],
        n.symbols@[i],
        instance_at_path(o.symbols@[i].instances@, instance_path),
        current_variant,
    )
}

/// Every symbol of the schematic can take its instance with the path.
pub open spec fn symbols_ready_for(o: LiveSchematic, instance_path: Seq<char>, current_variant: Option<Seq<char>>) -> bool {
    forall|i: int| 0 <= i < o.symbols@.len() ==> refresh_applicable(
        #[trigger] o.symbols@[i],
        instance_at_path(o.symbols@[i].instances@, instance_path),
        current_variant,
    )
}

/// `n` is the schematic `o` with each symbol refreshed for its first instance.
pub open spec fn symbols_seeded(o: LiveSchematic, n: LiveSchematic, current_variant: Option<Seq<char>>) -> bool {
    &&& n.path == o.path
    &&& n.sheets == o.sheets
    &&& n.labels == o.labels
    &&& n.symbols@.len() == o.symbols@.len()
    &&& forall|i: int| 0 <= i < o.symbols@.len() ==> symbol_refreshed_to(
        #[trigger] o.symbols@[i],
        n.symbols@[i],
        first_instance(o.symbols@[i].instances@),
        current_variant,
    )
}

/// Every symbol of the schematic can take its first instance.
pub open spec fn symbols_ready_first(o: LiveSchematic, current_variant: Option<Seq<char>>) -> bool {
    forall|i: int| 0 <= i < o.symbols@.len() ==> refresh_applicable(
        #[trigger] o.symbols@[i],
        first_instance(o.symbols@[i].instances@),
        current_variant,
    )
}

/// The file whose screen goes back to its first occurrence when the current occurrence
/// changes from `previous` to `next`: the previous occurrence's file, where it is shown
/// more than once and `next` is in another file (or there is no `next`).
pub open spec fn reseeded_file(sheet_paths: Seq<LoadedSheetPath>, previous: Option<LoadedSheetPath>, next: Option<LoadedSheetPath>) -> Option<Seq<char>> {
    match previous {
        Some(p) => {
            let file = p.schematic_path@;
            let switching = match next {
                Some(n) => n.schematic_path@ != file,
                None => true,
            };
            if crate::loader::selection::occurrence_count(sheet_paths, file) > 1 && switching {
                Some(file)
            } else {
                None
            }
        },
        None => None,
    }
}

/// Position of the schematic that goes back to its first occurrence, or -1.
pub open spec fn reseeded_index(schs: Seq<LiveSchematic>, file: Option<Seq<char>>) -> int {
    match file {
        Some(f) => {
            let k = schematic_from(schs, f, 0);
            if k < schs.len() {
                k
            } else {
                -1
            }
        },
        None => -1,
    }
}

/// Position of the first schematic with the path, or the number of schematics.
pub(crate) fn find_schematic_index(schematics: &Vec<LiveSchematic>, path: &String) -> (r: usize)
    ensures
        r == schematic_from(schematics@, path@, 0),
{
    let mut i: usize = 0;
    while i < schematics.len() && schematics[i].path != *path
        invariant
            0 <= i <= schematics.len(),
            schematic_from(schematics@, path@, 0) == schematic_from(schematics@, path@, i as int),
        decreases schematics.len() - i,
    {
        i = i + 1;
    }
    i
}

/// Position of the first occurrence of the file, or the number of occurrences.
fn find_file_occurrence(sheet_paths: &Vec<LoadedSheetPath>, file: &String) -> (r: usize)
    ensures
        r == file_occurrence_from(sheet_paths@, file@, 0),
{
    let mut i: usize = 0;
    while i < sheet_paths.len() && sheet_paths[i].schematic_path != *file
        invariant
            0 <= i <= sheet_paths.len(),
            file_occurrence_from(sheet_paths@, file@, 0) == file_occurrence_from(sheet_paths@, file@, i as int),
        decreases sheet_paths.len() - i,
    {
        i = i + 1;
    }
    i
}

/// The value behind an optional reference.
pub open spec fn opt_ref<T>(o: Option<&T>) -> Option<T> {
    match o {
        Some(x) => Some(*x),
        None => None,
    }
}

/// `n` is `o` after the current occurrence changed from `previous` to `next`: the
/// schematic that goes back to its first occurrence has its symbols seeded, the others
/// are unchanged.
pub open spec fn reused_screen_reset(
    o: Seq<LiveSchematic>,
    n: Seq<LiveSchematic>,
    sheet_paths: Seq<LoadedSheetPath>,
    previous: Option<LoadedSheetPath>,
    next: Option<LoadedSheetPath>,
    current_variant: Option<Seq<char>>,
) -> bool {
    let k = reseeded_index(o, reseeded_file(sheet_paths, previous, next));
    &&& n.len() == o.len()
    &&& forall|j: int| 0 <= j < o.len() ==> if j == k {
        symbols_seeded(#[trigger] o[j], n[j], current_variant)
    } else {
        n[j] == o[j]
    }
}

/// When the current occurrence leaves a file shown more than once for another file,
/// the first schematic of that file goes back to its first occurrence: each of its
/// symbols takes its baseline and its first instance.
pub fn reset_reused_screen_symbol_state(
    schematics: &mut Vec<LiveSchematic>,
    sheet_paths: &Vec<LoadedSheetPath>,
    previous: Option<&LoadedSheetPath>,
    next: Option<&LoadedSheetPath>,
    current_variant: Option<&str>,
)
    requires
        ({
            let k = reseeded_index(old(schematics)@, reseeded_file(sheet_paths@, opt_ref(previous), opt_ref(next)));
            0 <= k < old(schematics)@.len() ==> symbols_ready_first(old(schematics)@[k], variant_view(current_variant))
        }),
    ensures
        reused_screen_reset(
            old(schematics)@,
            final(schematics)@,
            sheet_paths@,
            opt_ref(previous),
            opt_ref(next),
            variant_view(current_variant),
        ),
{
    let prev = match previous {
        Some(p) => p,
        None => {
            return;
        },
    };
    let count = crate::loader::selection::occurrence_count_exec(sheet_paths, &prev.schematic_path);
    let switching = match next {
        Some(n) => n.schematic_path != prev.schematic_path,
        None => true,
    };
    if count <= 1 || !switching {
        return;
    }
    let k = find_schematic_index(schematics, &prev.schematic_path);
    proof {
        lemma_schematic_from(schematics@, prev.schematic_path@, 0);
    }
    if k < schematics.len() {
        let ghost before = schematics@;
        seed_first_symbol_instance_state(&mut schematics[k], current_variant);
        assert forall|j: int| 0 <= j < before.len() && j != k implies schematics@[j] == before[j] by {}
    }
}

pub(crate) proof fn lemma_schematic_from(schs: Seq<LiveSchematic>, path: Seq<char>, i: int)
    requires
        0 <= i <= schs.len(),
    ensures
        i <= schematic_from(schs, path, i) <= schs.len(),
        schematic_from(schs, path, i) < schs.len() ==> schs[schematic_from(schs, path, i)].path@ == path,
        forall|j: int| i <= j < schematic_from(schs, path, i) ==> (#[trigger] schs[j]).path@ != path,
    decreases schs.len() - i,
{
    if i < schs.len() && schs[i].path@ != path {
        lemma_schematic_from(schs, path, i + 1);
    }
}

/// The instance path whose instances a file's symbols take: the file's first occurrence,
/// or, for a file shown more than once, the current occurrence where it is in that file;
/// none for a file no occurrence shows.
pub open spec fn active_instance_path(sheet_paths: Seq<LoadedSheetPath>, current: Seq<char>, file: Seq<char>) -> Option<Seq<char>> {
    let k = file_occurrence_from(sheet_paths, file, 0);
    if 0 <= k < sheet_paths.len() {
        let own = sheet_paths[k].instance_path@;
        if crate::loader::selection::occurrence_count(sheet_paths, file) > 1 {
            match crate::loader::selection::occurrence_at(sheet_paths, current) {
                Some(sel) => if sel.schematic_path@ == file {
                    Some(sel.instance_path@)
                } else {
                    Some(own)
                },
                None => Some(own),
            }
        } else {
            Some(own)
        }
    } else {
        None
    }
}

/// The schematic is refreshed: it is the first with its path and an occurrence shows
/// its file; the instance path it is refreshed for.
pub open spec fn refreshed_for(schs: Seq<LiveSchematic>, j: int, sheet_paths: Seq<LoadedSheetPath>, current: Seq<char>) -> Option<Seq<char>> {
    if schematic_from(schs, schs[j].path@, 0) == j {
        active_instance_path(sheet_paths, current, schs[j].path@)
    } else {
        None
    }
}

/// The instance path that a file's symbols take, as [`active_instance_path`] says.
fn active_instance_path_exec(sheet_paths: &Vec<LoadedSheetPath>, current: &str, file: &String) -> (r: Option<String>)
    ensures
        match active_instance_path(sheet_paths@, current@, file@) {
            Some(p) => r matches Some(t) && t@ == p,
            None => r is None,
        },
{
    let k = find_file_occurrence(sheet_paths, file);
    if k >= sheet_paths.len() {
        return None;
    }
    let count = crate::loader::selection::occurrence_count_exec(sheet_paths, file);
    if count > 1 {
        match sheet_path(sheet_paths, current) {
            Some(sel) => {
                if sel.schematic_path == *file {
                    Some(sel.instance_path.clone())
                } else {
                    Some(sheet_paths[k].instance_path.clone())
                }
            },
            None => Some(sheet_paths[k].instance_path.clone()),
        }
    } else {
        Some(sheet_paths[k].instance_path.clone())
    }
}

/// `n` is `o` with the symbols of every file an occurrence shows refreshed, as
/// [`refresh_live_symbol_occurrence_state`] does.
pub open spec fn live_symbols_refreshed(
    o: Seq<LiveSchematic>,
    n: Seq<LiveSchematic>,
    sheet_paths: Seq<LoadedSheetPath>,
    current: Seq<char>,
    current_variant: Option<Seq<char>>,
) -> bool {
    &&& n.len() == o.len()
    &&& forall|j: int| 0 <= j < o.len() ==> match refreshed_for(o, j, sheet_paths, current) {
        Some(ip) => symbols_refreshed_for(#[trigger] o[j], n[j], ip, current_variant),
        None => n[j] == o[j],
    }
}

/// Refreshes the symbols of every file an occurrence shows, once per file (its first
/// schematic): each symbol takes its baseline and its instance for the file's first
/// occurrence, or, for a file shown more than once, for the current occurrence where
/// that is in the file.
pub fn refresh_live_symbol_occurrence_state(
    schematics: &mut Vec<LiveSchematic>,
    sheet_paths: &Vec<LoadedSheetPath>,
    current_sheet_instance_path: &str,
    current_variant: Option<&str>,
)
    requires
        forall|j: int| 0 <= j < old(schematics)@.len() ==> (refreshed_for(old(schematics)@, j, sheet_paths@, current_sheet_instance_path@)
            matches Some(ip) ==> symbols_ready_for(#[trigger] old(schematics)@[j], ip, variant_view(current_variant))),
    ensures
        live_symbols_refreshed(
            old(schematics)@,
            final(schematics)@,
            sheet_paths@,
            current_sheet_instance_path@,
            variant_view(current_variant),
        ),
{
    let ghost start = schematics@;
    let mut j: usize = 0;
    while j < schematics.len()
        invariant
            0 <= j <= schematics@.len(),
            schematics@.len() == start.len(),
            start == old(schematics)@,
            forall|k: int| 0 <= k < start.len() ==> (refreshed_for(start, k, sheet_paths@, current_sheet_instance_path@) matches Some(ip)
                ==> symbols_ready_for(#[trigger] start[k], ip, variant_view(current_variant))),
            forall|k: int| j <= k < start.len() ==> #[trigger] schematics@[k] == start[k],
            forall|k: int| 0 <= k < j ==> match refreshed_for(start, k, sheet_paths@, current_sheet_instance_path@) {
                Some(ip) => symbols_refreshed_for(#[trigger] start[k], schematics@[k], ip, variant_view(current_variant)),
                None => schematics@[k] == start[k],
            },
        decreases start.len() - j,
    {
        assert(schematics@[j as int] == start[j as int]);
        let path = schematics[j].path.clone();
        let first = find_schematic_index(schematics, &path);
        proof {
            assert forall|k: int| 0 <= k < start.len() implies #[trigger] schematic_from(schematics@, start[k].path@, 0) == schematic_from(start, start[k].path@, 0) by {
                lemma_schematic_from_same_paths(schematics@, start, start[k].path@, 0);
            }
            lemma_schematic_from_same_paths(schematics@, start, path@, 0);
        }
        if first == j {
            match active_instance_path_exec(sheet_paths, current_sheet_instance_path, &path) {
                Some(ip) => {
                    apply_symbol_instance_state(&mut schematics[j], ip.as_str(), current_variant);
                },
                None => {},
            }
        }
        j = j + 1;
    }
}

/// Schematic lists with the same paths in the same places have their first schematic
/// of a path in the same place.
proof fn lemma_schematic_from_same_paths(a: Seq<LiveSchematic>, b: Seq<LiveSchematic>, path: Seq<char>, i: int)
    requires
        a.len() == b.len(),
        forall|j: int| 0 <= j < a.len() ==> (#[trigger] a[j]).path == b[j].path,
    ensures
        schematic_from(a, path, i) == schematic_from(b, path, i),
    decreases a.len() - i,
{
    if 0 <= i < a.len() && a[i].path@ != path {
        lemma_schematic_from_same_paths(a, b, path, i + 1);
    }
}

/// Putting back a captured baseline gives back the captured state, whatever was laid
/// over the item since; only the reference prefix and the netlist flag stay as they are.
pub proof fn law_restore_undoes_changes(captured: SymbolView, later: SymbolView)
    ensures
        symbol_restored(later, Some(symbol_base_of(captured))) == (SymbolView {
            prefix: later.prefix,
            in_netlist: later.in_netlist,
            ..captured
        }),
{
}

/// The symbol state with another reference prefix and netlist flag.
pub open spec fn with_tag(s: SymbolView, prefix: Seq<char>, in_netlist: bool) -> SymbolView {
    SymbolView { prefix, in_netlist, ..s }
}

/// Laying an instance over a symbol leaves its prefix and netlist flag to the instance's
/// reference: with one, they come from it; without, they pass through.
proof fn lemma_instance_applied_tag(s: SymbolView, inst: SymbolLocalInstance, current_variant: Option<Seq<char>>, prefix: Seq<char>, in_netlist: bool)
    ensures
        inst.reference is Some ==> symbol_instance_applied(with_tag(s, prefix, in_netlist), inst, current_variant)
            == symbol_instance_applied(s, inst, current_variant),
        inst.reference is None ==> symbol_instance_applied(with_tag(s, prefix, in_netlist), inst, current_variant)
            == with_tag(symbol_instance_applied(s, inst, current_variant), prefix, in_netlist),
{
    let t = with_tag(s, prefix, in_netlist);
    let s1 = match inst.reference {
        Some(r) => symbol_text_set(s, PropertyKind::SymbolReference, r@),
        None => s,
    };
    let t1 = match inst.reference {
        Some(r) => symbol_text_set(t, PropertyKind::SymbolReference, r@),
        None => t,
    };
    if inst.reference is Some {
        assert(t1 == s1);
    } else {
        assert(t1 == with_tag(s1, prefix, in_netlist));
        let s2 = match inst.unit {
            Some(u) => SymbolView { unit: Some(u), ..s1 },
            None => s1,
        };
        let t2 = match inst.unit {
            Some(u) => SymbolView { unit: Some(u), ..t1 },
            None => t1,
        };
        assert(t2 == with_tag(s2, prefix, in_netlist));
        let s3 = match text_override(inst.value) {
            Some(v) => symbol_text_set(s2, PropertyKind::SymbolValue, v),
            None => s2,
        };
        let t3 = match text_override(inst.value) {
            Some(v) => symbol_text_set(t2, PropertyKind::SymbolValue, v),
            None => t2,
        };
        assert(t3 == with_tag(s3, prefix, in_netlist));
        let s4 = match text_override(inst.footprint) {
            Some(f) => symbol_text_set(s3, PropertyKind::SymbolFootprint, f),
            None => s3,
        };
        let t4 = match text_override(inst.footprint) {
            Some(f) => symbol_text_set(t3, PropertyKind::SymbolFootprint, f),
            None => t3,
        };
        assert(t4 == with_tag(s4, prefix, in_netlist));
        match selected_variant(inst.variants@, current_variant) {
            Some(v) => {
                assert(symbol_variant_applied(t4, v) == with_tag(symbol_variant_applied(s4, v), prefix, in_netlist));
            },
            None => {},
        }
    }
}

/// Refreshing a symbol that has a baseline for the same occurrence twice changes nothing
/// the second time.
pub proof fn law_refresh_idempotent(o: LiveSymbol, n: LiveSymbol, chosen: Option<SymbolLocalInstance>, current_variant: Option<Seq<char>>)
    requires
        o.occurrence_base is Some,
        symbol_refreshed_to(o, n, chosen, current_variant),
    ensures
        symbol_refreshed(n, chosen, current_variant) == n.state(),
{
    let r1 = symbol_restored(o.state(), symbol_base_opt(o));
    let r2 = symbol_restored(n.state(), symbol_base_opt(n));
    assert(r2 == with_tag(r1, n.prefix@, n.in_netlist));
    match chosen {
        Some(inst) => {
            lemma_instance_applied_tag(r1, inst, current_variant, n.prefix@, n.in_netlist);
        },
        None => {},
    }
}

/// Fields with the same keys in the same places, as far as the first has fields, have
/// their first field of a key found in the first in the same place.
proof fn lemma_key_from_same_keys(a: Seq<PropertyView>, b: Seq<PropertyView>, key: Seq<char>, i: int)
    requires
        0 <= i <= a.len() <= b.len(),
        forall|j: int| 0 <= j < a.len() ==> (#[trigger] a[j]).key == b[j].key,
        key_from(a, key, i) < a.len(),
    ensures
        key_from(b, key, i) == key_from(a, key, i),
    decreases a.len() - i,
{
    if a[i].key != key {
        lemma_key_from_same_keys(a, b, key, i + 1);
    }
}

/// After one variant field, the first field with its name has its text, and the first
/// field with any other name that was there is where it was, with its text.
proof fn lemma_variant_field_set(pv: Seq<PropertyView>, user_kind: PropertyKind, name: Seq<char>, value: Seq<char>)
    ensures
        ({
            let q = variant_field_set(pv, user_kind, name, value);
            &&& pv.len() <= q.len()
            &&& key_from(q, name, 0) < q.len()
            &&& q[key_from(q, name, 0)].value == value
            &&& forall|other: Seq<char>| other != name && #[trigger] key_from(pv, other, 0) < pv.len() ==> key_from(q, other, 0)
                == key_from(pv, other, 0) && q[key_from(pv, other, 0)].value == pv[key_from(pv, other, 0)].value
        }),
{
    let q = variant_field_set(pv, user_kind, name, value);
    let k = key_from(pv, name, 0);
    lemma_key_from(pv, name, 0);
    assert forall|j: int| 0 <= j < pv.len() implies (#[trigger] pv[j]).key == q[j].key by {}
    if k < pv.len() {
        lemma_key_from_same_keys(pv, q, name, 0);
    } else {
        assert forall|j: int| 0 <= j < pv.len() implies (#[trigger] q[j]).key != name by {
            assert(pv[j].key != name);
        }
        lemma_key_from_at(q, name, pv.len() as int);
    }
    assert forall|other: Seq<char>| other != name && #[trigger] key_from(pv, other, 0) < pv.len() implies key_from(q, other, 0)
        == key_from(pv, other, 0) && q[key_from(pv, other, 0)].value == pv[key_from(pv, other, 0)].value by {
        lemma_key_from(pv, other, 0);
        lemma_key_from_same_keys(pv, q, other, 0);
    }
}

/// The names of the pairs are distinct.
pub open spec fn distinct_names(fields: Seq<(Seq<char>, Seq<char>)>) -> bool {
    forall|i: int, j: int| 0 <= i < j < fields.len() ==> (#[trigger] fields[i]).0 != (#[trigger] fields[j]).0
}

/// After a variant's fields are laid over an item's fields, the first field with each of
/// the variant's names has the variant's text for it.
pub proof fn law_variant_fields_take_effect(pv: Seq<PropertyView>, user_kind: PropertyKind, fields: Seq<(Seq<char>, Seq<char>)>)
    requires
        distinct_names(fields),
    ensures
        forall|i: int| 0 <= i < fields.len() ==> {
            let q = variant_fields_set(pv, user_kind, fields);
            &&& key_from(q, (#[trigger] fields[i]).0, 0) < q.len()
            &&& q[key_from(q, fields[i].0, 0)].value == fields[i].1
        },
    decreases fields.len(),
{
    if fields.len() > 0 {
        let init = fields.drop_last();
        assert(distinct_names(init)) by {
            assert forall|i: int, j: int| 0 <= i < j < init.len() implies (#[trigger] init[i]).0 != (#[trigger] init[j]).0 by {
                assert(init[i] == fields[i] && init[j] == fields[j]);
            }
        }
        law_variant_fields_take_effect(pv, user_kind, init);
        let rest = variant_fields_set(pv, user_kind, init);
        let last = fields.last();
        lemma_variant_field_set(rest, user_kind, last.0, last.1);
        let q = variant_fields_set(pv, user_kind, fields);
        assert(q == variant_field_set(rest, user_kind, last.0, last.1));
        assert forall|i: int| 0 <= i < fields.len() implies {
            &&& key_from(q, (#[trigger] fields[i]).0, 0) < q.len()
            &&& q[key_from(q, fields[i].0, 0)].value == fields[i].1
        } by {
            if i < fields.len() - 1 {
                assert(init[i] == fields[i]);
                assert(fields[i].0 != last.0);
                assert(key_from(rest, fields[i].0, 0) < rest.len());
            }
        }
    }
}

/// The symbol state has the fields that the instance sets, and room for the fields of
/// any of the instance's variants.
pub open spec fn instance_ready(s: SymbolView, inst: SymbolLocalInstance) -> bool {
    &&& (inst.reference is Some ==> kind_from(s.properties, PropertyKind::SymbolReference, 0) < s.properties.len())
    &&& (text_override(inst.value) is Some ==> kind_from(s.properties, PropertyKind::SymbolValue, 0) < s.properties.len())
    &&& (text_override(inst.footprint) is Some ==> kind_from(s.properties, PropertyKind::SymbolFootprint, 0)
        < s.properties.len())
    &&& forall|k: int| 0 <= k < inst.variants@.len() ==> leaves_room(s.properties, (#[trigger] inst.variants@[k]).fields@.len() as int)
}

/// A symbol is ready for any refresh: it has a baseline, and every instance can be laid
/// over the baseline.
pub open spec fn symbol_ready(s: LiveSymbol) -> bool {
    &&& s.occurrence_base is Some
    &&& forall|k: int| 0 <= k < s.instances@.len() ==> instance_ready(
        symbol_restored(s.state(), symbol_base_opt(s)),
        #[trigger] s.instances@[k],
    )
}

/// A sheet is ready for any refresh: it has a baseline, with room for the fields of
/// every variant of every instance.
pub open spec fn sheet_ready(s: LiveSheet) -> bool {
    &&& s.occurrence_base is Some
    &&& forall|k: int, j: int| 0 <= k < s.instances@.len() && 0 <= j < (#[trigger] s.instances@[k]).variants@.len() ==> leaves_room(
        sheet_restored(s.state(), sheet_base_opt(s)).properties,
        (#[trigger] s.instances@[k].variants@[j]).fields@.len() as int,
    )
}

/// Every symbol and sheet of the schematic is ready for any refresh.
pub open spec fn schematic_ready(sch: LiveSchematic) -> bool {
    &&& forall|i: int| 0 <= i < sch.symbols@.len() ==> symbol_ready(#[trigger] sch.symbols@[i])
    &&& forall|i: int| 0 <= i < sch.sheets@.len() ==> sheet_ready(#[trigger] sch.sheets@[i])
}

/// Every schematic is ready for any refresh.
pub open spec fn occurrences_ready(schs: Seq<LiveSchematic>) -> bool {
    forall|j: int| 0 <= j < schs.len() ==> schematic_ready(#[trigger] schs[j])
}

proof fn lemma_variant_from(vs: Seq<ItemVariant>, name: Seq<char>, i: int)
    requires
        0 <= i <= vs.len(),
    ensures
        i <= variant_from(vs, name, i) <= vs.len(),
    decreases vs.len() - i,
{
    if i < vs.len() && vs[i].name@ != name {
        lemma_variant_from(vs, name, i + 1);
    }
}

pub(crate) proof fn lemma_instance_from(insts: Seq<SymbolLocalInstance>, path: Seq<char>, i: int)
    requires
        0 <= i <= insts.len(),
    ensures
        i <= instance_from(insts, path, i) <= insts.len(),
    decreases insts.len() - i,
{
    if i < insts.len() && insts[i].path@ != path {
        lemma_instance_from(insts, path, i + 1);
    }
}

proof fn lemma_best_sheet_instance(insts: Seq<SheetLocalInstance>, selected: Seq<char>, n: int)
    requires
        0 <= n <= insts.len(),
    ensures
        best_sheet_instance(insts, selected, n) matches Some(b) ==> 0 <= b < n,
    decreases n,
{
    if n > 0 {
        lemma_best_sheet_instance(insts, selected, n - 1);
    }
}

/// An instance that is ready can be laid over the state with any current variant.
proof fn lemma_instance_ready(s: SymbolView, inst: SymbolLocalInstance, current_variant: Option<Seq<char>>)
    requires
        instance_ready(s, inst),
    ensures
        instance_applicable(s, inst, current_variant),
{
    match current_variant {
        Some(name) => {
            lemma_variant_from(inst.variants@, name, 0);
            let k = variant_from(inst.variants@, name, 0);
            if k < inst.variants@.len() {
                assert(leaves_room(s.properties, inst.variants@[k].fields@.len() as int));
            }
        },
        None => {},
    }
}

/// A ready schematic can take any refresh of its symbols and sheets.
proof fn lemma_schematic_ready(sch: LiveSchematic, instance_path: Seq<char>, selected: Option<Seq<char>>, current_variant: Option<Seq<char>>)
    requires
        schematic_ready(sch),
    ensures
        symbols_ready_for(sch, instance_path, current_variant),
        symbols_ready_first(sch, current_variant),
        sheets_ready(sch, selected, current_variant),
{
    assert forall|i: int| 0 <= i < sch.symbols@.len() implies refresh_applicable(
        #[trigger] sch.symbols@[i],
        instance_at_path(sch.symbols@[i].instances@, instance_path),
        current_variant,
    ) && refresh_applicable(sch.symbols@[i], first_instance(sch.symbols@[i].instances@), current_variant) by {
        let s = sch.symbols@[i];
        assert(symbol_ready(s));
        let r = symbol_restored(s.state(), symbol_base_opt(s));
        lemma_instance_from(s.instances@, instance_path, 0);
        let k = instance_from(s.instances@, instance_path, 0);
        if k < s.instances@.len() {
            assert(instance_ready(r, s.instances@[k]));
            lemma_instance_ready(r, s.instances@[k], current_variant);
        }
        if s.instances@.len() > 0 {
            assert(instance_ready(r, s.instances@[0]));
            lemma_instance_ready(r, s.instances@[0], current_variant);
        }
    }
    assert forall|i: int| 0 <= i < sch.sheets@.len() implies sheet_refresh_applicable(#[trigger] sch.sheets@[i], selected, current_variant) by {
        let sh = sch.sheets@[i];
        assert(sheet_ready(sh));
        let insts = sh.instances@;
        match current_variant {
            Some(name) => {
                match selected {
                    Some(sel) => {
                        lemma_best_sheet_instance(insts, sel, insts.len() as int);
                    },
                    None => {},
                }
                match active_sheet_instance(insts, selected) {
                    Some(inst) => {
                        let b = choose|b: int| 0 <= b < insts.len() && insts[b] == inst;
                        lemma_variant_from(inst.variants@, name, 0);
                        let k = variant_from(inst.variants@, name, 0);
                        if k < inst.variants@.len() {
                            assert(insts[b].variants@[k] == inst.variants@[k]);
                        }
                    },
                    None => {},
                }
            },
            None => {},
        }
    }
}

/// Refreshing a ready symbol leaves it ready.
proof fn lemma_symbol_stays_ready(o: LiveSymbol, n: LiveSymbol, chosen: Option<SymbolLocalInstance>, current_variant: Option<Seq<char>>)
    requires
        symbol_ready(o),
        symbol_refreshed_to(o, n, chosen, current_variant),
    ensures
        symbol_ready(n),
{
    assert(symbol_restored(n.state(), symbol_base_opt(n)).properties == symbol_restored(o.state(), symbol_base_opt(o)).properties);
    assert forall|k: int| 0 <= k < n.instances@.len() implies instance_ready(
        symbol_restored(n.state(), symbol_base_opt(n)),
        #[trigger] n.instances@[k],
    ) by {
        assert(instance_ready(symbol_restored(o.state(), symbol_base_opt(o)), o.instances@[k]));
    }
}

/// Refreshing a ready sheet leaves it ready.
proof fn lemma_sheet_stays_ready(o: LiveSheet, n: LiveSheet, selected: Option<Seq<char>>, current_variant: Option<Seq<char>>)
    requires
        sheet_ready(o),
        sheet_refreshed_to(o, n, selected, current_variant),
    ensures
        sheet_ready(n),
{
    assert(sheet_restored(n.state(), sheet_base_opt(n)).properties == sheet_restored(o.state(), sheet_base_opt(o)).properties);
}

/// A refresh of the symbols of a ready schematic for an instance path leaves it ready.
proof fn lemma_refreshed_for_stays_ready(o: LiveSchematic, n: LiveSchematic, instance_path: Seq<char>, current_variant: Option<Seq<char>>)
    requires
        schematic_ready(o),
        symbols_refreshed_for(o, n, instance_path, current_variant),
    ensures
        schematic_ready(n),
{
    assert forall|i: int| 0 <= i < n.symbols@.len() implies symbol_ready(#[trigger] n.symbols@[i]) by {
        lemma_symbol_stays_ready(
            o.symbols@[i],
            n.symbols@[i],
            instance_at_path(o.symbols@[i].instances@, instance_path),
            current_variant,
        );
    }
}

/// Seeding the symbols of a ready schematic leaves it ready.
proof fn lemma_seeded_stays_ready(o: LiveSchematic, n: LiveSchematic, current_variant: Option<Seq<char>>)
    requires
        schematic_ready(o),
        symbols_seeded(o, n, current_variant),
    ensures
        schematic_ready(n),
{
    assert forall|i: int| 0 <= i < n.symbols@.len() implies symbol_ready(#[trigger] n.symbols@[i]) by {
        lemma_symbol_stays_ready(o.symbols@[i], n.symbols@[i], first_instance(o.symbols@[i].instances@), current_variant);
    }
}

/// A refresh of the sheets of a ready schematic leaves it ready.
proof fn lemma_sheets_refreshed_stays_ready(o: LiveSchematic, n: LiveSchematic, selected: Option<Seq<char>>, current_variant: Option<Seq<char>>)
    requires
        schematic_ready(o),
        sheets_refreshed(o, n, selected, current_variant),
    ensures
        schematic_ready(n),
{
    assert forall|i: int| 0 <= i < n.sheets@.len() implies sheet_ready(#[trigger] n.sheets@[i]) by {
        lemma_sheet_stays_ready(o.sheets@[i], n.sheets@[i], selected, current_variant);
    }
}

/// Ready schematics can take every project-wide refresh, and stay ready after each.
pub proof fn lemma_occurrences_ready(
    o: Seq<LiveSchematic>,
    sheet_paths: Seq<LoadedSheetPath>,
    current: Seq<char>,
    previous: Option<LoadedSheetPath>,
    next: Option<LoadedSheetPath>,
    current_variant: Option<Seq<char>>,
)
    requires
        occurrences_ready(o),
    ensures
        ({
            let k = reseeded_index(o, reseeded_file(sheet_paths, previous, next));
            0 <= k < o.len() ==> symbols_ready_first(o[k], current_variant)
        }),
        forall|j: int| 0 <= j < o.len() ==> (refreshed_for(o, j, sheet_paths, current) matches Some(ip) ==> symbols_ready_for(
            #[trigger] o[j],
            ip,
            current_variant,
        )),
        forall|j: int| 0 <= j < o.len() ==> sheets_ready(#[trigger] o[j], selected_below_root(sheet_paths, current), current_variant),
        forall|n: Seq<LiveSchematic>| #[trigger] reused_screen_reset(o, n, sheet_paths, previous, next, current_variant) ==> occurrences_ready(n),
        forall|n: Seq<LiveSchematic>| #[trigger] live_symbols_refreshed(o, n, sheet_paths, current, current_variant) ==> occurrences_ready(n),
        forall|n: Seq<LiveSchematic>| #[trigger] live_sheets_refreshed(o, n, sheet_paths, current, current_variant) ==> occurrences_ready(n),
{
    assert forall|j: int| 0 <= j < o.len() implies sheets_ready(#[trigger] o[j], selected_below_root(sheet_paths, current), current_variant)
        && symbols_ready_first(o[j], current_variant) && (refreshed_for(o, j, sheet_paths, current) matches Some(ip)
        ==> symbols_ready_for(o[j], ip, current_variant)) by {
        lemma_schematic_ready(o[j], Seq::empty(), selected_below_root(sheet_paths, current), current_variant);
        match refreshed_for(o, j, sheet_paths, current) {
            Some(ip) => {
                lemma_schematic_ready(o[j], ip, None, current_variant);
            },
            None => {},
        }
    }
    assert forall|n: Seq<LiveSchematic>| #[trigger] reused_screen_reset(o, n, sheet_paths, previous, next, current_variant) implies occurrences_ready(n) by {
        let k = reseeded_index(o, reseeded_file(sheet_paths, previous, next));
        assert forall|j: int| 0 <= j < n.len() implies schematic_ready(#[trigger] n[j]) by {
            assert(schematic_ready(o[j]));
            if j == k {
                assert(symbols_seeded(o[j], n[j], current_variant));
                lemma_seeded_stays_ready(o[j], n[j], current_variant);
            } else {
                assert(n[j] == o[j]);
            }
        }
    }
    assert forall|n: Seq<LiveSchematic>| #[trigger] live_symbols_refreshed(o, n, sheet_paths, current, current_variant) implies occurrences_ready(n) by {
        assert forall|j: int| 0 <= j < n.len() implies schematic_ready(#[trigger] n[j]) by {
            match refreshed_for(o, j, sheet_paths, current) {
                Some(ip) => {
                    lemma_refreshed_for_stays_ready(o[j], n[j], ip, current_variant);
                },
                None => {},
            }
        }
    }
    assert forall|n: Seq<LiveSchematic>| #[trigger] live_sheets_refreshed(o, n, sheet_paths, current, current_variant) implies occurrences_ready(n) by {
        assert forall|j: int| 0 <= j < n.len() implies schematic_ready(#[trigger] n[j]) by {
            lemma_sheets_refreshed_stays_ready(o[j], n[j], selected_below_root(sheet_paths, current), current_variant);
        }
    }
}

/// `n` is `o` with the symbols of the first schematic of the file refreshed for the
/// instance path; the others unchanged.
pub open spec fn file_symbols_refreshed(
    o: Seq<LiveSchematic>,
    n: Seq<LiveSchematic>,
    file: Seq<char>,
    instance_path: Seq<char>,
    current_variant: Option<Seq<char>>,
) -> bool {
    let k = schematic_from(o, file, 0);
    &&& n.len() == o.len()
    &&& forall|j: int| 0 <= j < o.len() ==> if j == k {
        symbols_refreshed_for(#[trigger] o[j], n[j], instance_path, current_variant)
    } else {
        n[j] == o[j]
    }
}

/// Refreshes the symbols of the first schematic of the file for the instance path.
pub fn refresh_file_symbols(
    schematics: &mut Vec<LiveSchematic>,
    file: &String,
    instance_path: &str,
    current_variant: Option<&str>,
)
    requires
        occurrences_ready(old(schematics)@),
    ensures
        file_symbols_refreshed(old(schematics)@, final(schematics)@, file@, instance_path@, variant_view(current_variant)),
        occurrences_ready(final(schematics)@),
{
    let k = find_schematic_index(schematics, file);
    proof {
        lemma_schematic_from(schematics@, file@, 0);
    }
    if k < schematics.len() {
        let ghost before = schematics@;
        proof {
            assert(schematic_ready(before[k as int]));
            lemma_schematic_ready(before[k as int], instance_path@, None, variant_view(current_variant));
        }
        apply_symbol_instance_state(&mut schematics[k], instance_path, current_variant);
        proof {
            lemma_refreshed_for_stays_ready(before[k as int], schematics@[k as int], instance_path@, variant_view(current_variant));
            assert forall|j: int| 0 <= j < schematics@.len() implies schematic_ready(#[trigger] schematics@[j]) by {
                if j != k {
                    assert(schematics@[j] == before[j]);
                }
            }
        }
    }
}

/// Whether an instance text overrides a field: present, not empty and not `~`.
fn overrides_field(o: &Option<String>) -> (r: bool)
    ensures
        r == (text_override(*o) is Some),
{
    match o {
        Some(v) => {
            let cs = crate::text::str_to_chars(v.as_str());
            if cs.len() == 1 && cs[0] == '~' {
                assert(cs@ =~= seq!['~']);
                false
            } else {
                cs.len() > 0
            }
        },
        None => false,
    }
}

/// Whether `n` more fields fit after every one of the fields.
fn room_for(props: &Vec<Property>, n: usize) -> (r: bool)
    ensures
        r == leaves_room(prop_views(props@), n as int),
{
    if n >= 2147483605 {
        return false;
    }
    let ghost pv = prop_views(props@);
    let mut ok = true;
    let mut i: usize = 0;
    while i < props.len()
        invariant
            0 <= i <= props.len(),
            n < 2147483605,
            pv == prop_views(props@),
            ok == (forall|k: int| 0 <= k < i ==> #[trigger] sort_ordinal_of(pv[k]) + n < i32::MAX),
        decreases props.len() - i,
    {
        let o = props[i].sort_ordinal();
        assert(pv[i as int] == props@[i as int]@);
        if (o as i64) + (n as i64) >= 2147483647 {
            ok = false;
        }
        i = i + 1;
    }
    ok
}

/// Whether the instance can be laid over a symbol with the fields `props`.
fn instance_fits(props: &Vec<Property>, inst: &SymbolLocalInstance, Ghost(s): Ghost<SymbolView>) -> (r: bool)
    requires
        s.properties == prop_views(props@),
    ensures
        r == instance_ready(s, *inst),
{
    let len = props.len();
    if inst.reference.is_some() && find_kind_index(props, PropertyKind::SymbolReference) >= len {
        return false;
    }
    if overrides_field(&inst.value) && find_kind_index(props, PropertyKind::SymbolValue) >= len {
        return false;
    }
    if overrides_field(&inst.footprint) && find_kind_index(props, PropertyKind::SymbolFootprint) >= len {
        return false;
    }
    let mut i: usize = 0;
    while i < inst.variants.len()
        invariant
            0 <= i <= inst.variants@.len(),
            s.properties == prop_views(props@),
            forall|k: int| 0 <= k < i ==> leaves_room(s.properties, (#[trigger] inst.variants@[k]).fields@.len() as int),
        decreases inst.variants@.len() - i,
    {
        if !room_for(props, inst.variants[i].fields.len()) {
            return false;
        }
        i = i + 1;
    }
    true
}

/// Whether the symbol is ready for any refresh: it has a baseline, and every instance can
/// be laid over it.
pub fn symbol_is_ready(sym: &LiveSymbol) -> (r: bool)
    ensures
        r == symbol_ready(*sym),
{
    match &sym.occurrence_base {
        None => false,
        Some(b) => {
            let ghost sv = symbol_restored(sym.state(), symbol_base_opt(*sym));
            let mut i: usize = 0;
            while i < sym.instances.len()
                invariant
                    0 <= i <= sym.instances@.len(),
                    sym.occurrence_base == Some(*b),
                    sv == symbol_restored(sym.state(), symbol_base_opt(*sym)),
                    sv.properties == prop_views(b.properties@),
                    forall|k: int| 0 <= k < i ==> instance_ready(sv, #[trigger] sym.instances@[k]),
                decreases sym.instances@.len() - i,
            {
                if !instance_fits(&b.properties, &sym.instances[i], Ghost(sv)) {
                    return false;
                }
                i = i + 1;
            }
            true
        },
    }
}

/// Whether the sheet is ready for any refresh: it has a baseline, with room for the
/// fields of every variant of every instance.
pub fn sheet_is_ready(sh: &LiveSheet) -> (r: bool)
    ensures
        r == sheet_ready(*sh),
{
    match &sh.occurrence_base {
        None => false,
        Some(b) => {
            let ghost pv = sheet_restored(sh.state(), sheet_base_opt(*sh)).properties;
            assert(pv == prop_views(b.properties@));
            let mut k: usize = 0;
            while k < sh.instances.len()
                invariant
                    0 <= k <= sh.instances@.len(),
                    sh.occurrence_base == Some(*b),
                    pv == sheet_restored(sh.state(), sheet_base_opt(*sh)).properties,
                    pv == prop_views(b.properties@),
                    forall|a: int, j: int| 0 <= a < k && 0 <= j < (#[trigger] sh.instances@[a]).variants@.len() ==> leaves_room(
                        pv,
                        (#[trigger] sh.instances@[a].variants@[j]).fields@.len() as int,
                    ),
                decreases sh.instances@.len() - k,
            {
                let inst = &sh.instances[k];
                let mut j: usize = 0;
                while j < inst.variants.len()
                    invariant
                        0 <= j <= inst.variants@.len(),
                        0 <= k < sh.instances@.len(),
                        *inst == sh.instances@[k as int],
                        sh.occurrence_base == Some(*b),
                        pv == sheet_restored(sh.state(), sheet_base_opt(*sh)).properties,
                        pv == prop_views(b.properties@),
                        forall|m: int| 0 <= m < j ==> leaves_room(pv, (#[trigger] inst.variants@[m]).fields@.len() as int),
                    decreases inst.variants@.len() - j,
                {
                    if !room_for(&b.properties, inst.variants[j].fields.len()) {
                        assert(!leaves_room(pv, sh.instances@[k as int].variants@[j as int].fields@.len() as int));
                        return false;
                    }
                    j = j + 1;
                }
                k = k + 1;
            }
            true
        },
    }
}

/// Whether every symbol and sheet of every schematic is ready for any refresh: what the
/// hierarchy's refreshes ask of the schematics they are handed (once the baselines are
/// captured by [`snapshot_symbol_occurrence_bases`] and
/// [`snapshot_sheet_occurrence_bases`]).
pub fn occurrences_are_ready(schematics: &Vec<LiveSchematic>) -> (r: bool)
    ensures
        r == occurrences_ready(schematics@),
{
    let mut j: usize = 0;
    while j < schematics.len()
        invariant
            0 <= j <= schematics@.len(),
            forall|m: int| 0 <= m < j ==> schematic_ready(#[trigger] schematics@[m]),
        decreases schematics@.len() - j,
    {
        let sch = &schematics[j];
        let mut i: usize = 0;
        while i < sch.symbols.len()
            invariant
                0 <= i <= sch.symbols@.len(),
                0 <= j < schematics@.len(),
                *sch == schematics@[j as int],
                forall|m: int| 0 <= m < i ==> symbol_ready(#[trigger] sch.symbols@[m]),
            decreases sch.symbols@.len() - i,
        {
            if !symbol_is_ready(&sch.symbols[i]) {
                assert(!schematic_ready(schematics@[j as int]));
                return false;
            }
            i = i + 1;
        }
        let mut i: usize = 0;
        while i < sch.sheets.len()
            invariant
                0 <= i <= sch.sheets@.len(),
                0 <= j < schematics@.len(),
                *sch == schematics@[j as int],
                forall|m: int| 0 <= m < i ==> sheet_ready(#[trigger] sch.sheets@[m]),
            decreases sch.sheets@.len() - i,
        {
            if !sheet_is_ready(&sch.sheets[i]) {
                assert(!schematic_ready(schematics@[j as int]));
                return false;
            }
            i = i + 1;
        }
        assert(schematic_ready(*sch));
        j = j + 1;
    }
    true
}

} // verus!
