//! Power symbols after loading: every power symbol's reference is hidden behind `#`,
//! and a reference met again loses its number; in designs saved before power symbols
//! named their nets by value, a global power symbol takes its hidden power-input pin's
//! name as its value.

use crate::loader::occurrence::{
    find_kind_index, kind_from, kind_value, lemma_kind_from, symbol_text_set, LiveSchematic, LiveSymbol, SymbolView,
};
use crate::model::property::prop_views;
use crate::model::PropertyKind;
use crate::text::{is_digit, str_to_chars, seq_to_string};
use vstd::prelude::*;

verus! {

/// The reference of a symbol state: the text of its first reference field.
pub open spec fn reference_of(s: SymbolView) -> Option<Seq<char>> {
    kind_value(s.properties, PropertyKind::SymbolReference)
}

/// The symbol is annotated: it is a power symbol with a reference that is not empty.
pub open spec fn annotated(s: LiveSymbol) -> bool {
    s.power && (reference_of(s.state()) matches Some(r) && r.len() > 0)
}

/// The references of the annotated symbols, in order.
pub open spec fn power_refs_in(syms: Seq<LiveSymbol>) -> Seq<Seq<char>>
    decreases syms.len(),
{
    if syms.len() == 0 {
        Seq::empty()
    } else {
        let prev = power_refs_in(syms.drop_last());
        if annotated(syms.last()) {
            prev.push(reference_of(syms.last().state()).unwrap())
        } else {
            prev
        }
    }
}

/// The references of the annotated symbols of the first `n` schematics, in order.
pub open spec fn power_refs_upto(schs: Seq<LiveSchematic>, n: int) -> Seq<Seq<char>>
    decreases n,
{
    if n <= 0 {
        Seq::empty()
    } else {
        power_refs_upto(schs, n - 1) + power_refs_in(schs[n - 1].symbols@)
    }
}

/// The text without its trailing ASCII digits.
pub open spec fn trim_end_digits(t: Seq<char>) -> Seq<char>
    decreases t.len(),
{
    if t.len() > 0 && is_digit(t.last()) {
        trim_end_digits(t.drop_last())
    } else {
        t
    }
}

/// The annotated reference: without its trailing digits when the reference was met
/// before, and starting with `#`.
pub open spec fn power_reference(r: Seq<char>, repeated: bool) -> Seq<char> {
    let base = if repeated {
        trim_end_digits(r)
    } else {
        r
    };
    if base.len() > 0 && base[0] == '#' {
        base
    } else {
        seq!['#'] + base
    }
}

/// The state of a symbol after annotation, given the references of the annotated
/// symbols before it.
pub open spec fn symbol_annotated(s: LiveSymbol, prior: Seq<Seq<char>>) -> SymbolView {
    if annotated(s) {
        let r = reference_of(s.state()).unwrap();
        symbol_text_set(s.state(), PropertyKind::SymbolReference, power_reference(r, prior.contains(r)))
    } else {
        s.state()
    }
}

/// `n` is the symbol `o` annotated after the references `prior`.
pub open spec fn symbol_annotated_to(o: LiveSymbol, n: LiveSymbol, prior: Seq<Seq<char>>) -> bool {
    &&& n.state() == symbol_annotated(o, prior)
    &&& n.instances == o.instances
    &&& n.occurrence_base == o.occurrence_base
    &&& n.uuid == o.uuid
    &&& n.power == o.power
}

/// `n` is the schematic `o` with its symbols annotated after the references `prior`.
pub open spec fn schematic_annotated(o: LiveSchematic, n: LiveSchematic, prior: Seq<Seq<char>>) -> bool {
    &&& n.path == o.path
    &&& n.sheets == o.sheets
    &&& n.labels == o.labels
    &&& n.symbols@.len() == o.symbols@.len()
    &&& forall|i: int| 0 <= i < o.symbols@.len() ==> symbol_annotated_to(
        #[trigger] o.symbols@[i],
        n.symbols@[i],
        prior + power_refs_in(o.symbols@.take(i)),
    )
}

/// The annotated reference, as [`power_reference`] says.
fn power_reference_exec(r: &String, repeated: bool) -> (t: String)
    ensures
        t@ == power_reference(r@, repeated),
{
    let v = str_to_chars(r.as_str());
    let mut end = v.len();
    assert(v@.take(v@.len() as int) =~= v@);
    if repeated {
        while end > 0 && crate::text::is_ascii_digit(v[end - 1])
            invariant
                end <= v.len(),
                v@ == r@,
                trim_end_digits(r@) == trim_end_digits(v@.take(end as int)),
            decreases end,
        {
            assert(v@.take(end as int).drop_last() =~= v@.take(end - 1));
            end = end - 1;
        }
        assert(trim_end_digits(v@.take(end as int)) == v@.take(end as int));
    }
    assert(v@.take(v@.len() as int) =~= v@);
    let mut out: Vec<char> = Vec::new();
    if !(end > 0 && v[0] == '#') {
        out.push('#');
    }
    let mut i: usize = 0;
    while i < end
        invariant
            0 <= i <= end <= v.len(),
            out@ == (if end > 0 && v@[0] == '#' {
                Seq::empty()
            } else {
                seq!['#']
            }) + v@.take(i as int),
        decreases end - i,
    {
        out.push(v[i]);
        assert(v@.take(i + 1) =~= v@.take(i as int).push(v@[i as int]));
        i = i + 1;
    }
    proof {
        let base = if repeated { trim_end_digits(r@) } else { r@ };
        assert(base =~= v@.take(end as int));
        if end > 0 {
            assert(base[0] == v@[0]);
        }
    }
    seq_to_string(&out)
}

/// Whether some text of the list is `t`.
fn listed(list: &Vec<String>, t: &String) -> (r: bool)
    ensures
        r == list.deep_view().contains(t@),
{
    let mut i: usize = 0;
    while i < list.len()
        invariant
            0 <= i <= list.len(),
            forall|j: int| 0 <= j < i ==> list.deep_view()[j] != t@,
        decreases list.len() - i,
    {
        if list[i] == *t {
            assert(list.deep_view()[i as int] == t@);
            return true;
        }
        i = i + 1;
    }
    false
}

/// The reference that an annotated symbol adds to those met.
pub open spec fn added_refs(s: LiveSymbol) -> Seq<Seq<char>> {
    if annotated(s) {
        seq![reference_of(s.state()).unwrap()]
    } else {
        Seq::empty()
    }
}

/// Annotates one symbol after the references `seen`, and adds its reference to it.
fn annotate_symbol(symbol: &mut LiveSymbol, seen: &mut Vec<String>)
    ensures
        symbol_annotated_to(*old(symbol), *final(symbol), old(seen).deep_view()),
        final(seen).deep_view() == old(seen).deep_view() + added_refs(*old(symbol)),
{
    let ghost o = *symbol;
    let k = find_kind_index(&symbol.properties, PropertyKind::SymbolReference);
    proof {
        lemma_kind_from(prop_views(o.properties@), PropertyKind::SymbolReference, 0);
    }
    if symbol.power && k < symbol.properties.len() && !symbol.properties[k].value.as_str().is_empty() {
        let reference = symbol.properties[k].value.clone();
        assert(reference_of(o.state()) == Some(reference@));
        let repeated = listed(seen, &reference);
        let normalized = power_reference_exec(&reference, repeated);
        symbol.set_field_text(PropertyKind::SymbolReference, normalized);
        let ghost before = seen.deep_view();
        seen.push(reference);
        assert(seen.deep_view() =~= before + added_refs(o));
    } else {
        assert(seen.deep_view() =~= seen.deep_view() + added_refs(o));
    }
}

/// `n` is the list of symbols `o` annotated after the references `prior`.
pub open spec fn symbols_annotated(o: Seq<LiveSymbol>, n: Seq<LiveSymbol>, prior: Seq<Seq<char>>) -> bool {
    &&& n.len() == o.len()
    &&& forall|i: int| 0 <= i < o.len() ==> symbol_annotated_to(#[trigger] o[i], n[i], prior + power_refs_in(o.take(i)))
}

/// Annotates the symbols of one schematic after the references `seen`, and adds their
/// references to it.
fn annotate_symbols(symbols: &mut Vec<LiveSymbol>, seen: &mut Vec<String>)
    ensures
        symbols_annotated(old(symbols)@, final(symbols)@, old(seen).deep_view()),
        final(seen).deep_view() == old(seen).deep_view() + power_refs_in(old(symbols)@),
{
    let ghost start = symbols@;
    let ghost prior = seen.deep_view();
    let mut i: usize = 0;
    assert(start.take(0) =~= Seq::<LiveSymbol>::empty());
    assert(seen.deep_view() =~= prior + power_refs_in(start.take(0)));
    while i < symbols.len()
        invariant
            0 <= i <= symbols@.len(),
            symbols@.len() == start.len(),
            start == old(symbols)@,
            prior == old(seen).deep_view(),
            seen.deep_view() == prior + power_refs_in(start.take(i as int)),
            forall|k: int| i <= k < start.len() ==> #[trigger] symbols@[k] == start[k],
            forall|k: int| 0 <= k < i ==> symbol_annotated_to(#[trigger] start[k], symbols@[k], prior + power_refs_in(start.take(k))),
        decreases start.len() - i,
    {
        assert(symbols@[i as int] == start[i as int]);
        proof {
            assert(start.take(i + 1).drop_last() =~= start.take(i as int));
            assert(start.take(i + 1).last() == start[i as int]);
            assert(power_refs_in(start.take(i + 1)) == power_refs_in(start.take(i as int)) + added_refs(start[i as int]));
        }
        annotate_symbol(&mut symbols[i], seen);
        proof {
            assert(prior + power_refs_in(start.take(i as int)) + added_refs(start[i as int]) =~= prior + power_refs_in(
                start.take(i + 1),
            ));
        }
        i = i + 1;
    }
    assert(start.take(start.len() as int) =~= start);
}

/// Hides the reference of every power symbol behind `#`, schematic by schematic and
/// symbol by symbol; a reference met on an earlier power symbol first loses its
/// trailing digits.
#[verifier::spinoff_prover]
#[verifier::rlimit(40)]
pub fn annotate_power_symbols(schematics: &mut Vec<LiveSchematic>)
    ensures
        final(schematics)@.len() == old(schematics)@.len(),
        forall|j: int| 0 <= j < old(schematics)@.len() ==> schematic_annotated(
            #[trigger] old(schematics)@[j],
            final(schematics)@[j],
            power_refs_upto(old(schematics)@, j),
        ),
{
    let ghost start = schematics@;
    let mut seen: Vec<String> = Vec::new();
    let mut j: usize = 0;
    assert(seen.deep_view() =~= power_refs_upto(start, 0));
    while j < schematics.len()
        invariant
            0 <= j <= schematics@.len(),
            schematics@.len() == start.len(),
            start == old(schematics)@,
            seen.deep_view() == power_refs_upto(start, j as int),
            forall|k: int| j <= k < start.len() ==> #[trigger] schematics@[k] == start[k],
            forall|k: int| 0 <= k < j ==> schematic_annotated(#[trigger] start[k], schematics@[k], power_refs_upto(start, k)),
        decreases start.len() - j,
    {
        assert(schematics@[j as int] == start[j as int]);
        annotate_symbols(&mut schematics[j].symbols, &mut seen);
        assert(power_refs_upto(start, j + 1) == power_refs_upto(start, j as int) + power_refs_in(start[j as int].symbols@));
        j = j + 1;
    }
}

/// An annotated power reference starts with `#`.
pub proof fn law_power_reference_hidden(r: Seq<char>, repeated: bool)
    ensures
        power_reference(r, repeated).len() > 0,
        power_reference(r, repeated)[0] == '#',
{
}

/// After annotation, a power symbol that has a reference is out of the netlist.
pub proof fn law_annotated_power_symbol_left_out(o: LiveSymbol, n: LiveSymbol, prior: Seq<Seq<char>>)
    requires
        annotated(o),
        symbol_annotated_to(o, n, prior),
    ensures
        !n.in_netlist,
{
    let r = reference_of(o.state()).unwrap();
    let t = power_reference(r, prior.contains(r));
    assert(crate::model::sim_params::replace_char(t, '~', ' ')[0] == '#');
}

/// A drawn item of a library symbol as the legacy power fix reads it: the unit and body
/// style it belongs to, whether it is a pin, and for a pin its electrical type, whether
/// it is shown and its name.
#[derive(Debug, Clone)]
pub struct LibItemFacts {
    pub unit_number: i32,
    pub body_style: i32,
    pub is_pin: bool,
    pub electrical_type: Option<String>,
    pub visible: bool,
    pub name: Option<String>,
}

/// What the legacy power fix reads of a placed symbol and its library symbol: whether
/// the library symbol is a global power symbol (a power symbol that is not local; false
/// where the symbol has no library symbol), the drawn items of its units in order, and
/// the placed symbol's body style.
#[derive(Debug, Clone)]
pub struct LegacyPowerFacts {
    pub global_power: bool,
    pub items: Vec<LibItemFacts>,
    pub body_style: Option<i32>,
}

/// The oldest file format in which power symbols name their nets by value.
pub const POWER_VALUE_NAMES_NET_VERSION: i64 = 20230221;

/// Position of the first pin drawn for the unit and body style, from `i` on, or the
/// number of items.
pub open spec fn first_pin_from(items: Seq<LibItemFacts>, unit: i32, body: i32, i: int) -> int
    decreases items.len() - i,
{
    if 0 <= i < items.len() && !(items[i].unit_number == unit && items[i].body_style == body && items[i].is_pin) {
        first_pin_from(items, unit, body, i + 1)
    } else {
        i
    }
}

proof fn lemma_first_pin_from(items: Seq<LibItemFacts>, unit: i32, body: i32, i: int)
    requires
        0 <= i <= items.len(),
    ensures
        i <= first_pin_from(items, unit, body, i) <= items.len(),
    decreases items.len() - i,
{
    if i < items.len() && !(items[i].unit_number == unit && items[i].body_style == body && items[i].is_pin) {
        lemma_first_pin_from(items, unit, body, i + 1);
    }
}

/// The value a legacy global power symbol takes: the name of the first pin drawn for its
/// unit and body style (each 1 where unset), where that pin is a hidden power input with
/// a name; nothing otherwise.
pub open spec fn legacy_power_name(facts: LegacyPowerFacts, unit: Option<i32>) -> Option<Seq<char>> {
    let u = match unit {
        Some(x) => x,
        None => 1i32,
    };
    let b = match facts.body_style {
        Some(x) => x,
        None => 1i32,
    };
    let k = first_pin_from(facts.items@, u, b, 0);
    if !facts.global_power || k >= facts.items@.len() {
        None
    } else {
        let pin = facts.items@[k];
        if crate::text::opt_view(pin.electrical_type) != Some("power_in"@) || pin.visible {
            None
        } else {
            crate::text::opt_view(pin.name)
        }
    }
}

/// The symbol after the legacy power fix: unchanged, or its value set to the pin's name.
pub open spec fn power_value_fixed(o: LiveSymbol, n: LiveSymbol, facts: LegacyPowerFacts) -> bool {
    match legacy_power_name(facts, o.unit) {
        None => n == o,
        Some(name) => {
            &&& n.state() == symbol_text_set(o.state(), PropertyKind::SymbolValue, name)
            &&& n.instances == o.instances
            &&& n.occurrence_base == o.occurrence_base
            &&& n.uuid == o.uuid
            &&& n.power == o.power
        },
    }
}

/// Whether the fix changes the symbol's value text.
pub open spec fn power_value_changed(o: LiveSymbol, facts: LegacyPowerFacts) -> bool {
    match legacy_power_name(facts, o.unit) {
        None => false,
        Some(name) => kind_value(prop_views(o.properties@), PropertyKind::SymbolValue) != Some(name),
    }
}

/// Where the fix applies, the symbol has a value field to take the name.
pub open spec fn power_fix_fits(o: LiveSymbol, facts: LegacyPowerFacts) -> bool {
    legacy_power_name(facts, o.unit) is Some ==> kind_from(prop_views(o.properties@), PropertyKind::SymbolValue, 0)
        < o.properties@.len()
}

fn first_pin_index(items: &Vec<LibItemFacts>, unit: i32, body: i32) -> (r: usize)
    ensures
        r == first_pin_from(items@, unit, body, 0),
{
    let mut i: usize = 0;
    while i < items.len() && !(items[i].unit_number == unit && items[i].body_style == body && items[i].is_pin)
        invariant
            0 <= i <= items.len(),
            first_pin_from(items@, unit, body, 0) == first_pin_from(items@, unit, body, i as int),
        decreases items.len() - i,
    {
        i = i + 1;
    }
    i
}

/// The name a legacy global power symbol takes as its value, if the fix applies.
pub fn legacy_power_pin_name(facts: &LegacyPowerFacts, unit: Option<i32>) -> (r: Option<String>)
    ensures
        crate::text::opt_view(r) == legacy_power_name(*facts, unit),
{
    if !facts.global_power {
        return None;
    }
    let u = match unit {
        Some(x) => x,
        None => 1i32,
    };
    let b = match facts.body_style {
        Some(x) => x,
        None => 1i32,
    };
    let k = first_pin_index(&facts.items, u, b);
    proof {
        lemma_first_pin_from(facts.items@, u, b, 0);
    }
    if k >= facts.items.len() {
        return None;
    }
    let pin = &facts.items[k];
    let is_power_in = match &pin.electrical_type {
        Some(t) => {
            let cs = str_to_chars(t.as_str());
            proof {
                reveal_strlit("power_in");
            }
            let expected = str_to_chars("power_in");
            let same = crate::text::range_eq(&cs, 0, cs.len(), &expected, 0, expected.len());
            assert(cs@.subrange(0, cs@.len() as int) =~= cs@);
            assert(expected@.subrange(0, expected@.len() as int) =~= expected@);
            same
        },
        None => false,
    };
    if !is_power_in || pin.visible {
        return None;
    }
    match &pin.name {
        Some(n) => Some(n.clone()),
        None => None,
    }
}

/// Gives a legacy global power symbol the name of its hidden power-input pin as its
/// value, and says whether its value text changed.
pub fn fix_legacy_power_value(symbol: &mut LiveSymbol, facts: &LegacyPowerFacts) -> (changed: bool)
    requires
        power_fix_fits(*old(symbol), *facts),
    ensures
        power_value_fixed(*old(symbol), *final(symbol), *facts),
        changed == power_value_changed(*old(symbol), *facts),
{
    match legacy_power_pin_name(facts, symbol.unit) {
        None => false,
        Some(name) => {
            let k = find_kind_index(&symbol.properties, PropertyKind::SymbolValue);
            let cur = str_to_chars(symbol.properties[k].value.as_str());
            let nv = str_to_chars(name.as_str());
            let same = crate::text::range_eq(&cur, 0, cur.len(), &nv, 0, nv.len());
            assert(cur@.subrange(0, cur@.len() as int) =~= cur@);
            assert(nv@.subrange(0, nv@.len() as int) =~= nv@);
            assert(prop_views(symbol.properties@)[k as int].value == symbol.properties@[k as int].value@);
            symbol.set_field_text(PropertyKind::SymbolValue, name);
            !same
        },
    }
}

/// The schematic after the legacy power fix, symbol by symbol with the facts of each.
pub open spec fn schematic_power_fixed(o: LiveSchematic, n: LiveSchematic, facts: Seq<LegacyPowerFacts>) -> bool {
    &&& n.path == o.path
    &&& n.sheets == o.sheets
    &&& n.labels == o.labels
    &&& n.symbols@.len() == o.symbols@.len()
    &&& forall|i: int| 0 <= i < o.symbols@.len() ==> power_value_fixed(#[trigger] o.symbols@[i], n.symbols@[i], facts[i])
}

/// Whether the fix changes a value text in the schematic.
pub open spec fn schematic_power_changed(o: LiveSchematic, facts: Seq<LegacyPowerFacts>) -> bool {
    exists|i: int| 0 <= i < o.symbols@.len() && #[trigger] power_value_changed(o.symbols@[i], facts[i])
}

fn fix_schematic_power_values(sch: &mut LiveSchematic, facts: &Vec<LegacyPowerFacts>) -> (changed: bool)
    requires
        facts@.len() == old(sch).symbols@.len(),
        forall|i: int| 0 <= i < old(sch).symbols@.len() ==> power_fix_fits(#[trigger] old(sch).symbols@[i], facts@[i]),
    ensures
        schematic_power_fixed(*old(sch), *final(sch), facts@),
        changed == schematic_power_changed(*old(sch), facts@),
{
    let ghost start = sch.symbols@;
    let mut changed = false;
    let mut i: usize = 0;
    while i < sch.symbols.len()
        invariant
            0 <= i <= sch.symbols@.len(),
            sch.symbols@.len() == start.len(),
            start == old(sch).symbols@,
            facts@.len() == start.len(),
            sch.path == old(sch).path,
            sch.sheets == old(sch).sheets,
            sch.labels == old(sch).labels,
            forall|k: int| 0 <= k < start.len() ==> power_fix_fits(#[trigger] start[k], facts@[k]),
            forall|k: int| i <= k < start.len() ==> #[trigger] sch.symbols@[k] == start[k],
            forall|k: int| 0 <= k < i ==> power_value_fixed(#[trigger] start[k], sch.symbols@[k], facts@[k]),
            changed == exists|k: int| 0 <= k < i && #[trigger] power_value_changed(start[k], facts@[k]),
        decreases start.len() - i,
    {
        assert(sch.symbols@[i as int] == start[i as int]);
        assert(power_fix_fits(start[i as int], facts@[i as int]));
        let c = fix_legacy_power_value(&mut sch.symbols[i], &facts[i]);
        if c {
            assert(power_value_changed(start[i as int], facts@[i as int]));
            changed = true;
        }
        proof {
            if !c && !changed {
                assert forall|k: int| 0 <= k < i + 1 implies !#[trigger] power_value_changed(start[k], facts@[k]) by {
                    if k == i {
                    }
                }
            }
        }
        i = i + 1;
    }
    changed
}

/// In a design whose root file predates power symbols that name their nets by value,
/// gives every legacy global power symbol the name of its hidden power-input pin as its
/// value; says, schematic by schematic, whether a value text changed (nothing changes
/// in a newer design).
pub fn fix_legacy_power_symbol_mismatches(
    root_version: i64,
    schematics: &mut Vec<LiveSchematic>,
    facts: &Vec<Vec<LegacyPowerFacts>>,
) -> (modified: Vec<bool>)
    requires
        facts@.len() == old(schematics)@.len(),
        forall|j: int| 0 <= j < facts@.len() ==> (#[trigger] facts@[j])@.len() == old(schematics)@[j].symbols@.len(),
        root_version < POWER_VALUE_NAMES_NET_VERSION ==> forall|j: int, i: int|
            0 <= j < old(schematics)@.len() && 0 <= i < old(schematics)@[j].symbols@.len() ==> power_fix_fits(
                #[trigger] old(schematics)@[j].symbols@[i],
                facts@[j]@[i],
            ),
    ensures
        modified@.len() == old(schematics)@.len(),
        root_version >= POWER_VALUE_NAMES_NET_VERSION ==> final(schematics)@ == old(schematics)@ && forall|j: int|
            0 <= j < modified@.len() ==> !#[trigger] modified@[j],
        root_version < POWER_VALUE_NAMES_NET_VERSION ==> {
            &&& final(schematics)@.len() == old(schematics)@.len()
            &&& forall|j: int| 0 <= j < old(schematics)@.len() ==> schematic_power_fixed(
                #[trigger] old(schematics)@[j],
                final(schematics)@[j],
                facts@[j]@,
            ) && modified@[j] == schematic_power_changed(old(schematics)@[j], facts@[j]@)
        },
{
    let mut modified: Vec<bool> = Vec::new();
    if root_version >= POWER_VALUE_NAMES_NET_VERSION {
        let mut j: usize = 0;
        while j < schematics.len()
            invariant
                0 <= j <= schematics@.len(),
                modified@.len() == j,
                forall|k: int| 0 <= k < j ==> !#[trigger] modified@[k],
            decreases schematics@.len() - j,
        {
            modified.push(false);
            j = j + 1;
        }
        return modified;
    }
    let ghost start = schematics@;
    let mut j: usize = 0;
    while j < schematics.len()
        invariant
            0 <= j <= schematics@.len(),
            schematics@.len() == start.len(),
            start == old(schematics)@,
            modified@.len() == j,
            facts@.len() == start.len(),
            forall|k: int| 0 <= k < facts@.len() ==> (#[trigger] facts@[k])@.len() == start[k].symbols@.len(),
            forall|k: int, i: int| 0 <= k < start.len() && 0 <= i < start[k].symbols@.len() ==> power_fix_fits(
                #[trigger] start[k].symbols@[i],
                facts@[k]@[i],
            ),
            forall|k: int| j <= k < start.len() ==> #[trigger] schematics@[k] == start[k],
            forall|k: int| 0 <= k < j ==> schematic_power_fixed(#[trigger] start[k], schematics@[k], facts@[k]@)
                && modified@[k] == schematic_power_changed(start[k], facts@[k]@),
        decreases start.len() - j,
    {
        assert(schematics@[j as int] == start[j as int]);
        assert(facts@[j as int]@.len() == start[j as int].symbols@.len());
        assert forall|i: int| 0 <= i < start[j as int].symbols@.len() implies power_fix_fits(
            #[trigger] start[j as int].symbols@[i],
            facts@[j as int]@[i],
        ) by {
            assert(power_fix_fits(start[j as int].symbols@[i], facts@[j as int]@[i]));
        }
        let c = fix_schematic_power_values(&mut schematics[j], &facts[j]);
        modified.push(c);
        j = j + 1;
    }
    modified
}

} // verus!
