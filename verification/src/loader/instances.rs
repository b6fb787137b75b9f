//! Instance data that the root file of an older project carries for the whole
//! hierarchy: sheet pages by instance path, and legacy symbol instances by symbol path.

use crate::loader::{
    all_sheet_page_numbers_empty, all_pages_blank, initial_pages_set, set_initial_page_numbers,
    sort_loaded_sheet_paths, sorted_for_pages, LoadedSheetPath,
};
use crate::loader::occurrence::{
    find_kind_index, find_schematic_index, first_instance, kind_from, lemma_schematic_from, lemma_text_set_keeps,
    schematic_from, seed_first_symbol_instance_state, symbol_instance_applied, symbol_refreshed_to, symbol_text_set,
    symbols_seeded, text_override, LiveSchematic, LiveSymbol, SymbolView,
};
use crate::loader::selection::{occurrence_count, occurrence_count_exec};
use crate::loader::occurrence::file_occurrence_from;
use crate::loader::intersheet::{intersheet_refs_refreshed, refresh_current_sheet_intersheet_refs, RefsSettings};
use crate::model::property::prop_views;
use crate::model::{PropertyKind, SheetInstance, SymbolInstance, SymbolLocalInstance};
use vstd::prelude::*;

verus! {

/// Position of the first sheet instance with the path, from `i` on, or the number of
/// instances.
pub open spec fn sheet_instance_from(insts: Seq<SheetInstance>, path: Seq<char>, i: int) -> int
    decreases insts.len() - i,
{
    if 0 <= i < insts.len() && insts[i].path@ != path {
        sheet_instance_from(insts, path, i + 1)
    } else {
        i
    }
}

/// The sheet paths with the page of the first sheet instance of each one's instance
/// path, where there is one.
pub open spec fn pages_from_instances(sps: Seq<LoadedSheetPath>, insts: Seq<SheetInstance>) -> Seq<LoadedSheetPath> {
    Seq::new(
        sps.len(),
        |i: int|
            {
                let k = sheet_instance_from(insts, sps[i].instance_path@, 0);
                if 0 <= k < insts.len() {
                    LoadedSheetPath { page: insts[k].page, ..sps[i] }
                } else {
                    sps[i]
                }
            },
    )
}

/// Position of the first sheet instance with the path, or the number of instances.
fn find_sheet_instance(insts: &Vec<SheetInstance>, path: &String) -> (r: usize)
    ensures
        r == sheet_instance_from(insts@, path@, 0),
{
    let mut i: usize = 0;
    while i < insts.len() && insts[i].path != *path
        invariant
            0 <= i <= insts.len(),
            sheet_instance_from(insts@, path@, 0) == sheet_instance_from(insts@, path@, i as int),
        decreases insts.len() - i,
    {
        i = i + 1;
    }
    i
}

/// A copy of an optional text.
fn copy_opt(o: &Option<String>) -> (r: Option<String>)
    ensures
        r == *o,
{
    match o {
        Some(t) => Some(t.clone()),
        None => None,
    }
}

/// Gives every sheet path the page of the root file's sheet instance with its instance
/// path; where then no sheet but the root has a page, numbers them 1, 2, 3, ... in list
/// order; and sorts the list in page order.
pub fn update_sheet_instance_data(sheet_instances: &Vec<SheetInstance>, sheet_paths: &mut Vec<LoadedSheetPath>)
    requires
        old(sheet_paths)@.len() < usize::MAX,
    ensures
        ({
            let m1 = pages_from_instances(old(sheet_paths)@, sheet_instances@);
            exists|m2: Seq<LoadedSheetPath>|
                (if all_pages_blank(m1) {
                    initial_pages_set(m1, m2)
                } else {
                    m2 == m1
                }) && #[trigger] sorted_for_pages(m2, final(sheet_paths)@)
        }),
{
    let ghost start = sheet_paths@;
    let mut i: usize = 0;
    while i < sheet_paths.len()
        invariant
            0 <= i <= sheet_paths@.len(),
            sheet_paths@.len() == start.len(),
            start == old(sheet_paths)@,
            forall|k: int| 0 <= k < i ==> #[trigger] sheet_paths@[k] == pages_from_instances(start, sheet_instances@)[k],
            forall|k: int| i <= k < start.len() ==> #[trigger] sheet_paths@[k] == start[k],
        decreases start.len() - i,
    {
        let k = find_sheet_instance(sheet_instances, &sheet_paths[i].instance_path);
        if k < sheet_instances.len() {
            let page = copy_opt(&sheet_instances[k].page);
            let mut entry = sheet_paths.remove(i);
            entry.page = page;
            sheet_paths.insert(i, entry);
        }
        i = i + 1;
    }
    let ghost m1 = sheet_paths@;
    assert(m1 =~= pages_from_instances(start, sheet_instances@));
    if all_sheet_page_numbers_empty(sheet_paths) {
        set_initial_page_numbers(sheet_paths);
    }
    let ghost m2 = sheet_paths@;
    sort_loaded_sheet_paths(sheet_paths);
    assert(sorted_for_pages(m2, sheet_paths@));
}

/// Position of the first legacy instance with the path, from `i` on, or the number of
/// instances.
pub open spec fn legacy_from(legacy: Seq<SymbolInstance>, path: Seq<char>, i: int) -> int
    decreases legacy.len() - i,
{
    if 0 <= i < legacy.len() && legacy[i].path@ != path {
        legacy_from(legacy, path, i + 1)
    } else {
        i
    }
}

/// The legacy instance of a symbol on a sheet occurrence: the first one whose path is
/// the occurrence's symbol path, `/` and the symbol's UUID.
pub open spec fn legacy_instance_of(s: LiveSymbol, sheet_path: LoadedSheetPath, legacy: Seq<SymbolInstance>) -> Option<SymbolInstance> {
    match s.uuid {
        Some(u) => {
            let k = legacy_from(legacy, sheet_path.symbol_path@ + seq!['/'] + u@, 0);
            if 0 <= k < legacy.len() {
                Some(legacy[k])
            } else {
                None
            }
        },
        None => None,
    }
}

/// The instances without those of the path, in order.
pub open spec fn without_path(insts: Seq<SymbolLocalInstance>, path: Seq<char>) -> Seq<SymbolLocalInstance>
    decreases insts.len(),
{
    if insts.len() == 0 {
        Seq::empty()
    } else {
        let prev = without_path(insts.drop_last(), path);
        if insts.last().path@ != path {
            prev.push(insts.last())
        } else {
            prev
        }
    }
}

/// A symbol state with a legacy instance laid over it: its reference, unit, value and
/// footprint, where it has them.
pub open spec fn legacy_state(s: SymbolView, inst: SymbolInstance) -> SymbolView {
    let s1 = match inst.reference {
        Some(r) => symbol_text_set(s, PropertyKind::SymbolReference, r@),
        None => s,
    };
    let s2 = match inst.unit {
        Some(u) => SymbolView { unit: Some(u), ..s1 },
        None => s1,
    };
    let s3 = match inst.value {
        Some(v) => symbol_text_set(s2, PropertyKind::SymbolValue, v@),
        None => s2,
    };
    match inst.footprint {
        Some(f) => symbol_text_set(s3, PropertyKind::SymbolFootprint, f@),
        None => s3,
    }
}

/// The project-local instance recorded from a legacy instance on the occurrence with
/// the instance path: no project, no variants, unit 1 where the legacy one has none.
pub open spec fn is_recorded_instance(e: SymbolLocalInstance, path: Seq<char>, inst: SymbolInstance) -> bool {
    &&& e.project@.len() == 0
    &&& e.path@ == path
    &&& e.reference == inst.reference
    &&& e.unit == (match inst.unit {
        Some(u) => Some(u),
        None => Some(1i32),
    })
    &&& e.value == inst.value
    &&& e.footprint == inst.footprint
    &&& e.variants@.len() == 0
}

/// `n` is the symbol `o` with its legacy instance for the sheet occurrence, if any, laid
/// over it and recorded as its instance for that occurrence.
pub open spec fn symbol_legacy_applied(o: LiveSymbol, n: LiveSymbol, sheet_path: LoadedSheetPath, legacy: Seq<SymbolInstance>) -> bool {
    match legacy_instance_of(o, sheet_path, legacy) {
        None => n == o,
        Some(inst) => {
            let kept = without_path(o.instances@, sheet_path.instance_path@);
            &&& n.state() == legacy_state(o.state(), inst)
            &&& n.uuid == o.uuid
            &&& n.power == o.power
            &&& n.occurrence_base == o.occurrence_base
            &&& n.instances@.len() == kept.len() + 1
            &&& n.instances@.drop_last() == kept
            &&& is_recorded_instance(n.instances@.last(), sheet_path.instance_path@, inst)
        },
    }
}

/// `n` is the schematic `o` with every symbol's legacy instance for the sheet occurrence
/// laid over it.
pub open spec fn schematic_legacy_applied(o: LiveSchematic, n: LiveSchematic, sheet_path: LoadedSheetPath, legacy: Seq<SymbolInstance>) -> bool {
    &&& n.path == o.path
    &&& n.sheets == o.sheets
    &&& n.labels == o.labels
    &&& n.symbols@.len() == o.symbols@.len()
    &&& forall|i: int| 0 <= i < o.symbols@.len() ==> symbol_legacy_applied(#[trigger] o.symbols@[i], n.symbols@[i], sheet_path, legacy)
}

/// A placed symbol as loading leaves it before any baseline is captured: it has its
/// reference, value and footprint fields.
pub open spec fn legacy_ready(s: LiveSymbol) -> bool {
    &&& s.occurrence_base is None
    &&& kind_from(prop_views(s.properties@), PropertyKind::SymbolReference, 0) < s.properties@.len()
    &&& kind_from(prop_views(s.properties@), PropertyKind::SymbolValue, 0) < s.properties@.len()
    &&& kind_from(prop_views(s.properties@), PropertyKind::SymbolFootprint, 0) < s.properties@.len()
}

/// Every symbol of every schematic is as loading leaves it.
pub open spec fn all_legacy_ready(schs: Seq<LiveSchematic>) -> bool {
    forall|j: int, i: int| 0 <= j < schs.len() && 0 <= i < (#[trigger] schs[j]).symbols@.len() ==> legacy_ready(
        #[trigger] schs[j].symbols@[i],
    )
}

/// The occurrence at position `k` is the first of a file shown more than once: there
/// the file's symbols go back to their first instance.
pub open spec fn seeds_at(sheet_paths: Seq<LoadedSheetPath>, k: int) -> bool {
    let file = sheet_paths[k].schematic_path@;
    occurrence_count(sheet_paths, file) > 1 && file_occurrence_from(sheet_paths, file, 0) == k
}

/// `n` is `o` after the legacy instances of the occurrence at position `k`: the first
/// schematic of its file has its symbols' legacy instances laid over them, then, where
/// the occurrence is the first of a file shown more than once, its symbols seeded with
/// their first instances; the other schematics are unchanged.
pub open spec fn legacy_step(
    o: Seq<LiveSchematic>,
    n: Seq<LiveSchematic>,
    sheet_paths: Seq<LoadedSheetPath>,
    k: int,
    legacy: Seq<SymbolInstance>,
) -> bool {
    let j = schematic_from(o, sheet_paths[k].schematic_path@, 0);
    &&& n.len() == o.len()
    &&& forall|t: int| 0 <= t < o.len() && t != j ==> n[t] == o[t]
    &&& 0 <= j < o.len() ==> exists|mid: LiveSchematic|
        #[trigger] schematic_legacy_applied(o[j], mid, sheet_paths[k], legacy) && if seeds_at(sheet_paths, k) {
            symbols_seeded(mid, n[j], None)
        } else {
            n[j] == mid
        }
}

/// Position of the first legacy instance with the path, or the number of instances.
fn find_legacy_instance(legacy: &Vec<SymbolInstance>, path: &String) -> (r: usize)
    ensures
        r == legacy_from(legacy@, path@, 0),
{
    let mut i: usize = 0;
    while i < legacy.len() && legacy[i].path != *path
        invariant
            0 <= i <= legacy.len(),
            legacy_from(legacy@, path@, 0) == legacy_from(legacy@, path@, i as int),
        decreases legacy.len() - i,
    {
        i = i + 1;
    }
    i
}

fn joined_path(parent: &String, uuid: &String) -> (r: String)
    ensures
        r@ == parent@ + seq!['/'] + uuid@,
{
    let mut v = crate::text::string_chars(parent);
    v.push('/');
    crate::text::push_str(&mut v, uuid.as_str());
    crate::text::seq_to_string(&v)
}

/// Setting a mandatory field's text keeps every kind in its place.
proof fn lemma_text_set_kinds(s: SymbolView, kind: PropertyKind, value: Seq<char>)
    requires
        kind == PropertyKind::SymbolReference || kind == PropertyKind::SymbolValue || kind == PropertyKind::SymbolFootprint,
    ensures
        symbol_text_set(s, kind, value).properties.len() == s.properties.len(),
        kind_from(symbol_text_set(s, kind, value).properties, PropertyKind::SymbolReference, 0) == kind_from(
            s.properties,
            PropertyKind::SymbolReference,
            0,
        ),
        kind_from(symbol_text_set(s, kind, value).properties, PropertyKind::SymbolValue, 0) == kind_from(
            s.properties,
            PropertyKind::SymbolValue,
            0,
        ),
        kind_from(symbol_text_set(s, kind, value).properties, PropertyKind::SymbolFootprint, 0) == kind_from(
            s.properties,
            PropertyKind::SymbolFootprint,
            0,
        ),
{
    lemma_text_set_keeps(s.properties, kind, value, 0, PropertyKind::SymbolReference);
    lemma_text_set_keeps(s.properties, kind, value, 0, PropertyKind::SymbolValue);
    lemma_text_set_keeps(s.properties, kind, value, 0, PropertyKind::SymbolFootprint);
}

/// Lays the symbol's legacy instance for the sheet occurrence, if any, over it and
/// records it as the symbol's instance for that occurrence.
fn apply_legacy_instance(symbol: &mut LiveSymbol, sheet_path: &LoadedSheetPath, legacy: &Vec<SymbolInstance>)
    requires
        legacy_ready(*old(symbol)),
    ensures
        symbol_legacy_applied(*old(symbol), *final(symbol), *sheet_path, legacy@),
        legacy_ready(*final(symbol)),
{
    let uuid = match &symbol.uuid {
        Some(u) => u.clone(),
        None => {
            return;
        },
    };
    let full = joined_path(&sheet_path.symbol_path, &uuid);
    let k = find_legacy_instance(legacy, &full);
    if k >= legacy.len() {
        return;
    }
    let inst = &legacy[k];
    let ghost s0 = symbol.state();
    match &inst.reference {
        Some(r) => {
            proof {
                lemma_text_set_kinds(s0, PropertyKind::SymbolReference, r@);
            }
            symbol.set_field_text(PropertyKind::SymbolReference, r.clone());
        },
        None => {},
    }
    match inst.unit {
        Some(u) => {
            symbol.unit = Some(u);
        },
        None => {},
    }
    let ghost s2 = symbol.state();
    match &inst.value {
        Some(v) => {
            proof {
                lemma_text_set_kinds(s2, PropertyKind::SymbolValue, v@);
            }
            symbol.set_field_text(PropertyKind::SymbolValue, v.clone());
        },
        None => {},
    }
    let ghost s3 = symbol.state();
    match &inst.footprint {
        Some(f) => {
            proof {
                lemma_text_set_kinds(s3, PropertyKind::SymbolFootprint, f@);
            }
            symbol.set_field_text(PropertyKind::SymbolFootprint, f.clone());
        },
        None => {},
    }
    let mut rest: Vec<SymbolLocalInstance> = Vec::new();
    std::mem::swap(&mut rest, &mut symbol.instances);
    let ghost orig = rest@;
    assert(orig.len() == rest.len());
    let mut kept: Vec<SymbolLocalInstance> = Vec::new();
    let mut c: usize = 0;
    assert(orig.take(0) =~= Seq::<SymbolLocalInstance>::empty());
    assert(orig.skip(0) =~= orig);
    while rest.len() > 0
        invariant
            c + rest@.len() == orig.len(),
            orig.len() <= usize::MAX,
            rest@ == orig.skip(c as int),
            kept@ == without_path(orig.take(c as int), sheet_path.instance_path@),
        decreases rest.len(),
    {
        let e = rest.remove(0);
        proof {
            assert(e == orig[c as int]);
            assert(orig.take(c + 1).drop_last() =~= orig.take(c as int));
            assert(orig.take(c + 1).last() == orig[c as int]);
            assert(rest@ =~= orig.skip(c + 1));
        }
        if e.path != sheet_path.instance_path {
            kept.push(e);
        }
        c = c + 1;
    }
    assert(orig.take(orig.len() as int) =~= orig);
    let recorded = SymbolLocalInstance {
        project: String::new(),
        path: sheet_path.instance_path.clone(),
        reference: copy_opt(&inst.reference),
        unit: match inst.unit {
            Some(u) => Some(u),
            None => Some(1),
        },
        value: copy_opt(&inst.value),
        footprint: copy_opt(&inst.footprint),
        variants: Vec::new(),
    };
    kept.push(recorded);
    symbol.instances = kept;
    assert(symbol.instances@.drop_last() =~= without_path(orig, sheet_path.instance_path@));
}

fn apply_legacy_to_schematic(schematic: &mut LiveSchematic, sheet_path: &LoadedSheetPath, legacy: &Vec<SymbolInstance>)
    requires
        forall|i: int| 0 <= i < old(schematic).symbols@.len() ==> legacy_ready(#[trigger] old(schematic).symbols@[i]),
    ensures
        schematic_legacy_applied(*old(schematic), *final(schematic), *sheet_path, legacy@),
        forall|i: int| 0 <= i < final(schematic).symbols@.len() ==> legacy_ready(#[trigger] final(schematic).symbols@[i]),
{
    let ghost start = schematic.symbols@;
    let mut i: usize = 0;
    while i < schematic.symbols.len()
        invariant
            0 <= i <= schematic.symbols@.len(),
            schematic.symbols@.len() == start.len(),
            start == old(schematic).symbols@,
            schematic.path == old(schematic).path,
            schematic.sheets == old(schematic).sheets,
            schematic.labels == old(schematic).labels,
            forall|k: int| 0 <= k < start.len() ==> legacy_ready(#[trigger] start[k]),
            forall|k: int| i <= k < start.len() ==> #[trigger] schematic.symbols@[k] == start[k],
            forall|k: int| 0 <= k < i ==> symbol_legacy_applied(#[trigger] start[k], schematic.symbols@[k], *sheet_path, legacy@)
                && legacy_ready(schematic.symbols@[k]),
        decreases start.len() - i,
    {
        assert(schematic.symbols@[i as int] == start[i as int]);
        apply_legacy_instance(&mut schematic.symbols[i], sheet_path, legacy);
        i = i + 1;
    }
    assert forall|k: int| 0 <= k < schematic.symbols@.len() implies legacy_ready(#[trigger] schematic.symbols@[k]) by {
        assert(symbol_legacy_applied(start[k], schematic.symbols@[k], *sheet_path, legacy@));
    }
}

/// Laying a symbol's first instance over it, with no variant, keeps it as loading left it.
proof fn lemma_seed_keeps_ready(o: LiveSymbol, n: LiveSymbol)
    requires
        legacy_ready(o),
        symbol_refreshed_to(o, n, first_instance(o.instances@), None),
    ensures
        legacy_ready(n),
{
    let s = o.state();
    match first_instance(o.instances@) {
        Some(inst) => {
            let s1 = match inst.reference {
                Some(r) => symbol_text_set(s, PropertyKind::SymbolReference, r@),
                None => s,
            };
            match inst.reference {
                Some(r) => lemma_text_set_kinds(s, PropertyKind::SymbolReference, r@),
                None => {},
            }
            let s2 = match inst.unit {
                Some(u) => SymbolView { unit: Some(u), ..s1 },
                None => s1,
            };
            let s3 = match text_override(inst.value) {
                Some(v) => symbol_text_set(s2, PropertyKind::SymbolValue, v),
                None => s2,
            };
            match text_override(inst.value) {
                Some(v) => lemma_text_set_kinds(s2, PropertyKind::SymbolValue, v),
                None => {},
            }
            match text_override(inst.footprint) {
                Some(f) => lemma_text_set_kinds(s3, PropertyKind::SymbolFootprint, f),
                None => {},
            }
        },
        None => {},
    }
}

/// Lays the legacy symbol instances that the root file of a project older than version
/// 20221002 carries over the symbols, sheet occurrence by sheet occurrence in list
/// order: for each symbol with a UUID, the instance whose path is the occurrence's
/// symbol path, `/` and the UUID gives its reference, unit, value and footprint and is
/// recorded as its instance for the occurrence; after the first occurrence of a file
/// shown more than once, that file's symbols go back to their first instance.
#[verifier::spinoff_prover]
#[verifier::rlimit(40)]
pub fn update_symbol_instance_data(
    root_version: i32,
    symbol_instances: &Vec<SymbolInstance>,
    sheet_paths: &Vec<LoadedSheetPath>,
    schematics: &mut Vec<LiveSchematic>,
)
    requires
        all_legacy_ready(old(schematics)@),
    ensures
        root_version >= 20221002 ==> final(schematics)@ == old(schematics)@,
        root_version < 20221002 ==> exists|states: Seq<Seq<LiveSchematic>>|
            states.len() == sheet_paths@.len() + 1 && states[0] == old(schematics)@ && states[sheet_paths@.len() as int]
                == final(schematics)@ && forall|k: int|
                0 <= k < sheet_paths@.len() ==> #[trigger] legacy_step(
                    states[k],
                    states[k + 1],
                    sheet_paths@,
                    k,
                    symbol_instances@,
                ),
{
    if root_version >= 20221002 {
        return;
    }
    let ghost mut states: Seq<Seq<LiveSchematic>> = seq![schematics@];
    let mut k: usize = 0;
    while k < sheet_paths.len()
        invariant
            0 <= k <= sheet_paths.len(),
            states.len() == k + 1,
            states[0] == old(schematics)@,
            states[k as int] == schematics@,
            all_legacy_ready(schematics@),
            forall|t: int| 0 <= t < k ==> #[trigger] legacy_step(states[t], states[t + 1], sheet_paths@, t, symbol_instances@),
        decreases sheet_paths.len() - k,
    {
        let ghost o = schematics@;
        let sp = &sheet_paths[k];
        let j = find_schematic_index(schematics, &sp.schematic_path);
        proof {
            lemma_schematic_from(o, sp.schematic_path@, 0);
        }
        if j < schematics.len() {
            proof {
                assert forall|i: int| 0 <= i < o[j as int].symbols@.len() implies legacy_ready(#[trigger] o[j as int].symbols@[i]) by {
                    assert(legacy_ready(o[j as int].symbols@[i]));
                }
            }
            apply_legacy_to_schematic(&mut schematics[j], sp, symbol_instances);
            let ghost mid = schematics@[j as int];
            let count = occurrence_count_exec(sheet_paths, &sp.schematic_path);
            let first = find_file_occurrence_index(sheet_paths, &sp.schematic_path);
            if count > 1 && first == k {
                proof {
                    assert forall|i: int| 0 <= i < mid.symbols@.len() implies crate::loader::occurrence::refresh_applicable(
                        #[trigger] mid.symbols@[i],
                        first_instance(mid.symbols@[i].instances@),
                        crate::loader::occurrence::variant_view(None),
                    ) by {
                        assert(legacy_ready(mid.symbols@[i]));
                        ready_refresh_applicable(mid.symbols@[i]);
                    }
                }
                seed_first_symbol_instance_state(&mut schematics[j], None);
                proof {
                    let n = schematics@[j as int];
                    assert forall|i: int| 0 <= i < n.symbols@.len() implies legacy_ready(#[trigger] n.symbols@[i]) by {
                        lemma_seed_keeps_ready(mid.symbols@[i], n.symbols@[i]);
                    }
                }
            }
            proof {
                let n = schematics@;
                assert(schematic_legacy_applied(o[j as int], mid, *sp, symbol_instances@));
                assert forall|t: int| 0 <= t < n.len() && t != j implies n[t] == o[t] by {}
                assert(all_legacy_ready(n)) by {
                    assert forall|a: int, b: int| 0 <= a < n.len() && 0 <= b < (#[trigger] n[a]).symbols@.len() implies legacy_ready(
                        #[trigger] n[a].symbols@[b],
                    ) by {
                        if a != j {
                            assert(n[a] == o[a]);
                        }
                    }
                }
                assert(legacy_step(o, n, sheet_paths@, k as int, symbol_instances@));
            }
        } else {
            assert(legacy_step(o, schematics@, sheet_paths@, k as int, symbol_instances@));
        }
        proof {
            states = states.push(schematics@);
        }
        k = k + 1;
    }
}

/// Position of the first occurrence of the file, or the number of occurrences.
fn find_file_occurrence_index(sheet_paths: &Vec<LoadedSheetPath>, file: &String) -> (r: usize)
    ensures
        r == file_occurrence_from(sheet_paths@, file@, 0),
{
    let mut i: usize = 0;
    while i < sheet_paths.len() && sheet_paths[i].schematic_path != *file
        invariant
            0 <= i <= sheet_paths.len(),
            file_occurrence_from(sheet_paths@, file@, 0) == file_occurrence_from(sheet_paths@, file@, i as int),
        decreases sheet_paths.len() - i,
    {
        i = i + 1;
    }
    i
}

/// A symbol as loading leaves it can take its first instance with no variant.
proof fn ready_refresh_applicable(s: LiveSymbol)
    requires
        legacy_ready(s),
    ensures
        crate::loader::occurrence::refresh_applicable(s, first_instance(s.instances@), None),
{
}

/// The symbol has its reference, value and footprint fields.
pub open spec fn has_mandatory_fields(s: SymbolView) -> bool {
    &&& kind_from(s.properties, PropertyKind::SymbolReference, 0) < s.properties.len()
    &&& kind_from(s.properties, PropertyKind::SymbolValue, 0) < s.properties.len()
    &&& kind_from(s.properties, PropertyKind::SymbolFootprint, 0) < s.properties.len()
}

/// Every symbol of every schematic has its reference, value and footprint fields.
pub open spec fn all_have_mandatory_fields(schs: Seq<LiveSchematic>) -> bool {
    forall|j: int, i: int| 0 <= j < schs.len() && 0 <= i < (#[trigger] schs[j]).symbols@.len() ==> has_mandatory_fields(
        (#[trigger] schs[j].symbols@[i]).state(),
    )
}

/// Laying an instance over a symbol with no variant keeps its mandatory fields.
proof fn lemma_instance_keeps_fields(s: SymbolView, inst: SymbolLocalInstance)
    requires
        has_mandatory_fields(s),
    ensures
        has_mandatory_fields(symbol_instance_applied(s, inst, None)),
        crate::loader::occurrence::instance_applicable(s, inst, None),
{
    let s1 = match inst.reference {
        Some(r) => symbol_text_set(s, PropertyKind::SymbolReference, r@),
        None => s,
    };
    match inst.reference {
        Some(r) => lemma_text_set_kinds(s, PropertyKind::SymbolReference, r@),
        None => {},
    }
    let s2 = match inst.unit {
        Some(u) => SymbolView { unit: Some(u), ..s1 },
        None => s1,
    };
    let s3 = match text_override(inst.value) {
        Some(v) => symbol_text_set(s2, PropertyKind::SymbolValue, v),
        None => s2,
    };
    match text_override(inst.value) {
        Some(v) => lemma_text_set_kinds(s2, PropertyKind::SymbolValue, v),
        None => {},
    }
    match text_override(inst.footprint) {
        Some(f) => lemma_text_set_kinds(s3, PropertyKind::SymbolFootprint, f),
        None => {},
    }
}

/// `n` is the symbol `o` with the chosen instance, if any, laid over it (no variant,
/// no baseline put back first).
pub open spec fn symbol_instance_laid(o: LiveSymbol, n: LiveSymbol, chosen: Option<SymbolLocalInstance>) -> bool {
    match chosen {
        Some(inst) => {
            &&& n.state() == symbol_instance_applied(o.state(), inst, None)
            &&& n.instances == o.instances
            &&& n.occurrence_base == o.occurrence_base
            &&& n.uuid == o.uuid
            &&& n.power == o.power
        },
        None => n == o,
    }
}

/// The instance of a symbol for a sheet occurrence, as the screen-reference pass
/// chooses it: for a file shown once, the instance with the occurrence's instance path;
/// for the first occurrence of a file shown more than once, the first instance.
pub open spec fn screen_reference_choice(s: LiveSymbol, sheet_paths: Seq<LoadedSheetPath>, k: int) -> Option<SymbolLocalInstance> {
    let file = sheet_paths[k].schematic_path@;
    if occurrence_count(sheet_paths, file) == 1 {
        crate::loader::occurrence::instance_at_path(s.instances@, sheet_paths[k].instance_path@)
    } else if seeds_at(sheet_paths, k) {
        first_instance(s.instances@)
    } else {
        None
    }
}

/// `n` is `o` after the screen-reference pass of the occurrence at position `k`: the
/// symbols of the first schematic of its file take their chosen instance; the other
/// schematics are unchanged.
pub open spec fn screen_reference_step(o: Seq<LiveSchematic>, n: Seq<LiveSchematic>, sheet_paths: Seq<LoadedSheetPath>, k: int) -> bool {
    let j = schematic_from(o, sheet_paths[k].schematic_path@, 0);
    &&& n.len() == o.len()
    &&& forall|t: int| 0 <= t < o.len() && t != j ==> n[t] == o[t]
    &&& 0 <= j < o.len() ==> {
        &&& n[j].path == o[j].path
        &&& n[j].sheets == o[j].sheets
        &&& n[j].labels == o[j].labels
        &&& n[j].symbols@.len() == o[j].symbols@.len()
        &&& forall|i: int| 0 <= i < o[j].symbols@.len() ==> symbol_instance_laid(
            #[trigger] o[j].symbols@[i],
            n[j].symbols@[i],
            screen_reference_choice(o[j].symbols@[i], sheet_paths, k),
        )
    }
}

/// Lays the chosen instance over the symbol.
fn lay_instance(symbol: &mut LiveSymbol, k: usize)
    requires
        has_mandatory_fields(old(symbol).state()),
    ensures
        symbol_instance_laid(
            *old(symbol),
            *final(symbol),
            if k < old(symbol).instances@.len() {
                Some(old(symbol).instances@[k as int])
            } else {
                None
            },
        ),
        has_mandatory_fields(final(symbol).state()),
{
    if k < symbol.instances.len() {
        proof {
            lemma_instance_keeps_fields(symbol.state(), symbol.instances@[k as int]);
        }
        let mut insts: Vec<SymbolLocalInstance> = Vec::new();
        std::mem::swap(&mut insts, &mut symbol.instances);
        crate::loader::occurrence::apply_selected_symbol_instance(symbol, &insts[k], None);
        std::mem::swap(&mut insts, &mut symbol.instances);
    }
}

/// Position of the instance chosen for the occurrence, or past the instances.
fn screen_reference_index(symbol: &LiveSymbol, sheet_paths: &Vec<LoadedSheetPath>, k: usize, count: usize, first: usize) -> (r: usize)
    requires
        k < sheet_paths@.len(),
        count == occurrence_count(sheet_paths@, sheet_paths@[k as int].schematic_path@),
        first == file_occurrence_from(sheet_paths@, sheet_paths@[k as int].schematic_path@, 0),
    ensures
        match screen_reference_choice(*symbol, sheet_paths@, k as int) {
            Some(inst) => r < symbol.instances@.len() && symbol.instances@[r as int] == inst,
            None => r >= symbol.instances@.len(),
        },
{
    if count == 1 {
        let r = crate::loader::occurrence::find_instance_index(&symbol.instances, sheet_paths[k].instance_path.as_str());
        proof {
            crate::loader::occurrence::lemma_instance_from(symbol.instances@, sheet_paths@[k as int].instance_path@, 0);
        }
        r
    } else if count > 1 && first == k {
        0
    } else {
        symbol.instances.len()
    }
}

/// `states` runs from `o` to `n` through the screen-reference pass: one step per sheet
/// occurrence in list order, then the intersheet-reference fields refreshed for the root.
pub open spec fn screen_reference_states(
    states: Seq<Seq<LiveSchematic>>,
    o: Seq<LiveSchematic>,
    n: Seq<LiveSchematic>,
    sheet_paths: Seq<LoadedSheetPath>,
    refs: Seq<(String, Vec<usize>, String)>,
    settings: RefsSettings,
) -> bool {
    &&& states.len() == sheet_paths.len() + 2
    &&& states[0] == o
    &&& states[sheet_paths.len() + 1int] == n
    &&& forall|k: int| 0 <= k < sheet_paths.len() ==> #[trigger] screen_reference_step(states[k], states[k + 1], sheet_paths, k)
    &&& intersheet_refs_refreshed(states[sheet_paths.len() as int], n, sheet_paths, Seq::empty(), refs, settings)
}

/// Lays over the symbols their instance for each sheet occurrence in list order: for a
/// file shown once, the instance with the occurrence's instance path; for the first
/// occurrence of a file shown more than once, the first instance.
#[verifier::spinoff_prover]
pub fn update_all_screen_references(
    sheet_paths: &Vec<LoadedSheetPath>,
    schematics: &mut Vec<LiveSchematic>,
    refs: &Vec<(String, Vec<usize>, String)>,
    settings: &RefsSettings,
)
    requires
        all_have_mandatory_fields(old(schematics)@),
    ensures
        exists|states: Seq<Seq<LiveSchematic>>|
            #[trigger] screen_reference_states(states, old(schematics)@, final(schematics)@, sheet_paths@, refs@, *settings),
{
    let ghost mut states: Seq<Seq<LiveSchematic>> = seq![schematics@];
    let mut k: usize = 0;
    while k < sheet_paths.len()
        invariant
            0 <= k <= sheet_paths.len(),
            states.len() == k + 1,
            states[0] == old(schematics)@,
            states[k as int] == schematics@,
            all_have_mandatory_fields(schematics@),
            forall|t: int| 0 <= t < k ==> #[trigger] screen_reference_step(states[t], states[t + 1], sheet_paths@, t),
        decreases sheet_paths.len() - k,
    {
        let ghost o = schematics@;
        let j = find_schematic_index(schematics, &sheet_paths[k].schematic_path);
        proof {
            lemma_schematic_from(o, sheet_paths@[k as int].schematic_path@, 0);
        }
        if j < schematics.len() {
            let count = occurrence_count_exec(sheet_paths, &sheet_paths[k].schematic_path);
            let first = find_file_occurrence_index(sheet_paths, &sheet_paths[k].schematic_path);
            let ghost start = schematics@[j as int].symbols@;
            let mut i: usize = 0;
            while i < schematics[j].symbols.len()
                invariant
                    0 <= i <= schematics@[j as int].symbols@.len(),
                    j < schematics@.len(),
                    k < sheet_paths@.len(),
                    schematics@.len() == o.len(),
                    start == o[j as int].symbols@,
                    schematics@[j as int].symbols@.len() == start.len(),
                    schematics@[j as int].path == o[j as int].path,
                    schematics@[j as int].sheets == o[j as int].sheets,
                    schematics@[j as int].labels == o[j as int].labels,
                    count == occurrence_count(sheet_paths@, sheet_paths@[k as int].schematic_path@),
                    first == file_occurrence_from(sheet_paths@, sheet_paths@[k as int].schematic_path@, 0),
                    all_have_mandatory_fields(o),
                    forall|t: int| 0 <= t < o.len() && t != j ==> schematics@[t] == o[t],
                    forall|q: int| i <= q < start.len() ==> #[trigger] schematics@[j as int].symbols@[q] == start[q],
                    forall|q: int| 0 <= q < i ==> symbol_instance_laid(
                        #[trigger] start[q],
                        schematics@[j as int].symbols@[q],
                        screen_reference_choice(start[q], sheet_paths@, k as int),
                    ) && has_mandatory_fields(schematics@[j as int].symbols@[q].state()),
                decreases start.len() - i,
            {
                assert(schematics@[j as int].symbols@[i as int] == start[i as int]);
                assert(has_mandatory_fields(o[j as int].symbols@[i as int].state()));
                let c = screen_reference_index(&schematics[j].symbols[i], sheet_paths, k, count, first);
                lay_instance(&mut schematics[j].symbols[i], c);
                i = i + 1;
            }
            proof {
                let n = schematics@;
                assert(screen_reference_step(o, n, sheet_paths@, k as int));
                assert(all_have_mandatory_fields(n)) by {
                    assert forall|a: int, b: int| 0 <= a < n.len() && 0 <= b < (#[trigger] n[a]).symbols@.len() implies has_mandatory_fields(
                        (#[trigger] n[a].symbols@[b]).state(),
                    ) by {
                        if a != j {
                            assert(n[a] == o[a]);
                        } else {
                            let syms = o[j as int].symbols@;
                            assert(symbol_instance_laid(
                                syms[b],
                                n[a].symbols@[b],
                                screen_reference_choice(syms[b], sheet_paths@, k as int),
                            ));
                        }
                    }
                }
            }
        } else {
            assert(screen_reference_step(o, schematics@, sheet_paths@, k as int));
        }
        proof {
            states = states.push(schematics@);
        }
        k = k + 1;
    }
    let ghost before = schematics@;
    proof {
        reveal_strlit("");
        assert(""@ =~= Seq::<char>::empty());
    }
    refresh_current_sheet_intersheet_refs(schematics, sheet_paths, "", refs, settings);
    proof {
        let full = states.push(schematics@);
        assert(full[sheet_paths@.len() as int] == before);
        assert forall|t: int| 0 <= t < sheet_paths@.len() implies #[trigger] screen_reference_step(full[t], full[t + 1], sheet_paths@, t) by {
            assert(full[t] == states[t] && full[t + 1] == states[t + 1]);
        }
        assert(screen_reference_states(full, old(schematics)@, schematics@, sheet_paths@, refs@, *settings));
    }
}

} // verus!
