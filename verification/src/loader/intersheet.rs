//! The intersheet-reference fields of global labels: back on their base text on every
//! screen, and, on the screen of the current sheet, shown or hidden as the project says
//! and given the pages their label appears on.
//!
//! A field's placement is not held here.

use crate::loader::occurrence::{
    copy_property, find_kind_index, find_schematic_index, kind_from, lemma_kind_from, lemma_schematic_from, schematic_from,
    LiveLabel, LiveSchematic,
};
use crate::loader::pages::{intersheet_refs_field_text, refs_field_text, unlisted_intersheet_refs_text, unlisted_refs_text};
use crate::loader::selection::occurrence_at;
use crate::loader::{sheet_path, LoadedSheetPath};
use crate::model::property::{prop_views, Property, PropertyView};
use crate::model::{spec_canonical_key, spec_default_field_id, LabelKind, PropertyKind};
use vstd::prelude::*;

verus! {

/// The fields of a label with its intersheet-reference field back on its base text (its
/// text becomes the base where it has none); only global labels have one that counts.
pub open spec fn refs_restored(l: LiveLabel) -> Seq<PropertyView> {
    let pv = prop_views(l.properties@);
    let k = kind_from(pv, PropertyKind::GlobalLabelIntersheetRefs, 0);
    if l.kind == LabelKind::Global && k < pv.len() {
        let b = match pv[k].base_value {
            Some(b) => b,
            None => pv[k].value,
        };
        pv.update(k, PropertyView { base_value: Some(b), value: b, ..pv[k] })
    } else {
        pv
    }
}

/// Position of the first entry for the label text, from `i` on, or the number of
/// entries.
pub open spec fn refs_entry_from(refs: Seq<(String, Vec<usize>, String)>, text: Seq<char>, i: int) -> int
    decreases refs.len() - i,
{
    if 0 <= i < refs.len() && refs[i].0@ != text {
        refs_entry_from(refs, text, i + 1)
    } else {
        i
    }
}

/// The text the intersheet-reference field of a global label with the text shows on
/// the current sheet: from the pages the label appears on, or, for a label on no page,
/// as an unknown value.
pub open spec fn refs_text(
    text: Seq<char>,
    refs: Seq<(String, Vec<usize>, String)>,
    sheet_paths: Seq<LoadedSheetPath>,
    current_sheet_number: usize,
    own_page: Option<bool>,
    short: Option<bool>,
    prefix: Seq<char>,
    suffix: Seq<char>,
) -> Seq<char> {
    let k = refs_entry_from(refs, text, 0);
    if 0 <= k < refs.len() {
        refs_field_text(refs[k].1@, sheet_paths, current_sheet_number, own_page, short, prefix, suffix)
    } else {
        unlisted_refs_text(None, prefix, suffix)
    }
}

/// The fields with the intersheet-reference field shown as `show` says, and where
/// shown, given the text with its kind's id and key.
pub open spec fn refs_shown(pv: Seq<PropertyView>, show: bool, value: Seq<char>) -> Seq<PropertyView> {
    let k = kind_from(pv, PropertyKind::GlobalLabelIntersheetRefs, 0);
    if k < pv.len() {
        let p1 = PropertyView { visible: show, ..pv[k] };
        if show {
            pv.update(
                k,
                PropertyView {
                    value,
                    id: Some(spec_default_field_id(PropertyKind::GlobalLabelIntersheetRefs)),
                    key: spec_canonical_key(PropertyKind::GlobalLabelIntersheetRefs),
                    ..p1
                },
            )
        } else {
            pv.update(k, p1)
        }
    } else {
        pv
    }
}

/// The position of the schematic of the current sheet, or -1.
pub open spec fn current_schematic_index(schs: Seq<LiveSchematic>, sheet_paths: Seq<LoadedSheetPath>, current: Seq<char>) -> int {
    match occurrence_at(sheet_paths, current) {
        Some(sp) => {
            let j = schematic_from(schs, sp.schematic_path@, 0);
            if j < schs.len() {
                j
            } else {
                -1
            }
        },
        None => -1,
    }
}

/// The settings of the intersheet-reference fields: shown or not, whether the own page
/// is listed, the short form, and the text before and after.
pub struct RefsSettings {
    pub show: bool,
    pub own_page: Option<bool>,
    pub short: Option<bool>,
    pub prefix: Option<String>,
    pub suffix: Option<String>,
}

/// The text of an optional setting, empty where unset.
pub open spec fn setting_text(o: Option<String>) -> Seq<char> {
    match o {
        Some(t) => t@,
        None => Seq::empty(),
    }
}

/// The fields of a label after the refresh: back on base text; on the current sheet's
/// schematic a global label's field is also shown or hidden and given its text.
pub open spec fn label_refreshed(
    l: LiveLabel,
    on_current: bool,
    refs: Seq<(String, Vec<usize>, String)>,
    sheet_paths: Seq<LoadedSheetPath>,
    current_sheet_number: usize,
    settings: RefsSettings,
) -> Seq<PropertyView> {
    let r = refs_restored(l);
    if on_current && l.kind == LabelKind::Global {
        refs_shown(
            r,
            settings.show,
            refs_text(
                l.text@,
                refs,
                sheet_paths,
                current_sheet_number,
                settings.own_page,
                settings.short,
                setting_text(settings.prefix),
                setting_text(settings.suffix),
            ),
        )
    } else {
        r
    }
}

/// `n` is the label `o` with its fields as [`label_refreshed`] says.
pub open spec fn label_refreshed_to(
    o: LiveLabel,
    n: LiveLabel,
    on_current: bool,
    refs: Seq<(String, Vec<usize>, String)>,
    sheet_paths: Seq<LoadedSheetPath>,
    current_sheet_number: usize,
    settings: RefsSettings,
) -> bool {
    &&& n.kind == o.kind
    &&& n.text == o.text
    &&& prop_views(n.properties@) == label_refreshed(o, on_current, refs, sheet_paths, current_sheet_number, settings)
}

/// The sheet number of the current sheet, 0 where there is none.
pub open spec fn current_number(sheet_paths: Seq<LoadedSheetPath>, current: Seq<char>) -> usize {
    match occurrence_at(sheet_paths, current) {
        Some(sp) => sp.sheet_number,
        None => 0,
    }
}

/// Puts a label's intersheet-reference field back on its base text.
fn restore_label_refs(label: &mut LiveLabel)
    ensures
        final(label).kind == old(label).kind,
        final(label).text == old(label).text,
        prop_views(final(label).properties@) == refs_restored(*old(label)),
{
    let ghost pv = prop_views(label.properties@);
    let k = find_kind_index(&label.properties, PropertyKind::GlobalLabelIntersheetRefs);
    if label.kind == LabelKind::Global && k < label.properties.len() {
        let p = copy_property(&label.properties[k]);
        let b = match &p.base_value {
            Some(b) => b.clone(),
            None => p.value.clone(),
        };
        let np = Property { base_value: Some(b.clone()), value: b, ..p };
        label.properties.set(k, np);
        proof {
            let bv = match pv[k as int].base_value {
                Some(x) => x,
                None => pv[k as int].value,
            };
            assert(prop_views(label.properties@) =~= pv.update(k as int, PropertyView { base_value: Some(bv), value: bv, ..pv[k as int] }));
        }
    }
}

/// Shows or hides a global label's intersheet-reference field, giving it the text where
/// shown.
fn show_label_refs(label: &mut LiveLabel, show: bool, value: String)
    ensures
        final(label).kind == old(label).kind,
        final(label).text == old(label).text,
        prop_views(final(label).properties@) == refs_shown(prop_views(old(label).properties@), show, value@),
{
    let ghost pv = prop_views(label.properties@);
    let k = find_kind_index(&label.properties, PropertyKind::GlobalLabelIntersheetRefs);
    if k < label.properties.len() {
        let p = copy_property(&label.properties[k]);
        if show {
            let np = Property {
                value,
                id: PropertyKind::GlobalLabelIntersheetRefs.default_field_id(),
                key: PropertyKind::GlobalLabelIntersheetRefs.canonical_key().to_owned(),
                visible: true,
                ..p
            };
            label.properties.set(k, np);
            assert(prop_views(label.properties@) =~= refs_shown(pv, show, value@));
        } else {
            let np = Property { visible: false, ..p };
            label.properties.set(k, np);
            assert(prop_views(label.properties@) =~= refs_shown(pv, show, value@));
        }
    }
}

/// Position of the entry for the label text, or the number of entries.
fn find_refs_entry(refs: &Vec<(String, Vec<usize>, String)>, text: &String) -> (r: usize)
    ensures
        r == refs_entry_from(refs@, text@, 0),
{
    let mut i: usize = 0;
    while i < refs.len() && refs[i].0 != *text
        invariant
            0 <= i <= refs.len(),
            refs_entry_from(refs@, text@, 0) == refs_entry_from(refs@, text@, i as int),
        decreases refs.len() - i,
    {
        i = i + 1;
    }
    i
}

/// The text a global label's field shows on the current sheet, as [`refs_text`] says.
fn refs_text_exec(
    text: &String,
    refs: &Vec<(String, Vec<usize>, String)>,
    sheet_paths: &Vec<LoadedSheetPath>,
    current_sheet_number: usize,
    settings: &RefsSettings,
) -> (r: String)
    ensures
        r@ == refs_text(
            text@,
            refs@,
            sheet_paths@,
            current_sheet_number,
            settings.own_page,
            settings.short,
            setting_text(settings.prefix),
            setting_text(settings.suffix),
        ),
{
    let prefix: Option<&str> = match &settings.prefix {
        Some(p) => Some(p.as_str()),
        None => None,
    };
    let suffix: Option<&str> = match &settings.suffix {
        Some(s) => Some(s.as_str()),
        None => None,
    };
    let k = find_refs_entry(refs, text);
    if k < refs.len() {
        intersheet_refs_field_text(&refs[k].1, sheet_paths, current_sheet_number, settings.own_page, settings.short, prefix, suffix)
    } else {
        unlisted_intersheet_refs_text(None, prefix, suffix)
    }
}

/// `n` is the schematic `o` with its labels refreshed.
pub open spec fn labels_refreshed(
    o: LiveSchematic,
    n: LiveSchematic,
    on_current: bool,
    refs: Seq<(String, Vec<usize>, String)>,
    sheet_paths: Seq<LoadedSheetPath>,
    current_sheet_number: usize,
    settings: RefsSettings,
) -> bool {
    &&& n.path == o.path
    &&& n.symbols == o.symbols
    &&& n.sheets == o.sheets
    &&& n.labels@.len() == o.labels@.len()
    &&& forall|i: int| 0 <= i < o.labels@.len() ==> label_refreshed_to(
        #[trigger] o.labels@[i],
        n.labels@[i],
        on_current,
        refs,
        sheet_paths,
        current_sheet_number,
        settings,
    )
}

fn refresh_labels_of(
    schematic: &mut LiveSchematic,
    on_current: bool,
    refs: &Vec<(String, Vec<usize>, String)>,
    sheet_paths: &Vec<LoadedSheetPath>,
    current_sheet_number: usize,
    settings: &RefsSettings,
)
    ensures
        labels_refreshed(*old(schematic), *final(schematic), on_current, refs@, sheet_paths@, current_sheet_number, *settings),
{
    let ghost start = schematic.labels@;
    let mut i: usize = 0;
    while i < schematic.labels.len()
        invariant
            0 <= i <= schematic.labels@.len(),
            schematic.labels@.len() == start.len(),
            start == old(schematic).labels@,
            schematic.path == old(schematic).path,
            schematic.symbols == old(schematic).symbols,
            schematic.sheets == old(schematic).sheets,
            forall|k: int| i <= k < start.len() ==> #[trigger] schematic.labels@[k] == start[k],
            forall|k: int| 0 <= k < i ==> label_refreshed_to(
                #[trigger] start[k],
                schematic.labels@[k],
                on_current,
                refs@,
                sheet_paths@,
                current_sheet_number,
                *settings,
            ),
        decreases start.len() - i,
    {
        assert(schematic.labels@[i as int] == start[i as int]);
        restore_label_refs(&mut schematic.labels[i]);
        if on_current && schematic.labels[i].kind == LabelKind::Global {
            let value = refs_text_exec(&schematic.labels[i].text, refs, sheet_paths, current_sheet_number, settings);
            show_label_refs(&mut schematic.labels[i], settings.show, value);
        }
        i = i + 1;
    }
}

/// `n` is `o` with the intersheet-reference fields refreshed for the current sheet, as
/// [`refresh_current_sheet_intersheet_refs`] does.
pub open spec fn intersheet_refs_refreshed(
    o: Seq<LiveSchematic>,
    n: Seq<LiveSchematic>,
    sheet_paths: Seq<LoadedSheetPath>,
    current: Seq<char>,
    refs: Seq<(String, Vec<usize>, String)>,
    settings: RefsSettings,
) -> bool {
    &&& n.len() == o.len()
    &&& forall|j: int| 0 <= j < o.len() ==> labels_refreshed(
        #[trigger] o[j],
        n[j],
        j == current_schematic_index(o, sheet_paths, current),
        refs,
        sheet_paths,
        current_number(sheet_paths, current),
        settings,
    )
}

/// Puts the intersheet-reference field of every global label back on its base text,
/// then, on the screen of the current sheet, shows or hides each global label's field as
/// the settings say and, where shown, gives it the pages its label appears on (`refs`
/// lists, by label text, those pages).
pub fn refresh_current_sheet_intersheet_refs(
    schematics: &mut Vec<LiveSchematic>,
    sheet_paths: &Vec<LoadedSheetPath>,
    current_sheet_instance_path: &str,
    refs: &Vec<(String, Vec<usize>, String)>,
    settings: &RefsSettings,
)
    ensures
        intersheet_refs_refreshed(
            old(schematics)@,
            final(schematics)@,
            sheet_paths@,
            current_sheet_instance_path@,
            refs@,
            *settings,
        ),
{
    let ghost start = schematics@;
    let current = sheet_path(sheet_paths, current_sheet_instance_path);
    let (cj, number) = match current {
        Some(sp) => {
            let j = find_schematic_index(schematics, &sp.schematic_path);
            proof {
                lemma_schematic_from(start, sp.schematic_path@, 0);
            }
            (j, sp.sheet_number)
        },
        None => (schematics.len(), 0),
    };
    let ghost cur = current_schematic_index(start, sheet_paths@, current_sheet_instance_path@);
    assert(cj < start.len() ==> cur == cj);
    assert(cj >= start.len() ==> cur == -1);
    assert(number == current_number(sheet_paths@, current_sheet_instance_path@));
    let mut j: usize = 0;
    while j < schematics.len()
        invariant
            0 <= j <= schematics@.len(),
            schematics@.len() == start.len(),
            start == old(schematics)@,
            cur == current_schematic_index(start, sheet_paths@, current_sheet_instance_path@),
            cj < start.len() ==> cur == cj,
            cj >= start.len() ==> cur == -1,
            number == current_number(sheet_paths@, current_sheet_instance_path@),
            forall|k: int| j <= k < start.len() ==> #[trigger] schematics@[k] == start[k],
            forall|k: int| 0 <= k < j ==> labels_refreshed(
                #[trigger] start[k],
                schematics@[k],
                k == cur,
                refs@,
                sheet_paths@,
                number,
                *settings,
            ),
        decreases start.len() - j,
    {
        assert(schematics@[j as int] == start[j as int]);
        refresh_labels_of(&mut schematics[j], j == cj, refs, sheet_paths, number, settings);
        j = j + 1;
    }
}

/// Refreshing the intersheet-reference fields leaves ready schematics ready.
pub proof fn lemma_refs_refresh_keeps_ready(
    o: Seq<LiveSchematic>,
    n: Seq<LiveSchematic>,
    sheet_paths: Seq<LoadedSheetPath>,
    current: Seq<char>,
    refs: Seq<(String, Vec<usize>, String)>,
    settings: RefsSettings,
)
    requires
        crate::loader::occurrence::occurrences_ready(o),
        intersheet_refs_refreshed(o, n, sheet_paths, current, refs, settings),
    ensures
        crate::loader::occurrence::occurrences_ready(n),
{
    assert forall|j: int| 0 <= j < n.len() implies crate::loader::occurrence::schematic_ready(#[trigger] n[j]) by {
        assert(crate::loader::occurrence::schematic_ready(o[j]));
        assert(n[j].symbols == o[j].symbols && n[j].sheets == o[j].sheets);
    }
}

} // verus!
