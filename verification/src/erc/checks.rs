//! Rule checks over what a loaded project holds: sheet names, field names, symbol
//! occurrences grouped by reference, footprint filters and stacked pin numbers.
//!
//! Each check takes the items it reads as plain values, collected in hierarchy order by
//! its caller, and reports its findings in the order it meets them.

use crate::diagnostic::{Diagnostic, DiagnosticKind, Severity};
use crate::grouping::{group_by_key, is_key_grouping, law_grouping_unique, lemma_positions_bounded};
use crate::model::sim_params::{eq_ignore_ascii_case, eq_ignore_case_str};
use crate::model::{spec_canonical_key, spec_is_user_field, PropertyKind};
use crate::erc::{
    glob_at, has_char, has_char_exec, parse_text_assertion, stacked_pin_notation_is_valid, stacked_valid, text_assertion,
    wildcard_matches,
};
use crate::loader::{last_index_of, lemma_last_index_of};
use crate::text::{
    chars_to_string, join_strings, join_with, lower_ascii, opt_view, push_str, seq_to_string, str_to_chars,
    to_ascii_lowercase, trim, trim_string,
};
use vstd::utf8::encode_utf8;
use vstd::prelude::*;

verus! {

/// A field of a schematic item (symbol or sheet): its role, its name and its text.
#[derive(Debug, Clone)]
pub struct ItemField {
    pub kind: PropertyKind,
    pub key: String,
    pub value: String,
}

/// The fields of the items of one schematic screen that a check reads, item by item in
/// the screen's order, with the file the screen was read from.
#[derive(Debug, Clone)]
pub struct ScreenItems {
    pub path: String,
    pub items: Vec<Vec<ItemField>>,
}

/// A rule-check finding as a diagnostic: a validation diagnostic of the given severity,
/// code and message, placed in the file `path` and nowhere more precisely.
pub open spec fn is_rule_diagnostic(d: Diagnostic, severity: Severity, code: Seq<char>, message: Seq<char>, path: Option<Seq<char>>) -> bool {
    &&& d.severity == severity
    &&& d.code@ == code
    &&& d.kind == DiagnosticKind::Validation
    &&& d.message@ == message
    &&& opt_view(d.path) == path
    &&& d.span is None
    &&& d.line is None
    &&& d.column is None
}

/// The diagnostics report the findings, each a message and a file, in order.
pub open spec fn reports(ds: Seq<Diagnostic>, severity: Severity, code: Seq<char>, findings: Seq<(Seq<char>, Option<Seq<char>>)>) -> bool {
    &&& ds.len() == findings.len()
    &&& forall|i: int| 0 <= i < ds.len() ==> #[trigger] is_rule_diagnostic(ds[i], severity, code, findings[i].0, findings[i].1)
}

pub(crate) fn rule_diagnostic(severity: Severity, code: &'static str, message: String, path: Option<String>) -> (r: Diagnostic)
    ensures
        is_rule_diagnostic(r, severity, code@, message@, opt_view(path)),
{
    Diagnostic {
        severity,
        code,
        kind: DiagnosticKind::Validation,
        message,
        path,
        span: None,
        line: None,
        column: None,
    }
}

/// The code of a text assertion's diagnostic.
pub open spec fn assertion_code(severity: Severity) -> Seq<char> {
    match severity {
        Severity::Warning => "erc-generic-warning"@,
        Severity::Error => "erc-generic-error"@,
    }
}

/// The diagnostic of an `${ERC_WARNING ...}` or `${ERC_ERROR ...}` assertion found in the
/// file at `path`.
pub fn text_assertion_diagnostic(path: String, severity: Severity, message: String) -> (r: Diagnostic)
    ensures
        is_rule_diagnostic(r, severity, assertion_code(severity), message@, Some(path@)),
{
    let code = match severity {
        Severity::Warning => "erc-generic-warning",
        Severity::Error => "erc-generic-error",
    };
    rule_diagnostic(severity, code, message, Some(path))
}

/// The diagnostic of a text variable that nothing resolves, found in the file at `path`.
pub fn unresolved_variable_diagnostic(path: String, message: String) -> (r: Diagnostic)
    ensures
        is_rule_diagnostic(r, Severity::Error, "erc-unresolved-variable"@, message@, Some(path@)),
{
    rule_diagnostic(Severity::Error, "erc-unresolved-variable", message, Some(path))
}

/// The name a field is looked up by: the canonical key of a mandatory field, the field's
/// own key otherwise.
pub open spec fn lookup_key(f: ItemField) -> Seq<char> {
    if spec_is_user_field(f.kind) {
        f.key@
    } else {
        spec_canonical_key(f.kind)
    }
}

/// The position of the first field from `i` on whose lookup name is the token in any
/// ASCII case, or the number of fields.
pub open spec fn token_field_from(fields: Seq<ItemField>, token: Seq<char>, i: int) -> int
    decreases fields.len() - i,
{
    if i < 0 || i >= fields.len() {
        fields.len() as int
    } else if eq_ignore_ascii_case(lookup_key(fields[i]), token) {
        i
    } else {
        token_field_from(fields, token, i + 1)
    }
}

/// The text of the first field whose lookup name is the token in any ASCII case.
pub open spec fn property_value_for(fields: Seq<ItemField>, token: Seq<char>) -> Option<Seq<char>> {
    let k = token_field_from(fields, token, 0);
    if 0 <= k < fields.len() {
        Some(fields[k].value@)
    } else {
        None
    }
}

/// The text of the field that a `${TOKEN}` names: the first field whose lookup name is the
/// token in any ASCII case.
pub fn resolved_property_value(properties: &Vec<ItemField>, token: &str) -> (r: Option<String>)
    ensures
        opt_view(r) == property_value_for(properties@, token@),
{
    let tv = str_to_chars(token);
    let mut i: usize = 0;
    while i < properties.len()
        invariant
            0 <= i <= properties.len(),
            tv@ == token@,
            token_field_from(properties@, token@, i as int) == token_field_from(properties@, token@, 0),
        decreases properties.len() - i,
    {
        let f = &properties[i];
        let key = if f.kind.is_mandatory() {
            str_to_chars(f.kind.canonical_key())
        } else {
            str_to_chars(f.key.as_str())
        };
        if eq_ignore_case_str(&key, token) {
            return Some(f.value.clone());
        }
        i = i + 1;
    }
    None
}

/// The field that names a sheet: the first that is a sheet-name field or whose key is
/// `Sheetname` in any ASCII case.
pub open spec fn names_sheet(f: ItemField) -> bool {
    f.kind == PropertyKind::SheetName || eq_ignore_ascii_case(f.key@, "Sheetname"@)
}

/// The position of the first field from `i` on that names the sheet, or the number of
/// fields.
pub open spec fn sheet_name_field_from(fields: Seq<ItemField>, i: int) -> int
    decreases fields.len() - i,
{
    if i < 0 || i >= fields.len() {
        fields.len() as int
    } else if names_sheet(fields[i]) {
        i
    } else {
        sheet_name_field_from(fields, i + 1)
    }
}

/// The name a sheet shows: the text of its first field that names it.
pub open spec fn sheet_name_of(fields: Seq<ItemField>) -> Option<Seq<char>> {
    let k = sheet_name_field_from(fields, 0);
    if 0 <= k < fields.len() {
        Some(fields[k].value@)
    } else {
        None
    }
}

/// The name a sheet shows, from its fields.
pub fn shown_sheet_name(properties: &Vec<ItemField>) -> (r: Option<&str>)
    ensures
        match r {
            Some(n) => sheet_name_of(properties@) == Some(n@),
            None => sheet_name_of(properties@) is None,
        },
{
    let mut i: usize = 0;
    while i < properties.len()
        invariant
            0 <= i <= properties.len(),
            sheet_name_field_from(properties@, i as int) == sheet_name_field_from(properties@, 0),
        decreases properties.len() - i,
    {
        let f = &properties[i];
        let key = str_to_chars(f.key.as_str());
        if f.kind == PropertyKind::SheetName || eq_ignore_case_str(&key, "Sheetname") {
            return Some(f.value.as_str());
        }
        i = i + 1;
    }
    None
}

/// The message of a duplicated sheet name.
pub open spec fn duplicate_name_message(name: Seq<char>) -> Seq<char> {
    "Duplicate sheet name: '"@ + name + "'"@
}

/// The duplicate-name messages of the sheet named `a` with the sheets from `j` on.
pub open spec fn name_repeats(names: Seq<Option<Seq<char>>>, a: Seq<char>, j: int) -> Seq<Seq<char>>
    decreases names.len() - j,
{
    if j < 0 || j >= names.len() {
        Seq::empty()
    } else {
        let here = match names[j] {
            Some(b) => if eq_ignore_ascii_case(a, b) {
                seq![duplicate_name_message(a)]
            } else {
                Seq::empty()
            },
            None => Seq::empty(),
        };
        here + name_repeats(names, a, j + 1)
    }
}

/// The duplicate-name messages of the sheets from `i` on: for each named sheet, one per
/// later sheet with the same name in any ASCII case.
pub open spec fn duplicate_names_from(names: Seq<Option<Seq<char>>>, i: int) -> Seq<Seq<char>>
    decreases names.len() - i,
{
    if i < 0 || i >= names.len() {
        Seq::empty()
    } else {
        let here = match names[i] {
            Some(a) => name_repeats(names, a, i + 1),
            None => Seq::empty(),
        };
        here + duplicate_names_from(names, i + 1)
    }
}

/// The names the sheets of a screen show.
pub open spec fn screen_sheet_names(items: Seq<Vec<ItemField>>) -> Seq<Option<Seq<char>>> {
    items.map_values(|fields: Vec<ItemField>| sheet_name_of(fields@))
}

/// The texts of a list of optional strings.
pub open spec fn opt_views(os: Seq<Option<String>>) -> Seq<Option<Seq<char>>> {
    os.map_values(|o: Option<String>| opt_view(o))
}

/// The texts of a list of strings.
pub open spec fn texts_of(ms: Seq<String>) -> Seq<Seq<char>> {
    ms.map_values(|m: String| m@)
}

/// Each message placed in the file.
pub open spec fn placed_in(messages: Seq<Seq<char>>, path: Seq<char>) -> Seq<(Seq<char>, Option<Seq<char>>)> {
    messages.map_values(|m: Seq<char>| (m, Some(path)))
}

/// The duplicate-name findings of the screens, screen by screen.
pub open spec fn duplicate_sheet_findings(screens: Seq<ScreenItems>) -> Seq<(Seq<char>, Option<Seq<char>>)>
    decreases screens.len(),
{
    if screens.len() == 0 {
        Seq::empty()
    } else {
        duplicate_sheet_findings(screens.drop_last()) + placed_in(
            duplicate_names_from(screen_sheet_names(screens.last().items@), 0),
            screens.last().path@,
        )
    }
}

fn push_findings(out: &mut Vec<Diagnostic>, severity: Severity, code: &'static str, messages: Vec<String>, path: &String)
    ensures
        final(out)@.len() == old(out)@.len() + messages@.len(),
        forall|i: int| 0 <= i < old(out)@.len() ==> final(out)@[i] == old(out)@[i],
        forall|i: int| 0 <= i < messages@.len() ==> #[trigger] is_rule_diagnostic(
            final(out)@[old(out)@.len() + i],
            severity,
            code@,
            texts_of(messages@)[i],
            Some(path@),
        ),
{
    let ghost start = out@;
    let mut i: usize = 0;
    while i < messages.len()
        invariant
            0 <= i <= messages.len(),
            out@.len() == start.len() + i,
            forall|k: int| 0 <= k < start.len() ==> out@[k] == start[k],
            forall|k: int| 0 <= k < i ==> #[trigger] is_rule_diagnostic(out@[start.len() + k], severity, code@, messages@[k]@, Some(path@)),
        decreases messages.len() - i,
    {
        let d = rule_diagnostic(severity, code, messages[i].clone(), Some(path.clone()));
        out.push(d);
        i = i + 1;
    }
}

/// Findings placed after those already reported extend the report.
proof fn lemma_reports_append(
    before: Seq<Diagnostic>,
    after: Seq<Diagnostic>,
    severity: Severity,
    code: Seq<char>,
    found: Seq<(Seq<char>, Option<Seq<char>>)>,
    messages: Seq<Seq<char>>,
    path: Seq<char>,
)
    requires
        reports(before, severity, code, found),
        after.len() == before.len() + messages.len(),
        forall|i: int| 0 <= i < before.len() ==> after[i] == before[i],
        forall|i: int| 0 <= i < messages.len() ==> #[trigger] is_rule_diagnostic(after[before.len() + i], severity, code, messages[i], Some(path)),
    ensures
        reports(after, severity, code, found + placed_in(messages, path)),
{
    let added = placed_in(messages, path);
    assert forall|i: int| 0 <= i < after.len() implies #[trigger] is_rule_diagnostic(
        after[i],
        severity,
        code,
        (found + added)[i].0,
        (found + added)[i].1,
    ) by {
        if i < before.len() {
            assert((found + added)[i] == found[i]);
            assert(is_rule_diagnostic(before[i], severity, code, found[i].0, found[i].1));
        } else {
            let k = i - before.len();
            assert((found + added)[i] == added[k]);
            assert(is_rule_diagnostic(after[before.len() + k], severity, code, messages[k], Some(path)));
        }
    }
}

fn duplicate_message(name: &str) -> (r: String)
    ensures
        r@ == duplicate_name_message(name@),
{
    let mut m: Vec<char> = Vec::new();
    push_str(&mut m, "Duplicate sheet name: '");
    push_str(&mut m, name);
    push_str(&mut m, "'");
    seq_to_string(&m)
}

fn sheet_names(items: &Vec<Vec<ItemField>>) -> (r: Vec<Option<String>>)
    ensures
        opt_views(r@) == screen_sheet_names(items@),
{
    let mut out: Vec<Option<String>> = Vec::new();
    let mut i: usize = 0;
    while i < items.len()
        invariant
            0 <= i <= items.len(),
            opt_views(out@) == screen_sheet_names(items@.take(i as int)),
        decreases items.len() - i,
    {
        let name = match shown_sheet_name(&items[i]) {
            Some(n) => Some(n.to_owned()),
            None => None,
        };
        let ghost before = out@;
        out.push(name);
        assert(opt_views(out@) =~= opt_views(before).push(
            sheet_name_of(items@[i as int]@),
        ));
        assert(screen_sheet_names(items@.take(i + 1)) =~= screen_sheet_names(items@.take(i as int)).push(
            sheet_name_of(items@[i as int]@),
        ));
        i = i + 1;
    }
    assert(items@.take(items.len() as int) =~= items@);
    out
}

fn duplicate_names_in(names: &Vec<Option<String>>) -> (r: Vec<String>)
    ensures
        texts_of(r@) == duplicate_names_from(opt_views(names@), 0),
{
    let ghost nv = opt_views(names@);
    let mut out: Vec<String> = Vec::new();
    let mut i: usize = 0;
    while i < names.len()
        invariant
            0 <= i <= names.len(),
            nv == opt_views(names@),
            texts_of(out@) + duplicate_names_from(nv, i as int) == duplicate_names_from(nv, 0),
        decreases names.len() - i,
    {
        let ghost before = texts_of(out@);
        match &names[i] {
            Some(a) => {
                let av = str_to_chars(a.as_str());
                let mut j: usize = i + 1;
                while j < names.len()
                    invariant
                        i < j <= names.len(),
                        i < names.len(),
                        nv == opt_views(names@),
                        nv[i as int] == Some(a@),
                        av@ == a@,
                        texts_of(out@) + name_repeats(nv, a@, j as int) == before + name_repeats(nv, a@, i + 1),
                    decreases names.len() - j,
                {
                    let ghost mid = texts_of(out@);
                    match &names[j] {
                        Some(b) => {
                            if eq_ignore_case_str(&av, b.as_str()) {
                                out.push(duplicate_message(a.as_str()));
                                assert(texts_of(out@) =~= mid.push(duplicate_name_message(a@)));
                            }
                        },
                        None => {},
                    }
                    assert(name_repeats(nv, a@, j as int) =~= (match nv[j as int] {
                        Some(b) => if eq_ignore_ascii_case(a@, b) {
                            seq![duplicate_name_message(a@)]
                        } else {
                            Seq::empty()
                        },
                        None => Seq::empty(),
                    }) + name_repeats(nv, a@, j + 1));
                    j = j + 1;
                }
            },
            None => {},
        }
        assert(duplicate_names_from(nv, i as int) =~= (match nv[i as int] {
            Some(a) => name_repeats(nv, a, i + 1),
            None => Seq::empty(),
        }) + duplicate_names_from(nv, i + 1));
        i = i + 1;
    }
    out
}

/// Reports, screen by screen, each pair of sheets on one screen that show the same name
/// in any ASCII case, as an error placed in the screen's file.
pub fn check_duplicate_sheet_names(screens: &Vec<ScreenItems>) -> (r: Vec<Diagnostic>)
    ensures
        reports(r@, Severity::Error, "erc-duplicate-sheet-name"@, duplicate_sheet_findings(screens@)),
{
    let mut out: Vec<Diagnostic> = Vec::new();
    let mut s: usize = 0;
    while s < screens.len()
        invariant
            0 <= s <= screens.len(),
            reports(out@, Severity::Error, "erc-duplicate-sheet-name"@, duplicate_sheet_findings(screens@.take(s as int))),
        decreases screens.len() - s,
    {
        let screen = &screens[s];
        let names = sheet_names(&screen.items);
        let messages = duplicate_names_in(&names);
        let ghost before = out@;
        let ghost found = duplicate_sheet_findings(screens@.take(s as int));
        let ghost texts = texts_of(messages@);
        push_findings(&mut out, Severity::Error, "erc-duplicate-sheet-name", messages, &screen.path);
        proof {
            lemma_reports_append(before, out@, Severity::Error, "erc-duplicate-sheet-name"@, found, texts, screen.path@);
            assert(screens@.take(s + 1).drop_last() =~= screens@.take(s as int));
        }
        s = s + 1;
    }
    assert(screens@.take(screens.len() as int) =~= screens@);
    out
}

/// The message of a field name with surrounding whitespace.
pub open spec fn whitespace_message(key: Seq<char>) -> Seq<char> {
    "Field name has leading or trailing whitespace: '"@ + key + "'"@
}

/// The whitespace messages of the fields, in order: one per field whose name has
/// leading or trailing whitespace.
pub open spec fn padded_field_messages(fields: Seq<ItemField>) -> Seq<Seq<char>>
    decreases fields.len(),
{
    if fields.len() == 0 {
        Seq::empty()
    } else {
        let rest = padded_field_messages(fields.drop_last());
        let key = fields.last().key@;
        if key != trim(key) {
            rest.push(whitespace_message(key))
        } else {
            rest
        }
    }
}

/// The whitespace messages of the items' fields, item by item.
pub open spec fn padded_item_messages(items: Seq<Vec<ItemField>>) -> Seq<Seq<char>>
    decreases items.len(),
{
    if items.len() == 0 {
        Seq::empty()
    } else {
        padded_item_messages(items.drop_last()) + padded_field_messages(items.last()@)
    }
}

/// The whitespace findings of the screens, screen by screen.
pub open spec fn field_whitespace_findings(screens: Seq<ScreenItems>) -> Seq<(Seq<char>, Option<Seq<char>>)>
    decreases screens.len(),
{
    if screens.len() == 0 {
        Seq::empty()
    } else {
        field_whitespace_findings(screens.drop_last()) + placed_in(
            padded_item_messages(screens.last().items@),
            screens.last().path@,
        )
    }
}

fn padded_messages(items: &Vec<Vec<ItemField>>) -> (r: Vec<String>)
    ensures
        texts_of(r@) == padded_item_messages(items@),
{
    let mut out: Vec<String> = Vec::new();
    let mut i: usize = 0;
    while i < items.len()
        invariant
            0 <= i <= items.len(),
            texts_of(out@) == padded_item_messages(items@.take(i as int)),
        decreases items.len() - i,
    {
        let fields = &items[i];
        let ghost start = texts_of(out@);
        let mut j: usize = 0;
        while j < fields.len()
            invariant
                0 <= j <= fields.len(),
                texts_of(out@) == start + padded_field_messages(fields@.take(j as int)),
            decreases fields.len() - j,
        {
            let key = &fields[j].key;
            let trimmed = trim_string(key.as_str());
            let ghost mid = texts_of(out@);
            assert(fields@.take(j + 1).drop_last() =~= fields@.take(j as int));
            assert(fields@.take(j + 1).last() == fields@[j as int]);
            if *key != trimmed {
                let mut m: Vec<char> = Vec::new();
                push_str(&mut m, "Field name has leading or trailing whitespace: '");
                push_str(&mut m, key.as_str());
                push_str(&mut m, "'");
                out.push(seq_to_string(&m));
                assert(texts_of(out@) =~= mid.push(whitespace_message(key@)));
            }
            j = j + 1;
        }
        assert(fields@.take(fields.len() as int) =~= fields@);
        assert(items@.take(i + 1).drop_last() =~= items@.take(i as int));
        assert(items@.take(i + 1).last() == items@[i as int]);
        i = i + 1;
    }
    assert(items@.take(items.len() as int) =~= items@);
    out
}

/// Reports, screen by screen and item by item, each field whose name has leading or
/// trailing whitespace, as a warning placed in the screen's file.
pub fn check_field_name_whitespace(screens: &Vec<ScreenItems>) -> (r: Vec<Diagnostic>)
    ensures
        reports(r@, Severity::Warning, "erc-field-name-whitespace"@, field_whitespace_findings(screens@)),
{
    let mut out: Vec<Diagnostic> = Vec::new();
    let mut s: usize = 0;
    while s < screens.len()
        invariant
            0 <= s <= screens.len(),
            reports(out@, Severity::Warning, "erc-field-name-whitespace"@, field_whitespace_findings(screens@.take(s as int))),
        decreases screens.len() - s,
    {
        let screen = &screens[s];
        let messages = padded_messages(&screen.items);
        let ghost before = out@;
        let ghost found = field_whitespace_findings(screens@.take(s as int));
        let ghost texts = texts_of(messages@);
        push_findings(&mut out, Severity::Warning, "erc-field-name-whitespace", messages, &screen.path);
        proof {
            lemma_reports_append(before, out@, Severity::Warning, "erc-field-name-whitespace"@, found, texts, screen.path@);
            assert(screens@.take(s + 1).drop_last() =~= screens@.take(s as int));
        }
        s = s + 1;
    }
    assert(screens@.take(screens.len() as int) =~= screens@);
    out
}

/// A placed symbol as the reference checks see it: the file it sits in, its reference
/// and footprint as shown, its unit, and how many distinct units its library symbol has
/// (`None` without a library symbol).
#[derive(Debug, Clone)]
pub struct SymbolOccurrence {
    pub schematic_path: String,
    pub reference: String,
    pub footprint: String,
    pub unit: Option<i32>,
    pub lib_unit_count: Option<usize>,
}

/// The references of the occurrences, in order.
pub open spec fn reference_keys(occ: Seq<SymbolOccurrence>) -> Seq<Seq<char>> {
    occ.map_values(|o: SymbolOccurrence| o.reference@)
}

/// The first library unit count among the group's occurrences from the `k`-th on.
pub open spec fn first_unit_count(occ: Seq<SymbolOccurrence>, idx: Seq<usize>, k: int) -> Option<usize>
    decreases idx.len() - k,
{
    if k < 0 || k >= idx.len() {
        None
    } else {
        match occ[idx[k] as int].lib_unit_count {
            Some(c) => Some(c),
            None => first_unit_count(occ, idx, k + 1),
        }
    }
}

/// The distinct units of the first `n` occurrences of the group, in the order they first
/// appear.
pub open spec fn distinct_units(occ: Seq<SymbolOccurrence>, idx: Seq<usize>, n: int) -> Seq<i32>
    decreases n,
{
    if n <= 0 {
        Seq::empty()
    } else {
        let d = distinct_units(occ, idx, n - 1);
        match occ[idx[n - 1] as int].unit {
            Some(u) => if d.contains(u) {
                d
            } else {
                d.push(u)
            },
            None => d,
        }
    }
}

/// The group lacks units: its library symbol has more than one unit and fewer distinct
/// units are placed.
pub open spec fn units_missing(occ: Seq<SymbolOccurrence>, idx: Seq<usize>) -> bool {
    match first_unit_count(occ, idx, 0) {
        Some(c) => c > 1 && distinct_units(occ, idx, idx.len() as int).len() < c,
        None => false,
    }
}

/// The message of a reference with missing units.
pub open spec fn missing_units_message(reference: Seq<char>) -> Seq<char> {
    "Missing symbol units for reference '"@ + reference + "'"@
}

/// The missing-unit findings of the first `n` groups, each placed in the file of the
/// group's first occurrence.
pub open spec fn missing_unit_findings(occ: Seq<SymbolOccurrence>, g: Seq<(Seq<char>, Seq<usize>)>, n: int) -> Seq<(Seq<char>, Option<Seq<char>>)>
    decreases n,
{
    if n <= 0 {
        Seq::empty()
    } else {
        let prev = missing_unit_findings(occ, g, n - 1);
        let (reference, idx) = g[n - 1];
        if units_missing(occ, idx) {
            prev.push((missing_units_message(reference), Some(occ[idx[0] as int].schematic_path@)))
        } else {
            prev
        }
    }
}

fn reference_list(occurrences: &Vec<SymbolOccurrence>) -> (r: Vec<String>)
    ensures
        r.deep_view() == reference_keys(occurrences@),
{
    let mut keys: Vec<String> = Vec::new();
    let mut i: usize = 0;
    while i < occurrences.len()
        invariant
            0 <= i <= occurrences.len(),
            keys.deep_view() == reference_keys(occurrences@.take(i as int)),
        decreases occurrences.len() - i,
    {
        let ghost before = keys.deep_view();
        keys.push(occurrences[i].reference.clone());
        assert(keys.deep_view() =~= before.push(occurrences@[i as int].reference@));
        assert(reference_keys(occurrences@.take(i + 1)) =~= reference_keys(occurrences@.take(i as int)).push(
            occurrences@[i as int].reference@,
        ));
        i = i + 1;
    }
    assert(occurrences@.take(occurrences.len() as int) =~= occurrences@);
    keys
}

fn contains_unit(units: &Vec<i32>, u: i32) -> (r: bool)
    ensures
        r == units@.contains(u),
{
    let mut i: usize = 0;
    while i < units.len()
        invariant
            0 <= i <= units.len(),
            forall|k: int| 0 <= k < i ==> units@[k] != u,
        decreases units.len() - i,
    {
        if units[i] == u {
            return true;
        }
        i = i + 1;
    }
    false
}

fn first_lib_unit_count(occurrences: &Vec<SymbolOccurrence>, idx: &Vec<usize>) -> (r: Option<usize>)
    requires
        forall|m: int| 0 <= m < idx@.len() ==> #[trigger] idx@[m] < occurrences@.len(),
    ensures
        r == first_unit_count(occurrences@, idx@, 0),
{
    let mut k: usize = 0;
    while k < idx.len()
        invariant
            0 <= k <= idx.len(),
            forall|m: int| 0 <= m < idx@.len() ==> #[trigger] idx@[m] < occurrences@.len(),
            first_unit_count(occurrences@, idx@, k as int) == first_unit_count(occurrences@, idx@, 0),
        decreases idx.len() - k,
    {
        assert(idx@[k as int] < occurrences@.len());
        match occurrences[idx[k]].lib_unit_count {
            Some(c) => {
                return Some(c);
            },
            None => {},
        }
        k = k + 1;
    }
    None
}

fn group_units_missing(occurrences: &Vec<SymbolOccurrence>, idx: &Vec<usize>) -> (r: bool)
    requires
        forall|m: int| 0 <= m < idx@.len() ==> #[trigger] idx@[m] < occurrences@.len(),
    ensures
        r == units_missing(occurrences@, idx@),
{
    let ghost occ = occurrences@;
    let c = match first_lib_unit_count(occurrences, idx) {
        Some(c) => c,
        None => {
            return false;
        },
    };
    if c <= 1 {
        return false;
    }
    let mut present: Vec<i32> = Vec::new();
    let mut m: usize = 0;
    while m < idx.len()
        invariant
            0 <= m <= idx.len(),
            occ == occurrences@,
            forall|q: int| 0 <= q < idx@.len() ==> #[trigger] idx@[q] < occurrences@.len(),
            present@ == distinct_units(occ, idx@, m as int),
        decreases idx.len() - m,
    {
        assert(idx@[m as int] < occurrences@.len());
        match occurrences[idx[m]].unit {
            Some(u) => {
                if !contains_unit(&present, u) {
                    present.push(u);
                }
            },
            None => {},
        }
        m = m + 1;
    }
    present.len() < c
}

fn reference_message(prefix: &str, reference: &str) -> (r: String)
    ensures
        r@ == prefix@ + reference@ + "'"@,
{
    let mut v: Vec<char> = Vec::new();
    push_str(&mut v, prefix);
    push_str(&mut v, reference);
    push_str(&mut v, "'");
    seq_to_string(&v)
}

/// Reports each reference, in increasing text order, whose library symbol has more than
/// one unit while fewer distinct units are placed, as an error placed in the file of the
/// reference's first occurrence.
pub fn check_missing_units(occurrences: &Vec<SymbolOccurrence>) -> (r: Vec<Diagnostic>)
    ensures
        exists|g: Seq<(Seq<char>, Seq<usize>)>|
            #[trigger] is_key_grouping(reference_keys(occurrences@), g) && reports(
                r@,
                Severity::Error,
                "erc-missing-units"@,
                missing_unit_findings(occurrences@, g, g.len() as int),
            ),
        forall|g: Seq<(Seq<char>, Seq<usize>)>|
            #[trigger] is_key_grouping(reference_keys(occurrences@), g) ==> reports(
                r@,
                Severity::Error,
                "erc-missing-units"@,
                missing_unit_findings(occurrences@, g, g.len() as int),
            ),
{
    let ghost occ = occurrences@;
    let keys = reference_list(occurrences);
    let groups = group_by_key(&keys);
    let ghost g = groups.deep_view();
    let mut out: Vec<Diagnostic> = Vec::new();
    let mut k: usize = 0;
    while k < groups.len()
        invariant
            0 <= k <= groups.len(),
            occ == occurrences@,
            g == groups.deep_view(),
            keys.deep_view() == reference_keys(occ),
            is_key_grouping(reference_keys(occ), g),
            reports(out@, Severity::Error, "erc-missing-units"@, missing_unit_findings(occ, g, k as int)),
        decreases groups.len() - k,
    {
        let reference = &groups[k].0;
        let idx = &groups[k].1;
        assert(idx@ == g[k as int].1) by {
            assert(idx.deep_view() =~= idx@);
        }
        assert(reference@ == g[k as int].0);
        proof {
            assert(reference_keys(occ).len() == occurrences.len());
            lemma_positions_bounded(reference_keys(occ), g[k as int].0, occ.len() as int);
        }
        let ghost found = missing_unit_findings(occ, g, k as int);
        if group_units_missing(occurrences, idx) {
            assert(idx@.len() > 0);
            let first = idx[0];
            let message = reference_message("Missing symbol units for reference '", reference.as_str());
            let d = rule_diagnostic(Severity::Error, "erc-missing-units", message, Some(occurrences[first].schematic_path.clone()));
            let ghost before = out@;
            out.push(d);
            proof {
                reveal_strlit("Missing symbol units for reference '");
                let added = seq![(missing_units_message(g[k as int].0), Some(occ[idx@[0] as int].schematic_path@))];
                assert(missing_unit_findings(occ, g, k + 1) =~= found + added);
                assert forall|i: int| 0 <= i < out@.len() implies #[trigger] is_rule_diagnostic(
                    out@[i],
                    Severity::Error,
                    "erc-missing-units"@,
                    (found + added)[i].0,
                    (found + added)[i].1,
                ) by {
                    if i < before.len() {
                        assert(out@[i] == before[i]);
                        assert((found + added)[i] == found[i]);
                        assert(is_rule_diagnostic(before[i], Severity::Error, "erc-missing-units"@, found[i].0, found[i].1));
                    }
                }
            }
        }
        k = k + 1;
    }
    proof {
        assert forall|g2: Seq<(Seq<char>, Seq<usize>)>| #[trigger] is_key_grouping(reference_keys(occ), g2) implies reports(
            out@,
            Severity::Error,
            "erc-missing-units"@,
            missing_unit_findings(occ, g2, g2.len() as int),
        ) by {
            assert(reference_keys(occ).len() == occurrences.len());
            law_grouping_unique(reference_keys(occ), g, g2);
        }
    }
    out
}

/// The position in the group, from the `k`-th on, of the first occurrence with a
/// footprint, or the group's size.
pub open spec fn footprint_from(occ: Seq<SymbolOccurrence>, idx: Seq<usize>, k: int) -> int
    decreases idx.len() - k,
{
    if k < 0 || k >= idx.len() {
        idx.len() as int
    } else if occ[idx[k] as int].footprint@.len() > 0 {
        k
    } else {
        footprint_from(occ, idx, k + 1)
    }
}

/// The files of the group's occurrences among the first `n`, after its first, whose
/// footprint is set and differs from that of the group's `f`-th occurrence.
pub open spec fn mismatch_paths(occ: Seq<SymbolOccurrence>, idx: Seq<usize>, f: int, n: int) -> Seq<Seq<char>>
    decreases n,
{
    if n <= 1 {
        Seq::empty()
    } else {
        let prev = mismatch_paths(occ, idx, f, n - 1);
        let o = occ[idx[n - 1] as int];
        if o.footprint@.len() > 0 && o.footprint@ != occ[idx[f] as int].footprint@ {
            prev.push(o.schematic_path@)
        } else {
            prev
        }
    }
}

/// The message of a reference whose units carry different footprints.
pub open spec fn footprint_message(reference: Seq<char>) -> Seq<char> {
    "Different footprints assigned to reference '"@ + reference + "'"@
}

/// One message in each of the files.
pub open spec fn message_in(paths: Seq<Seq<char>>, message: Seq<char>) -> Seq<(Seq<char>, Option<Seq<char>>)> {
    paths.map_values(|p: Seq<char>| (message, Some(p)))
}

/// The footprint findings of the first `n` groups: for a group with some footprint set,
/// one per later occurrence whose footprint is set and differs from the first one set.
pub open spec fn footprint_findings(occ: Seq<SymbolOccurrence>, g: Seq<(Seq<char>, Seq<usize>)>, n: int) -> Seq<(Seq<char>, Option<Seq<char>>)>
    decreases n,
{
    if n <= 0 {
        Seq::empty()
    } else {
        let prev = footprint_findings(occ, g, n - 1);
        let (reference, idx) = g[n - 1];
        let f = footprint_from(occ, idx, 0);
        if f < idx.len() {
            prev + message_in(mismatch_paths(occ, idx, f, idx.len() as int), footprint_message(reference))
        } else {
            prev
        }
    }
}

fn first_footprint(occurrences: &Vec<SymbolOccurrence>, idx: &Vec<usize>) -> (r: usize)
    requires
        forall|m: int| 0 <= m < idx@.len() ==> #[trigger] idx@[m] < occurrences@.len(),
    ensures
        r == footprint_from(occurrences@, idx@, 0),
        r <= idx@.len(),
{
    let mut k: usize = 0;
    while k < idx.len()
        invariant
            0 <= k <= idx.len(),
            forall|m: int| 0 <= m < idx@.len() ==> #[trigger] idx@[m] < occurrences@.len(),
            footprint_from(occurrences@, idx@, k as int) == footprint_from(occurrences@, idx@, 0),
        decreases idx.len() - k,
    {
        assert(idx@[k as int] < occurrences@.len());
        if !occurrences[idx[k]].footprint.as_str().is_empty() {
            return k;
        }
        k = k + 1;
    }
    k
}

/// Reports, reference by reference in increasing text order, each occurrence after the
/// first whose footprint is set and differs from the first footprint set for the
/// reference, as an error placed in the occurrence's file.
pub fn check_multiunit_footprints(occurrences: &Vec<SymbolOccurrence>) -> (r: Vec<Diagnostic>)
    ensures
        exists|g: Seq<(Seq<char>, Seq<usize>)>|
            #[trigger] is_key_grouping(reference_keys(occurrences@), g) && reports(
                r@,
                Severity::Error,
                "erc-different-unit-footprint"@,
                footprint_findings(occurrences@, g, g.len() as int),
            ),
        forall|g: Seq<(Seq<char>, Seq<usize>)>|
            #[trigger] is_key_grouping(reference_keys(occurrences@), g) ==> reports(
                r@,
                Severity::Error,
                "erc-different-unit-footprint"@,
                footprint_findings(occurrences@, g, g.len() as int),
            ),
{
    let ghost occ = occurrences@;
    let keys = reference_list(occurrences);
    let groups = group_by_key(&keys);
    let ghost g = groups.deep_view();
    let mut out: Vec<Diagnostic> = Vec::new();
    let mut k: usize = 0;
    while k < groups.len()
        invariant
            0 <= k <= groups.len(),
            occ == occurrences@,
            g == groups.deep_view(),
            is_key_grouping(reference_keys(occ), g),
            reports(out@, Severity::Error, "erc-different-unit-footprint"@, footprint_findings(occ, g, k as int)),
        decreases groups.len() - k,
    {
        let reference = &groups[k].0;
        let idx = &groups[k].1;
        assert(idx@ == g[k as int].1) by {
            assert(idx.deep_view() =~= idx@);
        }
        assert(reference@ == g[k as int].0);
        proof {
            assert(reference_keys(occ).len() == occurrences.len());
            lemma_positions_bounded(reference_keys(occ), g[k as int].0, occ.len() as int);
        }
        let ghost found = footprint_findings(occ, g, k as int);
        let f = first_footprint(occurrences, idx);
        if f < idx.len() {
            let message = reference_message("Different footprints assigned to reference '", reference.as_str());
            proof {
                reveal_strlit("Different footprints assigned to reference '");
            }
            assert(message@ == footprint_message(g[k as int].0));
            let mut m: usize = 1;
            while m < idx.len()
                invariant
                    1 <= m <= idx.len(),
                    f < idx.len(),
                    occ == occurrences@,
                    idx@ == g[k as int].1,
                    message@ == footprint_message(g[k as int].0),
                    forall|q: int| 0 <= q < idx@.len() ==> #[trigger] idx@[q] < occurrences@.len(),
                    reports(
                        out@,
                        Severity::Error,
                        "erc-different-unit-footprint"@,
                        found + message_in(mismatch_paths(occ, idx@, f as int, m as int), message@),
                    ),
                decreases idx.len() - m,
            {
                assert(idx@[m as int] < occurrences@.len());
                assert(idx@[f as int] < occurrences@.len());
                let o = &occurrences[idx[m]];
                let base = &occurrences[idx[f]];
                let ghost prior = found + message_in(mismatch_paths(occ, idx@, f as int, m as int), message@);
                if !o.footprint.as_str().is_empty() && o.footprint != base.footprint {
                    let d = rule_diagnostic(Severity::Error, "erc-different-unit-footprint", message.clone(), Some(o.schematic_path.clone()));
                    let ghost before = out@;
                    out.push(d);
                    proof {
                        let next = found + message_in(mismatch_paths(occ, idx@, f as int, m + 1), message@);
                        assert(mismatch_paths(occ, idx@, f as int, m + 1) == mismatch_paths(occ, idx@, f as int, m as int).push(o.schematic_path@));
                        assert(next =~= prior.push((message@, Some(o.schematic_path@))));
                        assert forall|i: int| 0 <= i < out@.len() implies #[trigger] is_rule_diagnostic(
                            out@[i],
                            Severity::Error,
                            "erc-different-unit-footprint"@,
                            next[i].0,
                            next[i].1,
                        ) by {
                            if i < before.len() {
                                assert(out@[i] == before[i]);
                                assert(next[i] == prior[i]);
                                assert(is_rule_diagnostic(before[i], Severity::Error, "erc-different-unit-footprint"@, prior[i].0, prior[i].1));
                            }
                        }
                    }
                } else {
                    assert(mismatch_paths(occ, idx@, f as int, m + 1) == mismatch_paths(occ, idx@, f as int, m as int));
                }
                m = m + 1;
            }
            assert(footprint_findings(occ, g, k + 1) == found + message_in(mismatch_paths(occ, idx@, f as int, idx@.len() as int), message@));
        } else {
            assert(footprint_findings(occ, g, k + 1) == found);
        }
        k = k + 1;
    }
    proof {
        assert forall|g2: Seq<(Seq<char>, Seq<usize>)>| #[trigger] is_key_grouping(reference_keys(occ), g2) implies reports(
            out@,
            Severity::Error,
            "erc-different-unit-footprint"@,
            footprint_findings(occ, g2, g2.len() as int),
        ) by {
            assert(reference_keys(occ).len() == occurrences.len());
            law_grouping_unique(reference_keys(occ), g, g2);
        }
    }
    out
}

/// A placed symbol as the footprint-filter check sees it: the file it sits in, the text
/// its footprint field shows (`None` without a footprint field) and its library symbol's
/// footprint filters (empty without a library symbol).
#[derive(Debug, Clone)]
pub struct FootprintCheck {
    pub schematic_path: String,
    pub footprint: Option<String>,
    pub fp_filters: Vec<String>,
}

/// The text with ASCII letters lowered.
pub open spec fn lower_text(s: Seq<char>) -> Seq<char> {
    s.map_values(|c: char| lower_ascii(c))
}

/// A footprint filter accepts a footprint, both lowered: a filter with a library part
/// (`:`) is matched against the whole footprint, one without against its name.
pub open spec fn filter_accepts(filter: Seq<char>, lower_id: Seq<char>, item: Seq<char>) -> bool {
    let f = lower_text(filter);
    if has_char(f, ':') {
        glob_at(encode_utf8(f), encode_utf8(lower_id), 0, 0)
    } else {
        glob_at(encode_utf8(f), encode_utf8(item), 0, 0)
    }
}

/// The message of a footprint that no filter accepts.
pub open spec fn filter_message(item: Seq<char>, filters: Seq<Seq<char>>) -> Seq<char> {
    "Assigned footprint ("@ + item + ") doesn't match footprint filters ("@ + join_with(filters, " "@) + ")"@
}

/// What the footprint-filter check says of a symbol: a message where the symbol has
/// filters and a footprint of the form `library:name` that no filter accepts.
pub open spec fn filter_finding(footprint: Option<Seq<char>>, filters: Seq<Seq<char>>) -> Option<Seq<char>> {
    match footprint {
        Some(fp) => {
            let lower_id = lower_text(fp);
            let c = last_index_of(lower_id, ':');
            if filters.len() == 0 || c < 0 {
                None
            } else {
                let item = lower_id.subrange(c + 1, lower_id.len() as int);
                if exists|i: int| 0 <= i < filters.len() && filter_accepts(#[trigger] filters[i], lower_id, item) {
                    None
                } else {
                    Some(filter_message(item, filters))
                }
            }
        },
        None => None,
    }
}

/// The footprint-filter findings of the first `n` symbols.
pub open spec fn filter_findings(entries: Seq<FootprintCheck>, n: int) -> Seq<(Seq<char>, Option<Seq<char>>)>
    decreases n,
{
    if n <= 0 {
        Seq::empty()
    } else {
        let prev = filter_findings(entries, n - 1);
        let e = entries[n - 1];
        match filter_finding(opt_view(e.footprint), e.fp_filters.deep_view()) {
            Some(m) => prev.push((m, Some(e.schematic_path@))),
            None => prev,
        }
    }
}

fn lower_string(s: &str) -> (r: Vec<char>)
    ensures
        r@ == lower_text(s@),
{
    let v = str_to_chars(s);
    let mut out: Vec<char> = Vec::new();
    let mut i: usize = 0;
    while i < v.len()
        invariant
            0 <= i <= v.len(),
            v@ == s@,
            out@ == lower_text(v@.take(i as int)),
        decreases v.len() - i,
    {
        out.push(to_ascii_lowercase(v[i]));
        assert(out@ =~= lower_text(v@.take(i + 1)));
        i = i + 1;
    }
    assert(v@.take(v.len() as int) =~= v@);
    out
}

fn last_index(v: &Vec<char>, c: char) -> (r: Option<usize>)
    ensures
        match r {
            Some(k) => last_index_of(v@, c) == k as int,
            None => last_index_of(v@, c) < 0,
        },
{
    let mut k: usize = v.len();
    assert(v@.take(k as int) =~= v@);
    while k > 0
        invariant
            0 <= k <= v.len(),
            last_index_of(v@, c) == last_index_of(v@.take(k as int), c),
        decreases k,
    {
        assert(v@.take(k as int).drop_last() =~= v@.take(k - 1));
        assert(v@.take(k as int).last() == v@[k - 1]);
        if v[k - 1] == c {
            return Some(k - 1);
        }
        k = k - 1;
    }
    assert(v@.take(0).len() == 0);
    None
}

fn symbol_filter_message(footprint: &Option<String>, filters: &Vec<String>) -> (r: Option<String>)
    ensures
        opt_view(r) == filter_finding(opt_view(*footprint), filters.deep_view()),
{
    match footprint {
        Some(fp) => footprint_filter_message(fp.as_str(), filters),
        None => None,
    }
}

fn footprint_filter_message(fp: &str, filters: &Vec<String>) -> (r: Option<String>)
    ensures
        opt_view(r) == filter_finding(Some(fp@), filters.deep_view()),
{
    if filters.len() == 0 {
        return None;
    }
    let lower_id = lower_string(fp);
    let c = match last_index(&lower_id, ':') {
        Some(c) => c,
        None => {
            return None;
        },
    };
    proof {
        lemma_last_index_of(lower_id@, ':');
    }
    let ghost fv = filters.deep_view();
    let ghost item_view = lower_id@.subrange(c + 1, lower_id@.len() as int);
    let lower_str = seq_to_string(&lower_id);
    let item = chars_to_string(&lower_id, c + 1, lower_id.len());
    let mut i: usize = 0;
    while i < filters.len()
        invariant
            0 <= i <= filters.len(),
            fv == filters.deep_view(),
            fv.len() > 0,
            lower_id@ == lower_text(fp@),
            last_index_of(lower_id@, ':') == c as int,
            c < lower_id@.len(),
            item_view == lower_id@.subrange(c + 1, lower_id@.len() as int),
            lower_str@ == lower_id@,
            item@ == item_view,
            forall|j: int| 0 <= j < i ==> !#[trigger] filter_accepts(fv[j], lower_id@, item_view),
        decreases filters.len() - i,
    {
        let f = lower_string(filters[i].as_str());
        let fs = seq_to_string(&f);
        assert(fv[i as int] == filters@[i as int]@);
        let accepted = if has_char_exec(&f, ':') {
            wildcard_matches(fs.as_str(), lower_str.as_str())
        } else {
            wildcard_matches(fs.as_str(), item.as_str())
        };
        if accepted {
            assert(filter_accepts(fv[i as int], lower_id@, item_view));
            assert(exists|j: int| 0 <= j < fv.len() && filter_accepts(#[trigger] fv[j], lower_id@, item_view));
            return None;
        }
        i = i + 1;
    }
    let mut m: Vec<char> = Vec::new();
    push_str(&mut m, "Assigned footprint (");
    push_str(&mut m, item.as_str());
    push_str(&mut m, ") doesn't match footprint filters (");
    let joined = join_strings(filters, " ");
    push_str(&mut m, joined.as_str());
    push_str(&mut m, ")");
    Some(seq_to_string(&m))
}

/// Reports, symbol by symbol, each footprint of the form `library:name` that none of its
/// library symbol's footprint filters accepts, as an error placed in the symbol's file.
pub fn check_footprint_filters(entries: &Vec<FootprintCheck>) -> (r: Vec<Diagnostic>)
    ensures
        reports(r@, Severity::Error, "erc-footprint-link-issues"@, filter_findings(entries@, entries@.len() as int)),
{
    let mut out: Vec<Diagnostic> = Vec::new();
    let mut i: usize = 0;
    while i < entries.len()
        invariant
            0 <= i <= entries.len(),
            reports(out@, Severity::Error, "erc-footprint-link-issues"@, filter_findings(entries@, i as int)),
        decreases entries.len() - i,
    {
        let e = &entries[i];
        let ghost found = filter_findings(entries@, i as int);
        match symbol_filter_message(&e.footprint, &e.fp_filters) {
            Some(message) => {
                let ghost before = out@;
                let ghost text = message@;
                out.push(rule_diagnostic(Severity::Error, "erc-footprint-link-issues", message, Some(e.schematic_path.clone())));
                proof {
                    let next = found.push((text, Some(e.schematic_path@)));
                    assert forall|k: int| 0 <= k < out@.len() implies #[trigger] is_rule_diagnostic(
                        out@[k],
                        Severity::Error,
                        "erc-footprint-link-issues"@,
                        next[k].0,
                        next[k].1,
                    ) by {
                        if k < before.len() {
                            assert(out@[k] == before[k]);
                            assert(is_rule_diagnostic(before[k], Severity::Error, "erc-footprint-link-issues"@, found[k].0, found[k].1));
                        }
                    }
                }
            },
            None => {},
        }
        i = i + 1;
    }
    out
}

/// A symbol pin as the stacked-pin check sees it: its number, where it has one, and the
/// file its symbol sits in.
#[derive(Debug, Clone)]
pub struct InventoryPin {
    pub number: Option<String>,
    pub schematic_path: String,
}

/// The position of the first pin from `i` on whose number looks like stacked-pin
/// notation but is not valid, or the number of pins.
pub open spec fn bad_stacked_from(pins: Seq<InventoryPin>, i: int) -> int
    decreases pins.len() - i,
{
    if i < 0 || i >= pins.len() {
        pins.len() as int
    } else if pins[i].number matches Some(n) && !stacked_valid(n@) {
        i
    } else {
        bad_stacked_from(pins, i + 1)
    }
}

/// The message of an invalid stacked pin number.
pub open spec fn stacked_message(number: Seq<char>) -> Seq<char> {
    "Pin number resembles stacked pin notation but is invalid: '"@ + number + "'"@
}

/// The stacked-pin findings of the first `n` symbols: at most one per symbol, for its
/// first pin whose number is invalid stacked-pin notation, placed in that pin's file.
pub open spec fn stacked_findings(symbols: Seq<Vec<InventoryPin>>, n: int) -> Seq<(Seq<char>, Option<Seq<char>>)>
    decreases n,
{
    if n <= 0 {
        Seq::empty()
    } else {
        let prev = stacked_findings(symbols, n - 1);
        let pins = symbols[n - 1]@;
        let k = bad_stacked_from(pins, 0);
        if 0 <= k < pins.len() {
            prev.push((stacked_message(pins[k].number.unwrap()@), Some(pins[k].schematic_path@)))
        } else {
            prev
        }
    }
}

proof fn lemma_bad_stacked_from(pins: Seq<InventoryPin>, i: int)
    requires
        0 <= i <= pins.len(),
    ensures
        i <= bad_stacked_from(pins, i) <= pins.len(),
        bad_stacked_from(pins, i) < pins.len() ==> pins[bad_stacked_from(pins, i)].number is Some,
    decreases pins.len() - i,
{
    if i < pins.len() && !(pins[i].number matches Some(n) && !stacked_valid(n@)) {
        lemma_bad_stacked_from(pins, i + 1);
    }
}

fn first_bad_stacked(pins: &Vec<InventoryPin>) -> (r: usize)
    ensures
        r == bad_stacked_from(pins@, 0),
{
    let mut i: usize = 0;
    while i < pins.len()
        invariant
            0 <= i <= pins.len(),
            bad_stacked_from(pins@, i as int) == bad_stacked_from(pins@, 0),
        decreases pins.len() - i,
    {
        match &pins[i].number {
            Some(number) => {
                if !stacked_pin_notation_is_valid(number.as_str()) {
                    return i;
                }
            },
            None => {},
        }
        i = i + 1;
    }
    i
}

/// Reports, symbol by symbol, the first pin number that looks like stacked-pin notation
/// but is not valid, as a warning placed in the pin's file.
pub fn check_stacked_pin_notation(symbols: &Vec<Vec<InventoryPin>>) -> (r: Vec<Diagnostic>)
    ensures
        reports(r@, Severity::Warning, "erc-stacked-pin-syntax"@, stacked_findings(symbols@, symbols@.len() as int)),
{
    let mut out: Vec<Diagnostic> = Vec::new();
    let mut s: usize = 0;
    while s < symbols.len()
        invariant
            0 <= s <= symbols.len(),
            reports(out@, Severity::Warning, "erc-stacked-pin-syntax"@, stacked_findings(symbols@, s as int)),
        decreases symbols.len() - s,
    {
        let pins = &symbols[s];
        let ghost found = stacked_findings(symbols@, s as int);
        let i = first_bad_stacked(pins);
        if i < pins.len() {
            proof {
                lemma_bad_stacked_from(pins@, 0);
            }
            let number = match &pins[i].number {
                Some(n) => n,
                None => {
                    proof {
                        assert(false);
                    }
                    return out;
                },
            };
            let mut m: Vec<char> = Vec::new();
            push_str(&mut m, "Pin number resembles stacked pin notation but is invalid: '");
            push_str(&mut m, number.as_str());
            push_str(&mut m, "'");
            let ghost before = out@;
            let ghost text = m@;
            out.push(rule_diagnostic(Severity::Warning, "erc-stacked-pin-syntax", seq_to_string(&m), Some(pins[i].schematic_path.clone())));
            proof {
                let next = found.push((text, Some(pins@[i as int].schematic_path@)));
                assert forall|k: int| 0 <= k < out@.len() implies #[trigger] is_rule_diagnostic(
                    out@[k],
                    Severity::Warning,
                    "erc-stacked-pin-syntax"@,
                    next[k].0,
                    next[k].1,
                ) by {
                    if k < before.len() {
                        assert(out@[k] == before[k]);
                        assert(is_rule_diagnostic(before[k], Severity::Warning, "erc-stacked-pin-syntax"@, found[k].0, found[k].1));
                    }
                }
            }
        }
        s = s + 1;
    }
    out
}

/// The texts of one screen that can hold text assertions, in the order the check visits
/// them (each item's field texts, a symbol's library texts after its fields, free texts
/// and text boxes as they come), with the file the screen was read from. The texts of the
/// current drawing sheet form one more such list, placed in the current screen's file.
#[derive(Debug, Clone)]
pub struct ScreenTexts {
    pub path: String,
    pub texts: Vec<String>,
}

/// The text assertions of the texts, in order: severity, message and file.
pub open spec fn assertions_in(texts: Seq<String>, path: Seq<char>) -> Seq<(Severity, Seq<char>, Seq<char>)>
    decreases texts.len(),
{
    if texts.len() == 0 {
        Seq::empty()
    } else {
        let rest = assertions_in(texts.drop_last(), path);
        match text_assertion(texts.last()@) {
            Some(a) => rest.push((a.0, a.1, path)),
            None => rest,
        }
    }
}

/// The text assertions of the screens, screen by screen.
pub open spec fn assertion_findings(screens: Seq<ScreenTexts>) -> Seq<(Severity, Seq<char>, Seq<char>)>
    decreases screens.len(),
{
    if screens.len() == 0 {
        Seq::empty()
    } else {
        assertion_findings(screens.drop_last()) + assertions_in(screens.last().texts@, screens.last().path@)
    }
}

/// The diagnostics report the text assertions, in order.
pub open spec fn reports_assertions(ds: Seq<Diagnostic>, findings: Seq<(Severity, Seq<char>, Seq<char>)>) -> bool {
    &&& ds.len() == findings.len()
    &&& forall|i: int|
        0 <= i < ds.len() ==> #[trigger] is_rule_diagnostic(
            ds[i],
            findings[i].0,
            assertion_code(findings[i].0),
            findings[i].1,
            Some(findings[i].2),
        )
}

/// Reports every `${ERC_WARNING ...}` and `${ERC_ERROR ...}` assertion among the screens'
/// texts, screen by screen and in each screen's order, with the assertion's severity and
/// message, placed in the screen's file.
pub fn check_text_assertions(screens: &Vec<ScreenTexts>) -> (r: Vec<Diagnostic>)
    ensures
        reports_assertions(r@, assertion_findings(screens@)),
{
    let mut out: Vec<Diagnostic> = Vec::new();
    let mut s: usize = 0;
    while s < screens.len()
        invariant
            0 <= s <= screens.len(),
            reports_assertions(out@, assertion_findings(screens@.take(s as int))),
        decreases screens.len() - s,
    {
        let screen = &screens[s];
        let ghost found = assertion_findings(screens@.take(s as int));
        let mut t: usize = 0;
        while t < screen.texts.len()
            invariant
                0 <= t <= screen.texts.len(),
                screen == &screens@[s as int],
                reports_assertions(out@, found + assertions_in(screen.texts@.take(t as int), screen.path@)),
            decreases screen.texts.len() - t,
        {
            let ghost prior = found + assertions_in(screen.texts@.take(t as int), screen.path@);
            assert(screen.texts@.take(t + 1).drop_last() =~= screen.texts@.take(t as int));
            assert(screen.texts@.take(t + 1).last() == screen.texts@[t as int]);
            match parse_text_assertion(screen.texts[t].as_str()) {
                Some((severity, message)) => {
                    let ghost text = message@;
                    let ghost before = out@;
                    out.push(text_assertion_diagnostic(screen.path.clone(), severity, message));
                    proof {
                        let next = prior.push((severity, text, screen.path@));
                        assert(found + assertions_in(screen.texts@.take(t + 1), screen.path@) =~= next);
                        assert forall|i: int| 0 <= i < out@.len() implies #[trigger] is_rule_diagnostic(
                            out@[i],
                            next[i].0,
                            assertion_code(next[i].0),
                            next[i].1,
                            Some(next[i].2),
                        ) by {
                            if i < before.len() {
                                assert(out@[i] == before[i]);
                                assert(is_rule_diagnostic(before[i], prior[i].0, assertion_code(prior[i].0), prior[i].1, Some(prior[i].2)));
                            }
                        }
                    }
                },
                None => {
                    assert(found + assertions_in(screen.texts@.take(t + 1), screen.path@) =~= prior);
                },
            }
            t = t + 1;
        }
        assert(screen.texts@.take(screen.texts@.len() as int) =~= screen.texts@);
        assert(screens@.take(s + 1).drop_last() =~= screens@.take(s as int));
        assert(assertion_findings(screens@.take(s + 1)) =~= found + assertions_in(screen.texts@, screen.path@));
        s = s + 1;
    }
    assert(screens@.take(screens.len() as int) =~= screens@);
    out
}

/// Where a shown text comes from, as the unresolved-variable message names it.
#[derive(Debug, Clone)]
pub enum TextSource {
    /// A symbol field, by its name.
    SymbolField(String),
    /// A text of the symbol's library symbol, by its kind (`text` or `text_box`).
    LibraryText(String),
    /// A label field, by its name, and whether it is visible (only visible label fields
    /// are checked).
    LabelField(String, bool),
    /// A sheet field, by its name.
    SheetField(String),
    /// A sheet pin, by its name.
    SheetPin(String),
    /// A free text.
    SchematicText,
    /// A text box.
    SchematicTextBox,
    /// A text of the drawing sheet.
    DrawingSheet,
}

/// A text as shown, after its variables were resolved, with where it comes from.
#[derive(Debug, Clone)]
pub struct ShownText {
    pub source: TextSource,
    pub text: String,
}

/// The shown texts of one screen, in the order the check visits them, with the file the
/// screen was read from. The shown texts of the current drawing sheet form one more such
/// list, placed in the current screen's file.
#[derive(Debug, Clone)]
pub struct ScreenShownTexts {
    pub path: String,
    pub texts: Vec<ShownText>,
}

/// The text still holds a variable reference (`${`).
pub open spec fn holds_variable(t: Seq<char>) -> bool {
    exists|i: int| 0 <= i && i + 1 < t.len() && #[trigger] t[i] == '$' && t[i + 1] == '{'
}

/// The message of an unresolved variable in a text from the source.
pub open spec fn unresolved_message(source: TextSource) -> Seq<char> {
    match source {
        TextSource::SymbolField(k) => "Unresolved text variable in symbol field '"@ + k@ + "'"@,
        TextSource::LibraryText(kind) => "Unresolved text variable in library "@ + kind@,
        TextSource::LabelField(k, _) => "Unresolved text variable in label field '"@ + k@ + "'"@,
        TextSource::SheetField(k) => "Unresolved text variable in sheet field '"@ + k@ + "'"@,
        TextSource::SheetPin(n) => "Unresolved text variable in sheet pin '"@ + n@ + "'"@,
        TextSource::SchematicText => "Unresolved text variable in schematic text"@,
        TextSource::SchematicTextBox => "Unresolved text variable in schematic text box"@,
        TextSource::DrawingSheet => "Unresolved text variable in drawing sheet"@,
    }
}

/// The text is checked: every text but an invisible label field.
pub open spec fn is_checked(source: TextSource) -> bool {
    match source {
        TextSource::LabelField(_, visible) => visible,
        _ => true,
    }
}

/// The unresolved-variable messages of the texts, in order.
pub open spec fn unresolved_in(texts: Seq<ShownText>) -> Seq<Seq<char>>
    decreases texts.len(),
{
    if texts.len() == 0 {
        Seq::empty()
    } else {
        let rest = unresolved_in(texts.drop_last());
        let t = texts.last();
        if is_checked(t.source) && holds_variable(t.text@) {
            rest.push(unresolved_message(t.source))
        } else {
            rest
        }
    }
}

/// The unresolved-variable findings of the screens, screen by screen.
pub open spec fn unresolved_findings(screens: Seq<ScreenShownTexts>) -> Seq<(Seq<char>, Option<Seq<char>>)>
    decreases screens.len(),
{
    if screens.len() == 0 {
        Seq::empty()
    } else {
        unresolved_findings(screens.drop_last()) + placed_in(unresolved_in(screens.last().texts@), screens.last().path@)
    }
}

fn holds_variable_exec(t: &str) -> (r: bool)
    ensures
        r == holds_variable(t@),
{
    let v = str_to_chars(t);
    let mut i: usize = 0;
    while i < v.len()
        invariant
            v@ == t@,
            0 <= i <= v.len(),
            forall|k: int| 0 <= k < i && k + 1 < v@.len() ==> !(#[trigger] v@[k] == '$' && v@[k + 1] == '{'),
        decreases v.len() - i,
    {
        if i + 1 < v.len() && v[i] == '$' && v[i + 1] == '{' {
            return true;
        }
        i = i + 1;
    }
    false
}

fn unresolved_message_exec(source: &TextSource) -> (r: String)
    ensures
        r@ == unresolved_message(*source),
{
    let mut m: Vec<char> = Vec::new();
    match source {
        TextSource::SymbolField(k) => {
            push_str(&mut m, "Unresolved text variable in symbol field '");
            push_str(&mut m, k.as_str());
            push_str(&mut m, "'");
        },
        TextSource::LibraryText(kind) => {
            push_str(&mut m, "Unresolved text variable in library ");
            push_str(&mut m, kind.as_str());
        },
        TextSource::LabelField(k, _) => {
            push_str(&mut m, "Unresolved text variable in label field '");
            push_str(&mut m, k.as_str());
            push_str(&mut m, "'");
        },
        TextSource::SheetField(k) => {
            push_str(&mut m, "Unresolved text variable in sheet field '");
            push_str(&mut m, k.as_str());
            push_str(&mut m, "'");
        },
        TextSource::SheetPin(n) => {
            push_str(&mut m, "Unresolved text variable in sheet pin '");
            push_str(&mut m, n.as_str());
            push_str(&mut m, "'");
        },
        TextSource::SchematicText => {
            push_str(&mut m, "Unresolved text variable in schematic text");
        },
        TextSource::SchematicTextBox => {
            push_str(&mut m, "Unresolved text variable in schematic text box");
        },
        TextSource::DrawingSheet => {
            push_str(&mut m, "Unresolved text variable in drawing sheet");
        },
    }
    seq_to_string(&m)
}

fn unresolved_messages(texts: &Vec<ShownText>) -> (r: Vec<String>)
    ensures
        texts_of(r@) == unresolved_in(texts@),
{
    let mut out: Vec<String> = Vec::new();
    let mut i: usize = 0;
    while i < texts.len()
        invariant
            0 <= i <= texts.len(),
            texts_of(out@) == unresolved_in(texts@.take(i as int)),
        decreases texts.len() - i,
    {
        let t = &texts[i];
        assert(texts@.take(i + 1).drop_last() =~= texts@.take(i as int));
        assert(texts@.take(i + 1).last() == texts@[i as int]);
        let checked = match &t.source {
            TextSource::LabelField(_, visible) => *visible,
            _ => true,
        };
        let ghost before = texts_of(out@);
        if checked && holds_variable_exec(t.text.as_str()) {
            out.push(unresolved_message_exec(&t.source));
            assert(texts_of(out@) =~= before.push(unresolved_message(t.source)));
        }
        i = i + 1;
    }
    assert(texts@.take(texts.len() as int) =~= texts@);
    out
}

/// Reports, screen by screen and in each screen's order, every checked text that still
/// holds a variable reference once shown, as an error naming where the text comes from,
/// placed in the screen's file.
pub fn check_unresolved_text_variables(screens: &Vec<ScreenShownTexts>) -> (r: Vec<Diagnostic>)
    ensures
        reports(r@, Severity::Error, "erc-unresolved-variable"@, unresolved_findings(screens@)),
{
    let mut out: Vec<Diagnostic> = Vec::new();
    let mut s: usize = 0;
    while s < screens.len()
        invariant
            0 <= s <= screens.len(),
            reports(out@, Severity::Error, "erc-unresolved-variable"@, unresolved_findings(screens@.take(s as int))),
        decreases screens.len() - s,
    {
        let screen = &screens[s];
        let messages = unresolved_messages(&screen.texts);
        let ghost before = out@;
        let ghost found = unresolved_findings(screens@.take(s as int));
        let ghost texts = texts_of(messages@);
        push_findings(&mut out, Severity::Error, "erc-unresolved-variable", messages, &screen.path);
        proof {
            lemma_reports_append(before, out@, Severity::Error, "erc-unresolved-variable"@, found, texts, screen.path@);
            assert(screens@.take(s + 1).drop_last() =~= screens@.take(s as int));
        }
        s = s + 1;
    }
    assert(screens@.take(screens.len() as int) =~= screens@);
    out
}

/// A pattern matches its own text: every character, wildcards included, can stand for
/// itself.
proof fn lemma_glob_matches_itself(p: Seq<u8>, i: int)
    requires
        0 <= i <= p.len(),
    ensures
        glob_at(p, p, i, i),
    decreases p.len() - i,
{
    if i < p.len() {
        lemma_glob_matches_itself(p, i + 1);
        if p[i] == 42u8 {
            assert(glob_at(p, p, i, i + 1));
        }
    }
}

/// A symbol is never flagged by its footprint filters when it has none, when its
/// footprint names no library (no `:`), or when a filter is, up to
/// ASCII case, the footprint's name (or, for a filter with a library, the whole footprint).
pub proof fn law_footprint_filters_accept(footprint: Seq<char>, filters: Seq<Seq<char>>, i: int)
    requires
        0 <= i < filters.len() || filters.len() == 0 || !has_char(footprint, ':'),
    ensures
        (filters.len() == 0 || !has_char(footprint, ':')) ==> filter_finding(Some(footprint), filters) is None,
        (0 <= i < filters.len() && has_char(footprint, ':') && !has_char(filters[i], ':') && lower_text(filters[i])
            == lower_text(footprint).subrange(last_index_of(lower_text(footprint), ':') + 1, footprint.len() as int))
            ==> filter_finding(Some(footprint), filters) is None,
        (0 <= i < filters.len() && has_char(filters[i], ':') && lower_text(filters[i]) == lower_text(footprint))
            ==> filter_finding(Some(footprint), filters) is None,
{
    let lower_id = lower_text(footprint);
    lemma_last_index_of(lower_id, ':');
    let c = last_index_of(lower_id, ':');
    if has_char(footprint, ':') {
        let k = choose|k: int| 0 <= k < footprint.len() && footprint[k] == ':';
        assert(lower_id[k] == ':');
        lemma_last_index_found(lower_id, k);
    }
    lemma_last_index_hit(lower_id);
    if c >= 0 {
        assert(lower_id[c] == lower_ascii(footprint[c]));
        if 'A' <= footprint[c] && footprint[c] <= 'Z' {
            assert(lower_id[c] as u32 >= 97);
        }
        assert(footprint[c] == ':');
        assert(has_char(footprint, ':'));
    }
    if 0 <= i < filters.len() && c >= 0 {
        let item = lower_id.subrange(c + 1, lower_id.len() as int);
        let f = lower_text(filters[i]);
        if !has_char(filters[i], ':') && f == item {
            assert(!has_char(f, ':')) by {
                if has_char(f, ':') {
                    let m = choose|m: int| 0 <= m < f.len() && f[m] == ':';
                    assert(filters[i][m] == ':');
                }
            }
            lemma_glob_matches_itself(encode_utf8(f), 0);
            assert(filter_accepts(filters[i], lower_id, item));
        }
        if has_char(filters[i], ':') && f == lower_id {
            let m = choose|m: int| 0 <= m < filters[i].len() && filters[i][m] == ':';
            assert(f[m] == ':');
            lemma_glob_matches_itself(encode_utf8(f), 0);
            assert(filter_accepts(filters[i], lower_id, item));
        }
    }
}

proof fn lemma_last_index_hit(s: Seq<char>)
    ensures
        last_index_of(s, ':') >= 0 ==> last_index_of(s, ':') < s.len() && s[last_index_of(s, ':')] == ':',
    decreases s.len(),
{
    if s.len() > 0 && s.last() != ':' {
        lemma_last_index_hit(s.drop_last());
    }
}

proof fn lemma_last_index_found(s: Seq<char>, k: int)
    requires
        0 <= k < s.len(),
        s[k] == ':',
    ensures
        last_index_of(s, ':') >= k,
    decreases s.len(),
{
    if s.last() != ':' {
        lemma_last_index_found(s.drop_last(), k);
    }
}

/// A pin number without square brackets is never flagged as stacked-pin notation: a
/// symbol whose pin numbers hold no `[` or `]` yields no finding.
pub proof fn law_plain_pin_numbers_are_not_flagged(pins: Seq<InventoryPin>)
    requires
        forall|i: int| 0 <= i < pins.len() ==> ((#[trigger] pins[i]).number matches Some(n) ==> !has_char(n@, '[')
            && !has_char(n@, ']')),
    ensures
        bad_stacked_from(pins, 0) == pins.len(),
{
    lemma_plain_from(pins, 0);
}

proof fn lemma_plain_from(pins: Seq<InventoryPin>, i: int)
    requires
        0 <= i <= pins.len(),
        forall|j: int| 0 <= j < pins.len() ==> ((#[trigger] pins[j]).number matches Some(n) ==> !has_char(n@, '[')
            && !has_char(n@, ']')),
    ensures
        bad_stacked_from(pins, i) == pins.len(),
    decreases pins.len() - i,
{
    if i < pins.len() {
        if pins[i].number is Some {
            let n = pins[i].number.unwrap()@;
            if n.len() > 0 && n[0] == '[' {
                assert(has_char(n, '['));
            }
            assert(stacked_valid(n));
        }
        lemma_plain_from(pins, i + 1);
    }
}

proof fn lemma_distinct_units_len(occ: Seq<SymbolOccurrence>, idx: Seq<usize>, n: int)
    requires
        0 <= n,
    ensures
        distinct_units(occ, idx, n).len() <= n,
    decreases n,
{
    if n > 0 {
        lemma_distinct_units_len(occ, idx, n - 1);
    }
}

/// A reference whose library symbol has one unit is never missing units; one whose
/// library symbol has more units than the reference is placed is always missing some.
pub proof fn law_missing_units(occ: Seq<SymbolOccurrence>, idx: Seq<usize>, c: usize)
    requires
        first_unit_count(occ, idx, 0) == Some(c),
    ensures
        c <= 1 ==> !units_missing(occ, idx),
        idx.len() < c ==> units_missing(occ, idx),
{
    lemma_distinct_units_len(occ, idx, idx.len() as int);
}

proof fn lemma_same_footprint_no_mismatch(occ: Seq<SymbolOccurrence>, idx: Seq<usize>, f: int, n: int)
    requires
        0 <= f < idx.len(),
        n <= idx.len(),
        forall|k: int| 0 <= k < idx.len() ==> occ[#[trigger] idx[k] as int].footprint@.len() == 0
            || occ[idx[k] as int].footprint@ == occ[idx[f] as int].footprint@,
    ensures
        mismatch_paths(occ, idx, f, n).len() == 0,
    decreases n,
{
    if n > 1 {
        lemma_same_footprint_no_mismatch(occ, idx, f, n - 1);
        assert(occ[idx[n - 1] as int].footprint@.len() == 0 || occ[idx[n - 1] as int].footprint@ == occ[idx[f] as int].footprint@);
    }
}

/// Units of a reference that carry one footprint (or none) are never flagged for
/// different footprints.
pub proof fn law_one_footprint_is_not_flagged(occ: Seq<SymbolOccurrence>, idx: Seq<usize>)
    requires
        forall|k: int, m: int| 0 <= k < idx.len() && 0 <= m < idx.len() && occ[#[trigger] idx[k] as int].footprint@.len()
            > 0 && occ[#[trigger] idx[m] as int].footprint@.len() > 0 ==> occ[idx[k] as int].footprint@ == occ[idx[m] as int].footprint@,
    ensures
        footprint_from(occ, idx, 0) < idx.len() ==> mismatch_paths(occ, idx, footprint_from(occ, idx, 0), idx.len() as int).len() == 0,
{
    let f = footprint_from(occ, idx, 0);
    if f < idx.len() {
        lemma_footprint_from(occ, idx, 0);
        assert forall|k: int| 0 <= k < idx.len() implies occ[#[trigger] idx[k] as int].footprint@.len() == 0
            || occ[idx[k] as int].footprint@ == occ[idx[f] as int].footprint@ by {
            if occ[idx[k] as int].footprint@.len() > 0 {
                assert(occ[idx[f] as int].footprint@.len() > 0);
            }
        }
        lemma_same_footprint_no_mismatch(occ, idx, f, idx.len() as int);
    }
}

proof fn lemma_footprint_from(occ: Seq<SymbolOccurrence>, idx: Seq<usize>, k: int)
    requires
        0 <= k <= idx.len(),
    ensures
        k <= footprint_from(occ, idx, k) <= idx.len(),
        footprint_from(occ, idx, k) < idx.len() ==> occ[idx[footprint_from(occ, idx, k)] as int].footprint@.len() > 0,
    decreases idx.len() - k,
{
    if k < idx.len() && occ[idx[k] as int].footprint@.len() == 0 {
        lemma_footprint_from(occ, idx, k + 1);
    }
}

} // verus!
