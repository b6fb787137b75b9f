//! Hierarchy bookkeeping of a loaded schematic project (sheet paths and page
//! numbers) and the simulation-model migration helpers of the loader.

use crate::model::sim_params::{sim_param_value, si_mantissa, si_suffix, si_value};
use crate::natural::{
    flip, int_order, into_ordering, lemma_natural_order_from_flip, natural_order,
    natural_order_exec, order_i64, to_ordering, TextOrder,
};
use crate::model::sim_params::eq_ignore_ascii_case as eq_ic;
use crate::model::sim_params::eq_ignore_case_str as eq_ic_exec;
use crate::text::vec_eq_str as eq;
use crate::text::{parse_i64_all, parse_i64_spec, str_to_chars};
use vstd::prelude::*;

pub mod instances;
pub mod intersheet;
pub mod occurrence;
pub mod pages;
pub mod power;
pub mod selection;
pub mod settings;
pub mod sheet_list;

verus! {

/// A parent-child edge of the sheet hierarchy: the files (by path) and the sheet that
/// links them.
#[derive(Debug, Clone, PartialEq, Eq)]
pub struct HierarchyLink {
    pub parent_path: String,
    pub child_path: String,
    pub sheet_uuid: Option<String>,
    pub sheet_name: Option<String>,
    pub filename: String,
    pub reused_existing_child: bool,
}

/// One occurrence of a schematic file in the hierarchy: the file (by path), its
/// instance path of sheet UUIDs, its symbol path, and its page data.
#[derive(Debug, Clone, PartialEq, Eq)]
pub struct LoadedSheetPath {
    pub schematic_path: String,
    pub instance_path: String,
    pub symbol_path: String,
    pub sheet_uuid: Option<String>,
    pub sheet_name: Option<String>,
    pub page: Option<String>,
    pub sheet_number: usize,
    pub sheet_count: usize,
}

/// Order of two page numbers: equal texts are equal; numbers order by value and
/// before other texts; other texts in natural order.
pub open spec fn page_order(a: Seq<char>, b: Seq<char>) -> TextOrder {
    if a == b {
        TextOrder::Equal
    } else {
        match (parse_i64_spec(a), parse_i64_spec(b)) {
            (Some(x), Some(y)) => int_order(x as int, y as int),
            (Some(_), None) => TextOrder::Less,
            (None, Some(_)) => TextOrder::Greater,
            (None, None) => natural_order(a, b, false, false),
        }
    }
}

/// Swapping two page numbers reverses their order.
pub proof fn law_page_order_antisymmetric(a: Seq<char>, b: Seq<char>)
    ensures
        page_order(a, b) == flip(page_order(b, a)),
{
    lemma_natural_order_from_flip(a, b, 0, 0, false, false);
}

/// A page number is equal to itself.
pub proof fn law_page_order_reflexive(a: Seq<char>)
    ensures
        page_order(a, a) == TextOrder::Equal,
{
}

fn page_order_exec(a: &Vec<char>, b: &Vec<char>) -> (r: TextOrder)
    ensures
        r == page_order(a@, b@),
{
    if crate::text::range_eq(a, 0, a.len(), b, 0, b.len()) {
        assert(a@.subrange(0, a@.len() as int) =~= a@);
        assert(b@.subrange(0, b@.len() as int) =~= b@);
        return TextOrder::Equal;
    }
    assert(a@.subrange(0, a@.len() as int) =~= a@);
    assert(b@.subrange(0, b@.len() as int) =~= b@);
    match (parse_i64_all(a), parse_i64_all(b)) {
        (Some(x), Some(y)) => order_i64(x, y),
        (Some(_), None) => TextOrder::Less,
        (None, Some(_)) => TextOrder::Greater,
        (None, None) => natural_order_exec(a, b, false, false),
    }
}

/// Compares two page numbers the way the sheet list is ordered.
pub fn compare_page_numbers(a: &str, b: &str) -> (r: std::cmp::Ordering)
    ensures
        r == to_ordering(page_order(a@, b@)),
{
    let av = str_to_chars(a);
    let bv = str_to_chars(b);
    into_ordering(page_order_exec(&av, &bv))
}

/// The page is unset or blank.
pub open spec fn page_is_blank(page: Option<String>) -> bool {
    match page {
        Some(p) => crate::text::trim(p@).len() == 0,
        None => true,
    }
}

/// Every sheet other than the root has a blank page number.
pub open spec fn all_pages_blank(paths: Seq<LoadedSheetPath>) -> bool {
    forall|i: int|
        0 <= i < paths.len() && (#[trigger] paths[i]).instance_path@.len() != 0 ==> page_is_blank(
            paths[i].page,
        )
}

/// Whether no sheet other than the root carries a page number.
pub fn all_sheet_page_numbers_empty(sheet_paths: &Vec<LoadedSheetPath>) -> (r: bool)
    ensures
        r == all_pages_blank(sheet_paths@),
{
    let mut i: usize = 0;
    while i < sheet_paths.len()
        invariant
            0 <= i <= sheet_paths.len(),
            forall|k: int|
                0 <= k < i && (#[trigger] sheet_paths@[k]).instance_path@.len() != 0
                    ==> page_is_blank(sheet_paths@[k].page),
        decreases sheet_paths.len() - i,
    {
        let path = &sheet_paths[i];
        if !path.instance_path.as_str().is_empty() {
            match &path.page {
                Some(page) => {
                    let t = crate::text::trimmed_chars(page.as_str());
                    if t.len() != 0 {
                        return false;
                    }
                },
                None => {},
            }
        }
        i = i + 1;
    }
    true
}

/// Number of sheets other than the root among the first `n` entries.
pub open spec fn non_root_before(paths: Seq<LoadedSheetPath>, n: int) -> nat
    decreases n,
{
    if n <= 0 {
        0
    } else {
        non_root_before(paths, n - 1) + if paths[n - 1].instance_path@.len() != 0 {
            1nat
        } else {
            0nat
        }
    }
}

/// `n` is `o` with the sheets other than the root numbered 1, 2, 3, ... in list order;
/// the root keeps its page, and every other field stays.
pub open spec fn initial_pages_set(o: Seq<LoadedSheetPath>, n: Seq<LoadedSheetPath>) -> bool {
    &&& n.len() == o.len()
    &&& forall|i: int|
        0 <= i < o.len() ==> {
            let a = #[trigger] o[i];
            let b = n[i];
            &&& b.schematic_path == a.schematic_path
            &&& b.instance_path == a.instance_path
            &&& b.symbol_path == a.symbol_path
            &&& b.sheet_uuid == a.sheet_uuid
            &&& b.sheet_name == a.sheet_name
            &&& b.sheet_number == a.sheet_number
            &&& b.sheet_count == a.sheet_count
            &&& if a.instance_path@.len() == 0 {
                b.page == a.page
            } else {
                b.page matches Some(p) && p@ == crate::text::decimal(non_root_before(o, i) + 1)
            }
        }
}

/// Numbers the sheets other than the root 1, 2, 3, ... in list order; the root keeps
/// its page.
#[verifier::spinoff_prover]
#[verifier::rlimit(40)]
pub fn set_initial_page_numbers(sheet_paths: &mut Vec<LoadedSheetPath>)
    requires
        old(sheet_paths).len() < usize::MAX,
    ensures
        initial_pages_set(old(sheet_paths)@, final(sheet_paths)@),
{
    let mut page_number: usize = 1;
    let mut i: usize = 0;
    while i < sheet_paths.len()
        invariant
            0 <= i <= sheet_paths.len(),
            sheet_paths.len() == old(sheet_paths).len(),
            sheet_paths.len() < usize::MAX,
            page_number == non_root_before(old(sheet_paths)@, i as int) + 1,
            page_number <= i + 1,
            forall|k: int| i <= k < sheet_paths.len() ==> #[trigger] sheet_paths@[k] == old(sheet_paths)@[k],
            forall|k: int|
                0 <= k < i ==> {
                    let o = #[trigger] old(sheet_paths)@[k];
                    let n = sheet_paths@[k];
                    &&& n.schematic_path == o.schematic_path
                    &&& n.instance_path == o.instance_path
                    &&& n.symbol_path == o.symbol_path
                    &&& n.sheet_uuid == o.sheet_uuid
                    &&& n.sheet_name == o.sheet_name
                    &&& n.sheet_number == o.sheet_number
                    &&& n.sheet_count == o.sheet_count
                    &&& if o.instance_path@.len() == 0 {
                        n.page == o.page
                    } else {
                        n.page matches Some(p) && p@ == crate::text::decimal(
                            non_root_before(old(sheet_paths)@, k) + 1,
                        )
                    }
                },
        decreases sheet_paths.len() - i,
    {
        if !sheet_paths[i].instance_path.as_str().is_empty() {
            let mut entry = sheet_paths.remove(i);
            entry.page = Some(crate::text::usize_to_string(page_number));
            sheet_paths.insert(i, entry);
            page_number = page_number + 1;
        }
        i = i + 1;
    }
}

/// Device and model-type pairs (both trimmed) that the built-in simulator models cover.
pub open spec fn builtin_sim_type(d: Seq<char>, t: Seq<char>) -> bool {
    ||| d == "R"@ && (t == ""@ || t == "POT"@ || t == "="@)
    ||| (d == "C"@ || d == "L"@) && (t == ""@ || t == "="@)
    ||| d == "K"@ && t == ""@
    ||| d == "TLINE"@ && (t == ""@ || t == "RLGC"@)
    ||| d == "SW"@ && (t == "V"@ || t == "I"@)
    ||| d == "D"@ && t == ""@
    ||| (d == "NPN"@ || d == "PNP"@) && (t == "VBIC"@ || t == "GUMMELPOON"@ || t == "HICUM2"@
        || t == "HICUML2"@)
    ||| (d == "NJFET"@ || d == "PJFET"@) && (t == "SHICHMANHODGES"@ || t == "PARKERSKELLERN"@)
    ||| (d == "NMES"@ || d == "PMES"@) && (t == "STATZ"@ || t == "YTTERDAL"@ || t == "HFET1"@
        || t == "HFET2"@)
    ||| (d == "NMOS"@ || d == "PMOS"@) && (t == "VDMOS"@ || t == "MOS1"@ || t == "MOS2"@ || t
        == "MOS3"@ || t == "BSIM1"@ || t == "BSIM2"@ || t == "MOS6"@ || t == "BSIM3"@ || t
        == "MOS9"@ || t == "B4SOI"@ || t == "BSIM4"@ || t == "B3SOIFD"@ || t == "B3SOIDD"@ || t
        == "B3SOIPD"@ || t == "HISIM2"@ || t == "HISIMHV1"@ || t == "HISIMHV2"@)
    ||| (d == "V"@ || d == "I"@) && (t == "DC"@ || is_internal_source_type(t) || t == "="@)
    ||| (d == "E"@ || d == "F"@ || d == "G"@ || d == "H"@ || d == "SUBCKT"@ || d == "XSPICE"@)
        && t == ""@
}

/// Waveform model types of the built-in voltage and current sources.
pub open spec fn is_internal_source_type(t: Seq<char>) -> bool {
    ||| t == "SIN"@ || t == "PULSE"@ || t == "EXP"@ || t == "AM"@ || t == "SFFM"@
    ||| t == "PWL"@ || t == "WHITENOISE"@ || t == "PINKNOISE"@ || t == "BURSTNOISE"@
    ||| t == "RANDUNIFORM"@ || t == "RANDGAUSSIAN"@ || t == "RANDEXP"@ || t == "RANDPOISSON"@
    ||| t == "TRNOISE"@ || t == "TRRANDOM"@
}

pub(crate) fn internal_source_type(t: &Vec<char>) -> (b: bool)
    ensures
        b == is_internal_source_type(t@),
{
    eq(t, "SIN") || eq(t, "PULSE") || eq(t, "EXP") || eq(t, "AM") || eq(t, "SFFM") || eq(t, "PWL")
        || eq(t, "WHITENOISE") || eq(t, "PINKNOISE") || eq(t, "BURSTNOISE") || eq(t, "RANDUNIFORM")
        || eq(t, "RANDGAUSSIAN") || eq(t, "RANDEXP") || eq(t, "RANDPOISSON") || eq(t, "TRNOISE")
        || eq(t, "TRRANDOM")
}

/// Whether the built-in simulator models cover a device and model type (compared
/// after trimming).
pub fn is_supported_builtin_sim_type(device: &str, model_type: &str) -> (r: bool)
    ensures
        r == builtin_sim_type(crate::text::trim(device@), crate::text::trim(model_type@)),
{
    let d = crate::text::trimmed_chars(device);
    let t = crate::text::trimmed_chars(model_type);
    (eq(&d, "R") && (eq(&t, "") || eq(&t, "POT") || eq(&t, "="))) || ((eq(&d, "C") || eq(&d, "L"))
        && (eq(&t, "") || eq(&t, "="))) || (eq(&d, "K") && eq(&t, "")) || (eq(&d, "TLINE") && (eq(
        &t,
        "",
    ) || eq(&t, "RLGC"))) || (eq(&d, "SW") && (eq(&t, "V") || eq(&t, "I"))) || (eq(&d, "D") && eq(
        &t,
        "",
    )) || ((eq(&d, "NPN") || eq(&d, "PNP")) && (eq(&t, "VBIC") || eq(&t, "GUMMELPOON") || eq(
        &t,
        "HICUM2",
    ) || eq(&t, "HICUML2"))) || ((eq(&d, "NJFET") || eq(&d, "PJFET")) && (eq(&t, "SHICHMANHODGES")
        || eq(&t, "PARKERSKELLERN"))) || ((eq(&d, "NMES") || eq(&d, "PMES")) && (eq(&t, "STATZ")
        || eq(&t, "YTTERDAL") || eq(&t, "HFET1") || eq(&t, "HFET2"))) || ((eq(&d, "NMOS") || eq(
        &d,
        "PMOS",
    )) && (eq(&t, "VDMOS") || eq(&t, "MOS1") || eq(&t, "MOS2") || eq(&t, "MOS3") || eq(&t, "BSIM1")
        || eq(&t, "BSIM2") || eq(&t, "MOS6") || eq(&t, "BSIM3") || eq(&t, "MOS9") || eq(&t, "B4SOI")
        || eq(&t, "BSIM4") || eq(&t, "B3SOIFD") || eq(&t, "B3SOIDD") || eq(&t, "B3SOIPD") || eq(
        &t,
        "HISIM2",
    ) || eq(&t, "HISIMHV1") || eq(&t, "HISIMHV2"))) || ((eq(&d, "V") || eq(&d, "I")) && (eq(
        &t,
        "DC",
    ) || internal_source_type(&t) || eq(&t, "="))) || ((eq(&d, "E") || eq(&d, "F") || eq(&d, "G")
        || eq(&d, "H") || eq(&d, "SUBCKT") || eq(&d, "XSPICE")) && eq(&t, ""))
}

/// The parameter that carries the main value of a built-in waveform source.
pub open spec fn primary_param_name(t: Seq<char>) -> Option<Seq<char>> {
    if t == "SIN"@ {
        Some("dc"@)
    } else if t == "PULSE"@ || t == "EXP"@ {
        Some("y1"@)
    } else if t == "AM"@ || t == "SFFM"@ {
        Some("vo"@)
    } else if t == "WHITENOISE"@ || t == "PINKNOISE"@ || t == "TRNOISE"@ {
        Some("rms"@)
    } else if t == "BURSTNOISE"@ {
        Some("ampl"@)
    } else if t == "RANDUNIFORM"@ || t == "RANDGAUSSIAN"@ || t == "RANDEXP"@ || t == "RANDPOISSON"@
        || t == "TRRANDOM"@ {
        Some("ts"@)
    } else {
        None
    }
}

/// The parameter that carries the main value of a built-in waveform source (the model
/// type is trimmed first).
pub fn current_internal_source_primary_param_name(model_type: &str) -> (r: Option<&'static str>)
    ensures
        match primary_param_name(crate::text::trim(model_type@)) {
            Some(n) => r matches Some(x) && x@ == n,
            None => r is None,
        },
{
    let t = crate::text::trimmed_chars(model_type);
    if eq(&t, "SIN") {
        Some("dc")
    } else if eq(&t, "PULSE") || eq(&t, "EXP") {
        Some("y1")
    } else if eq(&t, "AM") || eq(&t, "SFFM") {
        Some("vo")
    } else if eq(&t, "WHITENOISE") || eq(&t, "PINKNOISE") || eq(&t, "TRNOISE") {
        Some("rms")
    } else if eq(&t, "BURSTNOISE") {
        Some("ampl")
    } else if eq(&t, "RANDUNIFORM") || eq(&t, "RANDGAUSSIAN") || eq(&t, "RANDEXP") || eq(
        &t,
        "RANDPOISSON",
    ) || eq(&t, "TRRANDOM") {
        Some("ts")
    } else {
        None
    }
}

/// Characters that mark a value as an expression rather than a number.
pub open spec fn is_behavioral_char(c: char) -> bool {
    ||| c == '(' || c == ')' || c == '{' || c == '}' || c == '[' || c == ']'
    ||| c == '+' || c == '-' || c == '*' || c == '/' || c == '='
    ||| (('a' <= c && c <= 'z') || ('A' <= c && c <= 'Z')) && !is_multiplier_letter(c)
}

/// Letters that may follow a number as its multiplier or unit.
pub open spec fn is_multiplier_letter(c: char) -> bool {
    ||| c == 'f' || c == 'F' || c == 'p' || c == 'P' || c == 'n' || c == 'N'
    ||| c == 'u' || c == 'U' || c == 'm' || c == 'M' || c == 'k' || c == 'K'
    ||| c == 'g' || c == 'G' || c == 't' || c == 'T' || c == 'r' || c == 'R'
    ||| c == 'h' || c == 'H' || c == 'o' || c == 'O'
}

/// Whether a value text holds an operator, a bracket or a letter that is no multiplier.
pub fn looks_behavioral_value(value: &str) -> (r: bool)
    ensures
        r == exists|i: int| 0 <= i < value@.len() && is_behavioral_char(#[trigger] value@[i]),
{
    let v = str_to_chars(value);
    let mut i: usize = 0;
    while i < v.len()
        invariant
            0 <= i <= v.len(),
            v@ == value@,
            forall|k: int| 0 <= k < i ==> !is_behavioral_char(#[trigger] v@[k]),
        decreases v.len() - i,
    {
        let c = v[i];
        let multiplier = c == 'f' || c == 'F' || c == 'p' || c == 'P' || c == 'n' || c == 'N' || c
            == 'u' || c == 'U' || c == 'm' || c == 'M' || c == 'k' || c == 'K' || c == 'g' || c
            == 'G' || c == 't' || c == 'T' || c == 'r' || c == 'R' || c == 'h' || c == 'H' || c
            == 'o' || c == 'O';
        if c == '(' || c == ')' || c == '{' || c == '}' || c == '[' || c == ']' || c == '+' || c
            == '-' || c == '*' || c == '/' || c == '=' || ((('a' <= c && c <= 'z') || ('A' <= c
            && c <= 'Z')) && !multiplier) {
            assert(is_behavioral_char(v@[i as int]));
            return true;
        }
        i = i + 1;
    }
    false
}

/// An SI value normalized where possible, else as given.
pub open spec fn si_or_raw(v: Seq<char>) -> Seq<char> {
    match si_value(v) {
        Some(x) => x,
        None => v,
    }
}

/// The parameter name and value of a legacy source value such as `AC 1` or `DC 5V`.
pub open spec fn split_source_value(value: Seq<char>) -> (Seq<char>, Seq<char>) {
    let t = crate::text::trim(value);
    if t.len() >= 3 && t.subrange(0, 3) == "AC "@ {
        ("ac"@, si_or_raw(crate::text::trim(t.subrange(3, t.len() as int))))
    } else if t.len() >= 3 && t.subrange(0, 3) == "DC "@ {
        ("dc"@, si_or_raw(crate::text::trim(t.subrange(3, t.len() as int))))
    } else {
        ("dc"@, si_or_raw(t))
    }
}

/// Splits a legacy source value into the parameter it sets (`ac` or `dc`) and its
/// normalized value.
pub fn split_inferred_source_value(value: &str) -> (r: (&'static str, String))
    ensures
        r.0@ == split_source_value(value@).0,
        r.1@ == split_source_value(value@).1,
{
    let t = crate::text::trimmed_chars(value);
    let is_ac = t.len() >= 3 && crate::text::range_eq_str(&t, 0, 3, "AC ");
    let is_dc = !is_ac && t.len() >= 3 && crate::text::range_eq_str(&t, 0, 3, "DC ");
    if is_ac || is_dc {
        let (a, b) = crate::text::trim_bounds(&t, 3, t.len());
        let rest = crate::text::chars_to_string(&t, a, b);
        let normalized = crate::model::sim_params::normalize_sim_param_value(rest.as_str());
        if is_ac {
            ("ac", normalized)
        } else {
            ("dc", normalized)
        }
    } else {
        let whole = crate::text::seq_to_string(&t);
        ("dc", crate::model::sim_params::normalize_sim_param_value(whole.as_str()))
    }
}

/// The normalized form of an SI-suffixed number, if the text is one.
pub fn normalize_inferred_si_value(value: &str) -> (r: Option<String>)
    ensures
        match r {
            Some(x) => si_value(value@) == Some(x@),
            None => si_value(value@) is None,
        },
{
    crate::model::sim_params::normalize_sim_si_value(value)
}

/// The normalized form of an SI suffix, if the text is one.
pub fn normalize_inferred_si_suffix(suffix: &str) -> (r: Option<String>)
    ensures
        match r {
            Some(x) => si_suffix(suffix@) == Some(x@),
            None => si_suffix(suffix@) is None,
        },
{
    crate::model::sim_params::normalize_sim_si_suffix(suffix)
}

/// The normalized number part of an SI value, if its separators are consistent.
pub fn normalize_inferred_si_mantissa(mantissa: &str) -> (r: Option<String>)
    ensures
        match r {
            Some(x) => si_mantissa(mantissa@) == Some(x@),
            None => si_mantissa(mantissa@) is None,
        },
{
    crate::model::sim_params::normalize_sim_si_mantissa(mantissa)
}

/// The pin pairs that the white-space separated `symbol=model` items of a list give:
/// items without `=` are skipped, the model pin loses surrounding quotes.
pub open spec fn loader_pin_pairs(toks: Seq<Seq<char>>) -> Seq<(Seq<char>, Seq<char>)>
    decreases toks.len(),
{
    if toks.len() == 0 {
        Seq::empty()
    } else {
        let t = toks.last();
        let e = crate::text::index_of_from(t, '=', 0);
        let rest = loader_pin_pairs(toks.drop_last());
        if e < t.len() {
            rest.push((t.subrange(0, e), crate::text::trim_char(t.subrange(e + 1, t.len() as int), '"')))
        } else {
            rest
        }
    }
}

/// The `symbol=model` pin pairs of a legacy pin list, in order.
pub fn parse_loader_sim_pin_pairs(pins: &str) -> (r: Vec<(String, String)>)
    ensures
        r.deep_view() == loader_pin_pairs(crate::text::tokens(pins@, 0)),
{
    let v = str_to_chars(pins);
    let toks = crate::text::split_tokens(&v, 0, v.len(), 0);
    assert(v@.subrange(0, v@.len() as int) =~= v@);
    let mut out: Vec<(String, String)> = Vec::new();
    let mut i: usize = 0;
    assert(toks.deep_view().take(0) =~= Seq::<Seq<char>>::empty());
    assert(out.deep_view() =~= Seq::<(Seq<char>, Seq<char>)>::empty());
    while i < toks.len()
        invariant
            0 <= i <= toks.len(),
            out.deep_view() == loader_pin_pairs(toks.deep_view().take(i as int)),
        decreases toks.len() - i,
    {
        let t = &toks[i];
        assert(t@ == toks.deep_view()[i as int]) by {
            assert(t.deep_view() =~= t@);
        }
        assert(toks.deep_view().take(i + 1).drop_last() =~= toks.deep_view().take(i as int));
        let e = crate::text::find_char(t, 0, t.len(), '=');
        assert(t@.subrange(0, t@.len() as int) =~= t@);
        if e < t.len() {
            let (a, b) = crate::text::trim_char_bounds(t, e + 1, t.len(), '"');
            let sym = crate::text::chars_to_string(t, 0, e);
            let model = crate::text::chars_to_string(t, a, b);
            let ghost before = out.deep_view();
            out.push((sym, model));
            assert(out.deep_view() =~= before.push((sym@, model@)));
        }
        i = i + 1;
    }
    assert(toks.deep_view().take(toks.len() as int) =~= toks.deep_view());
    out
}

/// Order of two pin numbers: by value where both are integers, else as text.
pub open spec fn pin_number_order(a: Seq<char>, b: Seq<char>) -> TextOrder {
    match (crate::text::parse_i32_spec(a), crate::text::parse_i32_spec(b)) {
        (Some(x), Some(y)) => int_order(x as int, y as int),
        _ => crate::natural::lex_order(a, b),
    }
}

fn pin_number_order_exec(a: &Vec<char>, b: &Vec<char>) -> (r: TextOrder)
    ensures
        r == pin_number_order(a@, b@),
{
    assert(a@.subrange(0, a@.len() as int) =~= a@);
    assert(b@.subrange(0, b@.len() as int) =~= b@);
    match (crate::text::parse_i32_all(a), crate::text::parse_i32_all(b)) {
        (Some(x), Some(y)) => order_i64(x as i64, y as i64),
        _ => crate::natural::lex_order_range(a, 0, a.len(), b, 0, b.len()),
    }
}

/// Compares two pin numbers: numerically where both are integers, else as text.
pub fn compare_pin_numbers(a: &String, b: &String) -> (r: std::cmp::Ordering)
    ensures
        r == to_ordering(pin_number_order(a@, b@)),
{
    let av = crate::text::string_chars(a);
    let bv = crate::text::string_chars(b);
    into_ordering(pin_number_order_exec(&av, &bv))
}

/// How a simulation library source is shown: its path, or the embedded file's name.
pub fn display_sim_library_source(source: &crate::model::SimLibrarySource) -> (r: String)
    ensures
        r@ == match source {
            crate::model::SimLibrarySource::Filesystem(p) => p@,
            crate::model::SimLibrarySource::SchematicEmbedded { name } => name@,
            crate::model::SimLibrarySource::SymbolEmbedded { name } => name@,
        },
{
    match source {
        crate::model::SimLibrarySource::Filesystem(path) => path.clone(),
        crate::model::SimLibrarySource::SchematicEmbedded { name } => name.clone(),
        crate::model::SimLibrarySource::SymbolEmbedded { name } => name.clone(),
    }
}

/// Every `"` preceded by a backslash.
pub open spec fn escape_quotes(s: Seq<char>) -> Seq<char>
    decreases s.len(),
{
    if s.len() == 0 {
        s
    } else if s.last() == '"' {
        escape_quotes(s.drop_last()) + seq!['\\', '"']
    } else {
        escape_quotes(s.drop_last()).push(s.last())
    }
}

/// Escapes the double quotes of a model text for a `Sim.Params` value.
pub fn sim_params_field_value_escape(model: &str) -> (r: String)
    ensures
        r@ == escape_quotes(model@),
{
    let v = str_to_chars(model);
    let mut out: Vec<char> = Vec::new();
    let mut i: usize = 0;
    while i < v.len()
        invariant
            0 <= i <= v.len(),
            out@ == escape_quotes(v@.take(i as int)),
        decreases v.len() - i,
    {
        assert(v@.take(i + 1).drop_last() =~= v@.take(i as int));
        if v[i] == '"' {
            out.push('\\');
            out.push('"');
            assert(out@ =~= escape_quotes(v@.take(i as int)) + seq!['\\', '"']);
        } else {
            out.push(v[i]);
        }
        i = i + 1;
    }
    assert(v@.take(v@.len() as int) =~= v@);
    crate::text::seq_to_string(&out)
}

/// A value that must be quoted: it holds white space, a quote or a backslash.
pub open spec fn needs_quotes(v: Seq<char>) -> bool {
    exists|i: int| 0 <= i < v.len() && (crate::text::is_ws(#[trigger] v[i]) || v[i] == '"' || v[i] == '\\')
}

/// Backslashes and double quotes preceded by a backslash.
pub open spec fn escape_param(s: Seq<char>) -> Seq<char>
    decreases s.len(),
{
    if s.len() == 0 {
        s
    } else if s.last() == '"' || s.last() == '\\' {
        escape_param(s.drop_last()) + seq!['\\', s.last()]
    } else {
        escape_param(s.drop_last()).push(s.last())
    }
}

/// The `name=value` item for a parameter, quoted and escaped where the value needs it.
pub open spec fn param_pair_text(name: Seq<char>, value: Seq<char>) -> Seq<char> {
    if needs_quotes(value) {
        name + seq!['=', '"'] + escape_param(value) + seq!['"']
    } else {
        name + seq!['='] + value
    }
}

/// Writes a `name=value` item of a `Sim.Params` field.
pub fn format_sim_param_pair(name: &str, value: &str) -> (r: String)
    ensures
        r@ == param_pair_text(name@, value@),
{
    let v = str_to_chars(value);
    let mut quote = false;
    let mut i: usize = 0;
    while i < v.len()
        invariant
            0 <= i <= v.len(),
            v@ == value@,
            quote <==> exists|k: int| 0 <= k < i && (crate::text::is_ws(#[trigger] v@[k]) || v@[k] == '"' || v@[k] == '\\'),
        decreases v.len() - i,
    {
        if crate::text::is_whitespace(v[i]) || v[i] == '"' || v[i] == '\\' {
            quote = true;
        }
        i = i + 1;
    }
    let mut out = str_to_chars(name);
    out.push('=');
    if quote {
        out.push('"');
        let ghost base = out@;
        let mut k: usize = 0;
        while k < v.len()
            invariant
                0 <= k <= v.len(),
                out@ == base + escape_param(v@.take(k as int)),
            decreases v.len() - k,
        {
            assert(v@.take(k + 1).drop_last() =~= v@.take(k as int));
            if v[k] == '"' || v[k] == '\\' {
                out.push('\\');
                out.push(v[k]);
                assert(base + escape_param(v@.take(k + 1)) =~= base + escape_param(v@.take(k as int)) + seq!['\\', v@[k as int]]);
            } else {
                out.push(v[k]);
                assert(base + escape_param(v@.take(k + 1)) =~= (base + escape_param(v@.take(k as int))).push(v@[k as int]));
            }
            k = k + 1;
        }
        out.push('"');
        assert(v@.take(v@.len() as int) =~= v@);
        assert(out@ =~= name@ + seq!['=', '"'] + escape_param(value@) + seq!['"']);
    } else {
        let ghost base = out@;
        crate::text::push_range(&mut out, &v, 0, v.len());
        assert(v@.subrange(0, v@.len() as int) =~= v@);
        assert(out@ =~= name@ + seq!['='] + value@);
    }
    crate::text::seq_to_string(&out)
}

/// The value of a legacy `dc <value>` model text.
pub open spec fn legacy_dc_value(model: Seq<char>) -> Option<Seq<char>> {
    let toks = crate::text::tokens(model, 1);
    if toks.len() == 2 && crate::model::sim_params::eq_ignore_ascii_case(toks[0], "dc"@) {
        Some(toks[1])
    } else {
        None
    }
}

/// Reads a legacy `dc <value>` (or `dc(<value>)`) model text.
pub fn parse_legacy_dc_model_value(model: &str) -> (r: Option<String>)
    ensures
        match legacy_dc_value(model@) {
            Some(x) => r matches Some(y) && y@ == x,
            None => r is None,
        },
{
    let v = str_to_chars(model);
    let toks = crate::text::split_tokens(&v, 0, v.len(), 1);
    assert(v@.subrange(0, v@.len() as int) =~= v@);
    if toks.len() == 2 && toks[0].len() == 2 && crate::text::to_ascii_lowercase(toks[0][0]) == 'd'
        && crate::text::to_ascii_lowercase(toks[0][1]) == 'c' {
        proof {
            reveal_strlit("dc");
            assert(toks[0]@ == toks.deep_view()[0]) by {
                assert(toks[0].deep_view() =~= toks[0]@);
            }
        }
        assert(crate::model::sim_params::eq_ignore_ascii_case(toks.deep_view()[0], "dc"@));
        assert(toks[1]@ == toks.deep_view()[1]) by {
            assert(toks[1].deep_view() =~= toks[1]@);
        }
        return Some(crate::text::seq_to_string(&toks[1]));
    }
    proof {
        reveal_strlit("dc");
        if toks.len() == 2 {
            assert(toks[0]@ == toks.deep_view()[0]) by {
                assert(toks[0].deep_view() =~= toks[0]@);
            }
            if crate::model::sim_params::eq_ignore_ascii_case(toks.deep_view()[0], "dc"@) {
                assert(crate::text::lower_ascii(toks[0]@[0]) == crate::text::lower_ascii('d'));
                assert(crate::text::lower_ascii(toks[0]@[1]) == crate::text::lower_ascii('c'));
            }
        }
    }
    None
}

/// Position of the last `c`, or -1 where there is none.
pub open spec fn last_index_of(s: Seq<char>, c: char) -> int
    decreases s.len(),
{
    if s.len() == 0 {
        -1
    } else if s.last() == c {
        s.len() - 1
    } else {
        last_index_of(s.drop_last(), c)
    }
}

pub proof fn lemma_last_index_of(s: Seq<char>, c: char)
    ensures
        -1 <= last_index_of(s, c) < s.len(),
    decreases s.len(),
{
    if s.len() > 0 && s.last() != c {
        lemma_last_index_of(s.drop_last(), c);
    }
}

/// The kind name and parameter names of a legacy waveform source (the kind compared
/// without regard to ASCII case).
pub open spec fn source_param_names(kind: Seq<char>) -> Option<(Seq<char>, Seq<Seq<char>>)> {
    if eq_ic(kind, "SIN"@) {
        Some(("SIN"@, seq!["dc"@, "ampl"@, "f"@, "td"@, "theta"@, "phase"@]))
    } else if eq_ic(kind, "PULSE"@) {
        Some(("PULSE"@, seq!["y1"@, "y2"@, "td"@, "tr"@, "tf"@, "tw"@, "per"@, "np"@]))
    } else if eq_ic(kind, "EXP"@) {
        Some(("EXP"@, seq!["y1"@, "y2"@, "td1"@, "tau1"@, "td2"@, "tau2"@]))
    } else if eq_ic(kind, "AM"@) {
        Some(("AM"@, seq!["vo"@, "vmo"@, "vma"@, "fm"@, "fc"@, "td"@, "phasem"@, "phasec"@]))
    } else if eq_ic(kind, "SFFM"@) {
        Some(("SFFM"@, seq!["vo"@, "va"@, "fm"@, "mdi"@, "fc"@, "phasem"@, "phasec"@]))
    } else if eq_ic(kind, "WHITENOISE"@) {
        Some(("WHITENOISE"@, seq!["rms"@, "dt"@]))
    } else if eq_ic(kind, "PINKNOISE"@) {
        Some(("PINKNOISE"@, seq!["rms"@, "slope"@, "dt"@]))
    } else if eq_ic(kind, "BURSTNOISE"@) {
        Some(("BURSTNOISE"@, seq!["ampl"@, "tcapt"@, "temit"@]))
    } else if eq_ic(kind, "RANDUNIFORM"@) {
        Some(("RANDUNIFORM"@, seq!["ts"@, "td"@, "range"@, "offset"@]))
    } else if eq_ic(kind, "RANDGAUSSIAN"@) {
        Some(("RANDGAUSSIAN"@, seq!["ts"@, "td"@, "stddev"@, "mean"@]))
    } else if eq_ic(kind, "RANDEXP"@) {
        Some(("RANDEXP"@, seq!["ts"@, "td"@, "mean"@, "offset"@]))
    } else if eq_ic(kind, "RANDPOISSON"@) {
        Some(("RANDPOISSON"@, seq!["ts"@, "td"@, "lambda"@, "offset"@]))
    } else {
        None
    }
}

/// Names paired with arguments, as far as both reach.
pub open spec fn zip_names(names: Seq<Seq<char>>, args: Seq<Seq<char>>) -> Seq<(Seq<char>, Seq<char>)> {
    let n = if names.len() < args.len() {
        names.len()
    } else {
        args.len()
    };
    Seq::new(n, |i: int| (names[i], args[i]))
}

/// The waveform kind and named parameters of a legacy source model text such as
/// `sin(0 1 1k)`.
pub open spec fn legacy_source_model(m: Seq<char>) -> Option<(Seq<char>, Seq<(Seq<char>, Seq<char>)>)> {
    let open = crate::text::index_of_from(m, '(', 0);
    let close = last_index_of(m, ')');
    if open >= m.len() || close < 0 || close <= open {
        None
    } else {
        let kind = crate::text::trim(m.subrange(0, open));
        let inner = m.subrange(open + 1, close);
        if crate::model::sim_params::eq_ignore_ascii_case(kind, "pwl"@) {
            Some(("PWL"@, seq![("pwl"@, crate::text::trim(inner))]))
        } else {
            match source_param_names(kind) {
                Some(k) => Some((k.0, zip_names(k.1, crate::text::tokens(inner, 2)))),
                None => None,
            }
        }
    }
}

/// A legacy waveform source: its kind and its named parameters in order.
pub struct LegacySourceModel {
    pub kind: &'static str,
    pub params: Vec<(&'static str, String)>,
}

/// The views of a list of static names.
pub open spec fn name_views(v: Seq<&'static str>) -> Seq<Seq<char>> {
    v.map_values(|x: &'static str| x@)
}

/// The views of a list of named parameters.
pub open spec fn param_views(v: Seq<(&'static str, String)>) -> Seq<(Seq<char>, Seq<char>)> {
    v.map_values(|p: (&'static str, String)| (p.0@, p.1@))
}

fn names_vec(a: &'static str, rest: Vec<&'static str>) -> (r: Vec<&'static str>)
    ensures
        name_views(r@) == seq![a@] + name_views(rest@),
{
    let mut out: Vec<&'static str> = Vec::new();
    out.push(a);
    let mut i: usize = 0;
    while i < rest.len()
        invariant
            0 <= i <= rest.len(),
            name_views(out@) == seq![a@] + name_views(rest@.take(i as int)),
        decreases rest.len() - i,
    {
        let ghost prev = out@;
        out.push(rest[i]);
        assert(name_views(out@) =~= name_views(prev).push(rest@[i as int]@));
        assert(name_views(rest@.take(i + 1)) =~= name_views(rest@.take(i as int)).push(rest@[i as int]@));
        i = i + 1;
        assert(name_views(out@) =~= seq![a@] + name_views(rest@.take(i as int)));
    }
    assert(rest@.take(rest@.len() as int) =~= rest@);
    out
}

fn source_param_names_exec(kind: &Vec<char>) -> (r: Option<(&'static str, Vec<&'static str>)>)
    ensures
        match source_param_names(kind@) {
            Some(k) => r matches Some(x) && x.0@ == k.0 && name_views(x.1@) == k.1,
            None => r is None,
        },
{
    let e: Vec<&'static str> = Vec::new();
    assert(name_views(e@) =~= Seq::<Seq<char>>::empty());
    if eq_ic_exec(kind, "SIN") {
        let v = names_vec("dc", names_vec("ampl", names_vec("f", names_vec("td", names_vec("theta", names_vec("phase", e))))));
        assert(name_views(v@) =~= seq!["dc"@, "ampl"@, "f"@, "td"@, "theta"@, "phase"@]);
        Some(("SIN", v))
    } else if eq_ic_exec(kind, "PULSE") {
        let v = names_vec("y1", names_vec("y2", names_vec("td", names_vec("tr", names_vec("tf", names_vec("tw", names_vec("per", names_vec("np", e))))))));
        assert(name_views(v@) =~= seq!["y1"@, "y2"@, "td"@, "tr"@, "tf"@, "tw"@, "per"@, "np"@]);
        Some(("PULSE", v))
    } else if eq_ic_exec(kind, "EXP") {
        let v = names_vec("y1", names_vec("y2", names_vec("td1", names_vec("tau1", names_vec("td2", names_vec("tau2", e))))));
        assert(name_views(v@) =~= seq!["y1"@, "y2"@, "td1"@, "tau1"@, "td2"@, "tau2"@]);
        Some(("EXP", v))
    } else if eq_ic_exec(kind, "AM") {
        let v = names_vec("vo", names_vec("vmo", names_vec("vma", names_vec("fm", names_vec("fc", names_vec("td", names_vec("phasem", names_vec("phasec", e))))))));
        assert(name_views(v@) =~= seq!["vo"@, "vmo"@, "vma"@, "fm"@, "fc"@, "td"@, "phasem"@, "phasec"@]);
        Some(("AM", v))
    } else if eq_ic_exec(kind, "SFFM") {
        let v = names_vec("vo", names_vec("va", names_vec("fm", names_vec("mdi", names_vec("fc", names_vec("phasem", names_vec("phasec", e)))))));
        assert(name_views(v@) =~= seq!["vo"@, "va"@, "fm"@, "mdi"@, "fc"@, "phasem"@, "phasec"@]);
        Some(("SFFM", v))
    } else if eq_ic_exec(kind, "WHITENOISE") {
        let v = names_vec("rms", names_vec("dt", e));
        assert(name_views(v@) =~= seq!["rms"@, "dt"@]);
        Some(("WHITENOISE", v))
    } else if eq_ic_exec(kind, "PINKNOISE") {
        let v = names_vec("rms", names_vec("slope", names_vec("dt", e)));
        assert(name_views(v@) =~= seq!["rms"@, "slope"@, "dt"@]);
        Some(("PINKNOISE", v))
    } else if eq_ic_exec(kind, "BURSTNOISE") {
        let v = names_vec("ampl", names_vec("tcapt", names_vec("temit", e)));
        assert(name_views(v@) =~= seq!["ampl"@, "tcapt"@, "temit"@]);
        Some(("BURSTNOISE", v))
    } else if eq_ic_exec(kind, "RANDUNIFORM") {
        let v = names_vec("ts", names_vec("td", names_vec("range", names_vec("offset", e))));
        assert(name_views(v@) =~= seq!["ts"@, "td"@, "range"@, "offset"@]);
        Some(("RANDUNIFORM", v))
    } else if eq_ic_exec(kind, "RANDGAUSSIAN") {
        let v = names_vec("ts", names_vec("td", names_vec("stddev", names_vec("mean", e))));
        assert(name_views(v@) =~= seq!["ts"@, "td"@, "stddev"@, "mean"@]);
        Some(("RANDGAUSSIAN", v))
    } else if eq_ic_exec(kind, "RANDEXP") {
        let v = names_vec("ts", names_vec("td", names_vec("mean", names_vec("offset", e))));
        assert(name_views(v@) =~= seq!["ts"@, "td"@, "mean"@, "offset"@]);
        Some(("RANDEXP", v))
    } else if eq_ic_exec(kind, "RANDPOISSON") {
        let v = names_vec("ts", names_vec("td", names_vec("lambda", names_vec("offset", e))));
        assert(name_views(v@) =~= seq!["ts"@, "td"@, "lambda"@, "offset"@]);
        Some(("RANDPOISSON", v))
    } else {
        None
    }
}

/// Reads a legacy waveform source model text such as `sin(0 1 1k)` or `pwl(0 0 1m 5)`
/// into its kind and named parameters.
pub fn parse_legacy_source_model(model: &str) -> (r: Option<LegacySourceModel>)
    ensures
        match legacy_source_model(model@) {
            Some(x) => r matches Some(m) && m.kind@ == x.0 && param_views(m.params@) == x.1,
            None => r is None,
        },
{
    let v = str_to_chars(model);
    assert(v@.subrange(0, v@.len() as int) =~= v@);
    let open = crate::text::find_char(&v, 0, v.len(), '(');
    if open >= v.len() {
        return None;
    }
    let mut close_plus_one = v.len();
    while close_plus_one > 0 && v[close_plus_one - 1] != ')'
        invariant
            close_plus_one <= v.len(),
            last_index_of(v@, ')') == last_index_of(v@.take(close_plus_one as int), ')'),
        decreases close_plus_one,
    {
        assert(v@.take(close_plus_one as int).drop_last() =~= v@.take(close_plus_one - 1));
        close_plus_one = close_plus_one - 1;
    }
    assert(v@.take(v@.len() as int) =~= v@);
    if close_plus_one == 0 {
        return None;
    }
    let close = close_plus_one - 1;
    if close <= open {
        return None;
    }
    let (ka, kb) = crate::text::trim_bounds(&v, 0, open);
    let mut kind: Vec<char> = Vec::new();
    crate::text::push_range(&mut kind, &v, ka, kb);
    assert(kind@ =~= crate::text::trim(v@.subrange(0, open as int)));
    proof {
        reveal_strlit("pwl");
        reveal_strlit("PWL");
    }
    if crate::model::sim_params::eq_ignore_case_str(&kind, "pwl") {
        let (ia, ib) = crate::text::trim_bounds(&v, open + 1, close);
        let inner = crate::text::chars_to_string(&v, ia, ib);
        let mut params: Vec<(&'static str, String)> = Vec::new();
        params.push(("pwl", inner));
        assert(param_views(params@) =~= seq![("pwl"@, crate::text::trim(v@.subrange(open + 1, close as int)))]);
        return Some(LegacySourceModel { kind: "PWL", params });
    }
    let names = source_param_names_exec(&kind);
    match names {
        None => None,
        Some((k, names)) => {
            let args = crate::text::split_tokens(&v, open + 1, close, 2);
            let n = if names.len() < args.len() {
                names.len()
            } else {
                args.len()
            };
            let ghost target = zip_names(name_views(names@), args.deep_view());
            let mut params: Vec<(&'static str, String)> = Vec::new();
            let mut i: usize = 0;
            while i < n
                invariant
                    0 <= i <= n,
                    n <= names.len(),
                    n <= args.len(),
                    target == zip_names(name_views(names@), args.deep_view()),
                    target.len() == n,
                    param_views(params@) == target.take(i as int),
                decreases n - i,
            {
                let value = crate::text::seq_to_string(&args[i]);
                assert(args[i as int]@ == args.deep_view()[i as int]) by {
                    assert(args[i as int].deep_view() =~= args[i as int]@);
                }
                let ghost prev = params@;
                params.push((names[i], value));
                assert(param_views(params@) =~= param_views(prev).push((names@[i as int]@, args.deep_view()[i as int])));
                assert(target.take(i + 1) =~= target.take(i as int).push(target[i as int]));
                i = i + 1;
                assert(param_views(params@) =~= target.take(i as int));
            }
            assert(target.take(n as int) =~= target);
            Some(LegacySourceModel { kind: k, params })
        },
    }
}

/// `symbol=model` items for the first `n` pins, separated by single spaces.
pub open spec fn join_pin_items(sp: Seq<Seq<char>>, mp: Seq<Seq<char>>, n: int) -> Seq<char>
    decreases n,
{
    if n <= 0 {
        Seq::empty()
    } else if n == 1 {
        sp[0] + seq!['='] + mp[0]
    } else {
        join_pin_items(sp, mp, n - 1) + seq![' '] + sp[n - 1] + seq!['='] + mp[n - 1]
    }
}

/// The `Sim.Pins` text that a legacy pin mapping migrates to: a two-pin passive
/// (reference prefix starting with R, L or C) gets `+`/`-` (swapped where its first
/// model pin is `2`); other symbols get their pins paired with the model pin indexes.
pub open spec fn migrated_pins(prefix: Seq<char>, sp: Seq<Seq<char>>, mp: Seq<Seq<char>>) -> Seq<char> {
    let passive = prefix.len() > 0 && (prefix[0] == 'R' || prefix[0] == 'L' || prefix[0] == 'C');
    if passive && mp.len() == 2 && sp.len() == 2 {
        if mp[0] == seq!['2'] {
            sp[0] + seq!['=', '-', ' '] + sp[1] + seq!['=', '+']
        } else {
            sp[0] + seq!['=', '+', ' '] + sp[1] + seq!['=', '-']
        }
    } else {
        join_pin_items(sp, mp, if sp.len() < mp.len() { sp.len() as int } else { mp.len() as int })
    }
}

/// The views of a list of strings.
pub open spec fn string_views(v: Seq<String>) -> Seq<Seq<char>> {
    v.map_values(|x: String| x@)
}

/// Writes the `Sim.Pins` text for migrated legacy pin indexes.
pub fn migrated_sim_pins_value(prefix: &str, source_pins: &[String], pin_indexes: &[&str]) -> (r: String)
    ensures
        r@ == migrated_pins(prefix@, string_views(source_pins@), pin_indexes@.map_values(|x: &str| x@)),
{
    let mut toks: Vec<Vec<char>> = Vec::new();
    let mut i: usize = 0;
    while i < pin_indexes.len()
        invariant
            0 <= i <= pin_indexes.len(),
            toks.deep_view() == pin_indexes@.map_values(|x: &str| x@).take(i as int),
        decreases pin_indexes.len() - i,
    {
        let t = str_to_chars(pin_indexes[i]);
        assert(t.deep_view() =~= t@);
        let ghost before = toks.deep_view();
        toks.push(t);
        assert(toks.deep_view() =~= before.push(pin_indexes@[i as int]@));
        assert(pin_indexes@.map_values(|x: &str| x@).take(i + 1) =~= pin_indexes@.map_values(|x: &str| x@).take(i as int).push(pin_indexes@[i as int]@));
        i = i + 1;
    }
    assert(pin_indexes@.map_values(|x: &str| x@).take(pin_indexes.len() as int) =~= pin_indexes@.map_values(|x: &str| x@));
    migrated_pins_text(prefix, source_pins, &toks)
}

/// Writes the `Sim.Pins` text for migrated legacy pin indexes given as characters.
pub(crate) fn migrated_pins_text(prefix: &str, source_pins: &[String], toks: &Vec<Vec<char>>) -> (r: String)
    ensures
        r@ == migrated_pins(prefix@, string_views(source_pins@), toks.deep_view()),
{
    let ghost sp = string_views(source_pins@);
    let ghost mp = toks.deep_view();
    let p = str_to_chars(prefix);
    let passive = p.len() > 0 && (p[0] == 'R' || p[0] == 'L' || p[0] == 'C');
    let mut out: Vec<char> = Vec::new();
    if passive && toks.len() == 2 && source_pins.len() == 2 {
        assert(toks[0]@ == mp[0]) by {
            assert(toks[0].deep_view() =~= toks[0]@);
        }
        let swapped = toks[0].len() == 1 && toks[0][0] == '2';
        assert(swapped == (mp[0] == seq!['2'])) by {
            if swapped {
                assert(toks[0]@ =~= seq!['2']);
            }
        }
        crate::text::push_str(&mut out, source_pins[0].as_str());
        out.push('=');
        out.push(if swapped { '-' } else { '+' });
        out.push(' ');
        crate::text::push_str(&mut out, source_pins[1].as_str());
        out.push('=');
        out.push(if swapped { '+' } else { '-' });
        assert(sp[0] == source_pins@[0]@ && sp[1] == source_pins@[1]@);
        if swapped {
            assert(out@ =~= sp[0] + seq!['=', '-', ' '] + sp[1] + seq!['=', '+']);
        } else {
            assert(out@ =~= sp[0] + seq!['=', '+', ' '] + sp[1] + seq!['=', '-']);
        }
        return crate::text::seq_to_string(&out);
    }
    let n = if source_pins.len() < toks.len() {
        source_pins.len()
    } else {
        toks.len()
    };
    let mut i: usize = 0;
    while i < n
        invariant
            0 <= i <= n,
            n <= source_pins.len(),
            n <= toks.len(),
            sp == string_views(source_pins@),
            mp == toks.deep_view(),
            out@ == join_pin_items(sp, mp, i as int),
        decreases n - i,
    {
        let ghost prev = out@;
        if i > 0 {
            out.push(' ');
        }
        crate::text::push_str(&mut out, source_pins[i].as_str());
        out.push('=');
        crate::text::push_range(&mut out, &toks[i], 0, toks[i].len());
        assert(toks[i as int]@.subrange(0, toks[i as int]@.len() as int) =~= toks[i as int]@);
        assert(sp[i as int] == source_pins@[i as int]@);
        assert(mp[i as int] == toks[i as int]@) by {
            assert(toks[i as int].deep_view() =~= toks[i as int]@);
        }
        if i > 0 {
            assert(out@ =~= prev + seq![' '] + sp[i as int] + seq!['='] + mp[i as int]);
        } else {
            assert(out@ =~= sp[0] + seq!['='] + mp[0]);
        }
        i = i + 1;
    }
    crate::text::seq_to_string(&out)
}

/// `BTreeMap::insert` on a string-keyed map: the key is bound to the value afterwards
/// (string keys are totally ordered, so the map behaves as a finite map).
#[verifier::external_body]
pub(crate) fn string_map_insert(m: &mut std::collections::BTreeMap<String, String>, k: String, v: String)
    ensures
        final(m)@ == old(m)@.insert(k, v),
{
    m.insert(k, v);
}

/// The map that inserting the pairs in order gives; a later key wins.
pub open spec fn map_of_pairs(p: Seq<(String, String)>) -> Map<String, String>
    decreases p.len(),
{
    if p.len() == 0 {
        Map::empty()
    } else {
        map_of_pairs(p.drop_last()).insert(p.last().0, p.last().1)
    }
}

/// A text option, trimmed.
pub open spec fn opt_trim(o: Option<String>) -> Option<Seq<char>> {
    match o {
        Some(s) => Some(crate::text::trim(s@)),
        None => None,
    }
}

/// The model pins that a model of this device and type gets by default, given the
/// number of symbol pins; `None` where there is no default.
pub open spec fn default_model_pins(dev: Option<Seq<char>>, mt: Option<Seq<char>>, n: nat) -> Option<Seq<Seq<char>>> {
    let blank = mt is None || mt == Some(""@);
    let inferred = ((dev == Some("R"@) || dev == Some("C"@) || dev == Some("L"@)) && (blank || mt == Some("="@)))
        || ((dev == Some("V"@) || dev == Some("I"@)) && (blank || mt == Some("DC"@)));
    let control = (dev == Some("E"@) || dev == Some("G"@)) && blank;
    let current_control = (dev == Some("F"@) || dev == Some("H"@)) && blank;
    let internal = (dev == Some("V"@) || dev == Some("I"@)) && mt is Some && is_internal_source_type(mt->0);
    if inferred && n == 2 {
        Some(seq!["+"@, "-"@])
    } else if control && n == 4 {
        Some(seq!["+"@, "-"@, "C+"@, "C-"@])
    } else if current_control && n == 2 {
        Some(seq!["+"@, "-"@])
    } else if internal && n == 2 {
        Some(seq!["1"@, "2"@])
    } else {
        None
    }
}

/// The pairs of symbol pins with model pins.
pub open spec fn pair_views(v: Seq<(String, String)>) -> Seq<(Seq<char>, Seq<char>)> {
    v.map_values(|p: (String, String)| (p.0@, p.1@))
}

/// Two simulation models agree on every field but the pin pairs and the pin map.
pub open spec fn same_but_pins(a: crate::model::SimModel, b: crate::model::SimModel) -> bool {
    &&& a.device == b.device
    &&& a.model_type == b.model_type
    &&& a.library == b.library
    &&& a.name == b.name
    &&& a.ibis_pin == b.ibis_pin
    &&& a.ibis_model == b.ibis_model
    &&& a.ibis_diff == b.ibis_diff
    &&& a.params == b.params
    &&& a.param_pairs == b.param_pairs
    &&& a.param_values == b.param_values
    &&& a.value_binding == b.value_binding
    &&& a.stored_value == b.stored_value
    &&& a.enabled == b.enabled
    &&& a.origin == b.origin
    &&& a.resolved_library == b.resolved_library
    &&& a.resolved_name == b.resolved_name
    &&& a.resolved_kind == b.resolved_kind
    &&& a.resolved_model_type == b.resolved_model_type
    &&& a.resolved_ibis_model_type == b.resolved_ibis_model_type
    &&& a.resolved_ibis_diff_pin == b.resolved_ibis_diff_pin
    &&& a.generated_pin_names == b.generated_pin_names
    &&& a.generated_param_pairs == b.generated_param_pairs
}

/// `new` is `old` given its default pins where it has none and its device and type have
/// defaults for the number of symbol pins (`r` tells whether it was), else `old` itself.
pub open spec fn defaulted_pins(old: crate::model::SimModel, new: crate::model::SimModel, pins: Seq<Seq<char>>, r: bool) -> bool {
    &&& same_but_pins(old, new)
    &&& match default_model_pins(opt_trim(old.device), opt_trim(old.model_type), pins.len()) {
        Some(names) => if old.pin_pairs@.len() == 0 {
            &&& r
            &&& pair_views(new.pin_pairs@) == Seq::new(names.len(), |i: int| (pins[i], names[i]))
            &&& new.pins@ == map_of_pairs(new.pin_pairs@)
        } else {
            !r && new == old
        },
        None => !r && new == old,
    }
}

fn trimmed_opt(o: &Option<String>) -> (r: Option<Vec<char>>)
    ensures
        match opt_trim(*o) {
            Some(t) => r matches Some(v) && v@ == t,
            None => r is None,
        },
{
    match o {
        Some(s) => Some(crate::text::trimmed_chars(s.as_str())),
        None => None,
    }
}

fn opt_is(o: &Option<Vec<char>>, t: &str) -> (b: bool)
    ensures
        b == (o matches Some(v) && v@ == t@),
{
    match o {
        Some(v) => eq(v, t),
        None => false,
    }
}

/// Gives a model without pin assignments its default pins: `+`/`-` for two-pin passives
/// and DC sources, `+ - C+ C-` for voltage-controlled sources, `+`/`-` for
/// current-controlled sources, `1`/`2` for waveform sources. Whether it did so is returned.
pub fn maybe_default_current_sim_pins(sim_model: &mut crate::model::SimModel, source_pins: &[String]) -> (r: bool)
    ensures
        defaulted_pins(*old(sim_model), *final(sim_model), string_views(source_pins@), r),
{
    if sim_model.pin_pairs.len() != 0 {
        return false;
    }
    let dev = trimmed_opt(&sim_model.device);
    let mt = trimmed_opt(&sim_model.model_type);
    proof {
        reveal_strlit("");
        reveal_strlit("+");
        reveal_strlit("-");
        reveal_strlit("C+");
        reveal_strlit("C-");
        reveal_strlit("1");
        reveal_strlit("2");
    }
    let blank = mt.is_none() || opt_is(&mt, "");
    let inferred = ((opt_is(&dev, "R") || opt_is(&dev, "C") || opt_is(&dev, "L")) && (blank || opt_is(&mt, "=")))
        || ((opt_is(&dev, "V") || opt_is(&dev, "I")) && (blank || opt_is(&mt, "DC")));
    let control = (opt_is(&dev, "E") || opt_is(&dev, "G")) && blank;
    let current_control = (opt_is(&dev, "F") || opt_is(&dev, "H")) && blank;
    let internal = (opt_is(&dev, "V") || opt_is(&dev, "I")) && match &mt {
        Some(t) => internal_source_type(t),
        None => false,
    };
    let ghost dv = opt_trim(sim_model.device);
    let ghost mv = opt_trim(sim_model.model_type);
    assert(blank == (mv is None || mv == Some(""@)));
    let mut names: Vec<&'static str> = Vec::new();
    if inferred && source_pins.len() == 2 {
        names.push("+");
        names.push("-");
    } else if control && source_pins.len() == 4 {
        names.push("+");
        names.push("-");
        names.push("C+");
        names.push("C-");
    } else if current_control && source_pins.len() == 2 {
        names.push("+");
        names.push("-");
    } else if internal && source_pins.len() == 2 {
        names.push("1");
        names.push("2");
    } else {
        return false;
    }
    let ghost target = default_model_pins(dv, mv, source_pins@.len())->0;
    assert(name_views(names@) =~= target);
    let mut pairs: Vec<(String, String)> = Vec::new();
    let mut pins: std::collections::BTreeMap<String, String> = std::collections::BTreeMap::new();
    let mut i: usize = 0;
    while i < names.len()
        invariant
            0 <= i <= names.len(),
            names.len() <= source_pins.len(),
            name_views(names@) == target,
            pair_views(pairs@) == Seq::new(i as nat, |k: int| (source_pins@[k]@, target[k])),
            pins@ == map_of_pairs(pairs@),
        decreases names.len() - i,
    {
        let sym = source_pins[i].clone();
        let model = names[i].to_owned();
        let ghost prev = pairs@;
        pairs.push((sym.clone(), model.clone()));
        string_map_insert(&mut pins, sym, model);
        assert(pairs@.drop_last() =~= prev);
        assert(target[i as int] == names@[i as int]@);
        assert(pairs@.last().0@ == source_pins@[i as int]@);
        assert(pairs@.last().1@ == target[i as int]);
        assert(pair_views(pairs@) =~= pair_views(prev).push((source_pins@[i as int]@, target[i as int])));
        assert(pair_views(pairs@) =~= Seq::new((i + 1) as nat, |k: int| (source_pins@[k]@, target[k])));
        i = i + 1;
    }
    assert(pair_views(pairs@) =~= Seq::new(target.len(), |k: int| (string_views(source_pins@)[k], target[k])));
    sim_model.pin_pairs = pairs;
    sim_model.pins = pins;
    true
}

/// Index of the first sheet path at or after `i` with the given instance path, or the
/// length where there is none.
pub open spec fn first_instance_from(paths: Seq<LoadedSheetPath>, ip: Seq<char>, i: int) -> int
    decreases paths.len() - i,
{
    if 0 <= i < paths.len() && paths[i].instance_path@ != ip {
        first_instance_from(paths, ip, i + 1)
    } else {
        i
    }
}

pub proof fn lemma_first_instance_from(paths: Seq<LoadedSheetPath>, ip: Seq<char>, i: int)
    requires
        0 <= i <= paths.len(),
    ensures
        i <= first_instance_from(paths, ip, i) <= paths.len(),
        first_instance_from(paths, ip, i) < paths.len() ==> paths[first_instance_from(paths, ip, i)].instance_path@ == ip,
        forall|k: int| i <= k < first_instance_from(paths, ip, i) ==> (#[trigger] paths[k]).instance_path@ != ip,
    decreases paths.len() - i,
{
    if 0 <= i < paths.len() && paths[i].instance_path@ != ip {
        lemma_first_instance_from(paths, ip, i + 1);
    }
}

/// Index of the sheet path with the given instance path (the first one), if any.
pub open spec fn instance_index(paths: Seq<LoadedSheetPath>, ip: Seq<char>) -> Option<int> {
    let k = first_instance_from(paths, ip, 0);
    if k < paths.len() {
        Some(k)
    } else {
        None
    }
}

/// The sheet path with the given instance path.
pub fn sheet_path<'a>(sheet_paths: &'a Vec<LoadedSheetPath>, instance_path: &str) -> (r: Option<&'a LoadedSheetPath>)
    ensures
        match instance_index(sheet_paths@, instance_path@) {
            Some(k) => r matches Some(p) && *p == sheet_paths@[k],
            None => r is None,
        },
{
    let mut i: usize = 0;
    proof {
        lemma_first_instance_from(sheet_paths@, instance_path@, 0);
    }
    while i < sheet_paths.len()
        invariant
            0 <= i <= sheet_paths.len(),
            first_instance_from(sheet_paths@, instance_path@, 0) == first_instance_from(sheet_paths@, instance_path@, i as int),
        decreases sheet_paths.len() - i,
    {
        if crate::text::str_eq(sheet_paths[i].instance_path.as_str(), instance_path) {
            return Some(&sheet_paths[i]);
        }
        i = i + 1;
    }
    None
}

/// A symbol path lies in the sheet with symbol path `sheet`: equal to it, or below it.
pub open spec fn in_sheet(symbol_path: Seq<char>, sheet: Seq<char>) -> bool {
    symbol_path == sheet || (symbol_path.len() > sheet.len() && symbol_path.subrange(0, sheet.len() as int) == sheet
        && symbol_path[sheet.len() as int] == '/')
}

/// Among the first `n` sheet paths, the index of the deepest one that contains the
/// symbol path (the last of equally deep ones), or -1.
pub open spec fn deepest_sheet_upto(paths: Seq<LoadedSheetPath>, sp: Seq<char>, n: int) -> int
    decreases n,
{
    if n <= 0 {
        -1
    } else {
        let b = deepest_sheet_upto(paths, sp, n - 1);
        if in_sheet(sp, paths[n - 1].symbol_path@) && (b < 0 || paths[n - 1].symbol_path@.len()
            >= paths[b].symbol_path@.len()) {
            n - 1
        } else {
            b
        }
    }
}

pub proof fn lemma_deepest_sheet_upto(paths: Seq<LoadedSheetPath>, sp: Seq<char>, n: int)
    requires
        0 <= n <= paths.len(),
    ensures
        -1 <= deepest_sheet_upto(paths, sp, n) < n,
        deepest_sheet_upto(paths, sp, n) >= 0 ==> in_sheet(sp, paths[deepest_sheet_upto(paths, sp, n)].symbol_path@),
        deepest_sheet_upto(paths, sp, n) < 0 ==> forall|k: int| 0 <= k < n ==> !in_sheet(sp, (#[trigger] paths[k]).symbol_path@),
        deepest_sheet_upto(paths, sp, n) >= 0 ==> forall|k: int| 0 <= k < n && in_sheet(sp, (#[trigger] paths[k]).symbol_path@)
            ==> paths[k].symbol_path@.len() <= paths[deepest_sheet_upto(paths, sp, n)].symbol_path@.len(),
    decreases n,
{
    if n > 0 {
        lemma_deepest_sheet_upto(paths, sp, n - 1);
    }
}

fn in_sheet_exec(sp: &Vec<char>, sheet: &String) -> (b: bool)
    ensures
        b == in_sheet(sp@, sheet@),
{
    let sh = crate::text::string_chars(sheet);
    if crate::text::range_eq(sp, 0, sp.len(), &sh, 0, sh.len()) {
        assert(sp@.subrange(0, sp@.len() as int) =~= sp@);
        assert(sh@.subrange(0, sh@.len() as int) =~= sh@);
        return true;
    }
    assert(sp@.subrange(0, sp@.len() as int) =~= sp@);
    assert(sh@.subrange(0, sh@.len() as int) =~= sh@);
    if sp.len() > sh.len() && sp[sh.len()] == '/' {
        crate::text::range_eq(sp, 0, sh.len(), &sh, 0, sh.len())
    } else {
        false
    }
}

fn deepest_sheet(sheet_paths: &Vec<LoadedSheetPath>, sp: &Vec<char>) -> (r: Option<usize>)
    ensures
        match r {
            Some(k) => k as int == deepest_sheet_upto(sheet_paths@, sp@, sheet_paths@.len() as int),
            None => deepest_sheet_upto(sheet_paths@, sp@, sheet_paths@.len() as int) == -1,
        },
{
    let mut best: Option<usize> = None;
    let mut best_len: usize = 0;
    let mut i: usize = 0;
    while i < sheet_paths.len()
        invariant
            0 <= i <= sheet_paths.len(),
            match best {
                Some(k) => k as int == deepest_sheet_upto(sheet_paths@, sp@, i as int) && k < i
                    && best_len == sheet_paths@[k as int].symbol_path@.len(),
                None => deepest_sheet_upto(sheet_paths@, sp@, i as int) == -1,
            },
        decreases sheet_paths.len() - i,
    {
        let entry = &sheet_paths[i];
        if in_sheet_exec(sp, &entry.symbol_path) {
            let l = crate::text::string_chars(&entry.symbol_path).len();
            match best {
                Some(_) => {
                    if l >= best_len {
                        best = Some(i);
                        best_len = l;
                    }
                },
                None => {
                    best = Some(i);
                    best_len = l;
                },
            }
        }
        i = i + 1;
    }
    best
}

/// The deepest sheet path that contains a symbol path (the last of equally deep ones).
pub fn sheet_path_for_symbol_path<'a>(sheet_paths: &'a Vec<LoadedSheetPath>, symbol_path: &str) -> (r: Option<&'a LoadedSheetPath>)
    ensures
        deepest_sheet_upto(sheet_paths@, symbol_path@, sheet_paths@.len() as int) < 0 ==> r is None,
        deepest_sheet_upto(sheet_paths@, symbol_path@, sheet_paths@.len() as int) >= 0 ==> (r matches Some(p)
            && *p == sheet_paths@[deepest_sheet_upto(sheet_paths@, symbol_path@, sheet_paths@.len() as int)]),
{
    let sp = str_to_chars(symbol_path);
    proof {
        lemma_deepest_sheet_upto(sheet_paths@, sp@, sheet_paths@.len() as int);
    }
    match deepest_sheet(sheet_paths, &sp) {
        Some(k) => Some(&sheet_paths[k]),
        None => None,
    }
}

/// The symbol path of the enclosing sheet: everything before the last `/` (empty where
/// there is none).
pub open spec fn parent_symbol_path(s: Seq<char>) -> Seq<char> {
    let k = last_index_of(s, '/');
    if k >= 0 {
        s.subrange(0, k)
    } else {
        Seq::empty()
    }
}

/// Index of the parent of the sheet with the given instance path, if it has one.
pub open spec fn parent_index(paths: Seq<LoadedSheetPath>, ip: Seq<char>) -> Option<int> {
    if ip.len() == 0 {
        None
    } else {
        match instance_index(paths, ip) {
            None => None,
            Some(c) => {
                let k = deepest_sheet_upto(paths, parent_symbol_path(paths[c].symbol_path@), paths.len() as int);
                if k >= 0 {
                    Some(k)
                } else {
                    None
                }
            },
        }
    }
}

/// A parent index is an index of the list.
pub proof fn lemma_parent_index_range(paths: Seq<LoadedSheetPath>, ip: Seq<char>)
    ensures
        parent_index(paths, ip) matches Some(k) ==> 0 <= k < paths.len(),
{
    if ip.len() != 0 {
        lemma_first_instance_from(paths, ip, 0);
        match instance_index(paths, ip) {
            Some(c) => {
                lemma_deepest_sheet_upto(paths, parent_symbol_path(paths[c].symbol_path@), paths.len() as int);
            },
            None => {},
        }
    }
}

fn parent_index_exec(sheet_paths: &Vec<LoadedSheetPath>, instance_path: &str) -> (r: Option<usize>)
    ensures
        parent_index(sheet_paths@, instance_path@) matches Some(k) ==> 0 <= k < sheet_paths@.len(),
        match parent_index(sheet_paths@, instance_path@) {
            Some(k) => r == Some(k as usize),
            None => r is None,
        },
        r matches Some(k) ==> k < sheet_paths.len(),
{
    proof {
        lemma_parent_index_range(sheet_paths@, instance_path@);
    }
    if instance_path.is_empty() {
        return None;
    }
    proof {
        lemma_first_instance_from(sheet_paths@, instance_path@, 0);
    }
    let mut i: usize = 0;
    while i < sheet_paths.len() && !crate::text::str_eq(sheet_paths[i].instance_path.as_str(), instance_path)
        invariant
            0 <= i <= sheet_paths.len(),
            first_instance_from(sheet_paths@, instance_path@, 0) == first_instance_from(sheet_paths@, instance_path@, i as int),
        decreases sheet_paths.len() - i,
    {
        i = i + 1;
    }
    if i >= sheet_paths.len() {
        return None;
    }
    assert(instance_index(sheet_paths@, instance_path@) == Some(i as int));
    let sym = crate::text::string_chars(&sheet_paths[i].symbol_path);
    let mut cut = sym.len();
    assert(sym@.take(sym@.len() as int) =~= sym@);
    while cut > 0 && sym[cut - 1] != '/'
        invariant
            cut <= sym.len(),
            last_index_of(sym@, '/') == last_index_of(sym@.take(cut as int), '/'),
        decreases cut,
    {
        assert(sym@.take(cut as int).drop_last() =~= sym@.take(cut - 1));
        cut = cut - 1;
    }
    assert(sym@.take(sym@.len() as int) =~= sym@);
    let mut parent: Vec<char> = Vec::new();
    if cut > 0 {
        crate::text::push_range(&mut parent, &sym, 0, cut - 1);
        assert(parent@ =~= parent_symbol_path(sym@));
    } else {
        assert(parent@ =~= parent_symbol_path(sym@));
    }
    proof {
        lemma_deepest_sheet_upto(sheet_paths@, parent@, sheet_paths@.len() as int);
    }
    deepest_sheet(sheet_paths, &parent)
}

/// The sheet path of the sheet that encloses the given one; none for the root.
pub fn parent_sheet_path<'a>(sheet_paths: &'a Vec<LoadedSheetPath>, instance_path: &str) -> (r: Option<&'a LoadedSheetPath>)
    ensures
        match parent_index(sheet_paths@, instance_path@) {
            Some(k) => r matches Some(p) && *p == sheet_paths@[k],
            None => r is None,
        },
{
    match parent_index_exec(sheet_paths, instance_path) {
        Some(k) => Some(&sheet_paths[k]),
        None => None,
    }
}

/// The chain of ancestors from the given sheet upward ends within `n` steps.
pub open spec fn ancestry_ends(paths: Seq<LoadedSheetPath>, ip: Seq<char>, n: nat) -> bool
    decreases n,
{
    match parent_index(paths, ip) {
        None => true,
        Some(k) => n > 0 && ancestry_ends(paths, paths[k].instance_path@, (n - 1) as nat),
    }
}

/// Indices of the ancestors, nearest first, within `n` steps.
pub open spec fn ancestor_indices(paths: Seq<LoadedSheetPath>, ip: Seq<char>, n: nat) -> Seq<int>
    decreases n,
{
    match parent_index(paths, ip) {
        None => Seq::empty(),
        Some(k) => if n == 0 {
            Seq::empty()
        } else {
            seq![k] + ancestor_indices(paths, paths[k].instance_path@, (n - 1) as nat)
        },
    }
}

pub proof fn lemma_ancestor_indices_stable(paths: Seq<LoadedSheetPath>, ip: Seq<char>, n: nat, m: nat)
    requires
        ancestry_ends(paths, ip, n),
        n <= m,
    ensures
        ancestry_ends(paths, ip, m),
        ancestor_indices(paths, ip, n) == ancestor_indices(paths, ip, m),
    decreases n,
{
    match parent_index(paths, ip) {
        None => {},
        Some(k) => {
            lemma_ancestor_indices_stable(paths, paths[k].instance_path@, (n - 1) as nat, (m - 1) as nat);
        },
    }
}

/// The ancestors of a sheet, nearest first. The chain of parents must end (it does
/// wherever each parent is a shallower sheet).
pub fn ancestor_sheet_paths<'a>(sheet_paths: &'a Vec<LoadedSheetPath>, instance_path: &str) -> (r: Vec<&'a LoadedSheetPath>)
    requires
        exists|n: nat| ancestry_ends(sheet_paths@, instance_path@, n),
    ensures
        forall|n: nat| #[trigger] ancestry_ends(sheet_paths@, instance_path@, n) ==> {
            let idx = ancestor_indices(sheet_paths@, instance_path@, n);
            &&& r@.len() == idx.len()
            &&& forall|i: int| 0 <= i < idx.len() ==> *r@[i] == sheet_paths@[#[trigger] idx[i]]
        },
{
    let ghost n0: nat = choose|n: nat| ancestry_ends(sheet_paths@, instance_path@, n);
    let mut out: Vec<&'a LoadedSheetPath> = Vec::new();
    let mut current = parent_index_exec(sheet_paths, instance_path);
    let ghost mut fuel: nat = n0;
    let ghost mut cur_ip: Seq<char> = instance_path@;
    let ghost total = ancestor_indices(sheet_paths@, instance_path@, n0);
    while current.is_some()
        invariant
            ancestry_ends(sheet_paths@, cur_ip, fuel),
            total == ancestor_indices(sheet_paths@, instance_path@, n0),
            match parent_index(sheet_paths@, cur_ip) {
                Some(k) => current == Some(k as usize),
                None => current is None,
            },
            current matches Some(k) ==> k < sheet_paths.len(),
            out@.len() + ancestor_indices(sheet_paths@, cur_ip, fuel).len() == total.len(),
            forall|i: int| 0 <= i < out@.len() ==> *out@[i] == sheet_paths@[#[trigger] total[i]],
            forall|i: int| 0 <= i < ancestor_indices(sheet_paths@, cur_ip, fuel).len() ==>
                #[trigger] ancestor_indices(sheet_paths@, cur_ip, fuel)[i] == total[out@.len() + i],
        decreases fuel,
    {
        let k = current.unwrap();
        proof {
            lemma_parent_index_range(sheet_paths@, cur_ip);
        }
        assert(parent_index(sheet_paths@, cur_ip) == Some(k as int));
        assert(fuel > 0);
        let ghost rest = ancestor_indices(sheet_paths@, cur_ip, fuel);
        assert(rest[0] == k);
        out.push(&sheet_paths[k]);
        proof {
            let next_ip = sheet_paths@[k as int].instance_path@;
            assert(rest == seq![k as int] + ancestor_indices(sheet_paths@, next_ip, (fuel - 1) as nat));
            assert forall|i: int| 0 <= i < ancestor_indices(sheet_paths@, next_ip, (fuel - 1) as nat).len() implies
                #[trigger] ancestor_indices(sheet_paths@, next_ip, (fuel - 1) as nat)[i] == total[out@.len() + i] by {
                assert(rest[i + 1] == ancestor_indices(sheet_paths@, next_ip, (fuel - 1) as nat)[i]);
            }
            cur_ip = next_ip;
            fuel = (fuel - 1) as nat;
        }
        current = parent_index_exec(sheet_paths, sheet_paths[k].instance_path.as_str());
    }
    proof {
        assert forall|n: nat| #[trigger] ancestry_ends(sheet_paths@, instance_path@, n) implies {
            let idx = ancestor_indices(sheet_paths@, instance_path@, n);
            &&& out@.len() == idx.len()
            &&& forall|i: int| 0 <= i < idx.len() ==> *out@[i] == sheet_paths@[#[trigger] idx[i]]
        } by {
            if n <= n0 {
                lemma_ancestor_indices_stable(sheet_paths@, instance_path@, n, n0);
            } else {
                lemma_ancestor_indices_stable(sheet_paths@, instance_path@, n0, n);
            }
        }
    }
    out
}

/// Indices of the sheet paths whose parent has the given instance path, in list order.
pub open spec fn child_indices_upto(paths: Seq<LoadedSheetPath>, ip: Seq<char>, n: int) -> Seq<int>
    decreases n,
{
    if n <= 0 {
        Seq::empty()
    } else {
        let rest = child_indices_upto(paths, ip, n - 1);
        match parent_index(paths, paths[n - 1].instance_path@) {
            Some(k) => if paths[k].instance_path@ == ip {
                rest.push(n - 1)
            } else {
                rest
            },
            None => rest,
        }
    }
}

/// The sheet paths directly below the given one, in list order.
pub fn child_sheet_paths<'a>(sheet_paths: &'a Vec<LoadedSheetPath>, instance_path: &str) -> (r: Vec<&'a LoadedSheetPath>)
    ensures
        r@.len() == child_indices_upto(sheet_paths@, instance_path@, sheet_paths@.len() as int).len(),
        forall|i: int| 0 <= i < r@.len() ==> *r@[i] == sheet_paths@[#[trigger] child_indices_upto(
            sheet_paths@,
            instance_path@,
            sheet_paths@.len() as int,
        )[i]],
{
    let mut out: Vec<&'a LoadedSheetPath> = Vec::new();
    let mut i: usize = 0;
    while i < sheet_paths.len()
        invariant
            0 <= i <= sheet_paths.len(),
            out@.len() == child_indices_upto(sheet_paths@, instance_path@, i as int).len(),
            forall|j: int| 0 <= j < out@.len() ==> *out@[j] == sheet_paths@[#[trigger] child_indices_upto(
                sheet_paths@,
                instance_path@,
                i as int,
            )[j]],
        decreases sheet_paths.len() - i,
    {
        let ghost prev = child_indices_upto(sheet_paths@, instance_path@, i as int);
        let ghost prev_out = out@;
        proof {
            lemma_parent_index_range(sheet_paths@, sheet_paths@[i as int].instance_path@);
        }
        match parent_index_exec(sheet_paths, sheet_paths[i].instance_path.as_str()) {
            Some(k) => {
                assert(parent_index(sheet_paths@, sheet_paths@[i as int].instance_path@) == Some(k as int));
                if crate::text::str_eq(sheet_paths[k].instance_path.as_str(), instance_path) {
                    out.push(&sheet_paths[i]);
                    assert(child_indices_upto(sheet_paths@, instance_path@, i + 1) == prev.push(i as int));
                } else {
                    assert(child_indices_upto(sheet_paths@, instance_path@, i + 1) == prev);
                }
            },
            None => {
                assert(child_indices_upto(sheet_paths@, instance_path@, i + 1) == prev);
            },
        }
        i = i + 1;
    }
    out
}

/// The parent of a sheet lies above it: its symbol path is a prefix of the sheet's own,
/// and a strictly shorter one where the sheet's symbol path has a `/`.
pub proof fn law_parent_is_shallower(paths: Seq<LoadedSheetPath>, ip: Seq<char>)
    requires
        parent_index(paths, ip) is Some,
    ensures
        ({
            let c = instance_index(paths, ip)->0;
            let p = paths[parent_index(paths, ip)->0].symbol_path@;
            let own = paths[c].symbol_path@;
            &&& p.len() <= own.len()
            &&& own.subrange(0, p.len() as int) == p
            &&& last_index_of(own, '/') >= 0 ==> p.len() < own.len()
        }),
{
    let c = instance_index(paths, ip)->0;
    let own = paths[c].symbol_path@;
    let ps = parent_symbol_path(own);
    lemma_first_instance_from(paths, ip, 0);
    lemma_deepest_sheet_upto(paths, ps, paths.len() as int);
    lemma_last_index_of(own, '/');
    let p = paths[parent_index(paths, ip)->0].symbol_path@;
    assert(in_sheet(ps, p));
    assert(ps.len() <= own.len());
    assert(own.subrange(0, ps.len() as int) == ps);
    if p == ps {
    } else {
        assert(ps.subrange(0, p.len() as int) == p);
        assert(own.subrange(0, p.len() as int) =~= ps.subrange(0, p.len() as int));
    }
}

/// Order of two optional page numbers: set pages first.
pub open spec fn page_option_order(a: Option<String>, b: Option<String>) -> TextOrder {
    match (a, b) {
        (Some(x), Some(y)) => page_order(x@, y@),
        (Some(_), None) => TextOrder::Less,
        (None, Some(_)) => TextOrder::Greater,
        (None, None) => TextOrder::Equal,
    }
}

/// Position of the last entry of `order` equal to `ip`, if any.
pub open spec fn last_position(order: Seq<String>, ip: Seq<char>) -> Option<int>
    decreases order.len(),
{
    if order.len() == 0 {
        None
    } else if order.last()@ == ip {
        Some(order.len() - 1)
    } else {
        last_position(order.drop_last(), ip)
    }
}

/// Order of two optional positions: a missing position first.
pub open spec fn position_order(a: Option<int>, b: Option<int>) -> TextOrder {
    match (a, b) {
        (Some(x), Some(y)) => int_order(x, y),
        (Some(_), None) => TextOrder::Greater,
        (None, Some(_)) => TextOrder::Less,
        (None, None) => TextOrder::Equal,
    }
}

#[verifier::opaque]
/// The sheet-list order: by page number, then by position in the original list
/// (`order`, the instance paths as first listed), then by instance path, then by file.
pub open spec fn sheet_path_order(a: LoadedSheetPath, b: LoadedSheetPath, order: Seq<String>) -> TextOrder {
    let p = page_option_order(a.page, b.page);
    let o = position_order(last_position(order, a.instance_path@), last_position(order, b.instance_path@));
    let i = crate::natural::lex_order(a.instance_path@, b.instance_path@);
    if p != TextOrder::Equal {
        p
    } else if o != TextOrder::Equal {
        o
    } else if i != TextOrder::Equal {
        i
    } else {
        crate::natural::lex_order(a.schematic_path@, b.schematic_path@)
    }
}

/// Swapping two sheet paths reverses their order in the sheet list.
pub proof fn law_sheet_path_order_antisymmetric(a: LoadedSheetPath, b: LoadedSheetPath, order: Seq<String>)
    ensures
        sheet_path_order(a, b, order) == flip(sheet_path_order(b, a, order)),
{
    reveal(sheet_path_order);
    match (a.page, b.page) {
        (Some(x), Some(y)) => law_page_order_antisymmetric(x@, y@),
        _ => {},
    }
    crate::natural::lemma_lex_order_flip(a.instance_path@, b.instance_path@);
    crate::natural::lemma_lex_order_flip(a.schematic_path@, b.schematic_path@);
}

fn last_position_exec(order: &Vec<String>, ip: &String) -> (r: Option<usize>)
    ensures
        r matches Some(k) ==> last_position(order@, ip@) == Some(k as int),
        r is None ==> last_position(order@, ip@) is None,
{
    let mut n = order.len();
    assert(order@.take(order@.len() as int) =~= order@);
    while n > 0 && !crate::text::str_eq(order[n - 1].as_str(), ip.as_str())
        invariant
            n <= order.len(),
            last_position(order@, ip@) == last_position(order@.take(n as int), ip@),
        decreases n,
    {
        assert(order@.take(n as int).drop_last() =~= order@.take(n - 1));
        n = n - 1;
    }
    if n == 0 {
        assert(order@.take(0) =~= Seq::<String>::empty());
        None
    } else {
        assert(order@.take(n as int).last() == order@[n - 1]);
        Some(n - 1)
    }
}

fn page_option_order_exec(a: &Option<String>, b: &Option<String>) -> (r: TextOrder)
    ensures
        r == page_option_order(*a, *b),
{
    match (a, b) {
        (Some(x), Some(y)) => {
            let xv = crate::text::string_chars(x);
            let yv = crate::text::string_chars(y);
            page_order_exec(&xv, &yv)
        },
        (Some(_), None) => TextOrder::Less,
        (None, Some(_)) => TextOrder::Greater,
        (None, None) => TextOrder::Equal,
    }
}

fn sheet_path_order_exec(a: &LoadedSheetPath, b: &LoadedSheetPath, order: &Vec<String>) -> (r: TextOrder)
    ensures
        r == sheet_path_order(*a, *b, order@),
{
    reveal(sheet_path_order);
    let p = page_option_order_exec(&a.page, &b.page);
    match p {
        TextOrder::Equal => {},
        _ => {
            return p;
        },
    }
    let pa = last_position_exec(order, &a.instance_path);
    let pb = last_position_exec(order, &b.instance_path);
    proof {
        if let (Some(x), Some(y)) = (pa, pb) {
            assert(last_position(order@, a.instance_path@) == Some(x as int));
            assert(last_position(order@, b.instance_path@) == Some(y as int));
        }
    }
    let o = match (pa, pb) {
        (Some(x), Some(y)) => crate::natural::order_usize(x, y),
        (Some(_), None) => TextOrder::Greater,
        (None, Some(_)) => TextOrder::Less,
        (None, None) => TextOrder::Equal,
    };
    match o {
        TextOrder::Equal => {},
        _ => {
            return o;
        },
    }
    let ai = crate::text::string_chars(&a.instance_path);
    let bi = crate::text::string_chars(&b.instance_path);
    assert(ai@.subrange(0, ai@.len() as int) =~= ai@);
    assert(bi@.subrange(0, bi@.len() as int) =~= bi@);
    let i = crate::natural::lex_order_range(&ai, 0, ai.len(), &bi, 0, bi.len());
    match i {
        TextOrder::Equal => {},
        _ => {
            return i;
        },
    }
    let asv = crate::text::string_chars(&a.schematic_path);
    let bsv = crate::text::string_chars(&b.schematic_path);
    assert(asv@.subrange(0, asv@.len() as int) =~= asv@);
    assert(bsv@.subrange(0, bsv@.len() as int) =~= bsv@);
    crate::natural::lex_order_range(&asv, 0, asv.len(), &bsv, 0, bsv.len())
}

/// Compares two sheet paths in sheet-list order; `original_order` lists the instance
/// paths as they were first listed.
pub fn compare_loaded_sheet_paths(a: &LoadedSheetPath, b: &LoadedSheetPath, original_order: &Vec<String>) -> (r: std::cmp::Ordering)
    ensures
        r == to_ordering(sheet_path_order(*a, *b, original_order@)),
{
    into_ordering(sheet_path_order_exec(a, b, original_order))
}

/// No two neighbours of the list are out of order.
#[verifier::opaque]
pub open spec fn neighbours_ordered(s: Seq<LoadedSheetPath>, order: Seq<String>) -> bool {
    forall|k: int| 0 <= k < s.len() - 1 ==> sheet_path_order(#[trigger] s[k], s[k + 1], order) != TextOrder::Greater
}

/// The instance paths of a list of sheet paths.
pub open spec fn instance_paths(s: Seq<LoadedSheetPath>) -> Seq<Seq<char>> {
    s.map_values(|p: LoadedSheetPath| p.instance_path@)
}

/// Inserting an element after its last smaller-or-equal neighbour keeps neighbours ordered.
#[verifier::spinoff_prover]
#[verifier::rlimit(30)]
proof fn lemma_insert_keeps_neighbours(s: Seq<LoadedSheetPath>, p: int, x: LoadedSheetPath, order: Seq<String>)
    requires
        0 <= p <= s.len(),
        neighbours_ordered(s, order),
        p > 0 ==> sheet_path_order(s[p - 1], x, order) != TextOrder::Greater,
        forall|j: int| p <= j < s.len() ==> sheet_path_order(#[trigger] s[j], x, order) == TextOrder::Greater,
    ensures
        neighbours_ordered(s.insert(p, x), order),
{
    let t = s.insert(p, x);
    assert forall|j: int| 0 <= j < t.len() - 1 implies sheet_path_order(#[trigger] t[j], t[j + 1], order) != TextOrder::Greater by {
        if j < p - 1 {
            assert(t[j] == s[j] && t[j + 1] == s[j + 1]);
            reveal(neighbours_ordered);
            assert(sheet_path_order(s[j], s[j + 1], order) != TextOrder::Greater);
        } else if j == p - 1 {
            assert(t[j] == s[j] && t[j + 1] == x);
        } else if j == p {
            assert(t[j] == x && t[j + 1] == s[p]);
            assert(sheet_path_order(s[p], x, order) == TextOrder::Greater);
            law_sheet_path_order_antisymmetric(x, s[p], order);
        } else {
            assert(t[j] == s[j - 1] && t[j + 1] == s[j]);
            reveal(neighbours_ordered);
            assert(sheet_path_order(s[j - 1], s[j], order) != TextOrder::Greater);
        }
    }
    reveal(neighbours_ordered);
}

/// Moving one element from the input to the output keeps the union of the two.
proof fn lemma_move_keeps_multiset(
    out: Seq<LoadedSheetPath>,
    p: int,
    input: Seq<LoadedSheetPath>,
    x: LoadedSheetPath,
)
    requires
        0 <= p <= out.len(),
        input.len() > 0,
        input[0] == x,
    ensures
        out.insert(p, x).to_multiset().add(input.remove(0).to_multiset()) == out.to_multiset().add(input.to_multiset()),
{
    vstd::seq_lib::to_multiset_insert(out, p, x);
    vstd::seq_lib::to_multiset_remove(input, 0);
    vstd::seq_lib::to_multiset_contains(input, x);
    assert(input.contains(x)) by {
        assert(input[0] == x);
    }
    broadcast use vstd::multiset::group_multiset_axioms;
    assert(input.remove(0).to_multiset().insert(x) =~= input.to_multiset());
    assert(out.insert(p, x).to_multiset().add(input.remove(0).to_multiset()) =~= out.to_multiset().add(input.to_multiset()));
}

/// `n` holds the sheet paths of `o`, each neighbour pair in page order (ties by the
/// instance paths' order in `o`).
pub open spec fn sorted_for_pages(o: Seq<LoadedSheetPath>, n: Seq<LoadedSheetPath>) -> bool {
    &&& n.to_multiset() == o.to_multiset()
    &&& exists|order: Seq<String>| #![trigger order.len()]
        order.len() == o.len()
        && (forall|k: int| 0 <= k < order.len() ==> (#[trigger] order[k])@ == o[k].instance_path@)
        && neighbours_ordered(n, order)
}

/// Sorts the sheet list by page number (set pages first, numbers before other texts),
/// keeping the original list order among equal pages.
#[verifier::spinoff_prover]
pub fn sort_loaded_sheet_paths(sheet_paths: &mut Vec<LoadedSheetPath>)
    ensures
        sorted_for_pages(old(sheet_paths)@, final(sheet_paths)@),
{
    let mut order: Vec<String> = Vec::new();
    let mut k: usize = 0;
    while k < sheet_paths.len()
        invariant
            0 <= k <= sheet_paths.len(),
            order@.len() == k,
            forall|j: int| 0 <= j < k ==> (#[trigger] order@[j])@ == sheet_paths@[j].instance_path@,
        decreases sheet_paths.len() - k,
    {
        order.push(sheet_paths[k].instance_path.clone());
        k = k + 1;
    }
    let ghost original = sheet_paths@;
    let mut input: Vec<LoadedSheetPath> = Vec::new();
    std::mem::swap(&mut input, sheet_paths);
    let mut out: Vec<LoadedSheetPath> = Vec::new();
    proof {
        reveal(neighbours_ordered);
        vstd::seq_lib::to_multiset_len(out@);
        vstd::multiset::lemma_multiset_empty_len(out@.to_multiset());
        assert(out@.to_multiset().add(input@.to_multiset()) =~= input@.to_multiset()) by {
            broadcast use vstd::multiset::group_multiset_axioms;
        }
    }
    while input.len() > 0
        invariant
            out@.to_multiset().add(input@.to_multiset()) == original.to_multiset(),
            neighbours_ordered(out@, order@),
            order@.len() == original.len(),
        decreases input.len(),
    {
        let ghost before_in = input@;
        let x = input.remove(0);
        let mut p = out.len();
        while p > 0 && matches!(sheet_path_order_exec(&out[p - 1], &x, &order), TextOrder::Greater)
            invariant
                p <= out.len(),
                forall|j: int| p <= j < out@.len() ==> sheet_path_order(#[trigger] out@[j], x, order@) == TextOrder::Greater,
            decreases p,
        {
            p = p - 1;
        }
        let ghost before_out = out@;
        proof {
            lemma_insert_keeps_neighbours(before_out, p as int, x, order@);
            lemma_move_keeps_multiset(before_out, p as int, before_in, x);
        }
        out.insert(p, x);
    }
    proof {
        vstd::seq_lib::to_multiset_len(input@);
        vstd::multiset::lemma_multiset_empty_len(input@.to_multiset());
        assert(out@.to_multiset().add(input@.to_multiset()) =~= out@.to_multiset()) by {
            broadcast use vstd::multiset::group_multiset_axioms;
        }
    }
    *sheet_paths = out;
    assert(order@.len() == original.len());
}

} // verus!
