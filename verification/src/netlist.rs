//! Netlist records and the text helpers of the netlist exporters: pin-number
//! ordering, stacked-pin expansion, XML escaping and sheet names.

use crate::erc::{bracketed, has_char};
use crate::loader::LoadedSheetPath;
use crate::natural::{into_ordering, natural_order, natural_order_exec, run_order, run_order_exec, to_ordering, TextOrder};
use crate::text::{
    index_of_from, int_text, is_digit, parse_i64, parse_i64_spec, push_int, push_range, seq_to_string,
    str_to_chars, trim, trim_bounds,
};
use vstd::prelude::*;

pub mod libpart;
pub mod render;

verus! {

/// A component of the netlist with its fields, units, variants and classes.
#[derive(Debug, Clone, PartialEq, Eq)]
pub struct NetlistComponent {
    pub reference: String,
    pub unit_number: i32,
    pub value: String,
    pub footprint: String,
    pub datasheet: String,
    pub description: String,
    pub lib: String,
    pub part: String,
    pub path_names: String,
    pub path: String,
    pub tstamps: Vec<String>,
    pub units: Vec<NetlistComponentUnit>,
    pub duplicate_pin_numbers_are_jumpers: bool,
    pub jumper_pin_groups: Vec<Vec<String>>,
    pub component_classes: Vec<String>,
    pub variants: Vec<NetlistComponentVariant>,
    pub metadata_properties: Vec<(String, Option<String>)>,
    pub fields: Vec<(String, String)>,
}

/// A unit of a component and its pins.
#[derive(Debug, Clone, PartialEq, Eq)]
pub struct NetlistComponentUnit {
    pub name: String,
    pub pins: Vec<String>,
}

/// The overrides of a component in one design variant.
#[derive(Debug, Clone, PartialEq, Eq)]
pub struct NetlistComponentVariant {
    pub name: String,
    pub properties: Vec<(String, String)>,
    pub fields: Vec<(String, String)>,
}

/// A library part used by the design.
#[derive(Debug, Clone, PartialEq, Eq)]
pub struct NetlistLibPart {
    pub lib: String,
    pub part: String,
    pub description: String,
    pub docs: String,
    pub fields: Vec<(String, String)>,
    pub footprints: Vec<String>,
    pub pins: Vec<NetlistLibPartPin>,
}

/// A pin of a library part.
#[derive(Debug, Clone, PartialEq, Eq)]
pub struct NetlistLibPartPin {
    pub number: String,
    pub name: String,
    pub electrical_type: String,
}

/// A node of a net: component reference and pin.
#[derive(Debug, Clone, PartialEq, Eq, PartialOrd, Ord)]
pub struct NetlistNode {
    pub reference: String,
    pub pin: String,
    pub pinfunction: Option<String>,
    pub pintype: String,
}

/// A net with its code, name, class and nodes.
#[derive(Debug, Clone, PartialEq, Eq)]
pub struct NetlistNet {
    pub code: usize,
    pub name: String,
    pub class: String,
    pub nodes: Vec<NetlistNode>,
}

/// The design-header record of one sheet.
#[derive(Debug, Clone, PartialEq, Eq)]
pub struct NetlistSheetDesign {
    pub number: usize,
    pub name: String,
    pub tstamps: String,
    pub title: String,
    pub company: String,
    pub revision: String,
    pub date: String,
    pub source: String,
    pub comments: Vec<(usize, String)>,
}

/// The design header of a netlist.
#[derive(Debug, Clone, PartialEq, Eq)]
pub struct NetlistDesign {
    pub source: String,
    pub date: String,
    pub tool: String,
    pub text_vars: Vec<(String, String)>,
    pub sheets: Vec<NetlistSheetDesign>,
}

/// A group of components.
#[derive(Debug, Clone, PartialEq, Eq)]
pub struct NetlistGroup {
    pub name: String,
    pub uuid: String,
    pub lib_id: String,
    pub members: Vec<String>,
}

/// A design variant.
#[derive(Debug, Clone, PartialEq, Eq)]
pub struct NetlistVariant {
    pub name: String,
    pub description: String,
}

/// A symbol library of the design.
#[derive(Debug, Clone, PartialEq, Eq)]
pub struct NetlistLibrary {
    pub logical: String,
    pub uri: Option<String>,
}

/// ASCII text: each character is one byte, so counting characters counts bytes.
pub open spec fn all_ascii(s: Seq<char>) -> bool {
    forall|i: int| 0 <= i < s.len() ==> (#[trigger] s[i]) < '\u{80}'
}

/// Order of two digit runs: by value (leading zeros dropped, the longer number after,
/// then by text), then the shorter run first. The lengths are those of the texts'
/// bytes, so the texts are ASCII, as digit runs are.
pub fn natural_compare_segment(a: &str, b: &str) -> (r: std::cmp::Ordering)
    requires
        all_ascii(a@),
        all_ascii(b@),
    ensures
        r == to_ordering(run_order(a@, b@, true)),
{
    let av = str_to_chars(a);
    let bv = str_to_chars(b);
    into_ordering(segment_order(&av, &bv))
}

fn segment_order(a: &Vec<char>, b: &Vec<char>) -> (r: TextOrder)
    ensures
        r == run_order(a@, b@, true),
{
    assert(a@.subrange(0, a@.len() as int) =~= a@);
    assert(b@.subrange(0, b@.len() as int) =~= b@);
    run_order_exec(a, 0, a.len(), b, 0, b.len(), true)
}

/// The order of pin numbers and references: equal texts are equal, otherwise natural
/// order (digit runs by value, then by length), letters optionally without regard to
/// ASCII case.
pub open spec fn str_num_order(a: Seq<char>, b: Seq<char>, ignore_case: bool) -> TextOrder {
    if a == b {
        TextOrder::Equal
    } else {
        natural_order(a, b, ignore_case, true)
    }
}

pub(crate) fn str_num_order_exec(a: &Vec<char>, b: &Vec<char>, ignore_case: bool) -> (r: TextOrder)
    ensures
        r == str_num_order(a@, b@, ignore_case),
{
    let same = crate::text::range_eq(a, 0, a.len(), b, 0, b.len());
    assert(a@.subrange(0, a@.len() as int) =~= a@);
    assert(b@.subrange(0, b@.len() as int) =~= b@);
    if same {
        TextOrder::Equal
    } else {
        natural_order_exec(a, b, ignore_case, true)
    }
}

/// Compares two texts in natural order, optionally without regard to ASCII case.
pub fn str_num_cmp(a: &str, b: &str, ignore_case: bool) -> (r: std::cmp::Ordering)
    ensures
        r == to_ordering(str_num_order(a@, b@, ignore_case)),
{
    let av = str_to_chars(a);
    let bv = str_to_chars(b);
    into_ordering(str_num_order_exec(&av, &bv, ignore_case))
}

/// Swapping two texts reverses their natural order.
pub proof fn law_str_num_order_antisymmetric(a: Seq<char>, b: Seq<char>, ignore_case: bool)
    ensures
        str_num_order(a, b, ignore_case) == crate::natural::flip(str_num_order(b, a, ignore_case)),
{
    crate::natural::lemma_natural_order_from_flip(a, b, 0, 0, ignore_case, true);
}

/// Two texts compare equal exactly where they are the same text, or, without regard to
/// case, the same once ASCII letters are lowered.
pub proof fn law_str_num_order_equal(a: Seq<char>, b: Seq<char>, ignore_case: bool)
    ensures
        str_num_order(a, b, ignore_case) == TextOrder::Equal <==> crate::natural::fold_seq(a, ignore_case)
            == crate::natural::fold_seq(b, ignore_case),
        str_num_order(a, b, false) == TextOrder::Equal <==> a == b,
{
    crate::natural::lemma_natural_order_from_equal(a, b, 0, 0, ignore_case);
    crate::natural::lemma_natural_order_from_equal(a, b, 0, 0, false);
    assert(a.subrange(0, a.len() as int) =~= a);
    assert(b.subrange(0, b.len() as int) =~= b);
    assert(crate::natural::fold_seq(a, false) =~= a);
    assert(crate::natural::fold_seq(b, false) =~= b);
}

/// Position of the last character of `t` that is no ASCII digit, or -1.
pub open spec fn last_non_digit(t: Seq<char>) -> int
    decreases t.len(),
{
    if t.len() == 0 {
        -1
    } else if !is_digit(t.last()) {
        t.len() - 1
    } else {
        last_non_digit(t.drop_last())
    }
}

/// A pin number split into the text up to its last non-digit and the value of the
/// digits after it; a text of digits alone has an empty prefix, and a text that ends in a
/// non-digit has no value.
pub open spec fn pin_parse(t: Seq<char>) -> (Seq<char>, Option<i64>) {
    let j = last_non_digit(t);
    if j < 0 {
        (Seq::empty(), parse_i64_spec(t))
    } else if j + 1 >= t.len() {
        (Seq::empty(), None)
    } else {
        (t.subrange(0, j + 1), parse_i64_spec(t.subrange(j + 1, t.len() as int)))
    }
}

/// The pin text can be split at its last non-digit: that character, where there is one,
/// is ASCII.
pub open spec fn pin_parse_safe(t: Seq<char>) -> bool {
    let j = last_non_digit(t);
    j < 0 || t[j] < '\u{80}'
}

proof fn lemma_last_non_digit(t: Seq<char>)
    ensures
        -1 <= last_non_digit(t) < t.len(),
        last_non_digit(t) >= 0 ==> !is_digit(t[last_non_digit(t)]),
        forall|k: int| last_non_digit(t) < k < t.len() ==> is_digit(#[trigger] t[k]),
    decreases t.len(),
{
    if t.len() > 0 && is_digit(t.last()) {
        lemma_last_non_digit(t.drop_last());
        assert forall|k: int| last_non_digit(t) < k < t.len() implies is_digit(#[trigger] t[k]) by {
            if k < t.len() - 1 {
                assert(t.drop_last()[k] == t[k]);
            }
        }
    }
}

/// Splits `v[lo..hi]` like [`parse_alphanumeric_pin`]; the prefix is `v[lo..r.0]`.
fn pin_parse_range(v: &Vec<char>, lo: usize, hi: usize) -> (r: (usize, Option<i64>))
    requires
        lo <= hi <= v.len(),
    ensures
        lo <= r.0 <= hi,
        v@.subrange(lo as int, r.0 as int) == pin_parse(v@.subrange(lo as int, hi as int)).0,
        r.1 == pin_parse(v@.subrange(lo as int, hi as int)).1,
{
    let ghost t = v@.subrange(lo as int, hi as int);
    let mut j = hi;
    assert(t.subrange(0, hi - lo) =~= t);
    while j > lo && crate::text::is_ascii_digit(v[j - 1])
        invariant
            lo <= j <= hi <= v.len(),
            t == v@.subrange(lo as int, hi as int),
            last_non_digit(t) == last_non_digit(t.subrange(0, j - lo)),
        decreases j - lo,
    {
        assert(t.subrange(0, j - lo).drop_last() =~= t.subrange(0, j - 1 - lo));
        j = j - 1;
    }
    assert(t.subrange(0, t.len() as int) =~= t);
    if j == lo {
        assert(t.subrange(0, 0) =~= Seq::<char>::empty());
        (lo, parse_i64(v, lo, hi))
    } else if j >= hi {
        (lo, None)
    } else {
        assert(last_non_digit(t) == j - 1 - lo);
        assert(t.subrange(0, j - lo) =~= v@.subrange(lo as int, j as int));
        assert(t.subrange(j - lo, t.len() as int) =~= v@.subrange(j as int, hi as int));
        (j, parse_i64(v, j, hi))
    }
}

/// Splits a pin number after its last non-digit character into a prefix and the
/// value of the trailing digits, such as `A12` into `A` and 12.
pub fn parse_alphanumeric_pin(pin: &str) -> (r: (String, Option<i64>))
    requires
        pin_parse_safe(pin@),
    ensures
        r.0@ == pin_parse(pin@).0,
        r.1 == pin_parse(pin@).1,
{
    let v = str_to_chars(pin);
    assert(v@.subrange(0, v@.len() as int) =~= v@);
    let (k, value) = pin_parse_range(&v, 0, v.len());
    (crate::text::chars_to_string(&v, 0, k), value)
}

/// The pins `prefix` followed by each value from `lo` to `hi`, in order.
pub open spec fn range_texts(prefix: Seq<char>, lo: int, hi: int) -> Seq<Seq<char>>
    decreases hi - lo + 1,
{
    if hi < lo {
        Seq::empty()
    } else {
        range_texts(prefix, lo, hi - 1).push(prefix + int_text(hi))
    }
}

/// The pins after one comma-separated item of a stacked list has been read, or `None`
/// where the item is a range that cannot be expanded: a bound without a value, bounds
/// with different prefixes, or a start above the end.
pub open spec fn part_step(acc: Seq<Seq<char>>, p: Seq<char>) -> Option<Seq<Seq<char>>> {
    let t = trim(p);
    let d = index_of_from(t, '-', 0);
    if t.len() == 0 {
        Some(acc)
    } else if d >= t.len() {
        Some(acc.push(t))
    } else {
        let a = pin_parse(trim(t.subrange(0, d)));
        let b = pin_parse(trim(t.subrange(d + 1, t.len() as int)));
        if a.1 is Some && b.1 is Some && a.0 == b.0 && a.1->0 <= b.1->0 {
            Some(acc + range_texts(a.0, a.1->0 as int, b.1->0 as int))
        } else {
            None
        }
    }
}

/// Both bounds of a range item can be split.
pub open spec fn part_safe(p: Seq<char>) -> bool {
    let t = trim(p);
    let d = index_of_from(t, '-', 0);
    t.len() == 0 || d >= t.len() || (pin_parse_safe(trim(t.subrange(0, d))) && pin_parse_safe(
        trim(t.subrange(d + 1, t.len() as int)),
    ))
}

/// The pins of the first `n` items, or `None` once an item cannot be expanded.
pub open spec fn expand_parts(parts: Seq<Seq<char>>, n: int) -> Option<Seq<Seq<char>>>
    decreases n,
{
    if n <= 0 {
        Some(Seq::empty())
    } else {
        match expand_parts(parts, n - 1) {
            Some(acc) => part_step(acc, parts[n - 1]),
            None => None,
        }
    }
}

/// Every item that is read before the first failure can be split.
pub open spec fn parts_safe(parts: Seq<Seq<char>>, n: int) -> bool
    decreases n,
{
    n <= 0 || (parts_safe(parts, n - 1) && (expand_parts(parts, n - 1) is None || part_safe(
        parts[n - 1],
    )))
}

/// The comma-separated items inside the brackets of a stacked pin list.
pub open spec fn stacked_items(pin: Seq<char>) -> Seq<Seq<char>> {
    crate::text::split_from(pin.subrange(1, pin.len() - 1), ',', 0, Seq::empty())
}

/// Stacked-pin expansion can read the whole list without splitting a multi-byte character.
pub open spec fn stacked_expansion_safe(pin: Seq<char>) -> bool {
    bracketed(pin) ==> parts_safe(stacked_items(pin), stacked_items(pin).len() as int)
}

/// The pins that a pin name stands for, and whether its notation is valid: a plain name
/// stands for itself; a bracketed list for its items, each range expanded; a stray
/// bracket, an invalid range or an empty list leaves the name alone and invalid.
pub open spec fn expand_stacked(pin: Seq<char>) -> (Seq<Seq<char>>, bool) {
    if (has_char(pin, '[') || has_char(pin, ']')) && !bracketed(pin) {
        (seq![pin], false)
    } else if !bracketed(pin) {
        (seq![pin], true)
    } else {
        let items = stacked_items(pin);
        match expand_parts(items, items.len() as int) {
            Some(e) => if e.len() > 0 {
                (e, true)
            } else {
                (seq![pin], false)
            },
            None => (seq![pin], false),
        }
    }
}

fn push_range_texts(out: &mut Vec<String>, prefix: &Vec<char>, lo: i64, hi: i64)
    requires
        lo <= hi,
    ensures
        final(out).deep_view() == old(out).deep_view() + range_texts(prefix@, lo as int, hi as int),
{
    let mut value = lo;
    assert(old(out).deep_view() + range_texts(prefix@, lo as int, lo - 1) =~= old(out).deep_view());
    loop
        invariant
            lo <= value <= hi,
            out.deep_view() == old(out).deep_view() + range_texts(prefix@, lo as int, value - 1),
        decreases hi - value,
    {
        let mut text: Vec<char> = Vec::new();
        push_range(&mut text, prefix, 0, prefix.len());
        push_int(&mut text, value);
        assert(prefix@.subrange(0, prefix@.len() as int) =~= prefix@);
        let s = seq_to_string(&text);
        let ghost before = out.deep_view();
        out.push(s);
        assert(out.deep_view() =~= before.push(prefix@ + int_text(value as int)));
        assert(out.deep_view() =~= old(out).deep_view() + range_texts(prefix@, lo as int, value as int));
        if value == hi {
            return;
        }
        value = value + 1;
    }
}

fn expand_part(p: &Vec<char>, out: &mut Vec<String>) -> (ok: bool)
    requires
        part_safe(p@),
    ensures
        ok == part_step(old(out).deep_view(), p@) is Some,
        ok ==> final(out).deep_view() == part_step(old(out).deep_view(), p@)->0,
{
    let (a, b) = trim_bounds(p, 0, p.len());
    let ghost t = trim(p@);
    assert(p@.subrange(0, p@.len() as int) =~= p@);
    if a == b {
        return true;
    }
    let d = crate::text::find_char(p, a, b, '-');
    if d >= b - a {
        let s = crate::text::chars_to_string(p, a, b);
        let ghost before = out.deep_view();
        out.push(s);
        assert(out.deep_view() =~= before.push(t));
        return true;
    }
    let (sa, sb) = trim_bounds(p, a, a + d);
    let (ea, eb) = trim_bounds(p, a + d + 1, b);
    assert(p@.subrange(a as int, a + d) =~= t.subrange(0, d as int));
    assert(p@.subrange(a + d + 1, b as int) =~= t.subrange(d + 1, t.len() as int));
    let (sk, sv) = pin_parse_range(p, sa, sb);
    let (ek, ev) = pin_parse_range(p, ea, eb);
    match (sv, ev) {
        (Some(x), Some(y)) => {
            let same_prefix = crate::text::range_eq(p, sa, sk, p, ea, ek);
            if !same_prefix || x > y {
                false
            } else {
                let mut prefix: Vec<char> = Vec::new();
                push_range(&mut prefix, p, sa, sk);
                assert(prefix@ =~= p@.subrange(sa as int, sk as int));
                push_range_texts(out, &prefix, x, y);
                true
            }
        },
        _ => false,
    }
}

fn single_pin(v: &Vec<char>) -> (r: Vec<String>)
    ensures
        r.deep_view() == seq![v@],
{
    let mut r: Vec<String> = Vec::new();
    r.push(seq_to_string(v));
    assert(r.deep_view() =~= seq![v@]);
    r
}

/// Expands stacked-pin notation such as `[1,3,5-7]` into the pins it stands for, with
/// whether the notation is valid; a plain pin name stands for itself.
pub fn expand_stacked_pin_notation(pin: &str) -> (r: (Vec<String>, bool))
    requires
        stacked_expansion_safe(pin@),
    ensures
        r.0.deep_view() == expand_stacked(pin@).0,
        r.1 == expand_stacked(pin@).1,
{
    let v = str_to_chars(pin);
    let has_open = crate::erc::has_char_exec(&v, '[');
    let has_close = crate::erc::has_char_exec(&v, ']');
    let wrapped = v.len() > 0 && v[0] == '[' && v[v.len() - 1] == ']';
    if (has_open || has_close) && !wrapped {
        return (single_pin(&v), false);
    }
    if !wrapped {
        return (single_pin(&v), true);
    }
    let parts = crate::text::split_on_char(&v, 1, v.len() - 1, ',');
    let ghost ps = parts.deep_view();
    let mut out: Vec<String> = Vec::new();
    assert(out.deep_view() =~= Seq::<Seq<char>>::empty());
    let mut i: usize = 0;
    while i < parts.len()
        invariant
            0 <= i <= parts.len(),
            ps == parts.deep_view(),
            v@ == pin@,
            bracketed(v@),
            ps == stacked_items(v@),
            parts_safe(ps, ps.len() as int),
            expand_parts(ps, i as int) == Some(out.deep_view()),
        decreases parts.len() - i,
    {
        assert(parts[i as int]@ == ps[i as int]) by {
            assert(parts[i as int].deep_view() =~= parts[i as int]@);
        }
        proof {
            lemma_parts_safe_prefix(ps, ps.len() as int, i as int + 1);
        }
        let ok = expand_part(&parts[i], &mut out);
        if !ok {
            proof {
                lemma_expand_parts_stays_none(ps, i as int + 1, ps.len() as int);
            }
            return (single_pin(&v), false);
        }
        i = i + 1;
    }
    if out.len() == 0 {
        return (single_pin(&v), false);
    }
    (out, true)
}

proof fn lemma_expand_parts_stays_none(parts: Seq<Seq<char>>, m: int, n: int)
    requires
        0 <= m <= n,
        expand_parts(parts, m) is None,
    ensures
        expand_parts(parts, n) is None,
    decreases n - m,
{
    if m < n {
        lemma_expand_parts_stays_none(parts, m, n - 1);
    }
}

proof fn lemma_parts_safe_prefix(parts: Seq<Seq<char>>, n: int, m: int)
    requires
        parts_safe(parts, n),
        0 <= m <= n,
    ensures
        parts_safe(parts, m),
    decreases n - m,
{
    if m < n {
        lemma_parts_safe_prefix(parts, n - 1, m);
    }
}

/// XML escaping of `&`, `<`, `>` and `"`.
pub open spec fn xml_escaped(s: Seq<char>) -> Seq<char>
    decreases s.len(),
{
    if s.len() == 0 {
        s
    } else {
        xml_escaped(s.drop_last()) + xml_char(s.last())
    }
}

/// The escaped form of one character.
pub open spec fn xml_char(c: char) -> Seq<char> {
    if c == '&' {
        "&amp;"@
    } else if c == '<' {
        "&lt;"@
    } else if c == '>' {
        "&gt;"@
    } else if c == '"' {
        "&quot;"@
    } else {
        seq![c]
    }
}

/// Escapes text for an XML attribute or element.
pub fn escape_xml(text: &str) -> (r: String)
    ensures
        r@ == xml_escaped(text@),
{
    let v = str_to_chars(text);
    let mut out: Vec<char> = Vec::new();
    let mut i: usize = 0;
    while i < v.len()
        invariant
            0 <= i <= v.len(),
            out@ == xml_escaped(v@.take(i as int)),
        decreases v.len() - i,
    {
        assert(v@.take(i + 1).drop_last() =~= v@.take(i as int));
        let c = v[i];
        let ghost before = out@;
        if c == '&' {
            crate::text::push_str(&mut out, "&amp;");
        } else if c == '<' {
            crate::text::push_str(&mut out, "&lt;");
        } else if c == '>' {
            crate::text::push_str(&mut out, "&gt;");
        } else if c == '"' {
            crate::text::push_str(&mut out, "&quot;");
        } else {
            out.push(c);
            assert(out@ =~= before + seq![c]);
        }
        i = i + 1;
    }
    assert(v@.take(v@.len() as int) =~= v@);
    seq_to_string(&out)
}

/// Escaped text holds no raw `<`, `>` or `"`.
pub proof fn law_escaped_xml_has_no_markup(s: Seq<char>)
    ensures
        forall|i: int| 0 <= i < xml_escaped(s).len() ==> {
            let c = #[trigger] xml_escaped(s)[i];
            c != '<' && c != '>' && c != '"'
        },
    decreases s.len(),
{
    reveal_strlit("&amp;");
    reveal_strlit("&lt;");
    reveal_strlit("&gt;");
    reveal_strlit("&quot;");
    if s.len() > 0 {
        law_escaped_xml_has_no_markup(s.drop_last());
        let a = xml_escaped(s.drop_last());
        let b = xml_char(s.last());
        assert forall|i: int| 0 <= i < (a + b).len() implies {
            let c = #[trigger] (a + b)[i];
            c != '<' && c != '>' && c != '"'
        } by {
            if i < a.len() {
                assert((a + b)[i] == a[i]);
            } else {
                assert((a + b)[i] == b[i - a.len()]);
            }
        }
    }
}

/// An entity of escaped text starts at `i`: `&amp;`, `&lt;`, `&gt;` or `&quot;`.
pub open spec fn starts_entity(r: Seq<char>, i: int) -> bool {
    ||| (i + 5 <= r.len() && r.subrange(i, i + 5) == "&amp;"@)
    ||| (i + 4 <= r.len() && r.subrange(i, i + 4) == "&lt;"@)
    ||| (i + 4 <= r.len() && r.subrange(i, i + 4) == "&gt;"@)
    ||| (i + 6 <= r.len() && r.subrange(i, i + 6) == "&quot;"@)
}

/// Reads escaped text back: each entity gives its character, every other character
/// stands for itself.
pub open spec fn xml_unescaped(r: Seq<char>) -> Seq<char>
    decreases r.len(),
{
    if r.len() == 0 {
        r
    } else if r.len() >= 5 && r.subrange(0, 5) == "&amp;"@ {
        seq!['&'] + xml_unescaped(r.subrange(5, r.len() as int))
    } else if r.len() >= 4 && r.subrange(0, 4) == "&lt;"@ {
        seq!['<'] + xml_unescaped(r.subrange(4, r.len() as int))
    } else if r.len() >= 4 && r.subrange(0, 4) == "&gt;"@ {
        seq!['>'] + xml_unescaped(r.subrange(4, r.len() as int))
    } else if r.len() >= 6 && r.subrange(0, 6) == "&quot;"@ {
        seq!['"'] + xml_unescaped(r.subrange(6, r.len() as int))
    } else {
        seq![r[0]] + xml_unescaped(r.drop_first())
    }
}

proof fn lemma_xml_escaped_front(s: Seq<char>)
    requires
        s.len() > 0,
    ensures
        xml_escaped(s) == xml_char(s[0]) + xml_escaped(s.drop_first()),
    decreases s.len(),
{
    if s.len() == 1 {
        assert(s.drop_last() =~= Seq::<char>::empty());
        assert(s.drop_first() =~= Seq::<char>::empty());
        assert(xml_escaped(s.drop_first()) =~= Seq::<char>::empty());
        assert(xml_escaped(s) =~= xml_char(s[0]));
    } else {
        lemma_xml_escaped_front(s.drop_last());
        assert(s.drop_first().drop_last() =~= s.drop_last().drop_first());
        assert(s.drop_first().last() == s.last());
        assert(s.drop_last()[0] == s[0]);
        assert(xml_escaped(s) =~= xml_char(s[0]) + xml_escaped(s.drop_first()));
    }
}

/// Every `&` of escaped text starts an entity, so nothing is escaped twice over.
pub proof fn law_escaped_xml_ampersands_start_entities(s: Seq<char>)
    ensures
        forall|i: int| 0 <= i < xml_escaped(s).len() && xml_escaped(s)[i] == '&' ==> #[trigger] starts_entity(
            xml_escaped(s),
            i,
        ),
    decreases s.len(),
{
    reveal_strlit("&amp;");
    reveal_strlit("&lt;");
    reveal_strlit("&gt;");
    reveal_strlit("&quot;");
    if s.len() > 0 {
        law_escaped_xml_ampersands_start_entities(s.drop_last());
        let a = xml_escaped(s.drop_last());
        let b = xml_char(s.last());
        assert forall|i: int| 0 <= i < (a + b).len() && (a + b)[i] == '&' implies #[trigger] starts_entity(a + b, i) by {
            if i < a.len() {
                assert(a[i] == '&');
                assert(starts_entity(a, i));
                if i + 5 <= a.len() {
                    assert((a + b).subrange(i, i + 5) =~= a.subrange(i, i + 5));
                }
                if i + 4 <= a.len() {
                    assert((a + b).subrange(i, i + 4) =~= a.subrange(i, i + 4));
                }
                if i + 6 <= a.len() {
                    assert((a + b).subrange(i, i + 6) =~= a.subrange(i, i + 6));
                }
            } else {
                assert((a + b)[i] == b[i - a.len()]);
                assert(i == a.len());
                assert((a + b).subrange(i, (a + b).len() as int) =~= b);
            }
        }
    }
}

/// Reading escaped text back gives the text.
pub proof fn law_escaped_xml_round_trip(s: Seq<char>)
    ensures
        xml_unescaped(xml_escaped(s)) == s,
    decreases s.len(),
{
    reveal_strlit("&amp;");
    reveal_strlit("&lt;");
    reveal_strlit("&gt;");
    reveal_strlit("&quot;");
    if s.len() == 0 {
    } else {
        lemma_xml_escaped_front(s);
        law_escaped_xml_round_trip(s.drop_first());
        let c = s[0];
        let rest = xml_escaped(s.drop_first());
        let r = xml_char(c) + rest;
        let k = xml_char(c).len() as int;
        assert(r.subrange(k, r.len() as int) =~= rest);
        assert(r.subrange(0, k) =~= xml_char(c));
        if c == '&' {
            assert(xml_unescaped(r) == seq!['&'] + s.drop_first());
        } else if c == '<' {
            assert(r[1] == 'l');
            if r.len() >= 5 {
                assert(r.subrange(0, 5)[1] == 'l');
            }
            assert(xml_unescaped(r) == seq!['<'] + s.drop_first());
        } else if c == '>' {
            assert(r[1] == 'g');
            if r.len() >= 5 {
                assert(r.subrange(0, 5)[1] == 'g');
            }
            assert(r.subrange(0, 4)[1] == 'g');
            assert(xml_unescaped(r) == seq!['>'] + s.drop_first());
        } else if c == '"' {
            assert(r.subrange(0, 5)[1] == 'q');
            assert(r.subrange(0, 4)[1] == 'q');
            assert(xml_unescaped(r) == seq!['"'] + s.drop_first());
        } else {
            assert(r[0] == c);
            if r.len() >= 4 {
                assert(r.subrange(0, 4)[0] == c);
            }
            if r.len() >= 5 {
                assert(r.subrange(0, 5)[0] == c);
            }
            if r.len() >= 6 {
                assert(r.subrange(0, 6)[0] == c);
            }
            assert(r.drop_first() =~= rest);
            assert(xml_unescaped(r) == seq![c] + s.drop_first());
        }
        assert(s =~= seq![c] + s.drop_first());
    }
}

/// The file name of a path, or nothing where the platform's path rules find none (see
/// [`crate::paths::path_file_name`]): it holds no `/` where the path holds no `\`, and
/// a path with no prefix and a plain last component has that component as its name.
pub fn path_filename(path: &str) -> (r: String)
    ensures
        !path@.contains('\\') ==> !r@.contains('/'),
        crate::paths::plain_file_path(path@) ==> r@ == crate::paths::last_component(path@),
{
    match crate::paths::path_file_name(path) {
        Some(name) => name,
        None => String::new(),
    }
}

/// The name under which a sheet is listed: `/` for the root, else its name, else its
/// instance path.
pub fn human_sheet_name(sheet_path: &LoadedSheetPath) -> (r: String)
    ensures
        r@ == if sheet_path.instance_path@.len() == 0 {
            seq!['/']
        } else {
            match sheet_path.sheet_name {
                Some(n) => n@,
                None => sheet_path.instance_path@,
            }
        },
{
    if sheet_path.instance_path.as_str().is_empty() {
        let mut v: Vec<char> = Vec::new();
        v.push('/');
        assert(v@ =~= seq!['/']);
        seq_to_string(&v)
    } else {
        match &sheet_path.sheet_name {
            Some(name) => name.clone(),
            None => sheet_path.instance_path.clone(),
        }
    }
}

} // verus!
