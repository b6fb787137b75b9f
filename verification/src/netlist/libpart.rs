//! The library-part record of a netlist: a library symbol's name, documentation, fields,
//! footprint filters and pins, stacked pins expanded, each pin number once, in natural
//! order.

use crate::model::property::Property;
use crate::model::{spec_canonical_key, spec_is_user_field, PropertyKind};
use crate::natural::{lemma_lex_order_flip, lex_order, TextOrder};
use crate::natural::lex_order_range;
use crate::netlist::{
    expand_stacked, expand_stacked_pin_notation, law_str_num_order_antisymmetric, stacked_expansion_safe,
    str_num_order, str_num_order_exec, NetlistLibPart, NetlistLibPartPin,
};
use crate::text::{chars_to_string, find_char, index_of_from, str_to_chars};
use vstd::prelude::*;

verus! {

/// A pin of a library symbol as the library-part record reads it.
#[derive(Debug, Clone)]
pub struct LibPinEntry {
    pub number: Option<String>,
    pub name: Option<String>,
    pub electrical_type: Option<String>,
}

/// A library symbol as the library-part record reads it: its description, fields, the
/// pins of all its units in order, and its footprint filters.
#[derive(Debug, Clone)]
pub struct LibPartSource {
    pub description: Option<String>,
    pub properties: Vec<Property>,
    pub pins: Vec<LibPinEntry>,
    pub fp_filters: Vec<String>,
}

/// A pin record as values: number, name and electrical type.
pub open spec fn pin_view(p: NetlistLibPartPin) -> (Seq<char>, Seq<char>, Seq<char>) {
    (p.number@, p.name@, p.electrical_type@)
}

/// The pin records a pin entry stands for: none without a number; one per pin of valid
/// stacked notation; else one for the number itself. The name defaults to the number and
/// the type to empty.
pub open spec fn entry_pins(e: LibPinEntry) -> Seq<(Seq<char>, Seq<char>, Seq<char>)> {
    match e.number {
        None => Seq::empty(),
        Some(n) => {
            let name = match e.name {
                Some(m) => m@,
                None => n@,
            };
            let t = match e.electrical_type {
                Some(x) => x@,
                None => Seq::empty(),
            };
            let (expanded, valid) = expand_stacked(n@);
            if valid {
                expanded.map_values(|x: Seq<char>| (x, name, t))
            } else {
                seq![(n@, name, t)]
            }
        },
    }
}

/// The pin records of the entries, in order.
pub open spec fn pin_candidates(entries: Seq<LibPinEntry>) -> Seq<(Seq<char>, Seq<char>, Seq<char>)>
    decreases entries.len(),
{
    if entries.len() == 0 {
        Seq::empty()
    } else {
        pin_candidates(entries.drop_last()) + entry_pins(entries.last())
    }
}

/// The first record with the number, where there is one.
pub open spec fn first_with_number(c: Seq<(Seq<char>, Seq<char>, Seq<char>)>, number: Seq<char>) -> Option<(Seq<char>, Seq<char>, Seq<char>)>
    decreases c.len(),
{
    if c.len() == 0 {
        None
    } else if c[0].0 == number {
        Some(c[0])
    } else {
        first_with_number(c.drop_first(), number)
    }
}

/// Pin `a` goes before pin `b`: natural order ignoring ASCII case, then text order.
pub open spec fn pin_before(a: Seq<char>, b: Seq<char>) -> bool {
    str_num_order(a, b, true) == TextOrder::Less || (str_num_order(a, b, true) == TextOrder::Equal && lex_order(a, b)
        == TextOrder::Less)
}

/// `r` lists the pins of the candidates: each number once, with its first record, every
/// candidate's number present, and neighbours in pin order.
pub open spec fn is_pin_list(cands: Seq<(Seq<char>, Seq<char>, Seq<char>)>, r: Seq<(Seq<char>, Seq<char>, Seq<char>)>) -> bool {
    &&& forall|i: int, j: int| 0 <= i < j < r.len() ==> (#[trigger] r[i]).0 != (#[trigger] r[j]).0
    &&& forall|i: int| 0 <= i < r.len() ==> first_with_number(cands, (#[trigger] r[i]).0) == Some(r[i])
    &&& forall|k: int| 0 <= k < cands.len() ==> exists|i: int| 0 <= i < r.len() && (#[trigger] r[i]).0 == (#[trigger] cands[k]).0
    &&& forall|i: int| 0 <= i < r.len() - 1 ==> pin_before((#[trigger] r[i]).0, r[i + 1].0)
}

/// The name of a field in the netlist: the canonical key of a mandatory field, else its
/// own key.
pub open spec fn field_name(p: Property) -> Seq<char> {
    if spec_is_user_field(p.kind) {
        p.key@
    } else {
        spec_canonical_key(p.kind)
    }
}

/// The text of the first field of the kind, or empty.
pub open spec fn kind_text(props: Seq<Property>, kind: PropertyKind) -> Seq<char>
    decreases props.len(),
{
    if props.len() == 0 {
        Seq::empty()
    } else if props[0].kind == kind {
        props[0].value@
    } else {
        kind_text(props.drop_first(), kind)
    }
}

/// The library and part of a library id: split at its first `:`, or no library.
pub open spec fn lib_and_part(id: Seq<char>) -> (Seq<char>, Seq<char>) {
    let k = index_of_from(id, ':', 0);
    if k < id.len() {
        (id.subrange(0, k), id.subrange(k + 1, id.len() as int))
    } else {
        (Seq::empty(), id)
    }
}

/// The non-empty footprint filters, in order.
pub open spec fn kept_filters(f: Seq<String>) -> Seq<Seq<char>>
    decreases f.len(),
{
    if f.len() == 0 {
        Seq::empty()
    } else if f.last()@.len() > 0 {
        kept_filters(f.drop_last()).push(f.last()@)
    } else {
        kept_filters(f.drop_last())
    }
}

/// Every pin number can be expanded.
pub open spec fn pins_expandable(entries: Seq<LibPinEntry>) -> bool {
    forall|i: int| 0 <= i < entries.len() ==> ((#[trigger] entries[i]).number matches Some(n) ==> stacked_expansion_safe(n@))
}

/// `l` is the library-part record of the library symbol with the id.
pub open spec fn is_libpart_of(l: NetlistLibPart, lib_id: Seq<char>, s: LibPartSource) -> bool {
    &&& l.lib@ == lib_and_part(lib_id).0
    &&& l.part@ == lib_and_part(lib_id).1
    &&& l.docs@ == kind_text(s.properties@, PropertyKind::SymbolDatasheet)
    &&& l.description@ == match s.description {
        Some(d) => d@,
        None => kind_text(s.properties@, PropertyKind::SymbolDescription),
    }
    &&& l.fields@.len() == s.properties@.len()
    &&& forall|i: int| 0 <= i < l.fields@.len() ==> (#[trigger] l.fields@[i]).0@ == field_name(s.properties@[i])
        && l.fields@[i].1@ == s.properties@[i].value@
    &&& l.footprints.deep_view() == kept_filters(s.fp_filters@)
    &&& is_pin_list(pin_candidates(s.pins@), l.pins@.map_values(|p: NetlistLibPartPin| pin_view(p)))
}

/// Of two different pin numbers, exactly one goes before the other.
proof fn lemma_pin_order_total(a: Seq<char>, b: Seq<char>)
    requires
        a != b,
    ensures
        pin_before(a, b) != pin_before(b, a),
{
    law_str_num_order_antisymmetric(a, b, true);
    lemma_lex_order_flip(a, b);
}

fn pin_before_exec(a: &String, b: &String) -> (r: bool)
    ensures
        r == pin_before(a@, b@),
{
    let av = str_to_chars(a.as_str());
    let bv = str_to_chars(b.as_str());
    match str_num_order_exec(&av, &bv, true) {
        TextOrder::Less => true,
        TextOrder::Greater => false,
        TextOrder::Equal => {
            assert(av@.subrange(0, av@.len() as int) =~= av@);
            assert(bv@.subrange(0, bv@.len() as int) =~= bv@);
            lex_order_range(&av, 0, av.len(), &bv, 0, bv.len()) == TextOrder::Less
        },
    }
}

/// The record that is first with its number, when no earlier one has it.
proof fn lemma_first_with_number(c: Seq<(Seq<char>, Seq<char>, Seq<char>)>, k: int)
    requires
        0 <= k < c.len(),
        forall|j: int| 0 <= j < k ==> (#[trigger] c[j]).0 != c[k].0,
    ensures
        first_with_number(c, c[k].0) == Some(c[k]),
    decreases k,
{
    if k > 0 {
        let t = c.drop_first();
        assert forall|j: int| 0 <= j < k - 1 implies (#[trigger] t[j]).0 != t[k - 1].0 by {
            assert(t[j] == c[j + 1]);
        }
        lemma_first_with_number(t, k - 1);
        assert(t[k - 1] == c[k]);
        assert(c[0].0 != c[k].0);
    }
}

/// The pin views of the records.
pub open spec fn pin_views(ps: Seq<NetlistLibPartPin>) -> Seq<(Seq<char>, Seq<char>, Seq<char>)> {
    ps.map_values(|p: NetlistLibPartPin| pin_view(p))
}

fn entry_pin_records(e: &LibPinEntry, out: &mut Vec<NetlistLibPartPin>)
    requires
        (e.number matches Some(n) ==> stacked_expansion_safe(n@)),
    ensures
        pin_views(final(out)@) == pin_views(old(out)@) + entry_pins(*e),
{
    let number = match &e.number {
        Some(n) => n,
        None => {
            assert(pin_views(out@) =~= pin_views(out@) + Seq::<(Seq<char>, Seq<char>, Seq<char>)>::empty());
            return;
        },
    };
    let name = match &e.name {
        Some(m) => m.clone(),
        None => number.clone(),
    };
    let t = match &e.electrical_type {
        Some(x) => x.clone(),
        None => String::new(),
    };
    let (expanded, valid) = expand_stacked_pin_notation(number.as_str());
    let ghost start = pin_views(out@);
    if valid {
        let ghost ex = expanded.deep_view();
        let mut i: usize = 0;
        while i < expanded.len()
            invariant
                0 <= i <= expanded.len(),
                ex == expanded.deep_view(),
                start == pin_views(old(out)@),
                pin_views(out@) == start + ex.take(i as int).map_values(|x: Seq<char>| (x, name@, t@)),
            decreases expanded.len() - i,
        {
            let ghost before = pin_views(out@);
            out.push(NetlistLibPartPin { number: expanded[i].clone(), name: name.clone(), electrical_type: t.clone() });
            assert(expanded@[i as int]@ == ex[i as int]);
            assert(pin_views(out@) =~= before.push((ex[i as int], name@, t@)));
            assert(ex.take(i + 1).map_values(|x: Seq<char>| (x, name@, t@)) =~= ex.take(i as int).map_values(
                |x: Seq<char>| (x, name@, t@),
            ).push((ex[i as int], name@, t@)));
            i = i + 1;
        }
        assert(ex.take(ex.len() as int) =~= ex);
    } else {
        out.push(NetlistLibPartPin { number: number.clone(), name: name, electrical_type: t });
        assert(pin_views(out@) =~= start.push((number@, name@, t@)));
    }
}

fn collect_pin_candidates(entries: &Vec<LibPinEntry>) -> (r: Vec<NetlistLibPartPin>)
    requires
        pins_expandable(entries@),
    ensures
        pin_views(r@) == pin_candidates(entries@),
{
    let mut out: Vec<NetlistLibPartPin> = Vec::new();
    let mut i: usize = 0;
    assert(pin_views(out@) =~= pin_candidates(entries@.take(0)));
    while i < entries.len()
        invariant
            0 <= i <= entries.len(),
            pins_expandable(entries@),
            pin_views(out@) == pin_candidates(entries@.take(i as int)),
        decreases entries.len() - i,
    {
        assert(entries@.take(i + 1).drop_last() =~= entries@.take(i as int));
        assert(entries@.take(i + 1).last() == entries@[i as int]);
        entry_pin_records(&entries[i], &mut out);
        i = i + 1;
    }
    assert(entries@.take(entries.len() as int) =~= entries@);
    out
}

fn number_listed(out: &Vec<NetlistLibPartPin>, number: &String) -> (r: bool)
    ensures
        r == exists|i: int| 0 <= i < out@.len() && (#[trigger] out@[i]).number@ == number@,
{
    let mut i: usize = 0;
    while i < out.len()
        invariant
            0 <= i <= out.len(),
            forall|j: int| 0 <= j < i ==> (#[trigger] out@[j]).number@ != number@,
        decreases out.len() - i,
    {
        if out[i].number == *number {
            return true;
        }
        i = i + 1;
    }
    false
}

fn sorted_unique_pins(cands: &Vec<NetlistLibPartPin>) -> (r: Vec<NetlistLibPartPin>)
    ensures
        is_pin_list(pin_views(cands@), pin_views(r@)),
{
    let ghost c = pin_views(cands@);
    let mut out: Vec<NetlistLibPartPin> = Vec::new();
    let mut k: usize = 0;
    while k < cands.len()
        invariant
            0 <= k <= cands.len(),
            c == pin_views(cands@),
            forall|i: int, j: int| 0 <= i < j < out@.len() ==> (#[trigger] out@[i]).number@ != (#[trigger] out@[j]).number@,
            forall|i: int| 0 <= i < out@.len() ==> first_with_number(c, (#[trigger] out@[i]).number@) == Some(pin_view(out@[i])),
            forall|q: int| 0 <= q < k ==> exists|i: int| 0 <= i < out@.len() && (#[trigger] out@[i]).number@ == (#[trigger] c[q]).0,
            forall|i: int| 0 <= i < out@.len() - 1 ==> pin_before((#[trigger] out@[i]).number@, out@[i + 1].number@),
        decreases cands.len() - k,
    {
        let x = &cands[k];
        assert(c[k as int] == pin_view(*x));
        if !number_listed(&out, &x.number) {
            proof {
                assert forall|q: int| 0 <= q < k implies c[q].0 != c[k as int].0 by {
                    if c[q].0 == c[k as int].0 {
                        let i = choose|i: int| 0 <= i < out@.len() && (#[trigger] out@[i]).number@ == c[q].0;
                        assert(out@[i].number@ == x.number@);
                    }
                }
                lemma_first_with_number(c, k as int);
            }
            let mut p: usize = 0;
            while p < out.len() && pin_before_exec(&out[p].number, &x.number)
                invariant
                    0 <= p <= out.len(),
                    forall|q: int| 0 <= q < p ==> pin_before((#[trigger] out@[q]).number@, x.number@),
                decreases out.len() - p,
            {
                p = p + 1;
            }
            let ghost ov = out@;
            proof {
                if p < out.len() {
                    assert(out@[p as int].number@ != x.number@);
                    lemma_pin_order_total(out@[p as int].number@, x.number@);
                }
            }
            let item = NetlistLibPartPin {
                number: x.number.clone(),
                name: x.name.clone(),
                electrical_type: x.electrical_type.clone(),
            };
            out.insert(p, item);
            let ghost nv = out@;
            proof {
                assert(nv == ov.insert(p as int, item));
                assert(pin_view(item) == c[k as int]);
                assert(forall|i: int| 0 <= i < p ==> nv[i] == ov[i]);
                assert(forall|i: int| p < i < nv.len() ==> nv[i] == ov[i - 1]);
                assert forall|q: int| 0 <= q < k + 1 implies exists|i: int|
                    0 <= i < nv.len() && (#[trigger] nv[i]).number@ == (#[trigger] c[q]).0 by {
                    if q == k {
                        assert(nv[p as int].number@ == c[q].0);
                    } else {
                        let i = choose|i: int| 0 <= i < ov.len() && (#[trigger] ov[i]).number@ == c[q].0;
                        if i < p {
                            assert(nv[i].number@ == c[q].0);
                        } else {
                            assert(nv[i + 1].number@ == c[q].0);
                        }
                    }
                }
            }
        } else {
            proof {
                assert forall|q: int| 0 <= q < k + 1 implies exists|i: int|
                    0 <= i < out@.len() && (#[trigger] out@[i]).number@ == (#[trigger] c[q]).0 by {
                    if q == k {
                        let i = choose|i: int| 0 <= i < out@.len() && (#[trigger] out@[i]).number@ == x.number@;
                        assert(out@[i].number@ == c[q].0);
                    }
                }
            }
        }
        k = k + 1;
    }
    proof {
        let rv = pin_views(out@);
        assert forall|i: int| 0 <= i < rv.len() implies #[trigger] rv[i] == pin_view(out@[i]) by {}
        assert forall|q: int| 0 <= q < c.len() implies exists|i: int|
            0 <= i < rv.len() && (#[trigger] rv[i]).0 == (#[trigger] c[q]).0 by {
            let i = choose|i: int| 0 <= i < out@.len() && (#[trigger] out@[i]).number@ == c[q].0;
            assert(rv[i].0 == c[q].0);
        }
        assert forall|i: int| 0 <= i < rv.len() - 1 implies pin_before((#[trigger] rv[i]).0, rv[i + 1].0) by {
            assert(rv[i + 1] == pin_view(out@[i + 1]));
        }
    }
    out
}

/// The library and part of a library id (`str::split_once` on `:`).
fn split_lib_id(lib_id: &str) -> (r: (String, String))
    ensures
        r.0@ == lib_and_part(lib_id@).0,
        r.1@ == lib_and_part(lib_id@).1,
{
    let v = str_to_chars(lib_id);
    let k = find_char(&v, 0, v.len(), ':');
    assert(v@.subrange(0, v@.len() as int) =~= v@);
    if k < v.len() {
        (chars_to_string(&v, 0, k), chars_to_string(&v, k + 1, v.len()))
    } else {
        (String::new(), chars_to_string(&v, 0, v.len()))
    }
}

/// The text of the first field of the kind, or empty.
fn first_kind_text(props: &Vec<Property>, kind: PropertyKind) -> (r: String)
    ensures
        r@ == kind_text(props@, kind),
{
    let mut i: usize = 0;
    assert(props@.skip(0) =~= props@);
    while i < props.len()
        invariant
            0 <= i <= props.len(),
            kind_text(props@, kind) == kind_text(props@.skip(i as int), kind),
        decreases props.len() - i,
    {
        assert(props@.skip(i as int).drop_first() =~= props@.skip(i + 1));
        if props[i].kind == kind {
            return props[i].value.clone();
        }
        i = i + 1;
    }
    String::new()
}

/// The record of a library symbol under the id: library and part of the id, datasheet,
/// description (the symbol's own, else its description field), every field under its
/// netlist name, the non-empty footprint filters, and the pins.
pub fn lib_symbol_to_xml_libpart(lib_id: &str, lib_symbol: &LibPartSource) -> (l: NetlistLibPart)
    requires
        pins_expandable(lib_symbol.pins@),
    ensures
        is_libpart_of(l, lib_id@, *lib_symbol),
{
    let (lib, part) = split_lib_id(lib_id);
    let docs = first_kind_text(&lib_symbol.properties, PropertyKind::SymbolDatasheet);
    let description = match &lib_symbol.description {
        Some(d) => d.clone(),
        None => first_kind_text(&lib_symbol.properties, PropertyKind::SymbolDescription),
    };
    let props = &lib_symbol.properties;
    let mut fields: Vec<(String, String)> = Vec::new();
    let mut i: usize = 0;
    while i < props.len()
        invariant
            0 <= i <= props.len(),
            fields@.len() == i,
            forall|j: int| 0 <= j < i ==> (#[trigger] fields@[j]).0@ == field_name(props@[j])
                && fields@[j].1@ == props@[j].value@,
        decreases props.len() - i,
    {
        let name = if props[i].kind.is_mandatory() {
            props[i].kind.canonical_key().to_string()
        } else {
            props[i].key.clone()
        };
        fields.push((name, props[i].value.clone()));
        i = i + 1;
    }
    let filters = &lib_symbol.fp_filters;
    let mut footprints: Vec<String> = Vec::new();
    let mut f: usize = 0;
    while f < filters.len()
        invariant
            0 <= f <= filters.len(),
            footprints.deep_view() == kept_filters(filters@.take(f as int)),
        decreases filters.len() - f,
    {
        assert(filters@.take(f + 1).drop_last() =~= filters@.take(f as int));
        if !filters[f].as_str().is_empty() {
            footprints.push(filters[f].clone());
        }
        proof {
            assert(footprints.deep_view() =~= kept_filters(filters@.take(f + 1)));
        }
        f = f + 1;
    }
    assert(filters@.take(filters.len() as int) =~= filters@);
    let cands = collect_pin_candidates(&lib_symbol.pins);
    let pins = sorted_unique_pins(&cands);
    NetlistLibPart { lib, part, description, docs, fields, footprints, pins }
}

} // verus!
