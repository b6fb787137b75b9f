//! The text of an exported netlist: the design header, components, groups and variants
//! (in the KiCad flavour), library parts, libraries and nets, as XML.

use crate::netlist::{
    escape_xml, xml_escaped, NetlistComponent, NetlistComponentUnit, NetlistComponentVariant, NetlistDesign,
    NetlistGroup, NetlistLibPart, NetlistLibPartPin, NetlistLibrary, NetlistNet, NetlistNode, NetlistSheetDesign,
    NetlistVariant,
};
use crate::text::{decimal, join_with, push_decimal, push_str, seq_to_string};
use vstd::prelude::*;

verus! {

/// What a netlist export writes: the design header and the records collected from the
/// project, in the order they are written.
#[derive(Debug, Clone)]
pub struct NetlistExport {
    pub design: NetlistDesign,
    pub components: Vec<NetlistComponent>,
    pub groups: Vec<NetlistGroup>,
    pub variants: Vec<NetlistVariant>,
    pub libparts: Vec<NetlistLibPart>,
    pub libraries: Vec<NetlistLibrary>,
    pub nets: Vec<NetlistNet>,
}

/// The texts of the items, one after another.
pub open spec fn concat_map<T>(s: Seq<T>, f: spec_fn(T) -> Seq<char>) -> Seq<char>
    decreases s.len(),
{
    if s.len() == 0 {
        Seq::empty()
    } else {
        concat_map(s.drop_last(), f) + f(s.last())
    }
}

proof fn lemma_concat_map_step<T>(s: Seq<T>, f: spec_fn(T) -> Seq<char>, i: int)
    requires
        0 <= i < s.len(),
    ensures
        concat_map(s.take(i + 1), f) == concat_map(s.take(i), f) + f(s[i]),
{
    assert(s.take(i + 1).drop_last() =~= s.take(i));
    assert(s.take(i + 1).last() == s[i]);
}

proof fn lemma_take_all<T>(s: Seq<T>)
    ensures
        s.take(s.len() as int) == s,
{
    assert(s.take(s.len() as int) =~= s);
}

/// Escaped text.
pub open spec fn x(s: String) -> Seq<char> {
    xml_escaped(s@)
}

/// A text when the condition holds, else nothing.
pub open spec fn when(c: bool, t: Seq<char>) -> Seq<char> {
    if c {
        t
    } else {
        Seq::empty()
    }
}

/// A `<field>` line at the indentation.
pub open spec fn field_line(indent: Seq<char>, f: (String, String)) -> Seq<char> {
    indent + "<field name=\""@ + x(f.0) + "\">"@ + x(f.1) + "</field>\n"@
}

/// A design text variable.
pub open spec fn textvar_text(t: (String, String)) -> Seq<char> {
    "    <textvar name=\""@ + x(t.0) + "\">"@ + x(t.1) + "</textvar>\n"@
}

/// A title-block comment.
pub open spec fn comment_text(c: (usize, String)) -> Seq<char> {
    "        <comment number=\""@ + decimal(c.0 as nat) + "\" value=\""@ + x(c.1) + "\" />\n"@
}

/// The opening of a sheet of the design header.
pub open spec fn sheet_open(s: NetlistSheetDesign) -> Seq<char> {
    "    <sheet number=\""@ + decimal(s.number as nat) + "\" name=\""@ + x(s.name) + "\" tstamps=\""@ + x(s.tstamps)
        + "\">\n"@
}

/// The title block of a sheet of the design header.
pub open spec fn title_block_text(s: NetlistSheetDesign) -> Seq<char> {
    "      <title_block>\n"@ + "        <title>"@ + x(s.title) + "</title>\n"@ + "        <company>"@ + x(s.company)
        + "</company>\n"@ + "        <rev>"@ + x(s.revision) + "</rev>\n"@ + "        <date>"@ + x(s.date) + "</date>\n"@
        + "        <source>"@ + x(s.source) + "</source>\n"@ + concat_map(s.comments@, |c: (usize, String)| comment_text(c))
        + "      </title_block>\n"@
}

/// A sheet of the design header, with its title block.
pub open spec fn sheet_text(s: NetlistSheetDesign) -> Seq<char> {
    sheet_open(s) + title_block_text(s) + "    </sheet>\n"@
}

/// The design header.
pub open spec fn design_text(d: NetlistDesign) -> Seq<char> {
    "  <design>\n"@ + "    <source>"@ + x(d.source) + "</source>\n"@ + "    <date>"@ + x(d.date) + "</date>\n"@
        + "    <tool>"@ + x(d.tool) + "</tool>\n"@ + concat_map(d.text_vars@, |t: (String, String)| textvar_text(t))
        + concat_map(d.sheets@, |s: NetlistSheetDesign| sheet_text(s)) + "  </design>\n"@
}

/// A metadata property of a component.
pub open spec fn metadata_text(p: (String, Option<String>)) -> Seq<char> {
    match p.1 {
        Some(v) => "      <property name=\""@ + x(p.0) + "\" value=\""@ + x(v) + "\" />\n"@,
        None => "      <property name=\""@ + x(p.0) + "\" />\n"@,
    }
}

/// A pin of a jumper pin group.
pub open spec fn jumper_pin_text(p: String) -> Seq<char> {
    "          <pin>"@ + x(p) + "</pin>\n"@
}

/// A jumper pin group.
pub open spec fn jumper_group_text(g: Vec<String>) -> Seq<char> {
    "        <group>\n"@ + concat_map(g@, |p: String| jumper_pin_text(p)) + "        </group>\n"@
}

/// A property of a component variant.
pub open spec fn variant_property_text(p: (String, String)) -> Seq<char> {
    "          <property name=\""@ + x(p.0) + "\" value=\""@ + x(p.1) + "\" />\n"@
}

/// A variant of a component.
pub open spec fn component_variant_text(v: NetlistComponentVariant) -> Seq<char> {
    "        <variant name=\""@ + x(v.name) + "\">\n"@ + concat_map(v.properties@, |p: (String, String)| variant_property_text(p))
        + when(
        v.fields@.len() > 0,
        "          <fields>\n"@ + concat_map(v.fields@, |f: (String, String)| field_line("            "@, f))
            + "          </fields>\n"@,
    ) + "        </variant>\n"@
}

/// A component class.
pub open spec fn class_text(c: String) -> Seq<char> {
    "        <class>"@ + x(c) + "</class>\n"@
}

/// A pin of a component unit.
pub open spec fn unit_pin_text(p: String) -> Seq<char> {
    "            <pin num=\""@ + x(p) + "\" />\n"@
}

/// A unit of a component, with its pins.
pub open spec fn unit_text(u: NetlistComponentUnit) -> Seq<char> {
    "        <unit name=\""@ + x(u.name) + "\">\n"@ + "          <pins>\n"@ + concat_map(u.pins@, |p: String| unit_pin_text(p))
        + "          </pins>\n"@ + "        </unit>\n"@
}

/// The escaped texts.
pub open spec fn escaped_all(s: Seq<String>) -> Seq<Seq<char>> {
    s.map_values(|t: String| x(t))
}

/// The opening of a component: reference, value (`~` where empty), the footprint,
/// datasheet and description that are set, and its fields.
pub open spec fn component_head(c: NetlistComponent) -> Seq<char> {
    "    <comp ref=\""@ + x(c.reference) + "\">\n"@ + "      <value>"@ + xml_escaped(
        if c.value@.len() == 0 {
            "~"@
        } else {
            c.value@
        },
    ) + "</value>\n"@ + when(c.footprint@.len() > 0, "      <footprint>"@ + x(c.footprint) + "</footprint>\n"@) + when(
        c.datasheet@.len() > 0,
        "      <datasheet>"@ + x(c.datasheet) + "</datasheet>\n"@,
    ) + when(c.description@.len() > 0, "      <description>"@ + x(c.description) + "</description>\n"@) + when(
        c.fields@.len() > 0,
        "      <fields>\n"@ + concat_map(c.fields@, |f: (String, String)| field_line("        "@, f)) + "      </fields>\n"@,
    )
}

/// A component's record opens with its reference line, then its value line: the value,
/// escaped, where it has one, and `~` only for an empty value.
pub proof fn law_component_value_is_written(c: NetlistComponent)
    ensures
        ({
            let head = component_head(c);
            let ref_line = "    <comp ref=\""@ + xml_escaped(c.reference@) + "\">\n"@;
            let value_line = "      <value>"@ + (if c.value@.len() > 0 {
                xml_escaped(c.value@)
            } else {
                "~"@
            }) + "</value>\n"@;
            &&& head.len() >= ref_line.len() + value_line.len()
            &&& head.subrange(0, ref_line.len() as int) == ref_line
            &&& head.subrange(ref_line.len() as int, (ref_line.len() + value_line.len()) as int) == value_line
        }),
{
    reveal_strlit("~");
    let ref_line = "    <comp ref=\""@ + xml_escaped(c.reference@) + "\">\n"@;
    let value_line = "      <value>"@ + (if c.value@.len() > 0 {
        xml_escaped(c.value@)
    } else {
        "~"@
    }) + "</value>\n"@;
    if c.value@.len() == 0 {
        assert(xml_escaped("~"@) =~= "~"@) by {
            assert("~"@.drop_last() =~= Seq::<char>::empty());
            assert(xml_escaped(Seq::<char>::empty()) =~= Seq::<char>::empty());
        }
    }
    let rest = component_head(c).subrange((ref_line.len() + value_line.len()) as int, component_head(c).len() as int);
    assert(component_head(c) =~= ref_line + value_line + rest);
    assert((ref_line + value_line + rest).subrange(0, ref_line.len() as int) =~= ref_line);
    assert((ref_line + value_line + rest).subrange(ref_line.len() as int, (ref_line.len() + value_line.len()) as int) =~= value_line);
}

/// The library source and metadata of a component.
pub open spec fn component_source(c: NetlistComponent) -> Seq<char> {
    "      <libsource"@ + " lib=\""@ + x(c.lib) + "\""@ + " part=\""@ + x(c.part) + "\""@ + " description=\""@ + x(
        c.description,
    ) + "\""@ + " />\n"@ + concat_map(c.metadata_properties@, |p: (String, Option<String>)| metadata_text(p))
}

/// The jumper data, variants and classes of a component.
pub open spec fn component_extras(c: NetlistComponent) -> Seq<char> {
    when(
        c.duplicate_pin_numbers_are_jumpers,
        "      <duplicate_pin_numbers_are_jumpers>1</duplicate_pin_numbers_are_jumpers>\n"@,
    ) + when(
        c.jumper_pin_groups@.len() > 0,
        "      <jumper_pin_groups>\n"@ + concat_map(c.jumper_pin_groups@, |g: Vec<String>| jumper_group_text(g))
            + "      </jumper_pin_groups>\n"@,
    ) + when(
        c.variants@.len() > 0,
        "      <variants>\n"@ + concat_map(c.variants@, |v: NetlistComponentVariant| component_variant_text(v))
            + "      </variants>\n"@,
    ) + when(
        c.component_classes@.len() > 0,
        "      <component_classes>\n"@ + concat_map(c.component_classes@, |k: String| class_text(k))
            + "      </component_classes>\n"@,
    )
}

/// The middle of a component: library source, metadata, jumper data, variants and
/// classes.
pub open spec fn component_body(c: NetlistComponent) -> Seq<char> {
    component_source(c) + component_extras(c)
}

/// The close of a component: sheet path (`/` where empty), timestamps and units.
pub open spec fn component_tail(c: NetlistComponent) -> Seq<char> {
    "      <sheetpath names=\""@ + x(c.path_names) + "\" tstamps=\""@ + xml_escaped(
        if c.path@.len() == 0 {
            "/"@
        } else {
            c.path@
        },
    ) + "\" />\n"@ + when(
        c.tstamps@.len() > 0,
        "      <tstamps>"@ + join_with(escaped_all(c.tstamps@), " "@) + "</tstamps>\n"@,
    ) + when(
        c.units@.len() > 0,
        "      <units>\n"@ + concat_map(c.units@, |u: NetlistComponentUnit| unit_text(u)) + "      </units>\n"@,
    ) + "    </comp>\n"@
}

/// A component.
pub open spec fn component_text(c: NetlistComponent) -> Seq<char> {
    component_head(c) + component_body(c) + component_tail(c)
}

/// A member of a group.
pub open spec fn member_text(m: String) -> Seq<char> {
    "        <member uuid=\""@ + x(m) + "\" />\n"@
}

/// A group and its members.
pub open spec fn group_text(g: NetlistGroup) -> Seq<char> {
    "    <group name=\""@ + x(g.name) + "\" uuid=\""@ + x(g.uuid) + "\" lib_id=\""@ + x(g.lib_id) + "\">\n"@
        + "      <members>\n"@ + concat_map(g.members@, |m: String| member_text(m)) + "      </members>\n"@
        + "    </group>\n"@
}

/// A design variant, with its description where set.
pub open spec fn variant_text(v: NetlistVariant) -> Seq<char> {
    "    <variant name=\""@ + x(v.name) + "\""@ + when(v.description@.len() > 0, " description=\""@ + x(v.description) + "\""@)
        + " />\n"@
}

/// A footprint filter of a library part.
pub open spec fn footprint_text(f: String) -> Seq<char> {
    "        <fp>"@ + x(f) + "</fp>\n"@
}

/// A pin of a library part.
pub open spec fn libpart_pin_text(p: NetlistLibPartPin) -> Seq<char> {
    "        <pin num=\""@ + x(p.number) + "\" name=\""@ + x(p.name) + "\" type=\""@ + x(p.electrical_type) + "\" />\n"@
}

/// The opening of a library part: its description and docs where set, and its
/// footprint filters.
pub open spec fn libpart_head(l: NetlistLibPart) -> Seq<char> {
    "    <libpart lib=\""@ + x(l.lib) + "\" part=\""@ + x(l.part) + "\">\n"@ + when(
        l.description@.len() > 0,
        "      <description>"@ + x(l.description) + "</description>\n"@,
    ) + when(l.docs@.len() > 0, "      <docs>"@ + x(l.docs) + "</docs>\n"@) + when(
        l.footprints@.len() > 0,
        "      <footprints>\n"@ + concat_map(l.footprints@, |f: String| footprint_text(f)) + "      </footprints>\n"@,
    )
}

/// The rest of a library part: its fields and pins.
pub open spec fn libpart_tail(l: NetlistLibPart) -> Seq<char> {
    "      <fields>\n"@ + concat_map(l.fields@, |f: (String, String)| field_line("        "@, f)) + "      </fields>\n"@
        + when(
        l.pins@.len() > 0,
        "      <pins>\n"@ + concat_map(l.pins@, |p: NetlistLibPartPin| libpart_pin_text(p)) + "      </pins>\n"@,
    ) + "    </libpart>\n"@
}

/// A library part.
pub open spec fn libpart_text(l: NetlistLibPart) -> Seq<char> {
    libpart_head(l) + libpart_tail(l)
}

/// A library: written only where it has a URI.
pub open spec fn library_text(l: NetlistLibrary) -> Seq<char> {
    match l.uri {
        Some(u) => "    <library logical=\""@ + x(l.logical) + "\">\n"@ + "      <uri>"@ + x(u) + "</uri>\n"@
            + "    </library>\n"@,
        None => Seq::empty(),
    }
}

/// A node of a net, with its pin function where set.
pub open spec fn node_text(n: NetlistNode) -> Seq<char> {
    "      <node ref=\""@ + x(n.reference) + "\" pin=\""@ + x(n.pin) + "\""@ + match n.pinfunction {
        Some(f) => " pinfunction=\""@ + x(f) + "\""@,
        None => Seq::empty(),
    } + " pintype=\""@ + x(n.pintype) + "\" />\n"@
}

/// A net and its nodes.
pub open spec fn net_text(n: NetlistNet) -> Seq<char> {
    "    <net code=\""@ + decimal(n.code as nat) + "\" name=\""@ + x(n.name) + "\" class=\""@ + x(n.class) + "\">\n"@
        + concat_map(n.nodes@, |d: NetlistNode| node_text(d)) + "    </net>\n"@
}

/// The component section.
pub open spec fn components_section(e: NetlistExport) -> Seq<char> {
    "  <components>\n"@ + concat_map(e.components@, |c: NetlistComponent| component_text(c)) + "  </components>\n"@
}

/// The group and variant sections of the KiCad flavour.
pub open spec fn kicad_sections(e: NetlistExport) -> Seq<char> {
    "  <groups>\n"@ + concat_map(e.groups@, |g: NetlistGroup| group_text(g)) + "  </groups>\n"@ + "  <variants>\n"@
        + concat_map(e.variants@, |v: NetlistVariant| variant_text(v)) + "  </variants>\n"@
}

/// The library-part, library and net sections, and the close of the export.
pub open spec fn closing_sections(e: NetlistExport) -> Seq<char> {
    "  <libparts>\n"@ + concat_map(e.libparts@, |l: NetlistLibPart| libpart_text(l)) + "  </libparts>\n"@
        + "  <libraries>\n"@ + concat_map(e.libraries@, |l: NetlistLibrary| library_text(l)) + "  </libraries>\n"@
        + "  <nets>\n"@ + concat_map(e.nets@, |n: NetlistNet| net_text(n)) + "  </nets>\n</export>\n"@
}

/// The netlist text: the design header, the components, in the KiCad flavour the groups
/// and variants, the library parts, the libraries and the nets.
pub open spec fn netlist_text(e: NetlistExport, kicad: bool) -> Seq<char> {
    "<export version=\"E\">\n"@ + design_text(e.design) + components_section(e) + when(kicad, kicad_sections(e))
        + closing_sections(e)
}

/// `t` stands somewhere in `s`.
pub open spec fn contains_text(s: Seq<char>, t: Seq<char>) -> bool {
    exists|off: int| 0 <= off && off + t.len() <= s.len() && #[trigger] s.subrange(off, off + t.len()) == t
}

proof fn lemma_contains_in_sum(a: Seq<char>, t: Seq<char>, b: Seq<char>, u: Seq<char>)
    requires
        contains_text(t, u),
    ensures
        contains_text(a + t + b, u),
{
    let off = choose|off: int| 0 <= off && off + u.len() <= t.len() && #[trigger] t.subrange(off, off + u.len()) == u;
    let s = a + t + b;
    assert(s.subrange(a.len() + off, a.len() + off + u.len()) =~= t.subrange(off, off + u.len()));
    assert(s.subrange(a.len() + off, a.len() + off + u.len()) == u);
}

proof fn lemma_contains_at(s: Seq<char>, t: Seq<char>, off: int)
    requires
        0 <= off,
        off + t.len() <= s.len(),
        s.subrange(off, off + t.len()) == t,
    ensures
        contains_text(s, t),
{
}

proof fn lemma_contains_concat_map<T>(s: Seq<T>, f: spec_fn(T) -> Seq<char>, i: int)
    requires
        0 <= i < s.len(),
    ensures
        contains_text(concat_map(s, f), f(s[i])),
    decreases s.len(),
{
    let c = concat_map(s, f);
    if i == s.len() - 1 {
        let pre = concat_map(s.drop_last(), f);
        assert(c.subrange(pre.len() as int, (pre.len() + f(s[i]).len()) as int) =~= f(s[i]));
    } else {
        lemma_contains_concat_map(s.drop_last(), f, i);
        assert(s.drop_last()[i] == s[i]);
        lemma_contains_in_sum(Seq::empty(), concat_map(s.drop_last(), f), f(s.last()), f(s[i]));
        assert(Seq::<char>::empty() + concat_map(s.drop_last(), f) + f(s.last()) =~= c);
    }
}

#[verifier::spinoff_prover]
#[verifier::rlimit(40)]
/// Every component of the export is written in its netlist, in either flavour, with its
/// reference and then its value (escaped; `~` only for an empty value).
pub proof fn law_every_component_is_written(e: NetlistExport, kicad: bool, i: int)
    requires
        0 <= i < e.components@.len(),
    ensures
        ({
            let c = e.components@[i];
            contains_text(
                netlist_text(e, kicad),
                "    <comp ref=\""@ + xml_escaped(c.reference@) + "\">\n"@ + "      <value>"@ + (if c.value@.len() > 0 {
                    xml_escaped(c.value@)
                } else {
                    "~"@
                }) + "</value>\n"@,
            )
        }),
{
    let c = e.components@[i];
    law_component_value_is_written(c);
    let ref_line = "    <comp ref=\""@ + xml_escaped(c.reference@) + "\">\n"@;
    let value_line = "      <value>"@ + (if c.value@.len() > 0 {
        xml_escaped(c.value@)
    } else {
        "~"@
    }) + "</value>\n"@;
    let head = component_head(c);
    let u = ref_line + value_line;
    assert(u =~= "    <comp ref=\""@ + xml_escaped(c.reference@) + "\">\n"@ + "      <value>"@ + (if c.value@.len() > 0 {
        xml_escaped(c.value@)
    } else {
        "~"@
    }) + "</value>\n"@);
    assert(head.subrange(0, u.len() as int) =~= u);
    let ct = component_text(c);
    assert(ct.subrange(0, u.len() as int) =~= u);
    lemma_contains_at(ct, u, 0);
    let f = |d: NetlistComponent| component_text(d);
    lemma_contains_concat_map(e.components@, f, i);
    let cm = concat_map(e.components@, f);
    let off = choose|off: int| 0 <= off && off + ct.len() <= cm.len() && #[trigger] cm.subrange(off, off + ct.len()) == ct;
    assert(cm.subrange(off, off + u.len()) =~= ct.subrange(0, u.len() as int));
    lemma_contains_at(cm, u, off);
    let sec = components_section(e);
    lemma_contains_in_sum("  <components>\n"@, cm, "  </components>\n"@, u);
    let pre = "<export version=\"E\">\n"@ + design_text(e.design);
    let post = when(kicad, kicad_sections(e)) + closing_sections(e);
    lemma_contains_in_sum(pre, sec, post, u);
    assert(netlist_text(e, kicad) =~= pre + sec + post);
}

#[verifier::spinoff_prover]
#[verifier::rlimit(40)]
/// Every node of every net is written in the netlist, with its reference and pin.
pub proof fn law_every_node_is_written(e: NetlistExport, kicad: bool, i: int, j: int)
    requires
        0 <= i < e.nets@.len(),
        0 <= j < e.nets@[i].nodes@.len(),
    ensures
        ({
            let d = e.nets@[i].nodes@[j];
            contains_text(netlist_text(e, kicad), "      <node ref=\""@ + xml_escaped(d.reference@) + "\" pin=\""@ + xml_escaped(d.pin@) + "\""@)
        }),
{
    let n = e.nets@[i];
    let d = n.nodes@[j];
    let u = "      <node ref=\""@ + xml_escaped(d.reference@) + "\" pin=\""@ + xml_escaped(d.pin@) + "\""@;
    let nt = node_text(d);
    assert(nt.subrange(0, u.len() as int) =~= u);
    lemma_contains_at(nt, u, 0);
    let g = |dd: NetlistNode| node_text(dd);
    lemma_contains_concat_map(n.nodes@, g, j);
    let cm = concat_map(n.nodes@, g);
    let off = choose|off: int| 0 <= off && off + nt.len() <= cm.len() && #[trigger] cm.subrange(off, off + nt.len()) == nt;
    assert(cm.subrange(off, off + u.len()) =~= nt.subrange(0, u.len() as int));
    lemma_contains_at(cm, u, off);
    let net_open = "    <net code=\""@ + decimal(n.code as nat) + "\" name=\""@ + x(n.name) + "\" class=\""@ + x(n.class) + "\">\n"@;
    lemma_contains_in_sum(net_open, cm, "    </net>\n"@, u);
    assert(net_text(n) =~= net_open + cm + "    </net>\n"@);
    let f = |m: NetlistNet| net_text(m);
    lemma_contains_concat_map(e.nets@, f, i);
    let nm = concat_map(e.nets@, f);
    let nt2 = net_text(n);
    let off2 = choose|off: int| 0 <= off && off + nt2.len() <= nm.len() && #[trigger] nm.subrange(off, off + nt2.len()) == nt2;
    let off3 = choose|off: int| 0 <= off && off + u.len() <= nt2.len() && #[trigger] nt2.subrange(off, off + u.len()) == u;
    assert(nm.subrange(off2 + off3, off2 + off3 + u.len()) =~= nt2.subrange(off3, off3 + u.len()));
    lemma_contains_at(nm, u, off2 + off3);
    let pre = "  <libparts>\n"@ + concat_map(e.libparts@, |l: NetlistLibPart| libpart_text(l)) + "  </libparts>\n"@
        + "  <libraries>\n"@ + concat_map(e.libraries@, |l: NetlistLibrary| library_text(l)) + "  </libraries>\n"@
        + "  <nets>\n"@;
    lemma_contains_in_sum(pre, nm, "  </nets>\n</export>\n"@, u);
    assert(closing_sections(e) =~= pre + nm + "  </nets>\n</export>\n"@);
    let pre2 = "<export version=\"E\">\n"@ + design_text(e.design) + components_section(e) + when(kicad, kicad_sections(e));
    lemma_contains_in_sum(pre2, closing_sections(e), Seq::empty(), u);
    assert(netlist_text(e, kicad) =~= pre2 + closing_sections(e) + Seq::<char>::empty());
}

fn push_escaped(out: &mut Vec<char>, s: &str)
    ensures
        final(out)@ == old(out)@ + xml_escaped(s@),
{
    let e = escape_xml(s);
    push_str(out, e.as_str());
}

fn push_field_line(out: &mut Vec<char>, indent: &str, f: &(String, String))
    ensures
        final(out)@ == old(out)@ + field_line(indent@, *f),
{
    push_str(out, indent);
    push_str(out, "<field name=\"");
    push_escaped(out, f.0.as_str());
    push_str(out, "\">");
    push_escaped(out, f.1.as_str());
    push_str(out, "</field>\n");
    assert(final(out)@ =~= old(out)@ + field_line(indent@, *f));
}

fn push_fields(out: &mut Vec<char>, indent: &str, fields: &Vec<(String, String)>)
    ensures
        final(out)@ == old(out)@ + concat_map(fields@, |f: (String, String)| field_line(indent@, f)),
{
    let ghost start = out@;
    let ghost f = |e: (String, String)| field_line(indent@, e);
    let mut i: usize = 0;
    while i < fields.len()
        invariant
            0 <= i <= fields.len(),
            f == (|e: (String, String)| field_line(indent@, e)),
            start == old(out)@,
            out@ == start + concat_map(fields@.take(i as int), f),
        decreases fields.len() - i,
    {
        push_field_line(out, indent, &fields[i]);
        proof {
            lemma_concat_map_step(fields@, f, i as int);
        }
        i = i + 1;
    }
    proof {
        lemma_take_all(fields@);
    }
}

fn push_textvar(out: &mut Vec<char>, t: &(String, String))
    ensures
        final(out)@ == old(out)@ + textvar_text(*t),
{
    push_str(out, "    <textvar name=\"");
    push_escaped(out, t.0.as_str());
    push_str(out, "\">");
    push_escaped(out, t.1.as_str());
    push_str(out, "</textvar>\n");
    assert(final(out)@ =~= old(out)@ + textvar_text(*t));
}

fn push_textvars(out: &mut Vec<char>, items: &Vec<(String, String)>)
    ensures
        final(out)@ == old(out)@ + concat_map(items@, |e: (String, String)| textvar_text(e)),
{
    let ghost start = out@;
    let ghost f = |e: (String, String)| textvar_text(e);
    let mut i: usize = 0;
    while i < items.len()
        invariant
            0 <= i <= items.len(),
            f == (|e: (String, String)| textvar_text(e)),
            start == old(out)@,
            out@ == start + concat_map(items@.take(i as int), f),
        decreases items.len() - i,
    {
        push_textvar(out, &items[i]);
        proof {
            lemma_concat_map_step(items@, f, i as int);
        }
        i = i + 1;
    }
    proof {
        lemma_take_all(items@);
    }
}

fn push_comment(out: &mut Vec<char>, c: &(usize, String))
    ensures
        final(out)@ == old(out)@ + comment_text(*c),
{
    push_str(out, "        <comment number=\"");
    push_decimal(out, c.0 as u64);
    push_str(out, "\" value=\"");
    push_escaped(out, c.1.as_str());
    push_str(out, "\" />\n");
    assert(final(out)@ =~= old(out)@ + comment_text(*c));
}

fn push_comments(out: &mut Vec<char>, items: &Vec<(usize, String)>)
    ensures
        final(out)@ == old(out)@ + concat_map(items@, |e: (usize, String)| comment_text(e)),
{
    let ghost start = out@;
    let ghost f = |e: (usize, String)| comment_text(e);
    let mut i: usize = 0;
    while i < items.len()
        invariant
            0 <= i <= items.len(),
            f == (|e: (usize, String)| comment_text(e)),
            start == old(out)@,
            out@ == start + concat_map(items@.take(i as int), f),
        decreases items.len() - i,
    {
        push_comment(out, &items[i]);
        proof {
            lemma_concat_map_step(items@, f, i as int);
        }
        i = i + 1;
    }
    proof {
        lemma_take_all(items@);
    }
}

fn push_sheet_open(out: &mut Vec<char>, s: &NetlistSheetDesign)
    ensures
        final(out)@ == old(out)@ + sheet_open(*s),
{
    push_str(out, "    <sheet number=\"");
    push_decimal(out, s.number as u64);
    push_str(out, "\" name=\"");
    push_escaped(out, s.name.as_str());
    push_str(out, "\" tstamps=\"");
    push_escaped(out, s.tstamps.as_str());
    push_str(out, "\">\n");
    assert(final(out)@ =~= old(out)@ + sheet_open(*s));
}

#[verifier::spinoff_prover]
#[verifier::rlimit(100)]
fn push_title_block(out: &mut Vec<char>, s: &NetlistSheetDesign)
    ensures
        final(out)@ == old(out)@ + title_block_text(*s),
{
    push_str(out, "      <title_block>\n");
    push_str(out, "        <title>");
    push_escaped(out, s.title.as_str());
    push_str(out, "</title>\n");
    push_str(out, "        <company>");
    push_escaped(out, s.company.as_str());
    push_str(out, "</company>\n");
    push_str(out, "        <rev>");
    push_escaped(out, s.revision.as_str());
    push_str(out, "</rev>\n");
    push_str(out, "        <date>");
    push_escaped(out, s.date.as_str());
    push_str(out, "</date>\n");
    push_str(out, "        <source>");
    push_escaped(out, s.source.as_str());
    push_str(out, "</source>\n");
    push_comments(out, &s.comments);
    push_str(out, "      </title_block>\n");
    assert(final(out)@ =~= old(out)@ + title_block_text(*s));
}

fn push_sheet(out: &mut Vec<char>, s: &NetlistSheetDesign)
    ensures
        final(out)@ == old(out)@ + sheet_text(*s),
{
    push_sheet_open(out, s);
    push_title_block(out, s);
    push_str(out, "    </sheet>\n");
    assert(final(out)@ =~= old(out)@ + sheet_text(*s));
}

fn push_sheets(out: &mut Vec<char>, items: &Vec<NetlistSheetDesign>)
    ensures
        final(out)@ == old(out)@ + concat_map(items@, |e: NetlistSheetDesign| sheet_text(e)),
{
    let ghost start = out@;
    let ghost f = |e: NetlistSheetDesign| sheet_text(e);
    let mut i: usize = 0;
    while i < items.len()
        invariant
            0 <= i <= items.len(),
            f == (|e: NetlistSheetDesign| sheet_text(e)),
            start == old(out)@,
            out@ == start + concat_map(items@.take(i as int), f),
        decreases items.len() - i,
    {
        push_sheet(out, &items[i]);
        proof {
            lemma_concat_map_step(items@, f, i as int);
        }
        i = i + 1;
    }
    proof {
        lemma_take_all(items@);
    }
}

#[verifier::spinoff_prover]
#[verifier::rlimit(100)]
fn push_design(out: &mut Vec<char>, d: &NetlistDesign)
    ensures
        final(out)@ == old(out)@ + design_text(*d),
{
    push_str(out, "  <design>\n");
    push_str(out, "    <source>");
    push_escaped(out, d.source.as_str());
    push_str(out, "</source>\n");
    push_str(out, "    <date>");
    push_escaped(out, d.date.as_str());
    push_str(out, "</date>\n");
    push_str(out, "    <tool>");
    push_escaped(out, d.tool.as_str());
    push_str(out, "</tool>\n");
    push_textvars(out, &d.text_vars);
    push_sheets(out, &d.sheets);
    push_str(out, "  </design>\n");
    assert(final(out)@ =~= old(out)@ + design_text(*d));
}

fn push_metadata(out: &mut Vec<char>, p: &(String, Option<String>))
    ensures
        final(out)@ == old(out)@ + metadata_text(*p),
{
    push_str(out, "      <property name=\"");
    push_escaped(out, p.0.as_str());
    match &p.1 {
        Some(v) => {
            push_str(out, "\" value=\"");
            push_escaped(out, v.as_str());
            push_str(out, "\" />\n");
        },
        None => {
            push_str(out, "\" />\n");
        },
    }
    assert(final(out)@ =~= old(out)@ + metadata_text(*p));
}

fn push_metadata_list(out: &mut Vec<char>, items: &Vec<(String, Option<String>)>)
    ensures
        final(out)@ == old(out)@ + concat_map(items@, |e: (String, Option<String>)| metadata_text(e)),
{
    let ghost start = out@;
    let ghost f = |e: (String, Option<String>)| metadata_text(e);
    let mut i: usize = 0;
    while i < items.len()
        invariant
            0 <= i <= items.len(),
            f == (|e: (String, Option<String>)| metadata_text(e)),
            start == old(out)@,
            out@ == start + concat_map(items@.take(i as int), f),
        decreases items.len() - i,
    {
        push_metadata(out, &items[i]);
        proof {
            lemma_concat_map_step(items@, f, i as int);
        }
        i = i + 1;
    }
    proof {
        lemma_take_all(items@);
    }
}

fn push_jumper_pin(out: &mut Vec<char>, p: &String)
    ensures
        final(out)@ == old(out)@ + jumper_pin_text(*p),
{
    push_str(out, "          <pin>");
    push_escaped(out, p.as_str());
    push_str(out, "</pin>\n");
    assert(final(out)@ =~= old(out)@ + jumper_pin_text(*p));
}

fn push_jumper_pins(out: &mut Vec<char>, items: &Vec<String>)
    ensures
        final(out)@ == old(out)@ + concat_map(items@, |e: String| jumper_pin_text(e)),
{
    let ghost start = out@;
    let ghost f = |e: String| jumper_pin_text(e);
    let mut i: usize = 0;
    while i < items.len()
        invariant
            0 <= i <= items.len(),
            f == (|e: String| jumper_pin_text(e)),
            start == old(out)@,
            out@ == start + concat_map(items@.take(i as int), f),
        decreases items.len() - i,
    {
        push_jumper_pin(out, &items[i]);
        proof {
            lemma_concat_map_step(items@, f, i as int);
        }
        i = i + 1;
    }
    proof {
        lemma_take_all(items@);
    }
}

fn push_jumper_group(out: &mut Vec<char>, g: &Vec<String>)
    ensures
        final(out)@ == old(out)@ + jumper_group_text(*g),
{
    push_str(out, "        <group>\n");
    push_jumper_pins(out, g);
    push_str(out, "        </group>\n");
    assert(final(out)@ =~= old(out)@ + jumper_group_text(*g));
}

fn push_jumper_groups(out: &mut Vec<char>, items: &Vec<Vec<String>>)
    ensures
        final(out)@ == old(out)@ + concat_map(items@, |e: Vec<String>| jumper_group_text(e)),
{
    let ghost start = out@;
    let ghost f = |e: Vec<String>| jumper_group_text(e);
    let mut i: usize = 0;
    while i < items.len()
        invariant
            0 <= i <= items.len(),
            f == (|e: Vec<String>| jumper_group_text(e)),
            start == old(out)@,
            out@ == start + concat_map(items@.take(i as int), f),
        decreases items.len() - i,
    {
        push_jumper_group(out, &items[i]);
        proof {
            lemma_concat_map_step(items@, f, i as int);
        }
        i = i + 1;
    }
    proof {
        lemma_take_all(items@);
    }
}

fn push_variant_property(out: &mut Vec<char>, p: &(String, String))
    ensures
        final(out)@ == old(out)@ + variant_property_text(*p),
{
    push_str(out, "          <property name=\"");
    push_escaped(out, p.0.as_str());
    push_str(out, "\" value=\"");
    push_escaped(out, p.1.as_str());
    push_str(out, "\" />\n");
    assert(final(out)@ =~= old(out)@ + variant_property_text(*p));
}

fn push_variant_properties(out: &mut Vec<char>, items: &Vec<(String, String)>)
    ensures
        final(out)@ == old(out)@ + concat_map(items@, |e: (String, String)| variant_property_text(e)),
{
    let ghost start = out@;
    let ghost f = |e: (String, String)| variant_property_text(e);
    let mut i: usize = 0;
    while i < items.len()
        invariant
            0 <= i <= items.len(),
            f == (|e: (String, String)| variant_property_text(e)),
            start == old(out)@,
            out@ == start + concat_map(items@.take(i as int), f),
        decreases items.len() - i,
    {
        push_variant_property(out, &items[i]);
        proof {
            lemma_concat_map_step(items@, f, i as int);
        }
        i = i + 1;
    }
    proof {
        lemma_take_all(items@);
    }
}

fn push_component_variant(out: &mut Vec<char>, v: &NetlistComponentVariant)
    ensures
        final(out)@ == old(out)@ + component_variant_text(*v),
{
    push_str(out, "        <variant name=\"");
    push_escaped(out, v.name.as_str());
    push_str(out, "\">\n");
    push_variant_properties(out, &v.properties);
    let ghost mid = out@;
    if v.fields.len() > 0 {
        push_str(out, "          <fields>\n");
        push_fields(out, "            ", &v.fields);
        push_str(out, "          </fields>\n");
    }
    proof {
        reveal_strlit("            ");
    }
    push_str(out, "        </variant>\n");
    assert(final(out)@ =~= old(out)@ + component_variant_text(*v));
}

fn push_component_variants(out: &mut Vec<char>, items: &Vec<NetlistComponentVariant>)
    ensures
        final(out)@ == old(out)@ + concat_map(items@, |e: NetlistComponentVariant| component_variant_text(e)),
{
    let ghost start = out@;
    let ghost f = |e: NetlistComponentVariant| component_variant_text(e);
    let mut i: usize = 0;
    while i < items.len()
        invariant
            0 <= i <= items.len(),
            f == (|e: NetlistComponentVariant| component_variant_text(e)),
            start == old(out)@,
            out@ == start + concat_map(items@.take(i as int), f),
        decreases items.len() - i,
    {
        push_component_variant(out, &items[i]);
        proof {
            lemma_concat_map_step(items@, f, i as int);
        }
        i = i + 1;
    }
    proof {
        lemma_take_all(items@);
    }
}

fn push_class(out: &mut Vec<char>, c: &String)
    ensures
        final(out)@ == old(out)@ + class_text(*c),
{
    push_str(out, "        <class>");
    push_escaped(out, c.as_str());
    push_str(out, "</class>\n");
    assert(final(out)@ =~= old(out)@ + class_text(*c));
}

fn push_classes(out: &mut Vec<char>, items: &Vec<String>)
    ensures
        final(out)@ == old(out)@ + concat_map(items@, |e: String| class_text(e)),
{
    let ghost start = out@;
    let ghost f = |e: String| class_text(e);
    let mut i: usize = 0;
    while i < items.len()
        invariant
            0 <= i <= items.len(),
            f == (|e: String| class_text(e)),
            start == old(out)@,
            out@ == start + concat_map(items@.take(i as int), f),
        decreases items.len() - i,
    {
        push_class(out, &items[i]);
        proof {
            lemma_concat_map_step(items@, f, i as int);
        }
        i = i + 1;
    }
    proof {
        lemma_take_all(items@);
    }
}

fn push_unit_pin(out: &mut Vec<char>, p: &String)
    ensures
        final(out)@ == old(out)@ + unit_pin_text(*p),
{
    push_str(out, "            <pin num=\"");
    push_escaped(out, p.as_str());
    push_str(out, "\" />\n");
    assert(final(out)@ =~= old(out)@ + unit_pin_text(*p));
}

fn push_unit_pins(out: &mut Vec<char>, items: &Vec<String>)
    ensures
        final(out)@ == old(out)@ + concat_map(items@, |e: String| unit_pin_text(e)),
{
    let ghost start = out@;
    let ghost f = |e: String| unit_pin_text(e);
    let mut i: usize = 0;
    while i < items.len()
        invariant
            0 <= i <= items.len(),
            f == (|e: String| unit_pin_text(e)),
            start == old(out)@,
            out@ == start + concat_map(items@.take(i as int), f),
        decreases items.len() - i,
    {
        push_unit_pin(out, &items[i]);
        proof {
            lemma_concat_map_step(items@, f, i as int);
        }
        i = i + 1;
    }
    proof {
        lemma_take_all(items@);
    }
}

fn push_unit(out: &mut Vec<char>, u: &NetlistComponentUnit)
    ensures
        final(out)@ == old(out)@ + unit_text(*u),
{
    push_str(out, "        <unit name=\"");
    push_escaped(out, u.name.as_str());
    push_str(out, "\">\n");
    push_str(out, "          <pins>\n");
    push_unit_pins(out, &u.pins);
    push_str(out, "          </pins>\n");
    push_str(out, "        </unit>\n");
    assert(final(out)@ =~= old(out)@ + unit_text(*u));
}

fn push_units(out: &mut Vec<char>, items: &Vec<NetlistComponentUnit>)
    ensures
        final(out)@ == old(out)@ + concat_map(items@, |e: NetlistComponentUnit| unit_text(e)),
{
    let ghost start = out@;
    let ghost f = |e: NetlistComponentUnit| unit_text(e);
    let mut i: usize = 0;
    while i < items.len()
        invariant
            0 <= i <= items.len(),
            f == (|e: NetlistComponentUnit| unit_text(e)),
            start == old(out)@,
            out@ == start + concat_map(items@.take(i as int), f),
        decreases items.len() - i,
    {
        push_unit(out, &items[i]);
        proof {
            lemma_concat_map_step(items@, f, i as int);
        }
        i = i + 1;
    }
    proof {
        lemma_take_all(items@);
    }
}

fn push_tstamps(out: &mut Vec<char>, tstamps: &Vec<String>)
    ensures
        final(out)@ == old(out)@ + join_with(escaped_all(tstamps@), " "@),
{
    let ghost start = out@;
    let ghost es = escaped_all(tstamps@);
    let mut i: usize = 0;
    while i < tstamps.len()
        invariant
            0 <= i <= tstamps.len(),
            start == old(out)@,
            es == escaped_all(tstamps@),
            out@ == start + join_with(es.take(i as int), " "@),
        decreases tstamps.len() - i,
    {
        let ghost before = out@;
        if i > 0 {
            push_str(out, " ");
        }
        push_escaped(out, tstamps[i].as_str());
        assert(es.take(i + 1).drop_last() =~= es.take(i as int));
        assert(es.take(i + 1).last() == es[i as int]);
        if i == 0 {
            assert(out@ =~= start + join_with(es.take(1), " "@));
        } else {
            assert(out@ =~= before + " "@ + es[i as int]);
        }
        i = i + 1;
    }
    assert(es.take(tstamps.len() as int) =~= es);
}

#[verifier::spinoff_prover]
#[verifier::rlimit(100)]
fn push_component_head(out: &mut Vec<char>, c: &NetlistComponent)
    ensures
        final(out)@ == old(out)@ + component_head(*c),
{
    proof {
        reveal_strlit("~");
        reveal_strlit("        ");
    }
    push_str(out, "    <comp ref=\"");
    push_escaped(out, c.reference.as_str());
    push_str(out, "\">\n");
    push_str(out, "      <value>");
    if c.value.as_str().is_empty() {
        push_escaped(out, "~");
    } else {
        push_escaped(out, c.value.as_str());
    }
    push_str(out, "</value>\n");
    if !c.footprint.as_str().is_empty() {
        push_str(out, "      <footprint>");
        push_escaped(out, c.footprint.as_str());
        push_str(out, "</footprint>\n");
    }
    if !c.datasheet.as_str().is_empty() {
        push_str(out, "      <datasheet>");
        push_escaped(out, c.datasheet.as_str());
        push_str(out, "</datasheet>\n");
    }
    if !c.description.as_str().is_empty() {
        push_str(out, "      <description>");
        push_escaped(out, c.description.as_str());
        push_str(out, "</description>\n");
    }
    if c.fields.len() > 0 {
        push_str(out, "      <fields>\n");
        push_fields(out, "        ", &c.fields);
        push_str(out, "      </fields>\n");
    }
    assert(final(out)@ =~= old(out)@ + component_head(*c));
}

fn push_component_source(out: &mut Vec<char>, c: &NetlistComponent)
    ensures
        final(out)@ == old(out)@ + component_source(*c),
{
    push_str(out, "      <libsource");
    push_str(out, " lib=\"");
    push_escaped(out, c.lib.as_str());
    push_str(out, "\"");
    push_str(out, " part=\"");
    push_escaped(out, c.part.as_str());
    push_str(out, "\"");
    push_str(out, " description=\"");
    push_escaped(out, c.description.as_str());
    push_str(out, "\"");
    push_str(out, " />\n");
    push_metadata_list(out, &c.metadata_properties);
    assert(final(out)@ =~= old(out)@ + component_source(*c));
}

#[verifier::spinoff_prover]
#[verifier::rlimit(100)]
fn push_component_extras(out: &mut Vec<char>, c: &NetlistComponent)
    ensures
        final(out)@ == old(out)@ + component_extras(*c),
{
    if c.duplicate_pin_numbers_are_jumpers {
        push_str(out, "      <duplicate_pin_numbers_are_jumpers>1</duplicate_pin_numbers_are_jumpers>\n");
    }
    if c.jumper_pin_groups.len() > 0 {
        push_str(out, "      <jumper_pin_groups>\n");
        push_jumper_groups(out, &c.jumper_pin_groups);
        push_str(out, "      </jumper_pin_groups>\n");
    }
    if c.variants.len() > 0 {
        push_str(out, "      <variants>\n");
        push_component_variants(out, &c.variants);
        push_str(out, "      </variants>\n");
    }
    if c.component_classes.len() > 0 {
        push_str(out, "      <component_classes>\n");
        push_classes(out, &c.component_classes);
        push_str(out, "      </component_classes>\n");
    }
    assert(final(out)@ =~= old(out)@ + component_extras(*c));
}

fn push_component_body(out: &mut Vec<char>, c: &NetlistComponent)
    ensures
        final(out)@ == old(out)@ + component_body(*c),
{
    push_component_source(out, c);
    push_component_extras(out, c);
    assert(final(out)@ =~= old(out)@ + component_body(*c));
}

#[verifier::spinoff_prover]
#[verifier::rlimit(100)]
fn push_component_tail(out: &mut Vec<char>, c: &NetlistComponent)
    ensures
        final(out)@ == old(out)@ + component_tail(*c),
{
    proof {
        reveal_strlit("/");
    }
    push_str(out, "      <sheetpath names=\"");
    push_escaped(out, c.path_names.as_str());
    push_str(out, "\" tstamps=\"");
    if c.path.as_str().is_empty() {
        push_escaped(out, "/");
    } else {
        push_escaped(out, c.path.as_str());
    }
    push_str(out, "\" />\n");
    if c.tstamps.len() > 0 {
        push_str(out, "      <tstamps>");
        push_tstamps(out, &c.tstamps);
        push_str(out, "</tstamps>\n");
    }
    if c.units.len() > 0 {
        push_str(out, "      <units>\n");
        push_units(out, &c.units);
        push_str(out, "      </units>\n");
    }
    push_str(out, "    </comp>\n");
    assert(final(out)@ =~= old(out)@ + component_tail(*c));
}

fn push_component(out: &mut Vec<char>, c: &NetlistComponent)
    ensures
        final(out)@ == old(out)@ + component_text(*c),
{
    push_component_head(out, c);
    push_component_body(out, c);
    push_component_tail(out, c);
    assert(final(out)@ =~= old(out)@ + component_text(*c));
}

fn push_components(out: &mut Vec<char>, items: &Vec<NetlistComponent>)
    ensures
        final(out)@ == old(out)@ + concat_map(items@, |e: NetlistComponent| component_text(e)),
{
    let ghost start = out@;
    let ghost f = |e: NetlistComponent| component_text(e);
    let mut i: usize = 0;
    while i < items.len()
        invariant
            0 <= i <= items.len(),
            f == (|e: NetlistComponent| component_text(e)),
            start == old(out)@,
            out@ == start + concat_map(items@.take(i as int), f),
        decreases items.len() - i,
    {
        push_component(out, &items[i]);
        proof {
            lemma_concat_map_step(items@, f, i as int);
        }
        i = i + 1;
    }
    proof {
        lemma_take_all(items@);
    }
}

fn push_member(out: &mut Vec<char>, m: &String)
    ensures
        final(out)@ == old(out)@ + member_text(*m),
{
    push_str(out, "        <member uuid=\"");
    push_escaped(out, m.as_str());
    push_str(out, "\" />\n");
    assert(final(out)@ =~= old(out)@ + member_text(*m));
}

fn push_members(out: &mut Vec<char>, items: &Vec<String>)
    ensures
        final(out)@ == old(out)@ + concat_map(items@, |e: String| member_text(e)),
{
    let ghost start = out@;
    let ghost f = |e: String| member_text(e);
    let mut i: usize = 0;
    while i < items.len()
        invariant
            0 <= i <= items.len(),
            f == (|e: String| member_text(e)),
            start == old(out)@,
            out@ == start + concat_map(items@.take(i as int), f),
        decreases items.len() - i,
    {
        push_member(out, &items[i]);
        proof {
            lemma_concat_map_step(items@, f, i as int);
        }
        i = i + 1;
    }
    proof {
        lemma_take_all(items@);
    }
}

fn push_group(out: &mut Vec<char>, g: &NetlistGroup)
    ensures
        final(out)@ == old(out)@ + group_text(*g),
{
    push_str(out, "    <group name=\"");
    push_escaped(out, g.name.as_str());
    push_str(out, "\" uuid=\"");
    push_escaped(out, g.uuid.as_str());
    push_str(out, "\" lib_id=\"");
    push_escaped(out, g.lib_id.as_str());
    push_str(out, "\">\n");
    push_str(out, "      <members>\n");
    push_members(out, &g.members);
    push_str(out, "      </members>\n");
    push_str(out, "    </group>\n");
    assert(final(out)@ =~= old(out)@ + group_text(*g));
}

fn push_groups(out: &mut Vec<char>, items: &Vec<NetlistGroup>)
    ensures
        final(out)@ == old(out)@ + concat_map(items@, |e: NetlistGroup| group_text(e)),
{
    let ghost start = out@;
    let ghost f = |e: NetlistGroup| group_text(e);
    let mut i: usize = 0;
    while i < items.len()
        invariant
            0 <= i <= items.len(),
            f == (|e: NetlistGroup| group_text(e)),
            start == old(out)@,
            out@ == start + concat_map(items@.take(i as int), f),
        decreases items.len() - i,
    {
        push_group(out, &items[i]);
        proof {
            lemma_concat_map_step(items@, f, i as int);
        }
        i = i + 1;
    }
    proof {
        lemma_take_all(items@);
    }
}

fn push_variant(out: &mut Vec<char>, v: &NetlistVariant)
    ensures
        final(out)@ == old(out)@ + variant_text(*v),
{
    push_str(out, "    <variant name=\"");
    push_escaped(out, v.name.as_str());
    push_str(out, "\"");
    if !v.description.as_str().is_empty() {
        push_str(out, " description=\"");
        push_escaped(out, v.description.as_str());
        push_str(out, "\"");
    }
    push_str(out, " />\n");
    assert(final(out)@ =~= old(out)@ + variant_text(*v));
}

fn push_variants(out: &mut Vec<char>, items: &Vec<NetlistVariant>)
    ensures
        final(out)@ == old(out)@ + concat_map(items@, |e: NetlistVariant| variant_text(e)),
{
    let ghost start = out@;
    let ghost f = |e: NetlistVariant| variant_text(e);
    let mut i: usize = 0;
    while i < items.len()
        invariant
            0 <= i <= items.len(),
            f == (|e: NetlistVariant| variant_text(e)),
            start == old(out)@,
            out@ == start + concat_map(items@.take(i as int), f),
        decreases items.len() - i,
    {
        push_variant(out, &items[i]);
        proof {
            lemma_concat_map_step(items@, f, i as int);
        }
        i = i + 1;
    }
    proof {
        lemma_take_all(items@);
    }
}

fn push_footprint(out: &mut Vec<char>, f: &String)
    ensures
        final(out)@ == old(out)@ + footprint_text(*f),
{
    push_str(out, "        <fp>");
    push_escaped(out, f.as_str());
    push_str(out, "</fp>\n");
    assert(final(out)@ =~= old(out)@ + footprint_text(*f));
}

fn push_footprints(out: &mut Vec<char>, items: &Vec<String>)
    ensures
        final(out)@ == old(out)@ + concat_map(items@, |e: String| footprint_text(e)),
{
    let ghost start = out@;
    let ghost f = |e: String| footprint_text(e);
    let mut i: usize = 0;
    while i < items.len()
        invariant
            0 <= i <= items.len(),
            f == (|e: String| footprint_text(e)),
            start == old(out)@,
            out@ == start + concat_map(items@.take(i as int), f),
        decreases items.len() - i,
    {
        push_footprint(out, &items[i]);
        proof {
            lemma_concat_map_step(items@, f, i as int);
        }
        i = i + 1;
    }
    proof {
        lemma_take_all(items@);
    }
}

fn push_libpart_pin(out: &mut Vec<char>, p: &NetlistLibPartPin)
    ensures
        final(out)@ == old(out)@ + libpart_pin_text(*p),
{
    push_str(out, "        <pin num=\"");
    push_escaped(out, p.number.as_str());
    push_str(out, "\" name=\"");
    push_escaped(out, p.name.as_str());
    push_str(out, "\" type=\"");
    push_escaped(out, p.electrical_type.as_str());
    push_str(out, "\" />\n");
    assert(final(out)@ =~= old(out)@ + libpart_pin_text(*p));
}

fn push_libpart_pins(out: &mut Vec<char>, items: &Vec<NetlistLibPartPin>)
    ensures
        final(out)@ == old(out)@ + concat_map(items@, |e: NetlistLibPartPin| libpart_pin_text(e)),
{
    let ghost start = out@;
    let ghost f = |e: NetlistLibPartPin| libpart_pin_text(e);
    let mut i: usize = 0;
    while i < items.len()
        invariant
            0 <= i <= items.len(),
            f == (|e: NetlistLibPartPin| libpart_pin_text(e)),
            start == old(out)@,
            out@ == start + concat_map(items@.take(i as int), f),
        decreases items.len() - i,
    {
        push_libpart_pin(out, &items[i]);
        proof {
            lemma_concat_map_step(items@, f, i as int);
        }
        i = i + 1;
    }
    proof {
        lemma_take_all(items@);
    }
}

#[verifier::spinoff_prover]
#[verifier::rlimit(100)]
fn push_libpart_head(out: &mut Vec<char>, l: &NetlistLibPart)
    ensures
        final(out)@ == old(out)@ + libpart_head(*l),
{
    push_str(out, "    <libpart lib=\"");
    push_escaped(out, l.lib.as_str());
    push_str(out, "\" part=\"");
    push_escaped(out, l.part.as_str());
    push_str(out, "\">\n");
    if !l.description.as_str().is_empty() {
        push_str(out, "      <description>");
        push_escaped(out, l.description.as_str());
        push_str(out, "</description>\n");
    }
    if !l.docs.as_str().is_empty() {
        push_str(out, "      <docs>");
        push_escaped(out, l.docs.as_str());
        push_str(out, "</docs>\n");
    }
    if l.footprints.len() > 0 {
        push_str(out, "      <footprints>\n");
        push_footprints(out, &l.footprints);
        push_str(out, "      </footprints>\n");
    }
    assert(final(out)@ =~= old(out)@ + libpart_head(*l));
}

#[verifier::spinoff_prover]
#[verifier::rlimit(100)]
fn push_libpart_tail(out: &mut Vec<char>, l: &NetlistLibPart)
    ensures
        final(out)@ == old(out)@ + libpart_tail(*l),
{
    proof {
        reveal_strlit("        ");
    }
    push_str(out, "      <fields>\n");
    push_fields(out, "        ", &l.fields);
    push_str(out, "      </fields>\n");
    if l.pins.len() > 0 {
        push_str(out, "      <pins>\n");
        push_libpart_pins(out, &l.pins);
        push_str(out, "      </pins>\n");
    }
    push_str(out, "    </libpart>\n");
    assert(final(out)@ =~= old(out)@ + libpart_tail(*l));
}

fn push_libpart(out: &mut Vec<char>, l: &NetlistLibPart)
    ensures
        final(out)@ == old(out)@ + libpart_text(*l),
{
    push_libpart_head(out, l);
    push_libpart_tail(out, l);
    assert(final(out)@ =~= old(out)@ + libpart_text(*l));
}

fn push_libparts(out: &mut Vec<char>, items: &Vec<NetlistLibPart>)
    ensures
        final(out)@ == old(out)@ + concat_map(items@, |e: NetlistLibPart| libpart_text(e)),
{
    let ghost start = out@;
    let ghost f = |e: NetlistLibPart| libpart_text(e);
    let mut i: usize = 0;
    while i < items.len()
        invariant
            0 <= i <= items.len(),
            f == (|e: NetlistLibPart| libpart_text(e)),
            start == old(out)@,
            out@ == start + concat_map(items@.take(i as int), f),
        decreases items.len() - i,
    {
        push_libpart(out, &items[i]);
        proof {
            lemma_concat_map_step(items@, f, i as int);
        }
        i = i + 1;
    }
    proof {
        lemma_take_all(items@);
    }
}

fn push_library(out: &mut Vec<char>, l: &NetlistLibrary)
    ensures
        final(out)@ == old(out)@ + library_text(*l),
{
    match &l.uri {
        Some(uri) => {
            push_str(out, "    <library logical=\"");
            push_escaped(out, l.logical.as_str());
            push_str(out, "\">\n");
            push_str(out, "      <uri>");
            push_escaped(out, uri.as_str());
            push_str(out, "</uri>\n");
            push_str(out, "    </library>\n");
        },
        None => {},
    }
    assert(final(out)@ =~= old(out)@ + library_text(*l));
}

fn push_libraries(out: &mut Vec<char>, items: &Vec<NetlistLibrary>)
    ensures
        final(out)@ == old(out)@ + concat_map(items@, |e: NetlistLibrary| library_text(e)),
{
    let ghost start = out@;
    let ghost f = |e: NetlistLibrary| library_text(e);
    let mut i: usize = 0;
    while i < items.len()
        invariant
            0 <= i <= items.len(),
            f == (|e: NetlistLibrary| library_text(e)),
            start == old(out)@,
            out@ == start + concat_map(items@.take(i as int), f),
        decreases items.len() - i,
    {
        push_library(out, &items[i]);
        proof {
            lemma_concat_map_step(items@, f, i as int);
        }
        i = i + 1;
    }
    proof {
        lemma_take_all(items@);
    }
}

fn push_node(out: &mut Vec<char>, n: &NetlistNode)
    ensures
        final(out)@ == old(out)@ + node_text(*n),
{
    push_str(out, "      <node ref=\"");
    push_escaped(out, n.reference.as_str());
    push_str(out, "\" pin=\"");
    push_escaped(out, n.pin.as_str());
    push_str(out, "\"");
    match &n.pinfunction {
        Some(f) => {
            push_str(out, " pinfunction=\"");
            push_escaped(out, f.as_str());
            push_str(out, "\"");
        },
        None => {},
    }
    push_str(out, " pintype=\"");
    push_escaped(out, n.pintype.as_str());
    push_str(out, "\" />\n");
    assert(final(out)@ =~= old(out)@ + node_text(*n));
}

fn push_nodes(out: &mut Vec<char>, items: &Vec<NetlistNode>)
    ensures
        final(out)@ == old(out)@ + concat_map(items@, |e: NetlistNode| node_text(e)),
{
    let ghost start = out@;
    let ghost f = |e: NetlistNode| node_text(e);
    let mut i: usize = 0;
    while i < items.len()
        invariant
            0 <= i <= items.len(),
            f == (|e: NetlistNode| node_text(e)),
            start == old(out)@,
            out@ == start + concat_map(items@.take(i as int), f),
        decreases items.len() - i,
    {
        push_node(out, &items[i]);
        proof {
            lemma_concat_map_step(items@, f, i as int);
        }
        i = i + 1;
    }
    proof {
        lemma_take_all(items@);
    }
}

fn push_net(out: &mut Vec<char>, n: &NetlistNet)
    ensures
        final(out)@ == old(out)@ + net_text(*n),
{
    push_str(out, "    <net code=\"");
    push_decimal(out, n.code as u64);
    push_str(out, "\" name=\"");
    push_escaped(out, n.name.as_str());
    push_str(out, "\" class=\"");
    push_escaped(out, n.class.as_str());
    push_str(out, "\">\n");
    push_nodes(out, &n.nodes);
    push_str(out, "    </net>\n");
    assert(final(out)@ =~= old(out)@ + net_text(*n));
}

fn push_nets(out: &mut Vec<char>, items: &Vec<NetlistNet>)
    ensures
        final(out)@ == old(out)@ + concat_map(items@, |e: NetlistNet| net_text(e)),
{
    let ghost start = out@;
    let ghost f = |e: NetlistNet| net_text(e);
    let mut i: usize = 0;
    while i < items.len()
        invariant
            0 <= i <= items.len(),
            f == (|e: NetlistNet| net_text(e)),
            start == old(out)@,
            out@ == start + concat_map(items@.take(i as int), f),
        decreases items.len() - i,
    {
        push_net(out, &items[i]);
        proof {
            lemma_concat_map_step(items@, f, i as int);
        }
        i = i + 1;
    }
    proof {
        lemma_take_all(items@);
    }
}

fn push_components_section(out: &mut Vec<char>, e: &NetlistExport)
    ensures
        final(out)@ == old(out)@ + components_section(*e),
{
    push_str(out, "  <components>\n");
    push_components(out, &e.components);
    push_str(out, "  </components>\n");
    assert(final(out)@ =~= old(out)@ + components_section(*e));
}

#[verifier::spinoff_prover]
#[verifier::rlimit(100)]
fn push_kicad_sections(out: &mut Vec<char>, e: &NetlistExport)
    ensures
        final(out)@ == old(out)@ + kicad_sections(*e),
{
    push_str(out, "  <groups>\n");
    push_groups(out, &e.groups);
    push_str(out, "  </groups>\n");
    push_str(out, "  <variants>\n");
    push_variants(out, &e.variants);
    push_str(out, "  </variants>\n");
    assert(final(out)@ =~= old(out)@ + kicad_sections(*e));
}

#[verifier::spinoff_prover]
#[verifier::rlimit(100)]
fn push_closing_sections(out: &mut Vec<char>, e: &NetlistExport)
    ensures
        final(out)@ == old(out)@ + closing_sections(*e),
{
    push_str(out, "  <libparts>\n");
    push_libparts(out, &e.libparts);
    push_str(out, "  </libparts>\n");
    push_str(out, "  <libraries>\n");
    push_libraries(out, &e.libraries);
    push_str(out, "  </libraries>\n");
    push_str(out, "  <nets>\n");
    push_nets(out, &e.nets);
    push_str(out, "  </nets>\n</export>\n");
    assert(final(out)@ =~= old(out)@ + closing_sections(*e));
}

/// The netlist text of the export; `include_kicad_sections` adds the groups and variants
/// of the KiCad flavour.
#[verifier::spinoff_prover]
#[verifier::rlimit(100)]
pub fn render_reduced_netlist(export: &NetlistExport, include_kicad_sections: bool) -> (r: String)
    ensures
        r@ == netlist_text(*export, include_kicad_sections),
{
    let mut out: Vec<char> = Vec::new();
    push_str(&mut out, "<export version=\"E\">\n");
    push_design(&mut out, &export.design);
    push_components_section(&mut out, export);
    if include_kicad_sections {
        push_kicad_sections(&mut out, export);
    }
    push_closing_sections(&mut out, export);
    assert(out@ =~= netlist_text(*export, include_kicad_sections));
    seq_to_string(&out)
}

/// The netlist in the XML format.
pub fn render_reduced_xml_netlist(export: &NetlistExport) -> (r: String)
    ensures
        r@ == netlist_text(*export, false),
{
    render_reduced_netlist(export, false)
}

/// The netlist in the KiCad format: the XML format with groups and variants.
pub fn render_reduced_kicad_netlist(export: &NetlistExport) -> (r: String)
    ensures
        r@ == netlist_text(*export, true),
{
    render_reduced_netlist(export, true)
}

} // verus!
