use ki2::netlist::render::{render_reduced_kicad_netlist, render_reduced_netlist, render_reduced_xml_netlist, NetlistExport};
use ki2::netlist::{
    NetlistComponent, NetlistComponentUnit, NetlistComponentVariant, NetlistDesign, NetlistGroup, NetlistLibPart,
    NetlistLibPartPin, NetlistLibrary, NetlistNet, NetlistNode, NetlistSheetDesign, NetlistVariant,
};

fn s(t: &str) -> String {
    t.to_string()
}

fn export() -> NetlistExport {
    NetlistExport {
        design: NetlistDesign {
            source: s("/p/top.kicad_sch"),
            date: s("2024-01-02T03:04:05"),
            tool: s("Eeschema 0.1.0"),
            text_vars: vec![(s("REV"), s("A<1>"))],
            sheets: vec![NetlistSheetDesign {
                number: 1,
                name: s("/"),
                tstamps: s("/"),
                title: s("Demo & Co"),
                company: s(""),
                revision: s("1"),
                date: s(""),
                source: s("top.kicad_sch"),
                comments: vec![(1, s("first"))],
            }],
        },
        components: vec![NetlistComponent {
            reference: s("R1"),
            unit_number: 1,
            value: s(""),
            footprint: s("R:0603"),
            datasheet: s(""),
            description: s("Resistor"),
            lib: s("Device"),
            part: s("R"),
            path_names: s("/"),
            path: s(""),
            tstamps: vec![s("a"), s("b")],
            units: vec![NetlistComponentUnit { name: s("A"), pins: vec![s("1"), s("2")] }],
            duplicate_pin_numbers_are_jumpers: true,
            jumper_pin_groups: vec![vec![s("1"), s("2")]],
            component_classes: vec![s("Power")],
            variants: vec![NetlistComponentVariant {
                name: s("Lite"),
                properties: vec![(s("dnp"), s("1"))],
                fields: vec![(s("MPN"), s("X"))],
            }],
            metadata_properties: vec![(s("Sheetname"), Some(s("Root"))), (s("exclude_from_bom"), None)],
            fields: vec![(s("Footprint"), s("R:0603"))],
        }],
        groups: vec![NetlistGroup { name: s("G"), uuid: s("u1"), lib_id: s(""), members: vec![s("m1")] }],
        variants: vec![NetlistVariant { name: s("Lite"), description: s("") }, NetlistVariant { name: s("Full"), description: s("all \"parts\"") }],
        libparts: vec![NetlistLibPart {
            lib: s("Device"),
            part: s("R"),
            description: s("Resistor"),
            docs: s(""),
            fields: vec![(s("Reference"), s("R"))],
            footprints: vec![s("R_*")],
            pins: vec![NetlistLibPartPin { number: s("1"), name: s("~"), electrical_type: s("passive") }],
        }],
        libraries: vec![
            NetlistLibrary { logical: s("Device"), uri: Some(s("/lib/Device.kicad_sym")) },
            NetlistLibrary { logical: s("Hidden"), uri: None },
        ],
        nets: vec![NetlistNet {
            code: 1,
            name: s("/VCC"),
            class: s("Default"),
            nodes: vec![
                NetlistNode { reference: s("R1"), pin: s("1"), pinfunction: Some(s("A")), pintype: s("passive") },
                NetlistNode { reference: s("R1"), pin: s("2"), pinfunction: None, pintype: s("passive") },
            ],
        }],
    }
}

const HEAD: &str = "<export version=\"E\">
  <design>
    <source>/p/top.kicad_sch</source>
    <date>2024-01-02T03:04:05</date>
    <tool>Eeschema 0.1.0</tool>
    <textvar name=\"REV\">A&lt;1&gt;</textvar>
    <sheet number=\"1\" name=\"/\" tstamps=\"/\">
      <title_block>
        <title>Demo &amp; Co</title>
        <company></company>
        <rev>1</rev>
        <date></date>
        <source>top.kicad_sch</source>
        <comment number=\"1\" value=\"first\" />
      </title_block>
    </sheet>
  </design>
  <components>
    <comp ref=\"R1\">
      <value>~</value>
      <footprint>R:0603</footprint>
      <description>Resistor</description>
      <fields>
        <field name=\"Footprint\">R:0603</field>
      </fields>
      <libsource lib=\"Device\" part=\"R\" description=\"Resistor\" />
      <property name=\"Sheetname\" value=\"Root\" />
      <property name=\"exclude_from_bom\" />
      <duplicate_pin_numbers_are_jumpers>1</duplicate_pin_numbers_are_jumpers>
      <jumper_pin_groups>
        <group>
          <pin>1</pin>
          <pin>2</pin>
        </group>
      </jumper_pin_groups>
      <variants>
        <variant name=\"Lite\">
          <property name=\"dnp\" value=\"1\" />
          <fields>
            <field name=\"MPN\">X</field>
          </fields>
        </variant>
      </variants>
      <component_classes>
        <class>Power</class>
      </component_classes>
      <sheetpath names=\"/\" tstamps=\"/\" />
      <tstamps>a b</tstamps>
      <units>
        <unit name=\"A\">
          <pins>
            <pin num=\"1\" />
            <pin num=\"2\" />
          </pins>
        </unit>
      </units>
    </comp>
  </components>
";

const KICAD: &str = "  <groups>
    <group name=\"G\" uuid=\"u1\" lib_id=\"\">
      <members>
        <member uuid=\"m1\" />
      </members>
    </group>
  </groups>
  <variants>
    <variant name=\"Lite\" />
    <variant name=\"Full\" description=\"all &quot;parts&quot;\" />
  </variants>
";

const TAIL: &str = "  <libparts>
    <libpart lib=\"Device\" part=\"R\">
      <description>Resistor</description>
      <footprints>
        <fp>R_*</fp>
      </footprints>
      <fields>
        <field name=\"Reference\">R</field>
      </fields>
      <pins>
        <pin num=\"1\" name=\"~\" type=\"passive\" />
      </pins>
    </libpart>
  </libparts>
  <libraries>
    <library logical=\"Device\">
      <uri>/lib/Device.kicad_sym</uri>
    </library>
  </libraries>
  <nets>
    <net code=\"1\" name=\"/VCC\" class=\"Default\">
      <node ref=\"R1\" pin=\"1\" pinfunction=\"A\" pintype=\"passive\" />
      <node ref=\"R1\" pin=\"2\" pintype=\"passive\" />
    </net>
  </nets>
</export>
";

#[test]
fn xml_netlist_text() {
    let e = export();
    assert_eq!(render_reduced_xml_netlist(&e), format!("{HEAD}{TAIL}"));
    assert_eq!(render_reduced_netlist(&e, false), render_reduced_xml_netlist(&e));
}

#[test]
fn kicad_netlist_text_adds_groups_and_variants() {
    let e = export();
    assert_eq!(render_reduced_kicad_netlist(&e), format!("{HEAD}{KICAD}{TAIL}"));
}

#[test]
fn empty_export_has_all_sections() {
    let e = NetlistExport {
        design: NetlistDesign { source: s("x"), date: s("d"), tool: s("t"), text_vars: vec![], sheets: vec![] },
        components: vec![],
        groups: vec![],
        variants: vec![],
        libparts: vec![],
        libraries: vec![],
        nets: vec![],
    };
    assert_eq!(
        render_reduced_xml_netlist(&e),
        "<export version=\"E\">\n  <design>\n    <source>x</source>\n    <date>d</date>\n    <tool>t</tool>\n  </design>\n  <components>\n  </components>\n  <libparts>\n  </libparts>\n  <libraries>\n  </libraries>\n  <nets>\n  </nets>\n</export>\n"
    );
}
