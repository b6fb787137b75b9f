//! The schematic data model: the parts of it that hold no geometry.
//!
//! Items whose fields carry coordinates, angles or sizes live with the
//! program around this library; what stands here are the value types,
//! enumerations and text fields that the hierarchy, rule and netlist logic
//! read.

use std::collections::BTreeMap;
use vstd::prelude::*;

pub mod property;
pub mod sim_fields;
pub mod sim_params;
pub mod table;

verus! {

/// The sheet that roots a schematic file.
#[derive(Debug, Clone, PartialEq)]
pub struct RootSheet {
    pub uuid: Option<String>,
}

/// Page label and sheet label of a screen.
#[derive(Debug, Clone, PartialEq)]
pub struct Page {
    pub page: String,
    pub sheet: String,
}

/// Title-block fields of a schematic page, with its nine comment lines.
#[derive(Debug, Clone, PartialEq)]
pub struct TitleBlock {
    pub title: Option<String>,
    pub date: Option<String>,
    pub revision: Option<String>,
    pub company: Option<String>,
    pub comments: [Option<String>; 9],
}

/// Number of the comment slots that hold a value.
pub open spec fn count_some(s: Seq<Option<String>>) -> nat
    decreases s.len(),
{
    if s.len() == 0 {
        0
    } else {
        count_some(s.drop_last()) + if s.last() is Some {
            1nat
        } else {
            0nat
        }
    }
}

impl Default for TitleBlock {
    fn default() -> (r: Self)
        ensures
            r.title is None,
            r.date is None,
            r.revision is None,
            r.company is None,
            forall|i: int| 0 <= i < 9 ==> #[trigger] r.comments@[i] is None,
    {
        TitleBlock {
            title: None,
            date: None,
            revision: None,
            company: None,
            comments: [None, None, None, None, None, None, None, None, None],
        }
    }
}

impl TitleBlock {
    /// The text of comment line `comment_number`, counted from 1.
    pub fn comment(&self, comment_number: usize) -> (r: Option<&str>)
        requires
            comment_number >= 1,
        ensures
            comment_number > 9 ==> r is None,
            comment_number <= 9 ==> match self.comments@[comment_number - 1] {
                Some(c) => r matches Some(t) && t@ == c@,
                None => r is None,
            },
    {
        let index = comment_number - 1;
        if index >= 9 {
            return None;
        }
        match &self.comments[index] {
            Some(value) => Some(value.as_str()),
            None => None,
        }
    }

    /// How many comment lines hold a value.
    pub fn comment_count(&self) -> (r: usize)
        ensures
            r == count_some(self.comments@),
    {
        let mut count: usize = 0;
        let mut i: usize = 0;
        while i < 9
            invariant
                0 <= i <= 9,
                self.comments@.len() == 9,
                count == count_some(self.comments@.take(i as int)),
                count <= i,
            decreases 9 - i,
        {
            assert(self.comments@.take(i + 1).drop_last() =~= self.comments@.take(i as int));
            if self.comments[i].is_some() {
                count = count + 1;
            }
            i = i + 1;
        }
        assert(self.comments@.take(9) =~= self.comments@);
        count
    }
}

/// Alternate function of a library pin.
#[derive(Debug, Clone, PartialEq)]
pub struct LibPinAlternate {
    pub name: String,
    pub electrical_type: String,
    pub graphic_shape: String,
}

/// Whether a line is a wire, a bus or a graphic polyline.
#[derive(Debug, Clone, Copy, PartialEq, Eq, Structural)]
pub enum LineKind {
    Wire,
    Bus,
    Polyline,
}

/// Net label scopes.
#[derive(Debug, Clone, Copy, PartialEq, Eq, Structural)]
pub enum LabelKind {
    Local,
    Global,
    Hierarchical,
    Directive,
}

/// Label outline shapes.
#[derive(Debug, Clone, Copy, PartialEq, Eq, Structural)]
pub enum LabelShape {
    Input,
    Output,
    Bidirectional,
    TriState,
    Unspecified,
    Dot,
    Round,
    Diamond,
    Rectangle,
}

/// Label text orientation.
#[derive(Debug, Clone, Copy, PartialEq, Eq, Structural)]
pub enum LabelSpin {
    Right,
    Up,
    Left,
    Bottom,
}

/// Plain text or text-box text.
#[derive(Debug, Clone, Copy, PartialEq, Eq, Structural)]
pub enum TextKind {
    Text,
    TextBox,
}

/// Line dash styles.
#[derive(Debug, Clone, PartialEq, Eq, Structural)]
pub enum StrokeStyle {
    Default,
    Dash,
    Dot,
    DashDot,
    DashDotDot,
    Solid,
}

/// Fill modes of closed shapes (`NoFill`: not filled).
#[derive(Debug, Clone, PartialEq, Eq, Structural)]
pub enum FillType {
    NoFill,
    Outline,
    Background,
    Color,
    Hatch,
    ReverseHatch,
    CrossHatch,
}

/// Horizontal text justification; centered unless stated.
#[derive(Debug, Clone, Copy, PartialEq, Eq, Structural)]
pub enum TextHJustify {
    Left,
    Center,
    Right,
}

/// Vertical text justification; centered unless stated.
#[derive(Debug, Clone, Copy, PartialEq, Eq, Structural)]
pub enum TextVJustify {
    Top,
    Center,
    Bottom,
}

impl Default for TextHJustify {
    fn default() -> (r: Self)
        ensures
            r == TextHJustify::Center,
    {
        TextHJustify::Center
    }
}

impl Default for TextVJustify {
    fn default() -> (r: Self)
        ensures
            r == TextVJustify::Center,
    {
        TextVJustify::Center
    }
}

/// Graphic shape kinds.
#[derive(Debug, Clone, Copy, PartialEq, Eq, Structural)]
pub enum ShapeKind {
    Polyline,
    Arc,
    Circle,
    Rectangle,
    Bezier,
    RuleArea,
}

/// Which symbol field a simulation value is bound to.
#[derive(Debug, Clone, Copy, PartialEq, Eq, Structural)]
pub enum SimValueBinding {
    Value,
    Params,
    Name,
}

/// Where a symbol's simulation model came from.
#[derive(Debug, Clone, Copy, PartialEq, Eq, Structural)]
pub enum SimModelOrigin {
    Fields,
    RawSpice,
    BuiltIn,
    LibraryReference,
    Ibis,
    InferredValue,
}

/// Kinds of simulation model libraries.
#[derive(Debug, Clone, Copy, PartialEq, Eq, Structural)]
pub enum SimLibraryKind {
    Spice,
    Ibis,
}

/// Where a simulation library was found: a file (by its path) or an embedded file.
#[derive(Debug, Clone, PartialEq, Eq)]
pub enum SimLibrarySource {
    Filesystem(String),
    SchematicEmbedded { name: String },
    SymbolEmbedded { name: String },
}

/// A simulation library that was located.
#[derive(Debug, Clone, PartialEq, Eq)]
pub struct ResolvedSimLibrary {
    pub source: SimLibrarySource,
    pub kind: SimLibraryKind,
}

/// Kinds of models found in a simulation library.
#[derive(Debug, Clone, Copy, PartialEq, Eq, Structural)]
pub enum ResolvedSimModelKind {
    SpiceModel,
    SpiceSubckt,
    IbisComponent,
    IbisDriverDc,
    IbisDriverRect,
    IbisDriverPrbs,
}

/// The simulation model state of a placed symbol.
#[derive(Debug, Clone, PartialEq, Eq)]
pub struct SimModel {
    pub device: Option<String>,
    pub model_type: Option<String>,
    pub library: Option<String>,
    pub name: Option<String>,
    pub ibis_pin: Option<String>,
    pub ibis_model: Option<String>,
    pub ibis_diff: bool,
    pub params: Option<String>,
    pub param_pairs: Vec<(String, String)>,
    pub param_values: BTreeMap<String, String>,
    pub pin_pairs: Vec<(String, String)>,
    pub pins: BTreeMap<String, String>,
    pub value_binding: Option<SimValueBinding>,
    pub stored_value: Option<String>,
    pub enabled: bool,
    pub origin: Option<SimModelOrigin>,
    pub resolved_library: Option<ResolvedSimLibrary>,
    pub resolved_name: Option<String>,
    pub resolved_kind: Option<ResolvedSimModelKind>,
    pub resolved_model_type: Option<String>,
    pub resolved_ibis_model_type: Option<String>,
    pub resolved_ibis_diff_pin: Option<String>,
    pub generated_pin_names: Vec<String>,
    pub generated_param_pairs: Vec<(String, Option<String>)>,
}

/// Mirror axes of a placed symbol.
#[derive(Debug, Clone, Copy, PartialEq, Eq, Structural)]
pub enum MirrorAxis {
    X,
    Y,
}

/// How the fields of an item were placed; `NotPlaced` unless stated.
#[derive(Debug, Clone, Copy, PartialEq, Eq, Structural)]
pub enum FieldAutoplacement {
    NotPlaced,
    Auto,
    Manual,
}

impl Default for FieldAutoplacement {
    fn default() -> (r: Self)
        ensures
            r == FieldAutoplacement::NotPlaced,
    {
        FieldAutoplacement::NotPlaced
    }
}

/// A pin of a placed symbol, by number, with its selected alternate and UUID.
#[derive(Debug, Clone, PartialEq)]
pub struct SymbolPin {
    pub number: String,
    pub alternate: Option<String>,
    pub uuid: Option<String>,
}

impl SymbolPin {
    /// A pin with the given number and no alternate or UUID.
    pub fn new(number: String) -> (r: Self)
        ensures
            r.number == number,
            r.alternate is None,
            r.uuid is None,
    {
        SymbolPin { number, alternate: None, uuid: None }
    }
}

/// The role of a field: a mandatory field of a symbol, sheet or global label, or a user field.
#[derive(Debug, Clone, Copy, PartialEq, Eq, Structural)]
pub enum PropertyKind {
    User,
    SymbolReference,
    SymbolValue,
    SymbolFootprint,
    SymbolDatasheet,
    SymbolDescription,
    SheetName,
    SheetFile,
    SheetUser,
    GlobalLabelIntersheetRefs,
}

/// User fields of symbols and of sheets.
pub open spec fn spec_is_user_field(kind: PropertyKind) -> bool {
    kind == PropertyKind::User || kind == PropertyKind::SheetUser
}

/// The key under which a mandatory field is written; empty for user fields.
pub open spec fn spec_canonical_key(kind: PropertyKind) -> Seq<char> {
    match kind {
        PropertyKind::User => ""@,
        PropertyKind::SymbolReference => "Reference"@,
        PropertyKind::SymbolValue => "Value"@,
        PropertyKind::SymbolFootprint => "Footprint"@,
        PropertyKind::SymbolDatasheet => "Datasheet"@,
        PropertyKind::SymbolDescription => "Description"@,
        PropertyKind::SheetName => "Sheetname"@,
        PropertyKind::SheetFile => "Sheetfile"@,
        PropertyKind::SheetUser => ""@,
        PropertyKind::GlobalLabelIntersheetRefs => "Intersheet References"@,
    }
}

/// The field id that a new field of each kind gets.
pub open spec fn spec_default_field_id(kind: PropertyKind) -> i32 {
    match kind {
        PropertyKind::User => 0,
        PropertyKind::SymbolReference => 1,
        PropertyKind::SymbolValue => 2,
        PropertyKind::SymbolFootprint => 3,
        PropertyKind::SymbolDatasheet => 4,
        PropertyKind::SymbolDescription => 5,
        PropertyKind::GlobalLabelIntersheetRefs => 6,
        PropertyKind::SheetName => 7,
        PropertyKind::SheetFile => 8,
        PropertyKind::SheetUser => 9,
    }
}

impl PropertyKind {
    /// Whether the field is a user field.
    pub fn is_user_field(self) -> (r: bool)
        ensures
            r == spec_is_user_field(self),
    {
        match self {
            PropertyKind::User | PropertyKind::SheetUser => true,
            _ => false,
        }
    }

    /// Whether the field is one of the mandatory fields of its owner.
    pub fn is_mandatory(self) -> (r: bool)
        ensures
            r == !spec_is_user_field(self),
    {
        !self.is_user_field()
    }

    /// The key under which a mandatory field is written.
    pub fn canonical_key(self) -> (r: &'static str)
        ensures
            r@ == spec_canonical_key(self),
    {
        proof {
            reveal_strlit("");
            reveal_strlit("Reference");
            reveal_strlit("Value");
            reveal_strlit("Footprint");
            reveal_strlit("Datasheet");
            reveal_strlit("Description");
            reveal_strlit("Sheetname");
            reveal_strlit("Sheetfile");
            reveal_strlit("Intersheet References");
        }
        match self {
            PropertyKind::User => "",
            PropertyKind::SymbolReference => "Reference",
            PropertyKind::SymbolValue => "Value",
            PropertyKind::SymbolFootprint => "Footprint",
            PropertyKind::SymbolDatasheet => "Datasheet",
            PropertyKind::SymbolDescription => "Description",
            PropertyKind::SheetName => "Sheetname",
            PropertyKind::SheetFile => "Sheetfile",
            PropertyKind::SheetUser => "",
            PropertyKind::GlobalLabelIntersheetRefs => "Intersheet References",
        }
    }

    /// The field id that a new field of this kind gets.
    pub fn default_field_id(self) -> (r: Option<i32>)
        ensures
            r == Some(spec_default_field_id(self)),
    {
        match self {
            PropertyKind::User => Some(0),
            PropertyKind::SymbolReference => Some(1),
            PropertyKind::SymbolValue => Some(2),
            PropertyKind::SymbolFootprint => Some(3),
            PropertyKind::SymbolDatasheet => Some(4),
            PropertyKind::SymbolDescription => Some(5),
            PropertyKind::GlobalLabelIntersheetRefs => Some(6),
            PropertyKind::SheetName => Some(7),
            PropertyKind::SheetFile => Some(8),
            PropertyKind::SheetUser => Some(9),
        }
    }
}

/// Every field kind has its own default field id.
pub proof fn law_default_field_ids_distinct(a: PropertyKind, b: PropertyKind)
    ensures
        spec_default_field_id(a) == spec_default_field_id(b) <==> a == b,
{
}

/// Exactly the mandatory fields have a non-empty canonical key.
pub proof fn law_mandatory_fields_have_keys(kind: PropertyKind)
    ensures
        !spec_is_user_field(kind) <==> spec_canonical_key(kind).len() > 0,
{
    reveal_strlit("");
    reveal_strlit("Reference");
    reveal_strlit("Value");
    reveal_strlit("Footprint");
    reveal_strlit("Datasheet");
    reveal_strlit("Description");
    reveal_strlit("Sheetname");
    reveal_strlit("Sheetfile");
    reveal_strlit("Intersheet References");
}

/// Shape of a hierarchical sheet pin.
#[derive(Debug, Clone, Copy, PartialEq, Eq, Structural)]
pub enum SheetPinShape {
    Input,
    Output,
    Bidirectional,
    TriState,
    Unspecified,
}

/// Edge of a sheet on which a sheet pin sits.
#[derive(Debug, Clone, Copy, PartialEq, Eq, Structural)]
pub enum SheetSide {
    Right,
    Top,
    Left,
    Bottom,
}

/// A legacy sheet instance record: hierarchy path and page.
#[derive(Debug, Clone, PartialEq)]
pub struct SheetInstance {
    pub path: String,
    pub page: Option<String>,
}

/// A legacy symbol instance record.
#[derive(Debug, Clone, PartialEq)]
pub struct SymbolInstance {
    pub path: String,
    pub reference: Option<String>,
    pub unit: Option<i32>,
    pub value: Option<String>,
    pub footprint: Option<String>,
}

/// Per-variant overrides of an item's flags and fields. The fields are name and text
/// pairs, each name once, in ascending order of names.
#[derive(Debug, Clone, PartialEq)]
pub struct ItemVariant {
    pub name: String,
    pub dnp: bool,
    pub excluded_from_sim: bool,
    pub in_bom: bool,
    pub on_board: bool,
    pub in_pos_files: bool,
    pub fields: Vec<(String, String)>,
}

/// An instance of a sheet in a project, with its variants (each name once).
#[derive(Debug, Clone, PartialEq)]
pub struct SheetLocalInstance {
    pub project: String,
    pub path: String,
    pub page: Option<String>,
    pub variants: Vec<ItemVariant>,
}

/// An instance of a symbol in a project, with its variants (each name once).
#[derive(Debug, Clone, PartialEq)]
pub struct SymbolLocalInstance {
    pub project: String,
    pub path: String,
    pub reference: Option<String>,
    pub unit: Option<i32>,
    pub value: Option<String>,
    pub footprint: Option<String>,
    pub variants: Vec<ItemVariant>,
}

/// A named bus alias and its members.
#[derive(Debug, Clone, PartialEq)]
pub struct BusAlias {
    pub name: String,
    pub members: Vec<String>,
}

/// A file embedded in a schematic.
#[derive(Debug, Clone, PartialEq)]
pub struct EmbeddedFile {
    pub name: Option<String>,
    pub checksum: Option<String>,
    pub file_type: Option<EmbeddedFileType>,
    pub data: Option<String>,
}

/// Kinds of embedded files.
#[derive(Debug, Clone, Copy, PartialEq, Eq, Structural)]
pub enum EmbeddedFileType {
    Datasheet,
    Font,
    Model,
    Worksheet,
    Other,
}

/// A named group of items.
#[derive(Debug, Clone, PartialEq)]
pub struct Group {
    pub name: Option<String>,
    pub uuid: Option<String>,
    pub lib_id: Option<String>,
    pub members: Vec<String>,
}

/// A reference from a sheet symbol to the file it loads, with the resolved path.
#[derive(Debug, Clone, PartialEq)]
pub struct SheetReference {
    pub sheet_uuid: Option<String>,
    pub sheet_name: Option<String>,
    pub filename: String,
    pub resolved_path: String,
}

} // verus!
