//! Electrical-rule helpers: pin electrical types and their conflict matrix,
//! text assertions, stacked-pin notation, footprint-filter wildcards and the
//! natural ordering used for rule reports.

use crate::diagnostic::{Diagnostic, Severity};
use crate::model::sim_params::eq_ignore_ascii_case;
use crate::model::LabelKind;
use crate::natural::{into_ordering, natural_order, natural_order_exec, to_ordering, TextOrder};
use crate::text::{
    all_digits, index_of_from, is_digit, parse_i64, parse_i64_spec, str_eq, str_to_chars, trim,
    trim_bounds, vec_eq_str,
};
use vstd::prelude::*;
use vstd::string::StringSliceAdditionalSpecFns;

pub mod checks;
pub mod ground;
pub mod labels;
pub mod pins;
pub mod pin_check;
pub mod bus_entry;
pub mod label_links;

verus! {

/// Electrical types of pins, in the order of the conflict matrix.
#[derive(Debug, Clone, Copy, PartialEq, Eq, Structural)]
pub enum ReducedPinType {
    Input,
    Output,
    Bidirectional,
    TriState,
    Passive,
    Free,
    Unspecified,
    PowerIn,
    PowerOut,
    OpenCollector,
    OpenEmitter,
    NoConnect,
}

/// Outcome of connecting two pin types.
#[derive(Debug, Clone, Copy, PartialEq, Eq, Structural)]
pub enum PinConflict {
    NoConflict,
    Warning,
    Error,
}

/// The pin type that an electrical-type keyword names.
pub open spec fn pin_type_of(t: Seq<char>) -> Option<ReducedPinType> {
    if t == "input"@ {
        Some(ReducedPinType::Input)
    } else if t == "output"@ {
        Some(ReducedPinType::Output)
    } else if t == "bidirectional"@ {
        Some(ReducedPinType::Bidirectional)
    } else if t == "tri_state"@ {
        Some(ReducedPinType::TriState)
    } else if t == "passive"@ {
        Some(ReducedPinType::Passive)
    } else if t == "free"@ {
        Some(ReducedPinType::Free)
    } else if t == "unspecified"@ {
        Some(ReducedPinType::Unspecified)
    } else if t == "power_in"@ {
        Some(ReducedPinType::PowerIn)
    } else if t == "power_out"@ {
        Some(ReducedPinType::PowerOut)
    } else if t == "open_collector"@ {
        Some(ReducedPinType::OpenCollector)
    } else if t == "open_emitter"@ {
        Some(ReducedPinType::OpenEmitter)
    } else if t == "no_connect"@ {
        Some(ReducedPinType::NoConnect)
    } else {
        None
    }
}

/// Reads an electrical-type keyword.
pub fn parse_reduced_pin_type(electrical_type: &str) -> (r: Option<ReducedPinType>)
    ensures
        r == pin_type_of(electrical_type@),
{
    let t = str_to_chars(electrical_type);
    if vec_eq_str(&t, "input") {
        Some(ReducedPinType::Input)
    } else if vec_eq_str(&t, "output") {
        Some(ReducedPinType::Output)
    } else if vec_eq_str(&t, "bidirectional") {
        Some(ReducedPinType::Bidirectional)
    } else if vec_eq_str(&t, "tri_state") {
        Some(ReducedPinType::TriState)
    } else if vec_eq_str(&t, "passive") {
        Some(ReducedPinType::Passive)
    } else if vec_eq_str(&t, "free") {
        Some(ReducedPinType::Free)
    } else if vec_eq_str(&t, "unspecified") {
        Some(ReducedPinType::Unspecified)
    } else if vec_eq_str(&t, "power_in") {
        Some(ReducedPinType::PowerIn)
    } else if vec_eq_str(&t, "power_out") {
        Some(ReducedPinType::PowerOut)
    } else if vec_eq_str(&t, "open_collector") {
        Some(ReducedPinType::OpenCollector)
    } else if vec_eq_str(&t, "open_emitter") {
        Some(ReducedPinType::OpenEmitter)
    } else if vec_eq_str(&t, "no_connect") {
        Some(ReducedPinType::NoConnect)
    } else {
        None
    }
}

/// The rank of a pin type when the pin that best represents a net is picked: no-connect
/// first, then power outputs, power inputs, outputs, and so on to free pins.
pub open spec fn pin_weight(t: ReducedPinType) -> nat {
    match t {
        ReducedPinType::NoConnect => 0,
        ReducedPinType::PowerOut => 1,
        ReducedPinType::PowerIn => 2,
        ReducedPinType::Output => 3,
        ReducedPinType::Bidirectional => 4,
        ReducedPinType::TriState => 5,
        ReducedPinType::Input => 6,
        ReducedPinType::OpenEmitter => 7,
        ReducedPinType::OpenCollector => 8,
        ReducedPinType::Passive => 9,
        ReducedPinType::Unspecified => 10,
        ReducedPinType::Free => 11,
    }
}

/// The rank of a pin type.
pub fn reduced_pin_type_weight(pin_type: ReducedPinType) -> (r: usize)
    ensures
        r == pin_weight(pin_type),
{
    match pin_type {
        ReducedPinType::NoConnect => 0,
        ReducedPinType::PowerOut => 1,
        ReducedPinType::PowerIn => 2,
        ReducedPinType::Output => 3,
        ReducedPinType::Bidirectional => 4,
        ReducedPinType::TriState => 5,
        ReducedPinType::Input => 6,
        ReducedPinType::OpenEmitter => 7,
        ReducedPinType::OpenCollector => 8,
        ReducedPinType::Passive => 9,
        ReducedPinType::Unspecified => 10,
        ReducedPinType::Free => 11,
    }
}

/// Distinct pin types have distinct ranks.
pub proof fn law_pin_weights_distinct(a: ReducedPinType, b: ReducedPinType)
    ensures
        pin_weight(a) == pin_weight(b) <==> a == b,
{
}

/// The display name of a pin type.
pub open spec fn pin_type_text(t: ReducedPinType) -> Seq<char> {
    match t {
        ReducedPinType::Input => "Input"@,
        ReducedPinType::Output => "Output"@,
        ReducedPinType::Bidirectional => "Bidirectional"@,
        ReducedPinType::TriState => "Tri-state"@,
        ReducedPinType::Passive => "Passive"@,
        ReducedPinType::Free => "Free"@,
        ReducedPinType::Unspecified => "Unspecified"@,
        ReducedPinType::PowerIn => "Power input"@,
        ReducedPinType::PowerOut => "Power output"@,
        ReducedPinType::OpenCollector => "Open collector"@,
        ReducedPinType::OpenEmitter => "Open emitter"@,
        ReducedPinType::NoConnect => "Unconnected"@,
    }
}

/// The display name of a pin type.
pub fn reduced_pin_type_text(pin_type: ReducedPinType) -> (r: &'static str)
    ensures
        r@ == pin_type_text(pin_type),
{
    match pin_type {
        ReducedPinType::Input => "Input",
        ReducedPinType::Output => "Output",
        ReducedPinType::Bidirectional => "Bidirectional",
        ReducedPinType::TriState => "Tri-state",
        ReducedPinType::Passive => "Passive",
        ReducedPinType::Free => "Free",
        ReducedPinType::Unspecified => "Unspecified",
        ReducedPinType::PowerIn => "Power input",
        ReducedPinType::PowerOut => "Power output",
        ReducedPinType::OpenCollector => "Open collector",
        ReducedPinType::OpenEmitter => "Open emitter",
        ReducedPinType::NoConnect => "Unconnected",
    }
}

/// The row and column of a pin type in the conflict matrix.
pub open spec fn pin_index(t: ReducedPinType) -> nat {
    match t {
        ReducedPinType::Input => 0,
        ReducedPinType::Output => 1,
        ReducedPinType::Bidirectional => 2,
        ReducedPinType::TriState => 3,
        ReducedPinType::Passive => 4,
        ReducedPinType::Free => 5,
        ReducedPinType::Unspecified => 6,
        ReducedPinType::PowerIn => 7,
        ReducedPinType::PowerOut => 8,
        ReducedPinType::OpenCollector => 9,
        ReducedPinType::OpenEmitter => 10,
        ReducedPinType::NoConnect => 11,
    }
}

/// The row and column of a pin type in the conflict matrix.
pub fn pin_type_index(pin_type: ReducedPinType) -> (r: usize)
    ensures
        r == pin_index(pin_type),
        r < 12,
{
    match pin_type {
        ReducedPinType::Input => 0,
        ReducedPinType::Output => 1,
        ReducedPinType::Bidirectional => 2,
        ReducedPinType::TriState => 3,
        ReducedPinType::Passive => 4,
        ReducedPinType::Free => 5,
        ReducedPinType::Unspecified => 6,
        ReducedPinType::PowerIn => 7,
        ReducedPinType::PowerOut => 8,
        ReducedPinType::OpenCollector => 9,
        ReducedPinType::OpenEmitter => 10,
        ReducedPinType::NoConnect => 11,
    }
}

/// The default pin conflict matrix, row by row.
pub open spec fn conflict_row(i: nat) -> Seq<PinConflict> {
    let o = PinConflict::NoConflict;
    let w = PinConflict::Warning;
    let e = PinConflict::Error;
    if i == 0 {
        seq![o, o, o, o, o, o, w, o, o, o, o, e]
    } else if i == 1 {
        seq![o, e, o, w, o, o, w, o, e, e, e, e]
    } else if i == 2 {
        seq![o, o, o, o, o, o, w, o, w, o, w, e]
    } else if i == 3 {
        seq![o, w, o, o, o, o, w, w, e, w, w, e]
    } else if i == 4 {
        seq![o, o, o, o, o, o, w, o, o, o, o, e]
    } else if i == 5 {
        seq![o, o, o, o, o, o, o, o, o, o, o, e]
    } else if i == 6 {
        seq![w, w, w, w, w, o, w, w, w, w, w, e]
    } else if i == 7 {
        seq![o, o, o, w, o, o, w, o, o, o, o, e]
    } else if i == 8 {
        seq![o, e, w, e, o, o, w, o, e, e, e, e]
    } else if i == 9 {
        seq![o, e, o, w, o, o, w, o, e, o, o, e]
    } else if i == 10 {
        seq![o, e, w, w, o, o, w, o, e, o, o, e]
    } else {
        seq![e, e, e, e, e, e, e, e, e, e, e, e]
    }
}

/// What connecting two pin types gives by default.
pub open spec fn conflict_of(a: ReducedPinType, b: ReducedPinType) -> PinConflict {
    conflict_row(pin_index(a))[pin_index(b) as int]
}

/// What connecting two pin types gives by default.
pub fn pin_conflict(lhs: ReducedPinType, rhs: ReducedPinType) -> (r: PinConflict)
    ensures
        r == conflict_of(lhs, rhs),
{
    let o = PinConflict::NoConflict;
    let w = PinConflict::Warning;
    let e = PinConflict::Error;
    let i = pin_type_index(lhs);
    let row: [PinConflict; 12] = if i == 0 {
        [o, o, o, o, o, o, w, o, o, o, o, e]
    } else if i == 1 {
        [o, e, o, w, o, o, w, o, e, e, e, e]
    } else if i == 2 {
        [o, o, o, o, o, o, w, o, w, o, w, e]
    } else if i == 3 {
        [o, w, o, o, o, o, w, w, e, w, w, e]
    } else if i == 4 {
        [o, o, o, o, o, o, w, o, o, o, o, e]
    } else if i == 5 {
        [o, o, o, o, o, o, o, o, o, o, o, e]
    } else if i == 6 {
        [w, w, w, w, w, o, w, w, w, w, w, e]
    } else if i == 7 {
        [o, o, o, w, o, o, w, o, o, o, o, e]
    } else if i == 8 {
        [o, e, w, e, o, o, w, o, e, e, e, e]
    } else if i == 9 {
        [o, e, o, w, o, o, w, o, e, o, o, e]
    } else if i == 10 {
        [o, e, w, w, o, o, w, o, e, o, o, e]
    } else {
        [e, e, e, e, e, e, e, e, e, e, e, e]
    };
    assert(row@ =~= conflict_row(i as nat));
    row[pin_type_index(rhs)]
}

/// The pin conflict matrix is symmetric: connecting `a` to `b` is judged as connecting
/// `b` to `a`.
pub proof fn law_pin_conflict_symmetric(a: ReducedPinType, b: ReducedPinType)
    ensures
        conflict_of(a, b) == conflict_of(b, a),
{
    let o = PinConflict::NoConflict;
    let w = PinConflict::Warning;
    let e = PinConflict::Error;
    assert(conflict_row(0) == seq![o, o, o, o, o, o, w, o, o, o, o, e]);
    assert(conflict_row(1) == seq![o, e, o, w, o, o, w, o, e, e, e, e]);
    assert(conflict_row(2) == seq![o, o, o, o, o, o, w, o, w, o, w, e]);
    assert(conflict_row(3) == seq![o, w, o, o, o, o, w, w, e, w, w, e]);
    assert(conflict_row(4) == seq![o, o, o, o, o, o, w, o, o, o, o, e]);
    assert(conflict_row(5) == seq![o, o, o, o, o, o, o, o, o, o, o, e]);
    assert(conflict_row(6) == seq![w, w, w, w, w, o, w, w, w, w, w, e]);
    assert(conflict_row(7) == seq![o, o, o, w, o, o, w, o, o, o, o, e]);
    assert(conflict_row(8) == seq![o, e, w, e, o, o, w, o, e, e, e, e]);
    assert(conflict_row(9) == seq![o, e, o, w, o, o, w, o, e, o, o, e]);
    assert(conflict_row(10) == seq![o, e, w, w, o, o, w, o, e, o, o, e]);
    assert(conflict_row(11) == seq![e, e, e, e, e, e, e, e, e, e, e, e]);
}

proof fn lemma_conflict_rows()
    ensures
        conflict_row(0) == seq![PinConflict::NoConflict, PinConflict::NoConflict, PinConflict::NoConflict, PinConflict::NoConflict, PinConflict::NoConflict, PinConflict::NoConflict, PinConflict::Warning, PinConflict::NoConflict, PinConflict::NoConflict, PinConflict::NoConflict, PinConflict::NoConflict, PinConflict::Error],
        conflict_row(1) == seq![PinConflict::NoConflict, PinConflict::Error, PinConflict::NoConflict, PinConflict::Warning, PinConflict::NoConflict, PinConflict::NoConflict, PinConflict::Warning, PinConflict::NoConflict, PinConflict::Error, PinConflict::Error, PinConflict::Error, PinConflict::Error],
        conflict_row(2) == seq![PinConflict::NoConflict, PinConflict::NoConflict, PinConflict::NoConflict, PinConflict::NoConflict, PinConflict::NoConflict, PinConflict::NoConflict, PinConflict::Warning, PinConflict::NoConflict, PinConflict::Warning, PinConflict::NoConflict, PinConflict::Warning, PinConflict::Error],
        conflict_row(3) == seq![PinConflict::NoConflict, PinConflict::Warning, PinConflict::NoConflict, PinConflict::NoConflict, PinConflict::NoConflict, PinConflict::NoConflict, PinConflict::Warning, PinConflict::Warning, PinConflict::Error, PinConflict::Warning, PinConflict::Warning, PinConflict::Error],
        conflict_row(4) == seq![PinConflict::NoConflict, PinConflict::NoConflict, PinConflict::NoConflict, PinConflict::NoConflict, PinConflict::NoConflict, PinConflict::NoConflict, PinConflict::Warning, PinConflict::NoConflict, PinConflict::NoConflict, PinConflict::NoConflict, PinConflict::NoConflict, PinConflict::Error],
        conflict_row(5) == seq![PinConflict::NoConflict, PinConflict::NoConflict, PinConflict::NoConflict, PinConflict::NoConflict, PinConflict::NoConflict, PinConflict::NoConflict, PinConflict::NoConflict, PinConflict::NoConflict, PinConflict::NoConflict, PinConflict::NoConflict, PinConflict::NoConflict, PinConflict::Error],
        conflict_row(6) == seq![PinConflict::Warning, PinConflict::Warning, PinConflict::Warning, PinConflict::Warning, PinConflict::Warning, PinConflict::NoConflict, PinConflict::Warning, PinConflict::Warning, PinConflict::Warning, PinConflict::Warning, PinConflict::Warning, PinConflict::Error],
        conflict_row(7) == seq![PinConflict::NoConflict, PinConflict::NoConflict, PinConflict::NoConflict, PinConflict::Warning, PinConflict::NoConflict, PinConflict::NoConflict, PinConflict::Warning, PinConflict::NoConflict, PinConflict::NoConflict, PinConflict::NoConflict, PinConflict::NoConflict, PinConflict::Error],
        conflict_row(8) == seq![PinConflict::NoConflict, PinConflict::Error, PinConflict::Warning, PinConflict::Error, PinConflict::NoConflict, PinConflict::NoConflict, PinConflict::Warning, PinConflict::NoConflict, PinConflict::Error, PinConflict::Error, PinConflict::Error, PinConflict::Error],
        conflict_row(9) == seq![PinConflict::NoConflict, PinConflict::Error, PinConflict::NoConflict, PinConflict::Warning, PinConflict::NoConflict, PinConflict::NoConflict, PinConflict::Warning, PinConflict::NoConflict, PinConflict::Error, PinConflict::NoConflict, PinConflict::NoConflict, PinConflict::Error],
        conflict_row(10) == seq![PinConflict::NoConflict, PinConflict::Error, PinConflict::Warning, PinConflict::Warning, PinConflict::NoConflict, PinConflict::NoConflict, PinConflict::Warning, PinConflict::NoConflict, PinConflict::Error, PinConflict::NoConflict, PinConflict::NoConflict, PinConflict::Error],
        conflict_row(11) == seq![PinConflict::Error, PinConflict::Error, PinConflict::Error, PinConflict::Error, PinConflict::Error, PinConflict::Error, PinConflict::Error, PinConflict::Error, PinConflict::Error, PinConflict::Error, PinConflict::Error, PinConflict::Error],
{
}

/// A pin that drives its net high and low (an output or a power output) tied to another
/// output of any kind (output, power output, open collector or open emitter) is an error.
pub proof fn law_push_pull_outputs_clash(a: ReducedPinType, b: ReducedPinType)
    requires
        a == ReducedPinType::Output || a == ReducedPinType::PowerOut,
        b == ReducedPinType::Output || b == ReducedPinType::PowerOut || b == ReducedPinType::OpenCollector
            || b == ReducedPinType::OpenEmitter,
    ensures
        conflict_of(a, b) == PinConflict::Error,
        conflict_of(b, a) == PinConflict::Error,
{
    lemma_conflict_rows();
}

/// Inputs and passive pins accept any pin but an unspecified or a no-connect one; a free
/// pin accepts any pin but a no-connect one.
pub proof fn law_inputs_and_passives_accept(a: ReducedPinType, b: ReducedPinType)
    ensures
        ((a == ReducedPinType::Input || a == ReducedPinType::Passive) && b != ReducedPinType::Unspecified
            && b != ReducedPinType::NoConnect) ==> conflict_of(a, b) == PinConflict::NoConflict
            && conflict_of(b, a) == PinConflict::NoConflict,
        (a == ReducedPinType::Free && b != ReducedPinType::NoConnect) ==> conflict_of(a, b) == PinConflict::NoConflict
            && conflict_of(b, a) == PinConflict::NoConflict,
{
    lemma_conflict_rows();
}

/// An unspecified pin draws a warning from every pin but a free one (and an error from a
/// no-connect one).
pub proof fn law_unspecified_pins_warn(b: ReducedPinType)
    requires
        b != ReducedPinType::Free,
        b != ReducedPinType::NoConnect,
    ensures
        conflict_of(ReducedPinType::Unspecified, b) == PinConflict::Warning,
        conflict_of(b, ReducedPinType::Unspecified) == PinConflict::Warning,
{
    lemma_conflict_rows();
}

/// Open-collector and open-emitter outputs may share a net.
pub proof fn law_open_outputs_share(a: ReducedPinType, b: ReducedPinType)
    requires
        a == ReducedPinType::OpenCollector || a == ReducedPinType::OpenEmitter,
        b == ReducedPinType::OpenCollector || b == ReducedPinType::OpenEmitter,
    ensures
        conflict_of(a, b) == PinConflict::NoConflict,
{
    lemma_conflict_rows();
}

/// A power input warns against a tri-state or unspecified pin and accepts every other
/// pin but a no-connect one.
pub proof fn law_power_input_conflicts(b: ReducedPinType)
    ensures
        conflict_of(ReducedPinType::PowerIn, b) == if b == ReducedPinType::NoConnect {
            PinConflict::Error
        } else if b == ReducedPinType::TriState || b == ReducedPinType::Unspecified {
            PinConflict::Warning
        } else {
            PinConflict::NoConflict
        },
{
    lemma_conflict_rows();
}

/// A tri-state pin is an error against a power output, a warning against an output, a
/// power input, an open collector or emitter, or an unspecified pin, and fine otherwise
/// (but for a no-connect one).
pub proof fn law_tri_state_conflicts(b: ReducedPinType)
    ensures
        conflict_of(ReducedPinType::TriState, b) == if b == ReducedPinType::NoConnect || b == ReducedPinType::PowerOut {
            PinConflict::Error
        } else if b == ReducedPinType::Output || b == ReducedPinType::PowerIn || b == ReducedPinType::OpenCollector
            || b == ReducedPinType::OpenEmitter || b == ReducedPinType::Unspecified {
            PinConflict::Warning
        } else {
            PinConflict::NoConflict
        },
{
    lemma_conflict_rows();
}

/// A bidirectional pin warns against a power output, an open emitter or an unspecified
/// pin, and is fine otherwise (but for a no-connect one).
pub proof fn law_bidirectional_conflicts(b: ReducedPinType)
    ensures
        conflict_of(ReducedPinType::Bidirectional, b) == if b == ReducedPinType::NoConnect {
            PinConflict::Error
        } else if b == ReducedPinType::PowerOut || b == ReducedPinType::OpenEmitter || b == ReducedPinType::Unspecified {
            PinConflict::Warning
        } else {
            PinConflict::NoConflict
        },
{
    lemma_conflict_rows();
}

/// A no-connect pin conflicts with every pin it is connected to.
pub proof fn law_no_connect_always_errors(t: ReducedPinType)
    ensures
        conflict_of(ReducedPinType::NoConnect, t) == PinConflict::Error,
        conflict_of(t, ReducedPinType::NoConnect) == PinConflict::Error,
{
}

/// Pins that need a driver on their net.
pub open spec fn driven(t: ReducedPinType) -> bool {
    t == ReducedPinType::Input || t == ReducedPinType::PowerIn
}

/// Pins that drive a net.
pub open spec fn normal_driver(t: ReducedPinType) -> bool {
    t == ReducedPinType::Output || t == ReducedPinType::PowerOut || t == ReducedPinType::Passive
        || t == ReducedPinType::TriState || t == ReducedPinType::Bidirectional
}

/// Whether a pin needs a driver on its net.
pub fn is_driven_pin_type(pin_type: ReducedPinType) -> (r: bool)
    ensures
        r == driven(pin_type),
{
    match pin_type {
        ReducedPinType::Input | ReducedPinType::PowerIn => true,
        _ => false,
    }
}

/// Whether a pin drives its net.
pub fn is_normal_driver_pin_type(pin_type: ReducedPinType) -> (r: bool)
    ensures
        r == normal_driver(pin_type),
{
    match pin_type {
        ReducedPinType::Output | ReducedPinType::PowerOut | ReducedPinType::Passive
        | ReducedPinType::TriState | ReducedPinType::Bidirectional => true,
        _ => false,
    }
}

/// Whether a pin drives a power net.
pub fn is_power_driver_pin_type(pin_type: ReducedPinType) -> (r: bool)
    ensures
        r == (pin_type == ReducedPinType::PowerOut),
{
    match pin_type {
        ReducedPinType::PowerOut => true,
        _ => false,
    }
}

/// A pin is never both driven and a driver.
pub proof fn law_driven_pins_do_not_drive(t: ReducedPinType)
    ensures
        !(driven(t) && normal_driver(t)),
{
}

/// A stable numeric key for a label scope.
pub fn reduced_label_kind_key(kind: LabelKind) -> (r: u8)
    ensures
        r == match kind {
            LabelKind::Local => 0u8,
            LabelKind::Global => 1u8,
            LabelKind::Hierarchical => 2u8,
            LabelKind::Directive => 3u8,
        },
{
    match kind {
        LabelKind::Local => 0,
        LabelKind::Global => 1,
        LabelKind::Hierarchical => 2,
        LabelKind::Directive => 3,
    }
}

/// Natural order without regard to ASCII case, where equal-valued digit runs order by length;
/// texts equal up to case are equal.
pub open spec fn rule_text_order(a: Seq<char>, b: Seq<char>) -> TextOrder {
    if eq_ignore_ascii_case(a, b) {
        TextOrder::Equal
    } else {
        natural_order(a, b, true, true)
    }
}

pub(crate) fn rule_text_order_exec(a: &Vec<char>, b: &Vec<char>) -> (r: TextOrder)
    ensures
        r == rule_text_order(a@, b@),
{
    let mut same = a.len() == b.len();
    if same {
        let mut i: usize = 0;
        while i < a.len()
            invariant
                0 <= i <= a.len(),
                a.len() == b.len(),
                same <==> forall|k: int| 0 <= k < i ==> #[trigger] crate::text::lower_ascii(a@[k]) == crate::text::lower_ascii(b@[k]),
            decreases a.len() - i,
        {
            if crate::text::to_ascii_lowercase(a[i]) != crate::text::to_ascii_lowercase(b[i]) {
                same = false;
            }
            i = i + 1;
        }
    }
    if same {
        TextOrder::Equal
    } else {
        natural_order_exec(a, b, true, true)
    }
}

/// The rule-table comparison is the netlist's pin-number comparison without regard to
/// case: both order every two texts alike.
pub proof fn law_rule_text_order_is_str_num_order(a: Seq<char>, b: Seq<char>)
    ensures
        rule_text_order(a, b) == crate::netlist::str_num_order(a, b, true),
{
    crate::netlist::law_str_num_order_equal(a, b, true);
    let fa = crate::natural::fold_seq(a, true);
    let fb = crate::natural::fold_seq(b, true);
    if eq_ignore_ascii_case(a, b) {
        assert(fa =~= fb);
    }
    if fa == fb {
        assert forall|i: int| 0 <= i < a.len() implies #[trigger] crate::text::lower_ascii(a[i])
            == crate::text::lower_ascii(b[i]) by {
            assert(fa.len() == a.len() && fb.len() == b.len());
            assert(fa[i] == crate::natural::fold_char(a[i], true));
            assert(fb[i] == crate::natural::fold_char(b[i], true));
            assert(fa[i] == fb[i]);
        }
    }
}

/// Compares two texts in natural order without regard to ASCII case.
pub fn reduced_str_num_cmp_ignore_case(a: &str, b: &str) -> (r: std::cmp::Ordering)
    ensures
        r == to_ordering(rule_text_order(a@, b@)),
{
    let av = str_to_chars(a);
    let bv = str_to_chars(b);
    into_ordering(rule_text_order_exec(&av, &bv))
}

/// The prefix before the first digit of a pin token, and the value of the rest where it
/// is an integer.
pub open spec fn alnum_token(t: Seq<char>) -> (Seq<char>, Option<i64>) {
    let k = first_digit(t, 0);
    if k >= t.len() {
        (t, None)
    } else {
        (t.subrange(0, k), parse_i64_spec(t.subrange(k, t.len() as int)))
    }
}

/// Position of the first digit at or after `i`, or the length.
pub open spec fn first_digit(s: Seq<char>, i: int) -> int
    decreases s.len() - i,
{
    if 0 <= i < s.len() && !is_digit(s[i]) {
        first_digit(s, i + 1)
    } else {
        i
    }
}

fn alnum_token_range(v: &Vec<char>, lo: usize, hi: usize) -> (r: (usize, Option<i64>))
    requires
        lo <= hi <= v.len(),
    ensures
        lo <= r.0 <= hi,
        v@.subrange(lo as int, r.0 as int) == alnum_token(v@.subrange(lo as int, hi as int)).0,
        r.1 == alnum_token(v@.subrange(lo as int, hi as int)).1,
{
    let ghost t = v@.subrange(lo as int, hi as int);
    let mut k = lo;
    while k < hi && !crate::text::is_ascii_digit(v[k])
        invariant
            lo <= k <= hi <= v.len(),
            t == v@.subrange(lo as int, hi as int),
            first_digit(t, 0) == first_digit(t, k - lo),
        decreases hi - k,
    {
        k = k + 1;
    }
    if k >= hi {
        assert(t.subrange(0, t.len() as int) =~= t);
        (k, None)
    } else {
        assert(t.subrange(k - lo, t.len() as int) =~= v@.subrange(k as int, hi as int));
        assert(t.subrange(0, k - lo) =~= v@.subrange(lo as int, k as int));
        (k, parse_i64(v, k, hi))
    }
}

/// Splits a pin token at its first digit: the prefix, and the value of the rest where it
/// is an integer.
pub fn parse_alphanumeric_pin_token(token: &str) -> (r: (String, Option<i64>))
    ensures
        r.0@ == alnum_token(token@).0,
        r.1 == alnum_token(token@).1,
{
    let v = str_to_chars(token);
    assert(v@.subrange(0, v@.len() as int) =~= v@);
    let (k, value) = alnum_token_range(&v, 0, v.len());
    (crate::text::chars_to_string(&v, 0, k), value)
}

/// Whether `c` occurs in `s`.
pub open spec fn has_char(s: Seq<char>, c: char) -> bool {
    exists|i: int| 0 <= i < s.len() && s[i] == c
}

/// The text is wrapped in square brackets.
pub open spec fn bracketed(s: Seq<char>) -> bool {
    s.len() > 0 && s[0] == '[' && s.last() == ']'
}

/// How one comma-separated item of a stacked-pin list reads: blank (0), a pin or a valid
/// range (1), or an invalid range (2: a bound that is no integer after its prefix,
/// prefixes that differ, or a start above the end).
pub open spec fn stacked_part_status(p: Seq<char>) -> u8 {
    let t = trim(p);
    let d = index_of_from(t, '-', 0);
    if t.len() == 0 {
        0
    } else if d >= t.len() {
        1
    } else {
        let a = alnum_token(trim(t.subrange(0, d)));
        let b = alnum_token(trim(t.subrange(d + 1, t.len() as int)));
        if a.1 is None || b.1 is None || a.0 != b.0 || a.1->0 > b.1->0 {
            2
        } else {
            1
        }
    }
}

/// A pin name is acceptable stacked-pin notation: no brackets at all, or a bracketed
/// comma-separated list of pins and ranges with no invalid range and at least one item.
pub open spec fn stacked_valid(pin: Seq<char>) -> bool {
    if (has_char(pin, '[') || has_char(pin, ']')) && !bracketed(pin) {
        false
    } else if !bracketed(pin) {
        true
    } else {
        let parts = crate::text::split_from(pin.subrange(1, pin.len() - 1), ',', 0, Seq::empty());
        (forall|i: int| 0 <= i < parts.len() ==> stacked_part_status(#[trigger] parts[i]) != 2)
            && (exists|i: int| 0 <= i < parts.len() && stacked_part_status(#[trigger] parts[i]) == 1)
    }
}

pub(crate) fn has_char_exec(v: &Vec<char>, c: char) -> (b: bool)
    ensures
        b == has_char(v@, c),
{
    let k = crate::text::find_char(v, 0, v.len(), c);
    proof {
        assert(v@.subrange(0, v@.len() as int) =~= v@);
        crate::text::lemma_index_of_from(v@, c, 0);
    }
    k < v.len()
}

fn stacked_part_status_exec(p: &Vec<char>) -> (r: u8)
    ensures
        r == stacked_part_status(p@),
{
    let (a, b) = trim_bounds(p, 0, p.len());
    let ghost t = trim(p@);
    assert(p@.subrange(0, p@.len() as int) =~= p@);
    if a == b {
        return 0;
    }
    let d = crate::text::find_char(p, a, b, '-');
    if d >= b - a {
        return 1;
    }
    let (sa, sb) = trim_bounds(p, a, a + d);
    let (ea, eb) = trim_bounds(p, a + d + 1, b);
    assert(p@.subrange(a as int, a + d) =~= t.subrange(0, d as int));
    assert(p@.subrange(a + d + 1, b as int) =~= t.subrange(d + 1, t.len() as int));
    let (sk, sv) = alnum_token_range(p, sa, sb);
    let (ek, ev) = alnum_token_range(p, ea, eb);
    match (sv, ev) {
        (Some(x), Some(y)) => {
            let same_prefix = crate::text::range_eq(p, sa, sk, p, ea, ek);
            if !same_prefix || x > y {
                2
            } else {
                1
            }
        },
        _ => 2,
    }
}

/// Whether a pin name is acceptable stacked-pin notation, such as `[1,2,5-7]` or a plain
/// pin name.
pub fn stacked_pin_notation_is_valid(pin_name: &str) -> (r: bool)
    ensures
        r == stacked_valid(pin_name@),
{
    let v = str_to_chars(pin_name);
    let has_open = has_char_exec(&v, '[');
    let has_close = has_char_exec(&v, ']');
    let wrapped = v.len() > 0 && v[0] == '[' && v[v.len() - 1] == ']';
    if (has_open || has_close) && !wrapped {
        return false;
    }
    if !wrapped {
        return true;
    }
    let parts = crate::text::split_on_char(&v, 1, v.len() - 1, ',');
    let ghost ps = parts.deep_view();
    let mut any = false;
    let mut i: usize = 0;
    while i < parts.len()
        invariant
            0 <= i <= parts.len(),
            ps == parts.deep_view(),
            v@ == pin_name@,
            bracketed(v@),
            ps == crate::text::split_from(v@.subrange(1, v@.len() - 1), ',', 0, Seq::empty()),
            forall|k: int| 0 <= k < i ==> stacked_part_status(#[trigger] ps[k]) != 2,
            any <==> exists|k: int| 0 <= k < i && stacked_part_status(#[trigger] ps[k]) == 1,
        decreases parts.len() - i,
    {
        assert(parts[i as int]@ == ps[i as int]) by {
            assert(parts[i as int].deep_view() =~= parts[i as int]@);
        }
        let st = stacked_part_status_exec(&parts[i]);
        if st == 2 {
            assert(stacked_part_status(ps[i as int]) == 2);
            return false;
        }
        if st == 1 {
            any = true;
        }
        i = i + 1;
    }
    any
}

/// The severity and message of an `${ERC_WARNING ...}` or `${ERC_ERROR ...}` text
/// assertion at the start of a text.
pub open spec fn text_assertion(t: Seq<char>) -> Option<(Severity, Seq<char>)> {
    let w = "${ERC_WARNING"@;
    let e = "${ERC_ERROR"@;
    let rw = t.subrange(w.len() as int, t.len() as int);
    let re = t.subrange(e.len() as int, t.len() as int);
    if t.len() >= w.len() && t.subrange(0, w.len() as int) == w && index_of_from(rw, '}', 0) < rw.len() {
        Some((Severity::Warning, trim(rw.subrange(0, index_of_from(rw, '}', 0)))))
    } else if t.len() >= e.len() && t.subrange(0, e.len() as int) == e && index_of_from(re, '}', 0) < re.len() {
        Some((Severity::Error, trim(re.subrange(0, index_of_from(re, '}', 0)))))
    } else {
        None
    }
}

/// Reads a text assertion: `${ERC_WARNING message}` or `${ERC_ERROR message}` at the start
/// of the text gives the severity and the trimmed message.
pub fn parse_text_assertion(text: &str) -> (r: Option<(Severity, String)>)
    ensures
        match text_assertion(text@) {
            Some(x) => r matches Some(y) && y.0 == x.0 && y.1@ == x.1,
            None => r is None,
        },
{
    let v = str_to_chars(text);
    proof {
        reveal_strlit("${ERC_WARNING");
        reveal_strlit("${ERC_ERROR");
    }
    let n = v.len();
    if n >= 13 && crate::text::range_eq_str(&v, 0, 13, "${ERC_WARNING") {
        let k = crate::text::find_char(&v, 13, n, '}');
        if k < n - 13 {
            let (a, b) = trim_bounds(&v, 13, 13 + k);
            assert(v@.subrange(13, 13 + k) =~= v@.subrange(13, n as int).subrange(0, k as int));
            return Some((Severity::Warning, crate::text::chars_to_string(&v, a, b)));
        }
    }
    if n >= 11 && crate::text::range_eq_str(&v, 0, 11, "${ERC_ERROR") {
        let k = crate::text::find_char(&v, 11, n, '}');
        if k < n - 11 {
            let (a, b) = trim_bounds(&v, 11, 11 + k);
            assert(v@.subrange(11, 11 + k) =~= v@.subrange(11, n as int).subrange(0, k as int));
            return Some((Severity::Error, crate::text::chars_to_string(&v, a, b)));
        }
    }
    None
}

/// Glob matching of bytes `p[i..]` against `t[j..]`: `*` matches any run, `?` any one
/// byte, other bytes themselves.
pub open spec fn glob_at(p: Seq<u8>, t: Seq<u8>, i: int, j: int) -> bool
    decreases (p.len() - i) + (t.len() - j),
{
    if i < 0 || j < 0 || i > p.len() || j > t.len() {
        false
    } else if i == p.len() {
        j == t.len()
    } else if p[i] == 42u8 {
        glob_at(p, t, i + 1, j) || (j < t.len() && glob_at(p, t, i, j + 1))
    } else if p[i] == 63u8 {
        j < t.len() && glob_at(p, t, i + 1, j + 1)
    } else {
        j < t.len() && p[i] == t[j] && glob_at(p, t, i + 1, j + 1)
    }
}

fn glob_exec(p: &[u8], t: &[u8], i: usize, j: usize) -> (r: bool)
    requires
        i <= p.len(),
        j <= t.len(),
    ensures
        r == glob_at(p@, t@, i as int, j as int),
    decreases (p.len() - i) + (t.len() - j),
{
    if i >= p.len() {
        j >= t.len()
    } else if p[i] == 42u8 {
        glob_exec(p, t, i + 1, j) || (j < t.len() && glob_exec(p, t, i, j + 1))
    } else if p[i] == 63u8 {
        j < t.len() && glob_exec(p, t, i + 1, j + 1)
    } else {
        j < t.len() && p[i] == t[j] && glob_exec(p, t, i + 1, j + 1)
    }
}

/// Whether a text matches a footprint-filter pattern with `*` and `?` wildcards, byte by
/// byte over the UTF-8 encodings.
pub fn wildcard_matches(pattern: &str, text: &str) -> (r: bool)
    ensures
        r == glob_at(pattern.spec_bytes(), text.spec_bytes(), 0, 0),
{
    glob_exec(pattern.as_bytes(), text.as_bytes(), 0, 0)
}

/// How a project configures the severity of an electrical rule.
#[derive(Debug, Clone, Copy, PartialEq, Eq, Structural)]
pub enum LoadedErcSeverity {
    Warning,
    Error,
    Ignore,
}

/// The project setting that governs the rule a diagnostic code belongs to, with the
/// rule's default severity (`None`: reported only where configured).
pub open spec fn rule_setting(code: Seq<char>) -> Option<(Seq<char>, Option<Severity>)> {
    if code == "erc-duplicate-sheet-name"@ {
        Some(("duplicate_sheet_names"@, Some(Severity::Error)))
    } else if code == "erc-missing-units"@ {
        Some(("missing_unit"@, Some(Severity::Warning)))
    } else if code == "erc-undefined-netclass"@ {
        Some(("undefined_netclass"@, Some(Severity::Error)))
    } else if code == "erc-label-multiple-wires"@ {
        Some(("label_multiple_wires"@, Some(Severity::Warning)))
    } else if code == "erc-four-way-junction"@ {
        Some(("four_way_junction"@, None))
    } else if code == "erc-nc-pin-connected"@ {
        Some(("no_connect_connected"@, Some(Severity::Warning)))
    } else if code == "erc-no-connect-connected"@ {
        Some(("no_connect_connected"@, Some(Severity::Warning)))
    } else if code == "erc-label-dangling"@ {
        Some(("label_dangling"@, Some(Severity::Error)))
    } else if code == "erc-isolated-pin-label"@ {
        Some(("isolated_pin_label"@, Some(Severity::Warning)))
    } else if code == "erc-unconnected-wire-endpoint"@ {
        Some(("unconnected_wire_endpoint"@, Some(Severity::Warning)))
    } else if code == "erc-wire-dangling"@ {
        Some(("wire_dangling"@, Some(Severity::Error)))
    } else if code == "erc-pin-not-connected"@ {
        Some(("pin_not_connected"@, Some(Severity::Error)))
    } else if code == "erc-hierarchical-label-mismatch"@ {
        Some(("hier_label_mismatch"@, Some(Severity::Error)))
    } else if code == "erc-bus-to-net-conflict"@ {
        Some(("bus_to_net_conflict"@, Some(Severity::Error)))
    } else if code == "erc-bus-to-bus-conflict"@ {
        Some(("bus_to_bus_conflict"@, Some(Severity::Error)))
    } else if code == "erc-bus-entry-conflict"@ {
        Some(("net_not_bus_member"@, Some(Severity::Warning)))
    } else if code == "erc-pin-to-pin-warning"@ {
        Some(("pin_to_pin"@, Some(Severity::Warning)))
    } else if code == "erc-pin-to-pin-error"@ {
        Some(("pin_to_pin"@, Some(Severity::Error)))
    } else if code == "erc-pin-not-driven"@ {
        Some(("pin_not_driven"@, Some(Severity::Error)))
    } else if code == "erc-power-pin-not-driven"@ {
        Some(("power_pin_not_driven"@, Some(Severity::Error)))
    } else if code == "erc-driver-conflict"@ {
        Some(("multiple_net_names"@, Some(Severity::Warning)))
    } else if code == "erc-single-global-label"@ {
        Some(("single_global_label"@, None))
    } else if code == "erc-similar-labels"@ {
        Some(("similar_labels"@, Some(Severity::Warning)))
    } else if code == "erc-similar-power"@ {
        Some(("similar_power"@, Some(Severity::Warning)))
    } else if code == "erc-similar-label-and-power"@ {
        Some(("similar_label_and_power"@, Some(Severity::Warning)))
    } else if code == "erc-same-local-global-label"@ {
        Some(("same_local_global_label"@, Some(Severity::Warning)))
    } else if code == "erc-ground-pin-not-ground"@ {
        Some(("ground_pin_not_ground"@, Some(Severity::Warning)))
    } else if code == "erc-endpoint-off-grid"@ {
        Some(("endpoint_off_grid"@, Some(Severity::Warning)))
    } else if code == "erc-field-name-whitespace"@ {
        Some(("field_name_whitespace"@, Some(Severity::Warning)))
    } else if code == "erc-unresolved-variable"@ {
        Some(("unresolved_variable"@, Some(Severity::Error)))
    } else {
        None
    }
}

/// The settings key and default severity of the rule that a diagnostic code belongs to;
/// `None` for codes that no rule setting governs.
pub fn rule_severity_setting(code: &str) -> (r: Option<(&'static str, Option<Severity>)>)
    ensures
        match rule_setting(code@) {
            Some(x) => r matches Some(y) && y.0@ == x.0 && y.1 == x.1,
            None => r is None,
        },
{
    if str_eq(code, "erc-duplicate-sheet-name") {
        Some(("duplicate_sheet_names", Some(Severity::Error)))
    } else if str_eq(code, "erc-missing-units") {
        Some(("missing_unit", Some(Severity::Warning)))
    } else if str_eq(code, "erc-undefined-netclass") {
        Some(("undefined_netclass", Some(Severity::Error)))
    } else if str_eq(code, "erc-label-multiple-wires") {
        Some(("label_multiple_wires", Some(Severity::Warning)))
    } else if str_eq(code, "erc-four-way-junction") {
        Some(("four_way_junction", None))
    } else if str_eq(code, "erc-nc-pin-connected") {
        Some(("no_connect_connected", Some(Severity::Warning)))
    } else if str_eq(code, "erc-no-connect-connected") {
        Some(("no_connect_connected", Some(Severity::Warning)))
    } else if str_eq(code, "erc-label-dangling") {
        Some(("label_dangling", Some(Severity::Error)))
    } else if str_eq(code, "erc-isolated-pin-label") {
        Some(("isolated_pin_label", Some(Severity::Warning)))
    } else if str_eq(code, "erc-unconnected-wire-endpoint") {
        Some(("unconnected_wire_endpoint", Some(Severity::Warning)))
    } else if str_eq(code, "erc-wire-dangling") {
        Some(("wire_dangling", Some(Severity::Error)))
    } else if str_eq(code, "erc-pin-not-connected") {
        Some(("pin_not_connected", Some(Severity::Error)))
    } else if str_eq(code, "erc-hierarchical-label-mismatch") {
        Some(("hier_label_mismatch", Some(Severity::Error)))
    } else if str_eq(code, "erc-bus-to-net-conflict") {
        Some(("bus_to_net_conflict", Some(Severity::Error)))
    } else if str_eq(code, "erc-bus-to-bus-conflict") {
        Some(("bus_to_bus_conflict", Some(Severity::Error)))
    } else if str_eq(code, "erc-bus-entry-conflict") {
        Some(("net_not_bus_member", Some(Severity::Warning)))
    } else if str_eq(code, "erc-pin-to-pin-warning") {
        Some(("pin_to_pin", Some(Severity::Warning)))
    } else if str_eq(code, "erc-pin-to-pin-error") {
        Some(("pin_to_pin", Some(Severity::Error)))
    } else if str_eq(code, "erc-pin-not-driven") {
        Some(("pin_not_driven", Some(Severity::Error)))
    } else if str_eq(code, "erc-power-pin-not-driven") {
        Some(("power_pin_not_driven", Some(Severity::Error)))
    } else if str_eq(code, "erc-driver-conflict") {
        Some(("multiple_net_names", Some(Severity::Warning)))
    } else if str_eq(code, "erc-single-global-label") {
        Some(("single_global_label", None))
    } else if str_eq(code, "erc-similar-labels") {
        Some(("similar_labels", Some(Severity::Warning)))
    } else if str_eq(code, "erc-similar-power") {
        Some(("similar_power", Some(Severity::Warning)))
    } else if str_eq(code, "erc-similar-label-and-power") {
        Some(("similar_label_and_power", Some(Severity::Warning)))
    } else if str_eq(code, "erc-same-local-global-label") {
        Some(("same_local_global_label", Some(Severity::Warning)))
    } else if str_eq(code, "erc-ground-pin-not-ground") {
        Some(("ground_pin_not_ground", Some(Severity::Warning)))
    } else if str_eq(code, "erc-endpoint-off-grid") {
        Some(("endpoint_off_grid", Some(Severity::Warning)))
    } else if str_eq(code, "erc-field-name-whitespace") {
        Some(("field_name_whitespace", Some(Severity::Warning)))
    } else if str_eq(code, "erc-unresolved-variable") {
        Some(("unresolved_variable", Some(Severity::Error)))
    } else {
        None
    }
}

/// The severity that a configured setting gives: warning, error, or none where the rule
/// is ignored; the default where nothing is configured.
pub open spec fn configured_severity(configured: Option<LoadedErcSeverity>, default: Option<Severity>) -> Option<Severity> {
    match configured {
        Some(LoadedErcSeverity::Warning) => Some(Severity::Warning),
        Some(LoadedErcSeverity::Error) => Some(Severity::Error),
        Some(LoadedErcSeverity::Ignore) => None,
        None => default,
    }
}

/// The severity of a rule given the project's setting for it and the rule's default.
pub fn configured_rule_severity(configured: Option<LoadedErcSeverity>, default: Option<Severity>) -> (r: Option<Severity>)
    ensures
        r == configured_severity(configured, default),
{
    match configured {
        Some(LoadedErcSeverity::Warning) => Some(Severity::Warning),
        Some(LoadedErcSeverity::Error) => Some(Severity::Error),
        Some(LoadedErcSeverity::Ignore) => None,
        None => default,
    }
}

/// The severity a diagnostic is reported with: for a code that a rule setting governs,
/// what the configured setting (the project's value for that rule's key) gives; else the
/// diagnostic's own severity. `None`: the diagnostic is dropped.
pub open spec fn reported_severity(d: Diagnostic, configured: Option<LoadedErcSeverity>) -> Option<Severity> {
    match rule_setting(d.code@) {
        Some(rule) => configured_severity(configured, rule.1),
        None => Some(d.severity),
    }
}

/// Applies the project's rule severity to a diagnostic: `configured` is the project's
/// setting under the key that [`rule_severity_setting`] gives for the diagnostic's code.
/// The diagnostic comes back with that severity, or not at all where the rule is ignored.
pub fn apply_configured_rule_severity(diagnostic: Diagnostic, configured: Option<LoadedErcSeverity>) -> (r: Option<Diagnostic>)
    ensures
        match reported_severity(diagnostic, configured) {
            Some(sv) => r == Some(Diagnostic { severity: sv, ..diagnostic }),
            None => r is None,
        },
{
    let mut diagnostic = diagnostic;
    let severity = match rule_severity_setting(diagnostic.code) {
        Some((_, default)) => configured_rule_severity(configured, default),
        None => Some(diagnostic.severity),
    };
    match severity {
        Some(sv) => {
            diagnostic.severity = sv;
            Some(diagnostic)
        },
        None => None,
    }
}

/// The diagnostics that stay after their rule severities are applied, each with its
/// project setting at the same position of `configured`.
pub open spec fn reported_diagnostics(ds: Seq<Diagnostic>, configured: Seq<Option<LoadedErcSeverity>>) -> Seq<Diagnostic>
    decreases ds.len(),
{
    if ds.len() == 0 {
        Seq::empty()
    } else {
        let rest = reported_diagnostics(ds.drop_last(), configured);
        let d = ds.last();
        match reported_severity(d, configured[ds.len() - 1]) {
            Some(sv) => rest.push(Diagnostic { severity: sv, ..d }),
            None => rest,
        }
    }
}

/// Applies the project's rule severities to diagnostics in order, dropping those whose
/// rule is ignored; `configured[i]` is the setting for `diagnostics[i]`.
pub fn apply_configured_rule_severities(diagnostics: Vec<Diagnostic>, configured: &Vec<Option<LoadedErcSeverity>>) -> (r: Vec<Diagnostic>)
    requires
        configured.len() == diagnostics.len(),
    ensures
        r@ == reported_diagnostics(diagnostics@, configured@),
{
    let mut out: Vec<Diagnostic> = Vec::new();
    let mut i: usize = 0;
    let ghost ds = diagnostics@;
    let n = diagnostics.len();
    let mut diagnostics = diagnostics;
    assert(ds.subrange(0, ds.len() as int) =~= ds);
    while i < n
        invariant
            0 <= i <= n,
            n == ds.len(),
            configured.len() == ds.len(),
            diagnostics@ == ds.subrange(i as int, ds.len() as int),
            out@ == reported_diagnostics(ds.take(i as int), configured@),
        decreases n - i,
    {
        let d = diagnostics.remove(0);
        assert(d == ds[i as int]);
        assert(diagnostics@ =~= ds.subrange(i + 1, ds.len() as int));
        assert(ds.take(i + 1).drop_last() =~= ds.take(i as int));
        assert(ds.take(i + 1).last() == ds[i as int]);
        match apply_configured_rule_severity(d, configured[i]) {
            Some(x) => out.push(x),
            None => {},
        }
        i = i + 1;
    }
    assert(ds.take(ds.len() as int) =~= ds);
    out
}

/// The pin-map matrix entry that a project configures for two pin types: 0 no conflict,
/// 1 a warning, 2 or 3 an error; any other value, or none, the default matrix.
pub open spec fn configured_conflict(value: Option<i64>, lhs: ReducedPinType, rhs: ReducedPinType) -> PinConflict {
    match value {
        Some(v) => if v == 0 {
            PinConflict::NoConflict
        } else if v == 1 {
            PinConflict::Warning
        } else if v == 2 || v == 3 {
            PinConflict::Error
        } else {
            conflict_of(lhs, rhs)
        },
        None => conflict_of(lhs, rhs),
    }
}

/// What connecting two pin types gives under the project's pin map; `value` is the
/// project's matrix entry at the two types' indexes ([`pin_type_index`]).
pub fn configured_pin_conflict(value: Option<i64>, lhs: ReducedPinType, rhs: ReducedPinType) -> (r: PinConflict)
    ensures
        r == configured_conflict(value, lhs, rhs),
{
    match value {
        Some(0) => PinConflict::NoConflict,
        Some(1) => PinConflict::Warning,
        Some(2) | Some(3) => PinConflict::Error,
        _ => pin_conflict(lhs, rhs),
    }
}

} // verus!
