//! Pins as the rule checks see them: which pin a missing-driver report names, and when
//! two pins are stacked on one another.

use crate::erc::{driven, is_driven_pin_type, ReducedPinType};
use crate::text::opt_view;
use vstd::prelude::*;

verus! {

/// A symbol pin in the context a rule check reads: its position (each coordinate as the
/// bit pattern of its `f64`, as `f64::to_bits` gives it), visibility, whether its symbol
/// is a power symbol, the file and sheet instance it sits in, its symbol's reference and
/// UUID, its number, name and electrical type.
#[derive(Debug, Clone)]
pub struct ReducedErcPinContext {
    pub at: [u64; 2],
    pub visible: bool,
    pub is_power_symbol: bool,
    pub path: String,
    pub sheet_instance_path: String,
    pub reference: String,
    pub pin_number: String,
    pub pin_name: Option<String>,
    pub symbol_uuid: Option<String>,
    pub pin_type: ReducedPinType,
}

/// The order in which a missing-driver report looks for the pin to name.
pub enum DriverPreference {
    /// Driven, visible, and a power input where the net is a power net.
    VisibleFitting,
    /// Driven, and a power input where the net is a power net.
    Fitting,
    /// Driven and visible.
    Visible,
    /// Driven.
    Any,
    /// Driven, visible and not on a power symbol.
    VisibleOwn,
    /// Driven and not on a power symbol.
    Own,
}

/// The pin meets the preference.
pub open spec fn meets(p: ReducedErcPinContext, pref: DriverPreference, is_power_net: bool) -> bool {
    let fits = !is_power_net || p.pin_type == ReducedPinType::PowerIn;
    driven(p.pin_type) && match pref {
        DriverPreference::VisibleFitting => p.visible && fits,
        DriverPreference::Fitting => fits,
        DriverPreference::Visible => p.visible,
        DriverPreference::Any => true,
        DriverPreference::VisibleOwn => p.visible && !p.is_power_symbol,
        DriverPreference::Own => !p.is_power_symbol,
    }
}

/// The position of the first pin from `i` on that meets the preference, or the number of
/// pins.
pub open spec fn first_meeting_from(pins: Seq<ReducedErcPinContext>, pref: DriverPreference, is_power_net: bool, i: int) -> int
    decreases pins.len() - i,
{
    if i < 0 || i >= pins.len() {
        pins.len() as int
    } else if meets(pins[i], pref, is_power_net) {
        i
    } else {
        first_meeting_from(pins, pref, is_power_net, i + 1)
    }
}

/// The first pin that meets the preference, where one does.
pub open spec fn first_meeting(pins: Seq<ReducedErcPinContext>, pref: DriverPreference, is_power_net: bool) -> Option<int> {
    let k = first_meeting_from(pins, pref, is_power_net, 0);
    if k < pins.len() {
        Some(k)
    } else {
        None
    }
}

/// The pin a missing-driver report names: a visible pin of a symbol that is not a power
/// symbol, else any pin of such a symbol, else the pin that needs a driver most (visible
/// and fitting the net, then fitting, then visible, then any); only pins that need a
/// driver count.
pub open spec fn preferred_missing_driver(pins: Seq<ReducedErcPinContext>, is_power_net: bool) -> Option<int> {
    let own = match first_meeting(pins, DriverPreference::VisibleOwn, is_power_net) {
        Some(k) => Some(k),
        None => first_meeting(pins, DriverPreference::Own, is_power_net),
    };
    match own {
        Some(k) => Some(k),
        None => match first_meeting(pins, DriverPreference::VisibleFitting, is_power_net) {
            Some(k) => Some(k),
            None => match first_meeting(pins, DriverPreference::Fitting, is_power_net) {
                Some(k) => Some(k),
                None => match first_meeting(pins, DriverPreference::Visible, is_power_net) {
                    Some(k) => Some(k),
                    None => first_meeting(pins, DriverPreference::Any, is_power_net),
                },
            },
        },
    }
}

fn meets_exec(p: &ReducedErcPinContext, pref: &DriverPreference, is_power_net: bool) -> (r: bool)
    ensures
        r == meets(*p, *pref, is_power_net),
{
    let fits = !is_power_net || p.pin_type == ReducedPinType::PowerIn;
    is_driven_pin_type(p.pin_type) && match pref {
        DriverPreference::VisibleFitting => p.visible && fits,
        DriverPreference::Fitting => fits,
        DriverPreference::Visible => p.visible,
        DriverPreference::Any => true,
        DriverPreference::VisibleOwn => p.visible && !p.is_power_symbol,
        DriverPreference::Own => !p.is_power_symbol,
    }
}

fn first_meeting_exec(pins: &[ReducedErcPinContext], pref: DriverPreference, is_power_net: bool) -> (r: Option<usize>)
    ensures
        r matches Some(k) ==> first_meeting(pins@, pref, is_power_net) == Some(k as int) && k < pins@.len(),
        r is None <==> first_meeting(pins@, pref, is_power_net) is None,
{
    let mut i: usize = 0;
    while i < pins.len()
        invariant
            0 <= i <= pins@.len(),
            first_meeting_from(pins@, pref, is_power_net, i as int) == first_meeting_from(pins@, pref, is_power_net, 0),
        decreases pins.len() - i,
    {
        if meets_exec(&pins[i], &pref, is_power_net) {
            return Some(i);
        }
        i = i + 1;
    }
    None
}

/// The pin a missing-driver report on a net with these pins names, as
/// [`preferred_missing_driver`] says; `None` where no pin needs a driver.
pub fn reduced_preferred_missing_driver_pin<'a>(pins: &'a [ReducedErcPinContext], is_power_net: bool) -> (r: Option<&'a ReducedErcPinContext>)
    ensures
        r == match preferred_missing_driver(pins@, is_power_net) {
            Some(k) => Some(&pins@[k]),
            None => None,
        },
{
    let mut found = first_meeting_exec(pins, DriverPreference::VisibleOwn, is_power_net);
    if found.is_none() {
        found = first_meeting_exec(pins, DriverPreference::Own, is_power_net);
    }
    if found.is_none() {
        found = first_meeting_exec(pins, DriverPreference::VisibleFitting, is_power_net);
    }
    if found.is_none() {
        found = first_meeting_exec(pins, DriverPreference::Fitting, is_power_net);
    }
    if found.is_none() {
        found = first_meeting_exec(pins, DriverPreference::Visible, is_power_net);
    }
    if found.is_none() {
        found = first_meeting_exec(pins, DriverPreference::Any, is_power_net);
    }
    match found {
        Some(k) => Some(&pins[k]),
        None => None,
    }
}

fn opt_string_eq(a: &Option<String>, b: &Option<String>) -> (r: bool)
    ensures
        r == (opt_view(*a) == opt_view(*b)),
{
    match (a, b) {
        (Some(x), Some(y)) => *x == *y,
        (None, None) => true,
        _ => false,
    }
}

/// Two pins are stacked: the same file, sheet instance, symbol, electrical type and name,
/// at exactly the same position.
pub open spec fn pins_stacked(a: ReducedErcPinContext, b: ReducedErcPinContext) -> bool {
    &&& a.path@ == b.path@
    &&& a.sheet_instance_path@ == b.sheet_instance_path@
    &&& opt_view(a.symbol_uuid) == opt_view(b.symbol_uuid)
    &&& a.pin_type == b.pin_type
    &&& opt_view(a.pin_name) == opt_view(b.pin_name)
    &&& a.at[0] == b.at[0]
    &&& a.at[1] == b.at[1]
}

/// Whether two pins are stacked on one another.
pub fn reduced_erc_pins_are_stacked(lhs: &ReducedErcPinContext, rhs: &ReducedErcPinContext) -> (r: bool)
    ensures
        r == pins_stacked(*lhs, *rhs),
{
    lhs.path == rhs.path && lhs.sheet_instance_path == rhs.sheet_instance_path && opt_string_eq(
        &lhs.symbol_uuid,
        &rhs.symbol_uuid,
    ) && lhs.pin_type == rhs.pin_type && opt_string_eq(&lhs.pin_name, &rhs.pin_name) && lhs.at[0] == rhs.at[0]
        && lhs.at[1] == rhs.at[1]
}

/// Stacking is symmetric, and every pin is stacked on itself.
pub proof fn law_stacking_symmetric(a: ReducedErcPinContext, b: ReducedErcPinContext)
    ensures
        pins_stacked(a, b) == pins_stacked(b, a),
        pins_stacked(a, a),
{
}

/// The pin a missing-driver report names needs a driver.
pub proof fn law_named_pin_needs_driver(pins: Seq<ReducedErcPinContext>, is_power_net: bool)
    ensures
        preferred_missing_driver(pins, is_power_net) matches Some(k) ==> 0 <= k < pins.len() && driven(pins[k].pin_type),
        preferred_missing_driver(pins, is_power_net) is None ==> forall|i: int| 0 <= i < pins.len() ==> !#[trigger] driven(pins[i].pin_type),
{
    lemma_first_meeting(pins, DriverPreference::VisibleOwn, is_power_net, 0);
    lemma_first_meeting(pins, DriverPreference::Own, is_power_net, 0);
    lemma_first_meeting(pins, DriverPreference::VisibleFitting, is_power_net, 0);
    lemma_first_meeting(pins, DriverPreference::Fitting, is_power_net, 0);
    lemma_first_meeting(pins, DriverPreference::Visible, is_power_net, 0);
    lemma_first_meeting(pins, DriverPreference::Any, is_power_net, 0);
    assert forall|i: int| 0 <= i < pins.len() && preferred_missing_driver(pins, is_power_net) is None implies !#[trigger] driven(pins[i].pin_type) by {
        assert(!meets(pins[i], DriverPreference::Any, is_power_net));
    }
}

proof fn lemma_first_meeting(pins: Seq<ReducedErcPinContext>, pref: DriverPreference, is_power_net: bool, i: int)
    requires
        0 <= i <= pins.len(),
    ensures
        i <= first_meeting_from(pins, pref, is_power_net, i) <= pins.len(),
        first_meeting_from(pins, pref, is_power_net, i) < pins.len() ==> meets(
            pins[first_meeting_from(pins, pref, is_power_net, i)],
            pref,
            is_power_net,
        ),
        forall|j: int| i <= j < first_meeting_from(pins, pref, is_power_net, i) ==> !#[trigger] meets(pins[j], pref, is_power_net),
    decreases pins.len() - i,
{
    if i < pins.len() && !meets(pins[i], pref, is_power_net) {
        lemma_first_meeting(pins, pref, is_power_net, i + 1);
    }
}

} // verus!
