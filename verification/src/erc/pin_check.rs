//! The pin-to-pin check on nets: pins whose electrical types conflict, reported once per
//! pin from the pin with the highest weight down, against its nearest conflicting pin;
//! and a net on which a pin needs a driver that none gives.

use crate::diagnostic::{Diagnostic, Severity};
use crate::erc::checks::{is_rule_diagnostic, rule_diagnostic};
use crate::erc::pins::{pins_stacked, preferred_missing_driver, reduced_erc_pins_are_stacked, reduced_preferred_missing_driver_pin, ReducedErcPinContext};
use crate::erc::{
    configured_conflict, configured_pin_conflict, is_normal_driver_pin_type, normal_driver, pin_index, pin_type_index,
    pin_type_text, pin_weight, reduced_pin_type_text, reduced_pin_type_weight, rule_text_order, rule_text_order_exec,
    PinConflict, ReducedPinType,
};
use crate::natural::{int_order, TextOrder};
use crate::text::{push_str, seq_to_string, str_to_chars};
use vstd::prelude::*;

verus! {

/// The pins of one net, whether a no-connect marker sits on it, and the distance between
/// every two of its pins as `pins` orders them: the bit pattern of the non-negative `f64`
/// distance (bit patterns of such values order as the values do), or `None` where the
/// distance is not a number.
#[derive(Debug, Clone)]
pub struct PinNet {
    pub pins: Vec<ReducedErcPinContext>,
    pub has_no_connect: bool,
    pub distances: Vec<Vec<Option<u64>>>,
}

/// A finding: severity, code, message and file.
pub type PinFinding = (Severity, Seq<char>, Seq<char>, Seq<char>);

/// The order in which the check lists a net's pins: by reference, then pin number (both in
/// natural order without regard to case), then position.
pub open spec fn pin_order(a: ReducedErcPinContext, b: ReducedErcPinContext) -> TextOrder {
    let r = rule_text_order(a.reference@, b.reference@);
    let n = rule_text_order(a.pin_number@, b.pin_number@);
    let x = int_order(a.at[0] as int, b.at[0] as int);
    if r != TextOrder::Equal {
        r
    } else if n != TextOrder::Equal {
        n
    } else if x != TextOrder::Equal {
        x
    } else {
        int_order(a.at[1] as int, b.at[1] as int)
    }
}

/// Where pin `x` goes among the listed pins `s`, from `q` on: before the first that it
/// orders strictly before.
pub open spec fn insert_pos(pins: Seq<ReducedErcPinContext>, s: Seq<int>, x: int, q: int) -> int
    decreases s.len() - q,
{
    if q < 0 || q >= s.len() {
        s.len() as int
    } else if pin_order(pins[x], pins[s[q]]) == TextOrder::Less {
        q
    } else {
        insert_pos(pins, s, x, q + 1)
    }
}

/// The first `n` pins listed in order, stably: each pin goes after the pins before it
/// that it does not order strictly before.
pub open spec fn sort_order(pins: Seq<ReducedErcPinContext>, n: int) -> Seq<int>
    decreases n,
{
    if n <= 0 {
        Seq::empty()
    } else {
        let s = sort_order(pins, n - 1);
        s.insert(insert_pos(pins, s, n - 1, 0), n - 1)
    }
}

proof fn lemma_insert_pos(pins: Seq<ReducedErcPinContext>, s: Seq<int>, x: int, q: int)
    requires
        0 <= q <= s.len(),
    ensures
        q <= insert_pos(pins, s, x, q) <= s.len(),
    decreases s.len() - q,
{
    if q < s.len() && pin_order(pins[x], pins[s[q]]) != TextOrder::Less {
        lemma_insert_pos(pins, s, x, q + 1);
    }
}

proof fn lemma_sort_order(pins: Seq<ReducedErcPinContext>, n: int)
    requires
        0 <= n,
    ensures
        sort_order(pins, n).len() == n,
        forall|k: int| 0 <= k < n ==> 0 <= #[trigger] sort_order(pins, n)[k] < n,
    decreases n,
{
    if n > 0 {
        lemma_sort_order(pins, n - 1);
        let s = sort_order(pins, n - 1);
        lemma_insert_pos(pins, s, n - 1, 0);
        let q = insert_pos(pins, s, n - 1, 0);
        assert forall|k: int| 0 <= k < n implies 0 <= #[trigger] sort_order(pins, n)[k] < n by {
            if k < q {
                assert(sort_order(pins, n)[k] == s[k]);
            } else if k > q {
                assert(sort_order(pins, n)[k] == s[k - 1]);
            }
        }
    }
}

/// The net's pins in the check's order.
pub open spec fn sorted_pins(pins: Seq<ReducedErcPinContext>) -> Seq<ReducedErcPinContext> {
    let ord = sort_order(pins, pins.len() as int);
    Seq::new(ord.len(), |k: int| pins[ord[k]])
}

/// The configured conflict-matrix entry for two pin-type positions, if there is one.
pub open spec fn pm_value(pm: Seq<Vec<Option<i64>>>, i: int, j: int) -> Option<i64> {
    if 0 <= i < pm.len() && 0 <= j < pm[i]@.len() {
        pm[i]@[j]
    } else {
        None
    }
}

/// The outcome of connecting two pins, with the configured matrix.
pub open spec fn pair_conflict(pm: Seq<Vec<Option<i64>>>, a: ReducedErcPinContext, b: ReducedErcPinContext) -> PinConflict {
    configured_conflict(pm_value(pm, pin_index(a.pin_type) as int, pin_index(b.pin_type) as int), a.pin_type, b.pin_type)
}

/// The conflicts of pin `i` with the pins from `j` on that are not stacked on it.
pub open spec fn row_from(sp: Seq<ReducedErcPinContext>, pm: Seq<Vec<Option<i64>>>, i: int, j: int) -> Seq<(int, int, PinConflict)>
    decreases sp.len() - j,
{
    if j < 0 || j >= sp.len() {
        Seq::empty()
    } else {
        let c = pair_conflict(pm, sp[i], sp[j]);
        let here = if !pins_stacked(sp[i], sp[j]) && c != PinConflict::NoConflict {
            seq![(i, j, c)]
        } else {
            Seq::empty()
        };
        here + row_from(sp, pm, i, j + 1)
    }
}

/// The conflicts of every pin from `i` on with every later pin, pin by pin.
pub open spec fn rows_from(sp: Seq<ReducedErcPinContext>, pm: Seq<Vec<Option<i64>>>, i: int) -> Seq<(int, int, PinConflict)>
    decreases sp.len() - i,
{
    if i < 0 || i >= sp.len() {
        Seq::empty()
    } else {
        row_from(sp, pm, i, i + 1) + rows_from(sp, pm, i + 1)
    }
}

/// Pin `p` takes part in one of the conflicts.
pub open spec fn involved(ms: Seq<(int, int, PinConflict)>, p: int) -> bool {
    exists|k: int| 0 <= k < ms.len() && ((#[trigger] ms[k]).0 == p || ms[k].1 == p)
}

/// The pins from `i` on with the weight that take part in a conflict, in order.
pub open spec fn weighted_from(sp: Seq<ReducedErcPinContext>, ms: Seq<(int, int, PinConflict)>, w: int, i: int) -> Seq<int>
    decreases sp.len() - i,
{
    if i < 0 || i >= sp.len() {
        Seq::empty()
    } else {
        (if involved(ms, i) && pin_weight(sp[i].pin_type) == w {
            seq![i]
        } else {
            Seq::empty()
        }) + weighted_from(sp, ms, w, i + 1)
    }
}

/// The pins that take part in a conflict, heaviest first, then in order.
pub open spec fn ranked_from(sp: Seq<ReducedErcPinContext>, ms: Seq<(int, int, PinConflict)>, w: int) -> Seq<int>
    decreases w + 1,
{
    if w < 0 {
        Seq::empty()
    } else {
        weighted_from(sp, ms, w, 0) + ranked_from(sp, ms, w - 1)
    }
}

/// The distance between two pins (by their positions in `pins`), where given.
pub open spec fn dlookup(d: Seq<Vec<Option<u64>>>, i: int, j: int) -> Option<u64> {
    if 0 <= i < d.len() && 0 <= j < d[i]@.len() {
        d[i]@[j]
    } else {
        None
    }
}

/// A candidate report: conflict, the other pin, whether it is in the same file, distance.
pub type NearConflict = (PinConflict, int, bool, Option<u64>);

/// `a <= b` for distances, false where either is not a number.
pub open spec fn dist_le(a: Option<u64>, b: Option<u64>) -> bool {
    match (a, b) {
        (Some(x), Some(y)) => x <= y,
        _ => false,
    }
}

/// The best candidate so far stays against a new one: it is in the same file and the new
/// one is not, or both are in other files, or both in the same file and it is no farther.
pub open spec fn keeps(best: Option<NearConflict>, same: bool, d: Option<u64>) -> bool {
    match best {
        Some(b) => (b.2 && !same) || (b.2 == same && (!same || dist_le(b.3, d))),
        None => false,
    }
}

/// The nearest conflict of the listed pin `p` among the conflicts from `m` on.
pub open spec fn nearest_from(
    pins: Seq<ReducedErcPinContext>,
    d: Seq<Vec<Option<u64>>>,
    ord: Seq<int>,
    p: int,
    ms: Seq<(int, int, PinConflict)>,
    m: int,
    best: Option<NearConflict>,
) -> Option<NearConflict>
    decreases ms.len() - m,
{
    if m < 0 || m >= ms.len() {
        best
    } else if ms[m].0 == p || ms[m].1 == p {
        let o = if ms[m].0 == p {
            ms[m].1
        } else {
            ms[m].0
        };
        let same = pins[ord[p]].path@ == pins[ord[o]].path@;
        let dd = dlookup(d, ord[p], ord[o]);
        let nb = if keeps(best, same, dd) {
            best
        } else {
            Some((ms[m].2, o, same, dd))
        };
        nearest_from(pins, d, ord, p, ms, m + 1, nb)
    } else {
        nearest_from(pins, d, ord, p, ms, m + 1, best)
    }
}

/// The conflicts from `m` on that pin `p` takes no part in.
pub open spec fn kept_from(ms: Seq<(int, int, PinConflict)>, p: int, m: int) -> Seq<(int, int, PinConflict)>
    decreases ms.len() - m,
{
    if m < 0 || m >= ms.len() {
        Seq::empty()
    } else {
        (if ms[m].0 == p || ms[m].1 == p {
            Seq::empty()
        } else {
            seq![ms[m]]
        }) + kept_from(ms, p, m + 1)
    }
}

/// The message of a conflict between two pin types.
pub open spec fn conflict_message(a: ReducedPinType, b: ReducedPinType) -> Seq<char> {
    "Pins of type "@ + pin_type_text(a) + " and "@ + pin_type_text(b) + " are connected"@
}

/// The report of pin `p`'s nearest conflict.
pub open spec fn conflict_finding(sp: Seq<ReducedErcPinContext>, p: int, b: NearConflict) -> Seq<PinFinding> {
    let msg = conflict_message(sp[p].pin_type, sp[b.1].pin_type);
    match b.0 {
        PinConflict::Warning => seq![(Severity::Warning, "erc-pin-to-pin-warning"@, msg, sp[p].path@)],
        PinConflict::Error => seq![(Severity::Error, "erc-pin-to-pin-error"@, msg, sp[p].path@)],
        PinConflict::NoConflict => Seq::empty(),
    }
}

/// The reports of the ranked pins from `k` on, each against its nearest conflict among
/// those not yet reported.
pub open spec fn conflicts_from(
    pins: Seq<ReducedErcPinContext>,
    d: Seq<Vec<Option<u64>>>,
    ord: Seq<int>,
    ms: Seq<(int, int, PinConflict)>,
    ranked: Seq<int>,
    k: int,
) -> Seq<PinFinding>
    decreases ranked.len() - k,
{
    if k < 0 || k >= ranked.len() {
        Seq::empty()
    } else {
        let p = ranked[k];
        let sp = Seq::new(ord.len(), |i: int| pins[ord[i]]);
        (match nearest_from(pins, d, ord, p, ms, 0, None) {
            Some(b) => conflict_finding(sp, p, b),
            None => Seq::empty(),
        }) + conflicts_from(pins, d, ord, kept_from(ms, p, 0), ranked, k + 1)
    }
}

/// A power input sits on the net.
pub open spec fn is_power_net(sp: Seq<ReducedErcPinContext>) -> bool {
    exists|k: int| 0 <= k < sp.len() && (#[trigger] sp[k]).pin_type == ReducedPinType::PowerIn
}

/// A pin drives the net: a power output on a power net, else a normal driver.
pub open spec fn drives(p: ReducedErcPinContext, power_net: bool) -> bool {
    if power_net {
        p.pin_type == ReducedPinType::PowerOut
    } else {
        normal_driver(p.pin_type)
    }
}

/// The missing-driver report of a net, if a pin needs a driver that none gives.
pub open spec fn missing_driver_finding(sp: Seq<ReducedErcPinContext>, has_no_connect: bool) -> Seq<PinFinding> {
    let power = is_power_net(sp);
    let has_driver = exists|k: int| 0 <= k < sp.len() && drives(#[trigger] sp[k], power);
    if has_driver || has_no_connect {
        Seq::empty()
    } else {
        match preferred_missing_driver(sp, power) {
            Some(k) => if sp[k].pin_type == ReducedPinType::PowerIn {
                seq![(Severity::Warning, "erc-power-pin-not-driven"@, "Input Power pin not driven by any Output Power pins"@, sp[k].path@)]
            } else {
                seq![(Severity::Warning, "erc-pin-not-driven"@, "Input pin not driven by any Output pins"@, sp[k].path@)]
            },
            None => Seq::empty(),
        }
    }
}

/// The reports of one net.
pub open spec fn net_findings(net: PinNet, pm: Seq<Vec<Option<i64>>>) -> Seq<PinFinding> {
    let pins = net.pins@;
    let ord = sort_order(pins, pins.len() as int);
    let sp = sorted_pins(pins);
    let ms = rows_from(sp, pm, 0);
    if pins.len() == 0 {
        Seq::empty()
    } else {
        conflicts_from(pins, net.distances@, ord, ms, ranked_from(sp, ms, 11), 0) + missing_driver_finding(sp, net.has_no_connect)
    }
}

/// The reports of the nets from `i` on.
pub open spec fn nets_findings(nets: Seq<PinNet>, pm: Seq<Vec<Option<i64>>>, i: int) -> Seq<PinFinding>
    decreases nets.len() - i,
{
    if i < 0 || i >= nets.len() {
        Seq::empty()
    } else {
        net_findings(nets[i], pm) + nets_findings(nets, pm, i + 1)
    }
}

/// The diagnostics report the findings, in order.
pub open spec fn reports_findings(ds: Seq<Diagnostic>, fs: Seq<PinFinding>) -> bool {
    &&& ds.len() == fs.len()
    &&& forall|i: int| 0 <= i < ds.len() ==> #[trigger] is_rule_diagnostic(ds[i], fs[i].0, fs[i].1, fs[i].2, Some(fs[i].3))
}

/// Positions as integers.
pub open spec fn idx(s: Seq<usize>) -> Seq<int> {
    s.map_values(|k: usize| k as int)
}

/// Conflicts with integer positions.
pub open spec fn mis_view(v: Seq<(usize, usize, PinConflict)>) -> Seq<(int, int, PinConflict)> {
    v.map_values(|m: (usize, usize, PinConflict)| (m.0 as int, m.1 as int, m.2))
}

pub(crate) proof fn lemma_reports_concat(a: Seq<Diagnostic>, fa: Seq<PinFinding>, b: Seq<Diagnostic>, fb: Seq<PinFinding>)
    requires
        reports_findings(a, fa),
        reports_findings(b, fb),
    ensures
        reports_findings(a + b, fa + fb),
{
    assert forall|i: int| 0 <= i < (a + b).len() implies #[trigger] is_rule_diagnostic(
        (a + b)[i],
        (fa + fb)[i].0,
        (fa + fb)[i].1,
        (fa + fb)[i].2,
        Some((fa + fb)[i].3),
    ) by {
        if i < a.len() {
            assert(is_rule_diagnostic(a[i], fa[i].0, fa[i].1, fa[i].2, Some(fa[i].3)));
        } else {
            assert(is_rule_diagnostic(b[i - a.len()], fb[i - a.len()].0, fb[i - a.len()].1, fb[i - a.len()].2, Some(fb[i - a.len()].3)));
        }
    }
}

fn order_u64(x: u64, y: u64) -> (r: TextOrder)
    ensures
        r == int_order(x as int, y as int),
{
    if x < y {
        TextOrder::Less
    } else if x > y {
        TextOrder::Greater
    } else {
        TextOrder::Equal
    }
}

fn pin_order_exec(a: &ReducedErcPinContext, b: &ReducedErcPinContext) -> (r: TextOrder)
    ensures
        r == pin_order(*a, *b),
{
    let r = rule_text_order_exec(&str_to_chars(a.reference.as_str()), &str_to_chars(b.reference.as_str()));
    if r != TextOrder::Equal {
        return r;
    }
    let n = rule_text_order_exec(&str_to_chars(a.pin_number.as_str()), &str_to_chars(b.pin_number.as_str()));
    if n != TextOrder::Equal {
        return n;
    }
    let x = order_u64(a.at[0], b.at[0]);
    if x != TextOrder::Equal {
        return x;
    }
    order_u64(a.at[1], b.at[1])
}

fn sort_indices(pins: &Vec<ReducedErcPinContext>) -> (ord: Vec<usize>)
    ensures
        idx(ord@) == sort_order(pins@, pins@.len() as int),
        ord@.len() == pins@.len(),
        forall|k: int| 0 <= k < ord@.len() ==> #[trigger] ord@[k] < pins@.len(),
{
    let mut ord: Vec<usize> = Vec::new();
    let mut x: usize = 0;
    while x < pins.len()
        invariant
            0 <= x <= pins@.len(),
            idx(ord@) == sort_order(pins@, x as int),
        decreases pins@.len() - x,
    {
        proof {
            lemma_sort_order(pins@, x as int);
        }
        let ghost s = idx(ord@);
        let mut q: usize = 0;
        let mut found = false;
        while !found && q < ord.len()
            invariant
                0 <= q <= ord@.len(),
                x < pins@.len(),
                s == idx(ord@),
                s == sort_order(pins@, x as int),
                ord@.len() == x,
                forall|k: int| 0 <= k < x ==> 0 <= #[trigger] s[k] < x,
                found ==> insert_pos(pins@, s, x as int, 0) == q,
                !found ==> insert_pos(pins@, s, x as int, 0) == insert_pos(pins@, s, x as int, q as int),
            decreases ord@.len() - q + if found { 0int } else { 1int },
        {
            assert(s[q as int] == ord@[q as int] as int);
            assert(ord@[q as int] < x);
            if pin_order_exec(&pins[x], &pins[ord[q]]) == TextOrder::Less {
                found = true;
            } else {
                q = q + 1;
            }
        }
        ord.insert(q, x);
        assert(idx(ord@) =~= s.insert(q as int, x as int));
        x = x + 1;
    }
    proof {
        lemma_sort_order(pins@, pins@.len() as int);
        assert forall|k: int| 0 <= k < ord@.len() implies #[trigger] ord@[k] < pins@.len() by {
            assert(idx(ord@)[k] == ord@[k] as int);
        }
    }
    ord
}

fn copy_pin(p: &ReducedErcPinContext) -> (r: ReducedErcPinContext)
    ensures
        r == *p,
{
    ReducedErcPinContext {
        at: p.at,
        visible: p.visible,
        is_power_symbol: p.is_power_symbol,
        path: p.path.clone(),
        sheet_instance_path: p.sheet_instance_path.clone(),
        reference: p.reference.clone(),
        pin_number: p.pin_number.clone(),
        pin_name: match &p.pin_name {
            Some(n) => Some(n.clone()),
            None => None,
        },
        symbol_uuid: match &p.symbol_uuid {
            Some(n) => Some(n.clone()),
            None => None,
        },
        pin_type: p.pin_type,
    }
}

fn sorted_copy(pins: &Vec<ReducedErcPinContext>, ord: &Vec<usize>) -> (sp: Vec<ReducedErcPinContext>)
    requires
        idx(ord@) == sort_order(pins@, pins@.len() as int),
        ord@.len() == pins@.len(),
        forall|k: int| 0 <= k < ord@.len() ==> #[trigger] ord@[k] < pins@.len(),
    ensures
        sp@ == sorted_pins(pins@),
{
    let mut sp: Vec<ReducedErcPinContext> = Vec::new();
    let mut k: usize = 0;
    while k < ord.len()
        invariant
            0 <= k <= ord@.len(),
            ord@.len() == pins@.len(),
            forall|m: int| 0 <= m < ord@.len() ==> #[trigger] ord@[m] < pins@.len(),
            sp@.len() == k,
            forall|m: int| 0 <= m < k ==> #[trigger] sp@[m] == pins@[ord@[m] as int],
        decreases ord@.len() - k,
    {
        assert(ord@[k as int] < pins@.len());
        let c = copy_pin(&pins[ord[k]]);
        sp.push(c);
        k = k + 1;
    }
    assert forall|m: int| 0 <= m < sp@.len() implies #[trigger] sp@[m] == sorted_pins(pins@)[m] by {
        assert(idx(ord@)[m] == ord@[m] as int);
    }
    assert(sp@ =~= sorted_pins(pins@));
    sp
}

fn pm_lookup(pm: &Vec<Vec<Option<i64>>>, i: usize, j: usize) -> (r: Option<i64>)
    ensures
        r == pm_value(pm@, i as int, j as int),
{
    if i < pm.len() && j < pm[i].len() {
        pm[i][j]
    } else {
        None
    }
}

proof fn lemma_row_bounds(sp: Seq<ReducedErcPinContext>, pm: Seq<Vec<Option<i64>>>, i: int, j: int)
    requires
        0 <= i < sp.len(),
    ensures
        forall|k: int| 0 <= k < row_from(sp, pm, i, j).len() ==> (#[trigger] row_from(sp, pm, i, j)[k]).0 == i
            && 0 <= row_from(sp, pm, i, j)[k].1 < sp.len(),
    decreases sp.len() - j,
{
    if 0 <= j < sp.len() {
        lemma_row_bounds(sp, pm, i, j + 1);
        let c = pair_conflict(pm, sp[i], sp[j]);
        let here: Seq<(int, int, PinConflict)> = if !pins_stacked(sp[i], sp[j]) && c != PinConflict::NoConflict {
            seq![(i, j, c)]
        } else {
            Seq::empty()
        };
        let rest = row_from(sp, pm, i, j + 1);
        assert forall|k: int| 0 <= k < (here + rest).len() implies (#[trigger] (here + rest)[k]).0 == i
            && 0 <= (here + rest)[k].1 < sp.len() by {
            if k >= here.len() {
                assert((here + rest)[k] == rest[k - here.len()]);
            }
        }
    }
}

proof fn lemma_rows_bounds(sp: Seq<ReducedErcPinContext>, pm: Seq<Vec<Option<i64>>>, i: int)
    requires
        0 <= i,
    ensures
        forall|k: int| 0 <= k < rows_from(sp, pm, i).len() ==> 0 <= (#[trigger] rows_from(sp, pm, i)[k]).0 < sp.len()
            && 0 <= rows_from(sp, pm, i)[k].1 < sp.len(),
    decreases sp.len() - i,
{
    if i < sp.len() {
        lemma_row_bounds(sp, pm, i, i + 1);
        lemma_rows_bounds(sp, pm, i + 1);
        let a = row_from(sp, pm, i, i + 1);
        let b = rows_from(sp, pm, i + 1);
        assert forall|k: int| 0 <= k < (a + b).len() implies 0 <= (#[trigger] (a + b)[k]).0 < sp.len()
            && 0 <= (a + b)[k].1 < sp.len() by {
            if k < a.len() {
                assert((a + b)[k] == a[k]);
            } else {
                assert((a + b)[k] == b[k - a.len()]);
            }
        }
    }
}

fn build_mismatches(sp: &Vec<ReducedErcPinContext>, pm: &Vec<Vec<Option<i64>>>) -> (ms: Vec<(usize, usize, PinConflict)>)
    ensures
        mis_view(ms@) == rows_from(sp@, pm@, 0),
{
    let ghost total = rows_from(sp@, pm@, 0);
    let mut ms: Vec<(usize, usize, PinConflict)> = Vec::new();
    let mut i: usize = 0;
    assert(mis_view(ms@) + rows_from(sp@, pm@, 0) =~= total);
    while i < sp.len()
        invariant
            0 <= i <= sp@.len(),
            total == rows_from(sp@, pm@, 0),
            mis_view(ms@) + rows_from(sp@, pm@, i as int) == total,
        decreases sp@.len() - i,
    {
        let mut j: usize = i + 1;
        assert(mis_view(ms@) + row_from(sp@, pm@, i as int, j as int) + rows_from(sp@, pm@, i + 1) =~= total);
        while j < sp.len()
            invariant
                i < j <= sp@.len(),
                total == rows_from(sp@, pm@, 0),
                mis_view(ms@) + row_from(sp@, pm@, i as int, j as int) + rows_from(sp@, pm@, i + 1) == total,
            decreases sp@.len() - j,
        {
            let a = &sp[i];
            let b = &sp[j];
            let c = configured_pin_conflict(
                pm_lookup(pm, pin_type_index(a.pin_type), pin_type_index(b.pin_type)),
                a.pin_type,
                b.pin_type,
            );
            let ghost before = mis_view(ms@);
            if !reduced_erc_pins_are_stacked(a, b) && c != PinConflict::NoConflict {
                ms.push((i, j, c));
                assert(mis_view(ms@) =~= before + seq![(i as int, j as int, c)]);
                assert(mis_view(ms@) + row_from(sp@, pm@, i as int, j + 1) + rows_from(sp@, pm@, i + 1) =~= before
                    + row_from(sp@, pm@, i as int, j as int) + rows_from(sp@, pm@, i + 1));
            } else {
                assert(row_from(sp@, pm@, i as int, j as int) =~= row_from(sp@, pm@, i as int, j + 1));
            }
            j = j + 1;
        }
        assert(row_from(sp@, pm@, i as int, j as int) =~= Seq::<(int, int, PinConflict)>::empty());
        assert(mis_view(ms@) + rows_from(sp@, pm@, i + 1) =~= total);
        i = i + 1;
    }
    assert(rows_from(sp@, pm@, i as int) =~= Seq::<(int, int, PinConflict)>::empty());
    assert(mis_view(ms@) =~= total);
    ms
}

fn is_involved(ms: &Vec<(usize, usize, PinConflict)>, p: usize) -> (r: bool)
    ensures
        r == involved(mis_view(ms@), p as int),
{
    let ghost v = mis_view(ms@);
    let mut k: usize = 0;
    while k < ms.len()
        invariant
            0 <= k <= ms@.len(),
            v == mis_view(ms@),
            forall|m: int| 0 <= m < k ==> !((#[trigger] v[m]).0 == p || v[m].1 == p),
        decreases ms@.len() - k,
    {
        if ms[k].0 == p || ms[k].1 == p {
            assert(v[k as int].0 == p || v[k as int].1 == p);
            return true;
        }
        k = k + 1;
    }
    false
}

fn rank_pins(sp: &Vec<ReducedErcPinContext>, ms: &Vec<(usize, usize, PinConflict)>) -> (ranked: Vec<usize>)
    ensures
        idx(ranked@) == ranked_from(sp@, mis_view(ms@), 11),
        forall|k: int| 0 <= k < ranked@.len() ==> #[trigger] ranked@[k] < sp@.len(),
{
    let ghost msv = mis_view(ms@);
    let ghost total = ranked_from(sp@, msv, 11);
    let mut ranked: Vec<usize> = Vec::new();
    let mut left: usize = 12;
    assert(idx(ranked@) + ranked_from(sp@, msv, 11) =~= total);
    while left > 0
        invariant
            0 <= left <= 12,
            msv == mis_view(ms@),
            total == ranked_from(sp@, msv, 11),
            idx(ranked@) + ranked_from(sp@, msv, left - 1) == total,
            forall|k: int| 0 <= k < ranked@.len() ==> #[trigger] ranked@[k] < sp@.len(),
        decreases left,
    {
        let w: usize = left - 1;
        let mut i: usize = 0;
        assert(idx(ranked@) + weighted_from(sp@, msv, w as int, 0) + ranked_from(sp@, msv, w - 1) =~= total);
        while i < sp.len()
            invariant
                0 <= i <= sp@.len(),
                w < 12,
                msv == mis_view(ms@),
                total == ranked_from(sp@, msv, 11),
                idx(ranked@) + weighted_from(sp@, msv, w as int, i as int) + ranked_from(sp@, msv, w - 1) == total,
                forall|k: int| 0 <= k < ranked@.len() ==> #[trigger] ranked@[k] < sp@.len(),
            decreases sp@.len() - i,
        {
            let ghost before = idx(ranked@);
            if is_involved(ms, i) && reduced_pin_type_weight(sp[i].pin_type) == w {
                ranked.push(i);
                assert(idx(ranked@) =~= before + seq![i as int]);
                assert(idx(ranked@) + weighted_from(sp@, msv, w as int, i + 1) + ranked_from(sp@, msv, w - 1) =~= before
                    + weighted_from(sp@, msv, w as int, i as int) + ranked_from(sp@, msv, w - 1));
            } else {
                assert(weighted_from(sp@, msv, w as int, i as int) =~= weighted_from(sp@, msv, w as int, i + 1));
            }
            i = i + 1;
        }
        assert(weighted_from(sp@, msv, w as int, i as int) =~= Seq::<int>::empty());
        assert(idx(ranked@) + ranked_from(sp@, msv, w - 1) =~= total);
        left = left - 1;
    }
    assert(ranked_from(sp@, msv, -1) =~= Seq::<int>::empty());
    assert(idx(ranked@) =~= total);
    ranked
}

/// A candidate as values.
pub open spec fn near_view(b: Option<(PinConflict, usize, bool, Option<u64>)>) -> Option<NearConflict> {
    match b {
        Some(x) => Some((x.0, x.1 as int, x.2, x.3)),
        None => None,
    }
}

fn dist_lookup(d: &Vec<Vec<Option<u64>>>, i: usize, j: usize) -> (r: Option<u64>)
    ensures
        r == dlookup(d@, i as int, j as int),
{
    if i < d.len() && j < d[i].len() {
        d[i][j]
    } else {
        None
    }
}

fn keeps_exec(best: &Option<(PinConflict, usize, bool, Option<u64>)>, same: bool, d: Option<u64>) -> (r: bool)
    ensures
        r == keeps(near_view(*best), same, d),
{
    match best {
        Some(b) => {
            let le = match (b.3, d) {
                (Some(x), Some(y)) => x <= y,
                _ => false,
            };
            (b.2 && !same) || (b.2 == same && (!same || le))
        },
        None => false,
    }
}

/// Picks pin `p`'s nearest conflict among `ms` and keeps the conflicts it takes no part in.
fn nearest_and_kept(
    pins: &Vec<ReducedErcPinContext>,
    d: &Vec<Vec<Option<u64>>>,
    ord: &Vec<usize>,
    p: usize,
    ms: &Vec<(usize, usize, PinConflict)>,
) -> (r: (Option<(PinConflict, usize, bool, Option<u64>)>, Vec<(usize, usize, PinConflict)>))
    requires
        p < ord@.len(),
        forall|k: int| 0 <= k < ord@.len() ==> #[trigger] ord@[k] < pins@.len(),
        forall|k: int| 0 <= k < ms@.len() ==> (#[trigger] ms@[k]).0 < ord@.len() && ms@[k].1 < ord@.len(),
    ensures
        near_view(r.0) == nearest_from(pins@, d@, idx(ord@), p as int, mis_view(ms@), 0, None),
        mis_view(r.1@) == kept_from(mis_view(ms@), p as int, 0),
        forall|k: int| 0 <= k < r.1@.len() ==> (#[trigger] r.1@[k]).0 < ord@.len() && r.1@[k].1 < ord@.len(),
        r.0 matches Some(b) ==> b.1 < ord@.len(),
{
    let ghost msv = mis_view(ms@);
    let ghost o = idx(ord@);
    let mut best: Option<(PinConflict, usize, bool, Option<u64>)> = None;
    let mut kept: Vec<(usize, usize, PinConflict)> = Vec::new();
    let mut m: usize = 0;
    assert(mis_view(kept@) + kept_from(msv, p as int, 0) =~= kept_from(msv, p as int, 0));
    while m < ms.len()
        invariant
            0 <= m <= ms@.len(),
            p < ord@.len(),
            msv == mis_view(ms@),
            o == idx(ord@),
            forall|k: int| 0 <= k < ord@.len() ==> #[trigger] ord@[k] < pins@.len(),
            forall|k: int| 0 <= k < ms@.len() ==> (#[trigger] ms@[k]).0 < ord@.len() && ms@[k].1 < ord@.len(),
            forall|k: int| 0 <= k < kept@.len() ==> (#[trigger] kept@[k]).0 < ord@.len() && kept@[k].1 < ord@.len(),
            best matches Some(b) ==> b.1 < ord@.len(),
            nearest_from(pins@, d@, o, p as int, msv, 0, None) == nearest_from(pins@, d@, o, p as int, msv, m as int, near_view(best)),
            mis_view(kept@) + kept_from(msv, p as int, m as int) == kept_from(msv, p as int, 0),
        decreases ms@.len() - m,
    {
        let e = ms[m];
        assert(msv[m as int] == (e.0 as int, e.1 as int, e.2));
        let ghost before = mis_view(kept@);
        if e.0 == p || e.1 == p {
            let other = if e.0 == p {
                e.1
            } else {
                e.0
            };
            assert(o[p as int] == ord@[p as int] as int);
            assert(o[other as int] == ord@[other as int] as int);
            let same = pins[ord[p]].path == pins[ord[other]].path;
            let dd = dist_lookup(d, ord[p], ord[other]);
            if !keeps_exec(&best, same, dd) {
                best = Some((e.2, other, same, dd));
            }
            assert(kept_from(msv, p as int, m as int) =~= kept_from(msv, p as int, m + 1));
        } else {
            kept.push(e);
            assert(mis_view(kept@) =~= before + seq![msv[m as int]]);
            assert(mis_view(kept@) + kept_from(msv, p as int, m + 1) =~= before + kept_from(msv, p as int, m as int));
        }
        m = m + 1;
    }
    assert(kept_from(msv, p as int, m as int) =~= Seq::<(int, int, PinConflict)>::empty());
    assert(mis_view(kept@) =~= kept_from(msv, p as int, 0));
    (best, kept)
}

fn conflict_message_exec(a: ReducedPinType, b: ReducedPinType) -> (r: String)
    ensures
        r@ == conflict_message(a, b),
{
    let mut out: Vec<char> = Vec::new();
    push_str(&mut out, "Pins of type ");
    push_str(&mut out, reduced_pin_type_text(a));
    push_str(&mut out, " and ");
    push_str(&mut out, reduced_pin_type_text(b));
    push_str(&mut out, " are connected");
    seq_to_string(&out)
}

fn report_conflicts(
    pins: &Vec<ReducedErcPinContext>,
    d: &Vec<Vec<Option<u64>>>,
    ord: &Vec<usize>,
    sp: &Vec<ReducedErcPinContext>,
    ms0: Vec<(usize, usize, PinConflict)>,
    ranked: &Vec<usize>,
) -> (r: Vec<Diagnostic>)
    requires
        ord@.len() == sp@.len(),
        sp@ == Seq::new(ord@.len(), |i: int| pins@[idx(ord@)[i]]),
        forall|k: int| 0 <= k < ord@.len() ==> #[trigger] ord@[k] < pins@.len(),
        forall|k: int| 0 <= k < ms0@.len() ==> (#[trigger] ms0@[k]).0 < ord@.len() && ms0@[k].1 < ord@.len(),
        forall|k: int| 0 <= k < ranked@.len() ==> #[trigger] ranked@[k] < ord@.len(),
    ensures
        reports_findings(r@, conflicts_from(pins@, d@, idx(ord@), mis_view(ms0@), idx(ranked@), 0)),
{
    let ghost o = idx(ord@);
    let ghost rk = idx(ranked@);
    let ghost total = conflicts_from(pins@, d@, o, mis_view(ms0@), rk, 0);
    let ghost mut done: Seq<PinFinding> = Seq::empty();
    let mut out: Vec<Diagnostic> = Vec::new();
    let mut ms = ms0;
    let mut k: usize = 0;
    assert(done + conflicts_from(pins@, d@, o, mis_view(ms@), rk, 0) =~= total);
    while k < ranked.len()
        invariant
            0 <= k <= ranked@.len(),
            o == idx(ord@),
            rk == idx(ranked@),
            ord@.len() == sp@.len(),
            sp@ == Seq::new(ord@.len(), |i: int| pins@[o[i]]),
            forall|j: int| 0 <= j < ord@.len() ==> #[trigger] ord@[j] < pins@.len(),
            forall|j: int| 0 <= j < ms@.len() ==> (#[trigger] ms@[j]).0 < ord@.len() && ms@[j].1 < ord@.len(),
            forall|j: int| 0 <= j < ranked@.len() ==> #[trigger] ranked@[j] < ord@.len(),
            reports_findings(out@, done),
            done + conflicts_from(pins@, d@, o, mis_view(ms@), rk, k as int) == total,
        decreases ranked@.len() - k,
    {
        let p = ranked[k];
        assert(rk[k as int] == p as int);
        let (best, kept) = nearest_and_kept(pins, d, ord, p, &ms);
        let ghost here: Seq<PinFinding> = match nearest_from(pins@, d@, o, p as int, mis_view(ms@), 0, None) {
            Some(b) => conflict_finding(sp@, p as int, b),
            None => Seq::empty(),
        };
        assert(conflicts_from(pins@, d@, o, mis_view(ms@), rk, k as int) == here + conflicts_from(
            pins@,
            d@,
            o,
            mis_view(kept@),
            rk,
            k + 1,
        ));
        match best {
            Some(b) => {
                let a = &sp[p];
                let msg = conflict_message_exec(a.pin_type, sp[b.1].pin_type);
                match b.0 {
                    PinConflict::Warning => {
                        let dg = rule_diagnostic(Severity::Warning, "erc-pin-to-pin-warning", msg, Some(a.path.clone()));
                        let ghost f: PinFinding = (Severity::Warning, "erc-pin-to-pin-warning"@, conflict_message(a.pin_type, sp@[b.1 as int].pin_type), a.path@);
                        assert(here == seq![f]);
                        proof {
                            lemma_reports_concat(out@, done, seq![dg], seq![f]);
                        }
                        let ghost prev = out@;
                        out.push(dg);
                        assert(out@ =~= prev + seq![dg]);
                        proof {
                            done = done + seq![f];
                        }
                    },
                    PinConflict::Error => {
                        let dg = rule_diagnostic(Severity::Error, "erc-pin-to-pin-error", msg, Some(a.path.clone()));
                        let ghost f: PinFinding = (Severity::Error, "erc-pin-to-pin-error"@, conflict_message(a.pin_type, sp@[b.1 as int].pin_type), a.path@);
                        assert(here == seq![f]);
                        proof {
                            lemma_reports_concat(out@, done, seq![dg], seq![f]);
                        }
                        let ghost prev = out@;
                        out.push(dg);
                        assert(out@ =~= prev + seq![dg]);
                        proof {
                            done = done + seq![f];
                        }
                    },
                    PinConflict::NoConflict => {
                        assert(here =~= Seq::<PinFinding>::empty());
                    },
                }
            },
            None => {
                assert(here =~= Seq::<PinFinding>::empty());
            },
        }
        assert(done + conflicts_from(pins@, d@, o, mis_view(kept@), rk, k + 1) =~= total);
        ms = kept;
        k = k + 1;
    }
    assert(conflicts_from(pins@, d@, o, mis_view(ms@), rk, k as int) =~= Seq::<PinFinding>::empty());
    assert(done =~= total);
    out
}

fn missing_driver(sp: &Vec<ReducedErcPinContext>, has_no_connect: bool) -> (r: Vec<Diagnostic>)
    ensures
        reports_findings(r@, missing_driver_finding(sp@, has_no_connect)),
{
    let mut power = false;
    let mut k: usize = 0;
    while k < sp.len()
        invariant
            0 <= k <= sp@.len(),
            power == exists|j: int| 0 <= j < k && (#[trigger] sp@[j]).pin_type == ReducedPinType::PowerIn,
        decreases sp@.len() - k,
    {
        if sp[k].pin_type == ReducedPinType::PowerIn {
            assert(sp@[k as int].pin_type == ReducedPinType::PowerIn);
            power = true;
        }
        k = k + 1;
    }
    assert(power == is_power_net(sp@));
    let mut has_driver = false;
    let mut k: usize = 0;
    while k < sp.len()
        invariant
            0 <= k <= sp@.len(),
            has_driver == exists|j: int| 0 <= j < k && drives(#[trigger] sp@[j], power),
        decreases sp@.len() - k,
    {
        let t = sp[k].pin_type;
        let d = if power {
            t == ReducedPinType::PowerOut
        } else {
            is_normal_driver_pin_type(t)
        };
        if d {
            assert(drives(sp@[k as int], power));
            has_driver = true;
        }
        k = k + 1;
    }
    let mut out: Vec<Diagnostic> = Vec::new();
    if has_driver || has_no_connect {
        return out;
    }
    match reduced_preferred_missing_driver_pin(sp.as_slice(), power) {
        Some(pin) => {
            if pin.pin_type == ReducedPinType::PowerIn {
                out.push(rule_diagnostic(
                    Severity::Warning,
                    "erc-power-pin-not-driven",
                    "Input Power pin not driven by any Output Power pins".to_owned(),
                    Some(pin.path.clone()),
                ));
            } else {
                out.push(rule_diagnostic(
                    Severity::Warning,
                    "erc-pin-not-driven",
                    "Input pin not driven by any Output pins".to_owned(),
                    Some(pin.path.clone()),
                ));
            }
        },
        None => {},
    }
    out
}

fn check_net(net: &PinNet, pm: &Vec<Vec<Option<i64>>>) -> (r: Vec<Diagnostic>)
    ensures
        reports_findings(r@, net_findings(*net, pm@)),
{
    if net.pins.len() == 0 {
        return Vec::new();
    }
    let ord = sort_indices(&net.pins);
    let sp = sorted_copy(&net.pins, &ord);
    let ms = build_mismatches(&sp, pm);
    proof {
        lemma_rows_bounds(sp@, pm@, 0);
        assert forall|k: int| 0 <= k < ms@.len() implies (#[trigger] ms@[k]).0 < ord@.len() && ms@[k].1 < ord@.len() by {
            assert(mis_view(ms@)[k] == (ms@[k].0 as int, ms@[k].1 as int, ms@[k].2));
        }
        assert(sp@ =~= Seq::new(ord@.len(), |i: int| net.pins@[idx(ord@)[i]]));
    }
    let ranked = rank_pins(&sp, &ms);
    let ghost msv = mis_view(ms@);
    let mut a = report_conflicts(&net.pins, &net.distances, &ord, &sp, ms, &ranked);
    let mut b = missing_driver(&sp, net.has_no_connect);
    proof {
        lemma_reports_concat(a@, conflicts_from(net.pins@, net.distances@, idx(ord@), msv, idx(ranked@), 0), b@, missing_driver_finding(sp@, net.has_no_connect));
    }
    a.append(&mut b);
    a
}

/// The pin-to-pin check over the nets, net by net: on each net with pins, listed by
/// reference, pin number and position, every two pins not stacked on one another whose
/// types conflict under the configured matrix `pin_map` (by pin-type position; the
/// built-in matrix where it gives no entry) are a conflict. From the heaviest pin type
/// down, each pin in a conflict not yet reported is reported once, against its nearest
/// such conflict (one in its own file first, then the nearer, then the earlier), as a
/// warning or an error; then, on a net where a pin needs a driver and none drives it and
/// no no-connect marker sits, the pin [`preferred_missing_driver`] names is reported.
pub fn check_pin_to_pin(nets: &Vec<PinNet>, pin_map: &Vec<Vec<Option<i64>>>) -> (r: Vec<Diagnostic>)
    ensures
        reports_findings(r@, nets_findings(nets@, pin_map@, 0)),
{
    let ghost total = nets_findings(nets@, pin_map@, 0);
    let ghost mut done: Seq<PinFinding> = Seq::empty();
    let mut out: Vec<Diagnostic> = Vec::new();
    let mut i: usize = 0;
    assert(done + nets_findings(nets@, pin_map@, 0) =~= total);
    while i < nets.len()
        invariant
            0 <= i <= nets@.len(),
            total == nets_findings(nets@, pin_map@, 0),
            reports_findings(out@, done),
            done + nets_findings(nets@, pin_map@, i as int) == total,
        decreases nets@.len() - i,
    {
        let mut found = check_net(&nets[i], pin_map);
        proof {
            lemma_reports_concat(out@, done, found@, net_findings(nets@[i as int], pin_map@));
            assert(done + net_findings(nets@[i as int], pin_map@) + nets_findings(nets@, pin_map@, i + 1) =~= total);
            done = done + net_findings(nets@[i as int], pin_map@);
        }
        out.append(&mut found);
        i = i + 1;
    }
    assert(done =~= total);
    out
}

} // verus!
