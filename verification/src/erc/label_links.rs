//! The label-connectivity check: a label on a net that reaches no pin, or only one.

use crate::diagnostic::{Diagnostic, Severity};
use crate::erc::checks::{is_rule_diagnostic, rule_diagnostic};
use crate::erc::pin_check::{reports_findings, PinFinding};
use crate::model::LabelKind;
use vstd::prelude::*;

verus! {

/// Another subgraph that carries the same net name: its sheet instance, its code within
/// that sheet, how many pins it holds, whether a no-connect marker sits on it, and
/// whether it has sheet pins or hierarchical ports.
#[derive(Debug, Clone)]
pub struct NamedSubgraph {
    pub sheet_instance_path: String,
    pub code: u64,
    pub pin_count: usize,
    pub has_no_connect: bool,
    pub has_local_hierarchy: bool,
}

/// A label linked into a subgraph: its kind, whether its connection is a bus or bus
/// group, and whether it is drawn dangling.
#[derive(Debug, Clone, Copy)]
pub struct LinkedLabel {
    pub kind: LabelKind,
    pub on_bus: bool,
    pub dangling: bool,
}

/// What the label check reads of a subgraph that holds labels: the file of its sheet
/// instance (`None` where the instance is not in the hierarchy), the instance, its code,
/// its net name, its pin count, whether a no-connect marker sits on it or on a bus or
/// hierarchy parent, whether it reaches sheet pins or ports (itself or through a bus
/// parent on its sheet), the subgraphs that carry its net name, and its labels.
#[derive(Debug, Clone)]
pub struct LabelSubgraph {
    pub sheet_file: Option<String>,
    pub sheet_instance_path: String,
    pub code: u64,
    pub net_name: String,
    pub pin_count: usize,
    pub has_no_connect: bool,
    pub has_local_hierarchy: bool,
    pub neighbors: Vec<NamedSubgraph>,
    pub labels: Vec<LinkedLabel>,
}

/// The neighbour is another subgraph than `g` itself.
pub open spec fn is_other(g: LabelSubgraph, n: NamedSubgraph) -> bool {
    !(n.sheet_instance_path@ == g.sheet_instance_path@ && n.code == g.code)
}

/// The pins of the other neighbours from `i` on; with `local`, only those on `g`'s sheet.
pub open spec fn pins_from(g: LabelSubgraph, local: bool, i: int) -> nat
    decreases g.neighbors@.len() - i,
{
    if i < 0 || i >= g.neighbors@.len() {
        0
    } else {
        let n = g.neighbors@[i];
        (if is_other(g, n) && (!local || n.sheet_instance_path@ == g.sheet_instance_path@) {
            n.pin_count as nat
        } else {
            0nat
        }) + pins_from(g, local, i + 1)
    }
}

/// The neighbours count: the subgraph has a net name.
pub open spec fn named(g: LabelSubgraph) -> bool {
    g.net_name@.len() > 0
}

/// The pins on the net.
pub open spec fn all_pins(g: LabelSubgraph) -> nat {
    g.pin_count as nat + if named(g) {
        pins_from(g, false, 0)
    } else {
        0
    }
}

/// The pins on the net on `g`'s sheet.
pub open spec fn local_pins(g: LabelSubgraph) -> nat {
    g.pin_count as nat + if named(g) {
        pins_from(g, true, 0)
    } else {
        0
    }
}

/// A no-connect marker sits on the net.
pub open spec fn net_no_connect(g: LabelSubgraph) -> bool {
    g.has_no_connect || (named(g) && exists|i: int| 0 <= i < g.neighbors@.len() && is_other(g, #[trigger] g.neighbors@[i])
        && g.neighbors@[i].has_no_connect)
}

/// The net reaches sheet pins or ports on `g`'s sheet.
pub open spec fn net_local_hierarchy(g: LabelSubgraph) -> bool {
    g.has_local_hierarchy || (named(g) && exists|i: int| 0 <= i < g.neighbors@.len() && is_other(g, #[trigger] g.neighbors@[i])
        && g.neighbors@[i].sheet_instance_path@ == g.sheet_instance_path@ && g.neighbors@[i].has_local_hierarchy)
}

/// The report of one label: not connected where it dangles on a net without pins, is a
/// local label on a net whose pins all sit on other sheets (more than one, and no marker
/// or hierarchy holds it there), or the net has no pin; connected to only one pin where
/// the net has exactly one and no marker.
pub open spec fn label_finding(g: LabelSubgraph, l: LinkedLabel) -> Seq<PinFinding> {
    let all = all_pins(g);
    let file = g.sheet_file->0@;
    if l.kind == LabelKind::Directive || l.on_bus {
        Seq::empty()
    } else if (l.dangling && all == 0) || (l.kind == LabelKind::Local && local_pins(g) == 0 && all > 1 && !net_no_connect(g)
        && !net_local_hierarchy(g)) || all == 0 {
        seq![(Severity::Error, "erc-label-dangling"@, "Label not connected"@, file)]
    } else if all == 1 && !net_no_connect(g) {
        seq![(Severity::Warning, "erc-isolated-pin-label"@, "Label connected to only one pin"@, file)]
    } else {
        Seq::empty()
    }
}

/// The reports of the subgraph's labels from `k` on.
pub open spec fn labels_from(g: LabelSubgraph, k: int) -> Seq<PinFinding>
    decreases g.labels@.len() - k,
{
    if k < 0 || k >= g.labels@.len() {
        Seq::empty()
    } else {
        label_finding(g, g.labels@[k]) + labels_from(g, k + 1)
    }
}

/// The reports of the subgraphs from `i` on; a subgraph whose sheet is not in the
/// hierarchy reports nothing.
pub open spec fn label_findings(gs: Seq<LabelSubgraph>, i: int) -> Seq<PinFinding>
    decreases gs.len() - i,
{
    if i < 0 || i >= gs.len() {
        Seq::empty()
    } else {
        (if gs[i].sheet_file is Some {
            labels_from(gs[i], 0)
        } else {
            Seq::empty()
        }) + label_findings(gs, i + 1)
    }
}

/// The pin counts of a subgraph's net fit in a machine word.
pub open spec fn counts_fit(g: LabelSubgraph) -> bool {
    all_pins(g) <= usize::MAX
}

proof fn lemma_local_le_all(g: LabelSubgraph, i: int)
    ensures
        pins_from(g, true, i) <= pins_from(g, false, i),
    decreases g.neighbors@.len() - i,
{
    if 0 <= i < g.neighbors@.len() {
        lemma_local_le_all(g, i + 1);
    }
}

fn net_facts(g: &LabelSubgraph) -> (r: (usize, usize, bool, bool))
    requires
        counts_fit(*g),
    ensures
        r.0 == all_pins(*g),
        r.1 == local_pins(*g),
        r.2 == net_no_connect(*g),
        r.3 == net_local_hierarchy(*g),
{
    let mut all = g.pin_count;
    let mut local = g.pin_count;
    let mut nc = g.has_no_connect;
    let mut lh = g.has_local_hierarchy;
    if g.net_name.as_str().is_empty() {
        return (all, local, nc, lh);
    }
    proof {
        lemma_local_le_all(*g, 0);
    }
    let mut i: usize = 0;
    while i < g.neighbors.len()
        invariant
            0 <= i <= g.neighbors@.len(),
            named(*g),
            counts_fit(*g),
            local_pins(*g) <= all_pins(*g),
            all + pins_from(*g, false, i as int) == all_pins(*g),
            local + pins_from(*g, true, i as int) == local_pins(*g),
            nc == (g.has_no_connect || exists|j: int| 0 <= j < i && is_other(*g, #[trigger] g.neighbors@[j]) && g.neighbors@[j].has_no_connect),
            lh == (g.has_local_hierarchy || exists|j: int| 0 <= j < i && is_other(*g, #[trigger] g.neighbors@[j])
                && g.neighbors@[j].sheet_instance_path@ == g.sheet_instance_path@ && g.neighbors@[j].has_local_hierarchy),
        decreases g.neighbors@.len() - i,
    {
        proof {
            lemma_local_le_all(*g, i + 1);
        }
        let n = &g.neighbors[i];
        let same_sheet = n.sheet_instance_path == g.sheet_instance_path;
        if !(same_sheet && n.code == g.code) {
            all = all + n.pin_count;
            nc = nc || n.has_no_connect;
            if same_sheet {
                local = local + n.pin_count;
                lh = lh || n.has_local_hierarchy;
            }
        }
        i = i + 1;
    }
    (all, local, nc, lh)
}

fn label_report(g: &LabelSubgraph, l: &LinkedLabel, facts: (usize, usize, bool, bool), file: &String) -> (r: Vec<Diagnostic>)
    requires
        g.sheet_file == Some(*file),
        facts.0 == all_pins(*g),
        facts.1 == local_pins(*g),
        facts.2 == net_no_connect(*g),
        facts.3 == net_local_hierarchy(*g),
    ensures
        reports_findings(r@, label_finding(*g, *l)),
{
    let (all, local, nc, lh) = facts;
    let mut out: Vec<Diagnostic> = Vec::new();
    if l.kind == LabelKind::Directive || l.on_bus {
        return out;
    }
    if (l.dangling && all == 0) || (l.kind == LabelKind::Local && local == 0 && all > 1 && !nc && !lh) || all == 0 {
        out.push(rule_diagnostic(Severity::Error, "erc-label-dangling", "Label not connected".to_owned(), Some(file.clone())));
    } else if all == 1 && !nc {
        out.push(rule_diagnostic(
            Severity::Warning,
            "erc-isolated-pin-label",
            "Label connected to only one pin".to_owned(),
            Some(file.clone()),
        ));
    }
    out
}

/// Reports, subgraph by subgraph and label by label, each label (other than a directive
/// or one on a bus) that is not connected, or connected to only one pin, as
/// [`label_finding`] says, placed in the file of the subgraph's sheet. The pins on every
/// net fit in a machine word.
pub fn check_label_connectivity(subgraphs: &Vec<LabelSubgraph>) -> (r: Vec<Diagnostic>)
    requires
        forall|i: int| 0 <= i < subgraphs@.len() ==> counts_fit(#[trigger] subgraphs@[i]),
    ensures
        reports_findings(r@, label_findings(subgraphs@, 0)),
{
    let ghost total = label_findings(subgraphs@, 0);
    let ghost mut done: Seq<PinFinding> = Seq::empty();
    let mut out: Vec<Diagnostic> = Vec::new();
    let mut i: usize = 0;
    assert(done + label_findings(subgraphs@, 0) =~= total);
    while i < subgraphs.len()
        invariant
            0 <= i <= subgraphs@.len(),
            forall|j: int| 0 <= j < subgraphs@.len() ==> counts_fit(#[trigger] subgraphs@[j]),
            total == label_findings(subgraphs@, 0),
            reports_findings(out@, done),
            done + label_findings(subgraphs@, i as int) == total,
        decreases subgraphs@.len() - i,
    {
        let g = &subgraphs[i];
        assert(counts_fit(subgraphs@[i as int]));
        match &g.sheet_file {
            Some(file) => {
                let facts = net_facts(g);
                let mut k: usize = 0;
                assert(done + labels_from(*g, 0) + label_findings(subgraphs@, i + 1) =~= total);
                while k < g.labels.len()
                    invariant
                        0 <= k <= g.labels@.len(),
                        g.sheet_file == Some(*file),
                        *g == subgraphs@[i as int],
                        facts.0 == all_pins(*g),
                        facts.1 == local_pins(*g),
                        facts.2 == net_no_connect(*g),
                        facts.3 == net_local_hierarchy(*g),
                        total == label_findings(subgraphs@, 0),
                        reports_findings(out@, done),
                        done + labels_from(*g, k as int) + label_findings(subgraphs@, i + 1) == total,
                    decreases g.labels@.len() - k,
                {
                    let mut found = label_report(g, &g.labels[k], facts, file);
                    proof {
                        crate::erc::pin_check::lemma_reports_concat(out@, done, found@, label_finding(*g, g.labels@[k as int]));
                        assert(done + label_finding(*g, g.labels@[k as int]) + labels_from(*g, k + 1) + label_findings(subgraphs@, i + 1)
                            =~= done + labels_from(*g, k as int) + label_findings(subgraphs@, i + 1));
                        done = done + label_finding(*g, g.labels@[k as int]);
                    }
                    out.append(&mut found);
                    k = k + 1;
                }
                assert(labels_from(*g, k as int) =~= Seq::<PinFinding>::empty());
                assert(done + label_findings(subgraphs@, i + 1) =~= total);
            },
            None => {
                assert(label_findings(subgraphs@, i as int) =~= label_findings(subgraphs@, i + 1));
            },
        }
        i = i + 1;
    }
    assert(done =~= total);
    out
}

} // verus!
