//! The bus-entry check: a net drawn onto a bus through a bus entry while it is not one of
//! the bus's members.

use crate::diagnostic::{Diagnostic, Severity};
use crate::erc::checks::{is_rule_diagnostic, rule_diagnostic};
use crate::text::{push_str, seq_to_string, str_eq};
use vstd::prelude::*;

verus! {

/// What a connection carries.
#[derive(Debug, Clone, Copy, PartialEq, Eq, Structural)]
pub enum ConnectionKind {
    NoConnection,
    Net,
    Bus,
    BusGroup,
}

/// A named connection: its kind, local name and full local name.
#[derive(Debug, Clone)]
pub struct NamedConnection {
    pub kind: ConnectionKind,
    pub local_name: String,
    pub full_local_name: String,
}

/// What the bus-entry check reads of one net subgraph: the file of its sheet instance
/// (`None` where the instance is not in the hierarchy), whether a bus entry is among its
/// wires and, for the first, where it stands (as the report writes it) and the bus
/// connection it meets (that of the bus it touches, else the subgraph's own), with the
/// full local names of that bus's members; the subgraph's strong drivers (full name and
/// name, in order), its own driver connection and name, the connections of its labels,
/// sheet pins and ports in that order, and the priority of its strongest driver that is
/// no bus, if any.
#[derive(Debug, Clone)]
pub struct BusEntrySubgraph {
    pub sheet_file: Option<String>,
    pub has_bus_entry: bool,
    pub entry_at_text: String,
    pub bus: NamedConnection,
    pub bus_members: Vec<String>,
    pub drivers: Vec<(String, String)>,
    pub driver: NamedConnection,
    pub driver_name: String,
    pub links: Vec<NamedConnection>,
    pub non_bus_driver_priority: Option<u64>,
}

/// The first strong driver from `i` on that names another net than the bus.
pub open spec fn other_driver_from(g: BusEntrySubgraph, i: int) -> Option<Seq<char>>
    decreases g.drivers@.len() - i,
{
    if i < 0 || i >= g.drivers@.len() {
        None
    } else {
        let dr = g.drivers@[i];
        if dr.0@.len() > 0 && dr.0@ != g.bus.full_local_name@ && dr.1@ != g.bus.local_name@ {
            Some(dr.0@)
        } else {
            other_driver_from(g, i + 1)
        }
    }
}

/// The bus's members as texts.
pub open spec fn members(g: BusEntrySubgraph) -> Seq<Seq<char>> {
    g.bus_members@.map_values(|m: String| m@)
}

/// The names after the label, sheet-pin and port connections from `i` on: each net name
/// not yet listed and no member of the bus is added.
pub open spec fn link_names_from(g: BusEntrySubgraph, t: Seq<Seq<char>>, i: int) -> Seq<Seq<char>>
    decreases g.links@.len() - i,
{
    if i < 0 || i >= g.links@.len() {
        t
    } else {
        let c = g.links@[i];
        let n = c.full_local_name@;
        let t2 = if c.kind == ConnectionKind::Net && !t.contains(n) && !members(g).contains(n) {
            t.push(n)
        } else {
            t
        };
        link_names_from(g, t2, i + 1)
    }
}

/// The full names of the strong drivers from `i` on that name neither a member of the bus
/// nor the bus itself.
pub open spec fn fallback_names_from(g: BusEntrySubgraph, i: int) -> Seq<Seq<char>>
    decreases g.drivers@.len() - i,
{
    if i < 0 || i >= g.drivers@.len() {
        Seq::empty()
    } else {
        let n = g.drivers@[i].0@;
        (if !members(g).contains(n) && n != g.bus.full_local_name@ && n != g.bus.local_name@ {
            seq![n]
        } else {
            Seq::empty()
        }) + fallback_names_from(g, i + 1)
    }
}

/// The names of the nets the subgraph carries onto the bus, in the order they are tried.
pub open spec fn test_names(g: BusEntrySubgraph) -> Seq<Seq<char>> {
    let df = g.driver.full_local_name@;
    let t1: Seq<Seq<char>> = match other_driver_from(g, 0) {
        Some(n) => seq![n],
        None => Seq::empty(),
    };
    let t2 = if g.driver.kind == ConnectionKind::Net && df.len() > 0 && !members(g).contains(df) && !t1.contains(df) {
        t1.push(df)
    } else {
        t1
    };
    let t3 = link_names_from(g, t2, 0);
    let t4 = if t3.len() == 0 {
        fallback_names_from(g, 0)
    } else {
        t3
    };
    if t4.len() == 0 && df.len() > 0 {
        seq![df]
    } else {
        t4
    }
}

/// The report of a subgraph, if it draws a net onto a bus that does not hold it: the
/// subgraph has a bus entry, is in the hierarchy, meets a bus (or bus group) with
/// members, none of the names it carries is a member, and no strong driver of priority 6
/// or more decides its net.
pub open spec fn bus_entry_finding(g: BusEntrySubgraph) -> Option<(Seq<char>, Seq<char>)> {
    let t = test_names(g);
    let net = if t.len() > 0 {
        t[0]
    } else if g.driver.full_local_name@.len() > 0 {
        g.driver.full_local_name@
    } else {
        g.driver_name@
    };
    if !g.has_bus_entry || g.sheet_file is None || !(g.bus.kind == ConnectionKind::Bus || g.bus.kind == ConnectionKind::BusGroup)
        || g.bus_members@.len() == 0 || (exists|k: int| 0 <= k < t.len() && members(g).contains(#[trigger] t[k]))
        || (g.non_bus_driver_priority matches Some(p) && p >= 6) {
        None
    } else {
        Some((
            "Net "@ + net + " is graphically connected to bus "@ + g.bus.local_name@ + " but is not a member of that bus at "@
                + g.entry_at_text@,
            g.sheet_file->0@,
        ))
    }
}

/// The reports of the subgraphs from `i` on.
pub open spec fn bus_entry_findings(gs: Seq<BusEntrySubgraph>, i: int) -> Seq<(Seq<char>, Seq<char>)>
    decreases gs.len() - i,
{
    if i < 0 || i >= gs.len() {
        Seq::empty()
    } else {
        (match bus_entry_finding(gs[i]) {
            Some(f) => seq![f],
            None => Seq::empty(),
        }) + bus_entry_findings(gs, i + 1)
    }
}

/// The texts of a list.
pub open spec fn texts(v: Seq<String>) -> Seq<Seq<char>> {
    v.map_values(|m: String| m@)
}

fn list_contains(v: &Vec<String>, x: &str) -> (r: bool)
    ensures
        r == texts(v@).contains(x@),
{
    let mut k: usize = 0;
    while k < v.len()
        invariant
            0 <= k <= v@.len(),
            forall|m: int| 0 <= m < k ==> (#[trigger] v@[m])@ != x@,
        decreases v@.len() - k,
    {
        if str_eq(v[k].as_str(), x) {
            assert(texts(v@)[k as int] == x@);
            return true;
        }
        k = k + 1;
    }
    assert forall|m: int| 0 <= m < texts(v@).len() implies texts(v@)[m] != x@ by {
        assert(texts(v@)[m] == v@[m]@);
    }
    false
}

fn test_names_exec(g: &BusEntrySubgraph) -> (t: Vec<String>)
    ensures
        texts(t@) == test_names(*g),
{
    proof {
        assert(members(*g) == texts(g.bus_members@));
    }
    let mut t: Vec<String> = Vec::new();
    let mut i: usize = 0;
    let mut found = false;
    while !found && i < g.drivers.len()
        invariant
            0 <= i <= g.drivers@.len(),
            !found ==> t@.len() == 0 && other_driver_from(*g, 0) == other_driver_from(*g, i as int),
            found ==> texts(t@) =~= seq![g.drivers@[i as int].0@] && i < g.drivers@.len() && other_driver_from(*g, 0)
                == Some(g.drivers@[i as int].0@),
        decreases g.drivers@.len() - i + if found { 0int } else { 1int },
    {
        let dr = &g.drivers[i];
        if !dr.0.as_str().is_empty() && !str_eq(dr.0.as_str(), g.bus.full_local_name.as_str()) && !str_eq(
            dr.1.as_str(),
            g.bus.local_name.as_str(),
        ) {
            t.push(dr.0.clone());
            found = true;
        } else {
            i = i + 1;
        }
    }
    let ghost t1 = texts(t@);
    assert(t1 == match other_driver_from(*g, 0) {
        Some(n) => seq![n],
        None => Seq::<Seq<char>>::empty(),
    }) by {
        if !found {
            assert(t1 =~= Seq::<Seq<char>>::empty());
        }
    }
    let df = g.driver.full_local_name.as_str();
    if g.driver.kind == ConnectionKind::Net && !df.is_empty() && !list_contains(&g.bus_members, df) && !list_contains(&t, df) {
        t.push(g.driver.full_local_name.clone());
        assert(texts(t@) =~= t1.push(df@));
    }
    let ghost t2 = texts(t@);
    let mut k: usize = 0;
    while k < g.links.len()
        invariant
            0 <= k <= g.links@.len(),
            members(*g) == texts(g.bus_members@),
            link_names_from(*g, t2, 0) == link_names_from(*g, texts(t@), k as int),
        decreases g.links@.len() - k,
    {
        let c = &g.links[k];
        let n = c.full_local_name.as_str();
        let ghost before = texts(t@);
        if c.kind == ConnectionKind::Net && !list_contains(&t, n) && !list_contains(&g.bus_members, n) {
            t.push(c.full_local_name.clone());
            assert(texts(t@) =~= before.push(n@));
        }
        k = k + 1;
    }
    let ghost t3 = texts(t@);
    if t.len() == 0 {
        let mut j: usize = 0;
        assert(texts(t@) + fallback_names_from(*g, 0) =~= fallback_names_from(*g, 0));
        while j < g.drivers.len()
            invariant
                0 <= j <= g.drivers@.len(),
                members(*g) == texts(g.bus_members@),
                texts(t@) + fallback_names_from(*g, j as int) == fallback_names_from(*g, 0),
            decreases g.drivers@.len() - j,
        {
            let n = g.drivers[j].0.as_str();
            let ghost before = texts(t@);
            if !list_contains(&g.bus_members, n) && !str_eq(n, g.bus.full_local_name.as_str()) && !str_eq(
                n,
                g.bus.local_name.as_str(),
            ) {
                t.push(g.drivers[j].0.clone());
                assert(texts(t@) =~= before + seq![n@]);
                assert(texts(t@) + fallback_names_from(*g, j + 1) =~= before + fallback_names_from(*g, j as int));
            } else {
                assert(fallback_names_from(*g, j as int) =~= fallback_names_from(*g, j + 1));
            }
            j = j + 1;
        }
        assert(fallback_names_from(*g, j as int) =~= Seq::<Seq<char>>::empty());
        assert(texts(t@) =~= fallback_names_from(*g, 0));
    }
    let ghost t4 = texts(t@);
    if t.len() == 0 && !df.is_empty() {
        t.push(g.driver.full_local_name.clone());
        assert(texts(t@) =~= seq![df@]);
    }
    t
}

fn bus_entry_report(g: &BusEntrySubgraph) -> (r: Option<Diagnostic>)
    ensures
        match bus_entry_finding(*g) {
            Some(f) => r matches Some(d) && is_rule_diagnostic(d, Severity::Warning, "erc-bus-entry-conflict"@, f.0, Some(f.1)),
            None => r is None,
        },
{
    let t = test_names_exec(g);
    let ghost tv = texts(t@);
    if !g.has_bus_entry || g.sheet_file.is_none() || !(g.bus.kind == ConnectionKind::Bus || g.bus.kind == ConnectionKind::BusGroup)
        || g.bus_members.len() == 0 {
        return None;
    }
    let mut k: usize = 0;
    while k < t.len()
        invariant
            0 <= k <= t@.len(),
            tv == texts(t@),
            tv == test_names(*g),
            forall|m: int| 0 <= m < k ==> !members(*g).contains(#[trigger] tv[m]),
        decreases t@.len() - k,
    {
        assert(tv[k as int] == t@[k as int]@);
        if list_contains(&g.bus_members, t[k].as_str()) {
            assert(members(*g) == texts(g.bus_members@));
            assert(members(*g).contains(tv[k as int]));
            assert(tv == test_names(*g));
            return None;
        }
        k = k + 1;
    }
    match g.non_bus_driver_priority {
        Some(p) => {
            if p >= 6 {
                return None;
            }
        },
        None => {},
    }
    let net: &str = if t.len() > 0 {
        assert(tv[0] == t@[0]@);
        t[0].as_str()
    } else if !g.driver.full_local_name.as_str().is_empty() {
        g.driver.full_local_name.as_str()
    } else {
        g.driver_name.as_str()
    };
    let mut msg: Vec<char> = Vec::new();
    push_str(&mut msg, "Net ");
    push_str(&mut msg, net);
    push_str(&mut msg, " is graphically connected to bus ");
    push_str(&mut msg, g.bus.local_name.as_str());
    push_str(&mut msg, " but is not a member of that bus at ");
    push_str(&mut msg, g.entry_at_text.as_str());
    let path = match &g.sheet_file {
        Some(f) => f.clone(),
        None => String::new(),
    };
    Some(rule_diagnostic(Severity::Warning, "erc-bus-entry-conflict", seq_to_string(&msg), Some(path)))
}

/// Reports, subgraph by subgraph, each net drawn onto a bus through a bus entry while no
/// name it carries is a member of the bus (see [`bus_entry_finding`]), as a warning placed
/// in the file of the subgraph's sheet.
pub fn check_bus_to_bus_entry_conflicts(subgraphs: &Vec<BusEntrySubgraph>) -> (r: Vec<Diagnostic>)
    ensures
        crate::erc::checks::reports(r@, Severity::Warning, "erc-bus-entry-conflict"@, bus_entry_findings(subgraphs@, 0).map_values(
            |f: (Seq<char>, Seq<char>)| (f.0, Some(f.1)),
        )),
{
    let ghost total = bus_entry_findings(subgraphs@, 0);
    let ghost mut done: Seq<(Seq<char>, Seq<char>)> = Seq::empty();
    let mut out: Vec<Diagnostic> = Vec::new();
    let mut i: usize = 0;
    while i < subgraphs.len()
        invariant
            0 <= i <= subgraphs@.len(),
            total == bus_entry_findings(subgraphs@, 0),
            done + bus_entry_findings(subgraphs@, i as int) == total,
            out@.len() == done.len(),
            forall|k: int| 0 <= k < out@.len() ==> #[trigger] is_rule_diagnostic(out@[k], Severity::Warning, "erc-bus-entry-conflict"@, done[k].0, Some(done[k].1)),
        decreases subgraphs@.len() - i,
    {
        let ghost before = done;
        match bus_entry_report(&subgraphs[i]) {
            Some(dg) => {
                let ghost f = bus_entry_finding(subgraphs@[i as int])->0;
                out.push(dg);
                proof {
                    done = done.push(f);
                    assert(done + bus_entry_findings(subgraphs@, i + 1) =~= before + bus_entry_findings(subgraphs@, i as int));
                }
            },
            None => {
                assert(bus_entry_findings(subgraphs@, i as int) =~= bus_entry_findings(subgraphs@, i + 1));
            },
        }
        i = i + 1;
    }
    assert(done =~= total);
    out
}

} // verus!
