//! The ground-pin rule: on a symbol with a power pin on a ground net, every power pin
//! named like ground must be on a ground net too.
//!
//! The check takes each symbol's pins, sheet occurrence by sheet occurrence in hierarchy
//! order, with the name of the net each pin is on.

use crate::diagnostic::{Diagnostic, Severity};
use crate::erc::checks::{is_rule_diagnostic, reports, rule_diagnostic};
use crate::text::{push_str, seq_to_string, str_to_chars};
use vstd::prelude::*;

verus! {

/// A symbol pin as the ground check reads it: its electrical type and name, where it has
/// them, the name of the net it is on, and the file its symbol sits in.
#[derive(Debug, Clone)]
pub struct NetPin {
    pub electrical_type: Option<String>,
    pub name: Option<String>,
    pub net_name: String,
    pub schematic_path: String,
}

/// The pins of one symbol on one sheet occurrence, with the file the occurrence shows.
#[derive(Debug, Clone)]
pub struct SymbolNetPins {
    pub sheet_file: String,
    pub pins: Vec<NetPin>,
}

/// ASCII lower-case letters mapped to upper case, every other character unchanged.
pub open spec fn upper_ascii(c: char) -> char {
    if 'a' <= c && c <= 'z' {
        ((c as u32) - 32) as char
    } else {
        c
    }
}

/// `GND` stands at position `i` of the text read in ASCII upper case.
pub open spec fn gnd_at(t: Seq<char>, i: int) -> bool {
    &&& 0 <= i
    &&& i + 3 <= t.len()
    &&& upper_ascii(t[i]) == 'G'
    &&& upper_ascii(t[i + 1]) == 'N'
    &&& upper_ascii(t[i + 2]) == 'D'
}

/// The text, read in ASCII upper case, contains `GND`.
pub open spec fn names_ground(t: Seq<char>) -> bool {
    exists|i: int| #[trigger] gnd_at(t, i)
}

/// A pin of power input or power output type.
pub open spec fn is_power_pin(p: NetPin) -> bool {
    p.electrical_type matches Some(t) && (t@ == "power_in"@ || t@ == "power_out"@)
}

/// Some power pin of the symbol is on a ground net.
pub open spec fn has_ground_net(pins: Seq<NetPin>) -> bool {
    exists|i: int| 0 <= i < pins.len() && is_power_pin(#[trigger] pins[i]) && names_ground(pins[i].net_name@)
}

/// A power pin named like ground that is not on a ground net.
pub open spec fn is_mismatched(p: NetPin) -> bool {
    &&& is_power_pin(p)
    &&& p.name matches Some(n) && names_ground(n@)
    &&& !names_ground(p.net_name@)
}

/// The message of a ground pin off ground.
pub open spec fn ground_message(name: Seq<char>) -> Seq<char> {
    "Pin "@ + name + " not connected to ground net"@
}

/// The mismatched pins among the first `n`, as message and file.
pub open spec fn mismatched_findings(pins: Seq<NetPin>, path: Seq<char>, n: int) -> Seq<(Seq<char>, Option<Seq<char>>)>
    decreases n,
{
    if n <= 0 {
        Seq::empty()
    } else {
        let prev = mismatched_findings(pins, path, n - 1);
        if is_mismatched(pins[n - 1]) {
            prev.push((ground_message(pins[n - 1].name.unwrap()@), Some(path)))
        } else {
            prev
        }
    }
}

/// The findings of one symbol: where a power pin is on a ground net, each power pin
/// named like ground that is not, placed in the file of the symbol's first pin.
pub open spec fn symbol_ground_findings(s: SymbolNetPins) -> Seq<(Seq<char>, Option<Seq<char>>)> {
    let pins = s.pins@;
    if has_ground_net(pins) {
        mismatched_findings(pins, pins[0].schematic_path@, pins.len() as int)
    } else {
        Seq::empty()
    }
}

/// The findings of the first `n` symbols, in order.
pub open spec fn ground_findings(symbols: Seq<SymbolNetPins>, n: int) -> Seq<(Seq<char>, Option<Seq<char>>)>
    decreases n,
{
    if n <= 0 {
        Seq::empty()
    } else {
        ground_findings(symbols, n - 1) + symbol_ground_findings(symbols[n - 1])
    }
}

/// The pin's electrical type is power input or power output.
pub open spec fn power_typed(p: NetPin) -> bool {
    crate::text::opt_view(p.electrical_type) == Some("power_in"@) || crate::text::opt_view(p.electrical_type)
        == Some("power_out"@)
}

/// A power pin named like ground that sits off any ground net, as its type, name and net
/// read.
pub open spec fn ground_pin_off_ground(p: NetPin) -> bool {
    &&& power_typed(p)
    &&& p.name is Some
    &&& names_ground(p.name.unwrap()@)
    &&& !names_ground(p.net_name@)
}

/// The message names one of the first `n` pins that is a power pin named like ground off
/// any ground net.
pub open spec fn names_offending_pin(pins: Seq<NetPin>, n: int, m: Seq<char>) -> bool {
    exists|j: int| 0 <= j < n && ground_pin_off_ground(#[trigger] pins[j]) && m == "Pin "@ + pins[j].name.unwrap()@
        + " not connected to ground net"@
}

/// The findings hold a report with the message.
pub open spec fn reports_message(fs: Seq<(Seq<char>, Option<Seq<char>>)>, m: Seq<char>) -> bool {
    exists|k: int| 0 <= k < fs.len() && (#[trigger] fs[k]).0 == m
}

proof fn lemma_power_typed(p: NetPin)
    ensures
        is_power_pin(p) == power_typed(p),
        is_mismatched(p) == ground_pin_off_ground(p),
{
}

proof fn lemma_mismatched_findings(pins: Seq<NetPin>, path: Seq<char>, n: int)
    requires
        0 <= n <= pins.len(),
    ensures
        forall|j: int| 0 <= j < n && ground_pin_off_ground(#[trigger] pins[j]) ==> reports_message(
            mismatched_findings(pins, path, n),
            "Pin "@ + pins[j].name.unwrap()@ + " not connected to ground net"@,
        ),
        forall|k: int| 0 <= k < mismatched_findings(pins, path, n).len() ==> names_offending_pin(
            pins,
            n,
            (#[trigger] mismatched_findings(pins, path, n)[k]).0,
        ),
    decreases n,
{
    if n > 0 {
        lemma_mismatched_findings(pins, path, n - 1);
        lemma_power_typed(pins[n - 1]);
        let prev = mismatched_findings(pins, path, n - 1);
        let cur = mismatched_findings(pins, path, n);
        assert forall|j: int| 0 <= j < n && ground_pin_off_ground(#[trigger] pins[j]) implies reports_message(
            cur,
            "Pin "@ + pins[j].name.unwrap()@ + " not connected to ground net"@,
        ) by {
            lemma_power_typed(pins[j]);
            if j < n - 1 {
                let k = choose|k: int| 0 <= k < prev.len() && (#[trigger] prev[k]).0 == "Pin "@ + pins[j].name.unwrap()@
                    + " not connected to ground net"@;
                assert(cur[k] == prev[k]);
            } else {
                assert(cur[prev.len() as int].0 == "Pin "@ + pins[j].name.unwrap()@ + " not connected to ground net"@);
            }
        }
        assert forall|k: int| 0 <= k < cur.len() implies names_offending_pin(pins, n, (#[trigger] cur[k]).0) by {
            if k < prev.len() {
                assert(cur[k] == prev[k]);
                assert(names_offending_pin(pins, n - 1, prev[k].0));
                let j = choose|j: int| 0 <= j < n - 1 && ground_pin_off_ground(#[trigger] pins[j]) && prev[k].0 == "Pin "@
                    + pins[j].name.unwrap()@ + " not connected to ground net"@;
                assert(ground_pin_off_ground(pins[j]));
            } else {
                assert(ground_pin_off_ground(pins[n - 1]));
            }
        }
    }
}

/// The ground rule applies only to a symbol with a power pin (power input or power
/// output) on a net named like ground: on any other symbol it reports nothing.
pub proof fn law_ground_rule_needs_grounded_power_pin(s: SymbolNetPins)
    requires
        forall|i: int| 0 <= i < s.pins@.len() ==> !(power_typed(#[trigger] s.pins@[i]) && names_ground(s.pins@[i].net_name@)),
    ensures
        symbol_ground_findings(s).len() == 0,
{
    if has_ground_net(s.pins@) {
        let i = choose|i: int| 0 <= i < s.pins@.len() && is_power_pin(#[trigger] s.pins@[i]) && names_ground(s.pins@[i].net_name@);
        lemma_power_typed(s.pins@[i]);
    }
}

/// On a symbol with a power pin on a ground net, every power pin named like ground that
/// sits off any ground net is reported, and nothing else is: each report names such a
/// pin.
pub proof fn law_ground_pins_off_ground_are_reported(s: SymbolNetPins, i: int)
    requires
        0 <= i < s.pins@.len(),
        power_typed(s.pins@[i]),
        names_ground(s.pins@[i].net_name@),
    ensures
        forall|j: int| 0 <= j < s.pins@.len() && ground_pin_off_ground(#[trigger] s.pins@[j]) ==> reports_message(
            symbol_ground_findings(s),
            "Pin "@ + s.pins@[j].name.unwrap()@ + " not connected to ground net"@,
        ),
        forall|k: int| 0 <= k < symbol_ground_findings(s).len() ==> names_offending_pin(
            s.pins@,
            s.pins@.len() as int,
            (#[trigger] symbol_ground_findings(s)[k]).0,
        ),
{
    lemma_power_typed(s.pins@[i]);
    assert(has_ground_net(s.pins@));
    lemma_mismatched_findings(s.pins@, s.pins@[0].schematic_path@, s.pins@.len() as int);
}

/// `char::to_ascii_uppercase`.
fn to_ascii_uppercase(c: char) -> (r: char)
    ensures
        r == upper_ascii(c),
{
    if 'a' <= c && c <= 'z' {
        let code: u8 = c as u8;
        let raised: u8 = code - 32;
        raised as char
    } else {
        c
    }
}

/// Whether the text, read in ASCII upper case, contains `GND`.
fn text_names_ground(t: &str) -> (r: bool)
    ensures
        r == names_ground(t@),
{
    let v = str_to_chars(t);
    let mut i: usize = 0;
    while i < v.len() && v.len() - i >= 3
        invariant
            i <= v.len(),
            v@ == t@,
            forall|j: int| 0 <= j < i ==> !#[trigger] gnd_at(t@, j),
        decreases v.len() - i,
    {
        if to_ascii_uppercase(v[i]) == 'G' && to_ascii_uppercase(v[i + 1]) == 'N' && to_ascii_uppercase(v[i + 2]) == 'D' {
            assert(gnd_at(t@, i as int));
            return true;
        }
        i = i + 1;
    }
    assert forall|j: int| #[trigger] gnd_at(t@, j) implies false by {
        if j >= i {
            assert(j + 3 > v.len());
        }
    }
    false
}

/// Whether the pin is of power input or power output type.
fn power_pin(p: &NetPin) -> (r: bool)
    ensures
        r == is_power_pin(*p),
{
    match &p.electrical_type {
        Some(t) => crate::text::str_eq(t.as_str(), "power_in") || crate::text::str_eq(t.as_str(), "power_out"),
        None => false,
    }
}

/// Reports, symbol by symbol, each power pin named like ground that is not on a ground
/// net, where another power pin of the symbol is, as an error placed in the file of the
/// symbol's first pin.
pub fn check_ground_pins(symbols: &Vec<SymbolNetPins>) -> (r: Vec<Diagnostic>)
    ensures
        reports(r@, Severity::Error, "erc-ground-pin-not-ground"@, ground_findings(symbols@, symbols@.len() as int)),
{
    let mut out: Vec<Diagnostic> = Vec::new();
    let mut s: usize = 0;
    while s < symbols.len()
        invariant
            0 <= s <= symbols.len(),
            reports(out@, Severity::Error, "erc-ground-pin-not-ground"@, ground_findings(symbols@, s as int)),
        decreases symbols.len() - s,
    {
        let pins = &symbols[s].pins;
        let mut grounded = false;
        let mut k: usize = 0;
        while k < pins.len()
            invariant
                0 <= k <= pins.len(),
                grounded == exists|i: int| 0 <= i < k && is_power_pin(#[trigger] pins@[i]) && names_ground(pins@[i].net_name@),
            decreases pins.len() - k,
        {
            if power_pin(&pins[k]) && text_names_ground(pins[k].net_name.as_str()) {
                grounded = true;
            }
            k = k + 1;
        }
        let ghost start = out@;
        let ghost base = ground_findings(symbols@, s as int);
        if grounded {
            let path = &pins[0].schematic_path;
            let mut m: usize = 0;
            while m < pins.len()
                invariant
                    0 <= m <= pins.len(),
                    pins.len() > 0,
                    path@ == pins@[0].schematic_path@,
                    reports(out@, Severity::Error, "erc-ground-pin-not-ground"@, base + mismatched_findings(pins@, path@, m as int)),
                decreases pins.len() - m,
            {
                let p = &pins[m];
                let ghost before = out@;
                let ghost prev = base + mismatched_findings(pins@, path@, m as int);
                let mut reported = false;
                match &p.name {
                    Some(name) => {
                        if power_pin(p) && text_names_ground(name.as_str()) && !text_names_ground(p.net_name.as_str()) {
                            let mut v: Vec<char> = Vec::new();
                            push_str(&mut v, "Pin ");
                            push_str(&mut v, name.as_str());
                            push_str(&mut v, " not connected to ground net");
                            let message = seq_to_string(&v);
                            out.push(rule_diagnostic(Severity::Error, "erc-ground-pin-not-ground", message, Some(path.clone())));
                            reported = true;
                            proof {
                                reveal_strlit("Pin ");
                                reveal_strlit(" not connected to ground net");
                                let next = base + mismatched_findings(pins@, path@, m + 1);
                                assert(next =~= prev.push((ground_message(name@), Some(path@))));
                                assert forall|i: int| 0 <= i < out@.len() implies #[trigger] is_rule_diagnostic(
                                    out@[i],
                                    Severity::Error,
                                    "erc-ground-pin-not-ground"@,
                                    next[i].0,
                                    next[i].1,
                                ) by {
                                    if i < before.len() {
                                        assert(out@[i] == before[i]);
                                        assert(next[i] == prev[i]);
                                    }
                                }
                            }
                        }
                    },
                    None => {},
                }
                if !reported {
                    assert(base + mismatched_findings(pins@, path@, m + 1) =~= prev);
                }
                m = m + 1;
            }
            assert(ground_findings(symbols@, s + 1) =~= base + mismatched_findings(pins@, path@, pins.len() as int));
        } else {
            assert(ground_findings(symbols@, s + 1) =~= base);
        }
        s = s + 1;
    }
    out
}

} // verus!
