//! Rule checks over the labels of a loaded project by their shown text: global labels
//! that appear only once, local and global labels of the same name, and label or power
//! names that differ only by case.
//!
//! Each check takes the labels of each sheet occurrence, in hierarchy order, with their
//! text as shown on that occurrence.

use crate::diagnostic::{Diagnostic, Severity};
use crate::erc::checks::{is_rule_diagnostic, reports, rule_diagnostic};
use crate::grouping::{group_by_key, is_key_grouping, law_grouping_unique, lemma_positions_bounded};
use crate::model::LabelKind;
use crate::text::{lower_ascii, push_str, seq_to_string, str_to_chars, to_ascii_lowercase};
use vstd::prelude::*;

verus! {

/// A labelled item as the label checks read it: a label of a kind with its shown text,
/// or a power symbol with its shown value (where it has one).
#[derive(Debug, Clone)]
pub enum ShownLabel {
    Label { kind: LabelKind, text: String },
    PowerSymbol { value: Option<String> },
}

/// The labelled items of one sheet occurrence, in the screen's order, with the file the
/// screen was read from.
#[derive(Debug, Clone)]
pub struct ScreenLabels {
    pub path: String,
    pub items: Vec<ShownLabel>,
}

/// The labels of the kind among the items, as text and file, in order.
pub open spec fn kind_entries(items: Seq<ShownLabel>, kind: LabelKind, path: Seq<char>) -> Seq<(Seq<char>, Seq<char>)>
    decreases items.len(),
{
    if items.len() == 0 {
        Seq::empty()
    } else {
        let prev = kind_entries(items.drop_last(), kind, path);
        match items.last() {
            ShownLabel::Label { kind: k, text } => if k == kind {
                prev.push((text@, path))
            } else {
                prev
            },
            _ => prev,
        }
    }
}

/// The labels of the kind of all occurrences, as text and file, in order.
pub open spec fn labels_of_kind(screens: Seq<ScreenLabels>, kind: LabelKind) -> Seq<(Seq<char>, Seq<char>)>
    decreases screens.len(),
{
    if screens.len() == 0 {
        Seq::empty()
    } else {
        labels_of_kind(screens.drop_last(), kind) + kind_entries(screens.last().items@, kind, screens.last().path@)
    }
}

/// The texts of the entries.
pub open spec fn entry_texts(e: Seq<(Seq<char>, Seq<char>)>) -> Seq<Seq<char>> {
    e.map_values(|x: (Seq<char>, Seq<char>)| x.0)
}

/// The message of a global label that appears once.
pub open spec fn single_global_message(text: Seq<char>) -> Seq<char> {
    "Global label '"@ + text + "' appears only once"@
}

/// The findings of the first `n` groups of global labels: each text that appears once,
/// placed in its file.
pub open spec fn single_global_findings(e: Seq<(Seq<char>, Seq<char>)>, g: Seq<(Seq<char>, Seq<usize>)>, n: int) -> Seq<(Seq<char>, Option<Seq<char>>)>
    decreases n,
{
    if n <= 0 {
        Seq::empty()
    } else {
        let prev = single_global_findings(e, g, n - 1);
        if g[n - 1].1.len() == 1 {
            prev.push((single_global_message(g[n - 1].0), Some(e[g[n - 1].1[0] as int].1)))
        } else {
            prev
        }
    }
}

/// The findings of the first `n` groups of global labels whose text a local label also
/// has, placed in the file of the first global label.
pub open spec fn same_name_findings(e: Seq<(Seq<char>, Seq<char>)>, locals: Seq<Seq<char>>, g: Seq<(Seq<char>, Seq<usize>)>, n: int) -> Seq<(Seq<char>, Option<Seq<char>>)>
    decreases n,
{
    if n <= 0 {
        Seq::empty()
    } else {
        let prev = same_name_findings(e, locals, g, n - 1);
        if locals.contains(g[n - 1].0) {
            prev.push(("Local and global labels have same name"@, Some(e[g[n - 1].1[0] as int].1)))
        } else {
            prev
        }
    }
}

proof fn lemma_positions_single(keys: Seq<Seq<char>>, key: Seq<char>, n: int, i: int)
    requires
        0 <= i < n <= keys.len(),
        keys[i] == key,
        forall|j: int| 0 <= j < keys.len() && j != i ==> #[trigger] keys[j] != key,
    ensures
        crate::grouping::positions_of(keys, key, n) == seq![i as usize],
    decreases n,
{
    if n - 1 > i {
        lemma_positions_single(keys, key, n - 1, i);
        assert(keys[n - 1] != key);
    } else {
        lemma_positions_none(keys, key, i, i);
        assert(crate::grouping::positions_of(keys, key, n) =~= seq![i as usize]);
    }
}

proof fn lemma_positions_none(keys: Seq<Seq<char>>, key: Seq<char>, n: int, i: int)
    requires
        0 <= n <= i < keys.len(),
        forall|j: int| 0 <= j < keys.len() && j != i ==> #[trigger] keys[j] != key,
    ensures
        crate::grouping::positions_of(keys, key, n).len() == 0,
    decreases n,
{
    if n > 0 {
        lemma_positions_none(keys, key, n - 1, i);
        assert(keys[n - 1] != key);
    }
}

proof fn lemma_positions_two(keys: Seq<Seq<char>>, key: Seq<char>, n: int, i: int, j: int)
    requires
        0 <= i < j < n <= keys.len(),
        keys[i] == key,
        keys[j] == key,
    ensures
        crate::grouping::positions_of(keys, key, n).len() >= 2,
    decreases n,
{
    if j < n - 1 {
        lemma_positions_two(keys, key, n - 1, i, j);
    } else {
        lemma_positions_one(keys, key, n - 1, i);
    }
}

proof fn lemma_positions_one(keys: Seq<Seq<char>>, key: Seq<char>, n: int, i: int)
    requires
        0 <= i < n <= keys.len(),
        keys[i] == key,
    ensures
        crate::grouping::positions_of(keys, key, n).len() >= 1,
    decreases n,
{
    if i < n - 1 {
        lemma_positions_one(keys, key, n - 1, i);
    }
}

/// The single-global message names its text.
proof fn lemma_single_global_message_injective(a: Seq<char>, b: Seq<char>)
    requires
        single_global_message(a) == single_global_message(b),
    ensures
        a == b,
{
    reveal_strlit("Global label '");
    reveal_strlit("' appears only once");
    let ma = single_global_message(a);
    assert(ma.len() == a.len() + 33);
    assert(single_global_message(b).len() == b.len() + 33);
    assert(a =~= ma.subrange(14, 14 + a.len() as int));
    assert(b =~= single_global_message(b).subrange(14, 14 + b.len() as int));
}

/// The message is that of one of the first `n` groups, one with a single label.
pub open spec fn names_single_group(g: Seq<(Seq<char>, Seq<usize>)>, n: int, msg: Seq<char>) -> bool {
    exists|k: int| 0 <= k < n && (#[trigger] g[k]).1.len() == 1 && msg == single_global_message(g[k].0)
}

/// Every single-global finding among the first `n` groups names a group with one label.
proof fn lemma_single_global_findings_from(e: Seq<(Seq<char>, Seq<char>)>, g: Seq<(Seq<char>, Seq<usize>)>, n: int)
    requires
        0 <= n <= g.len(),
    ensures
        forall|m: int| 0 <= m < single_global_findings(e, g, n).len() ==> names_single_group(
            g,
            n,
            (#[trigger] single_global_findings(e, g, n)[m]).0,
        ),
    decreases n,
{
    if n > 0 {
        lemma_single_global_findings_from(e, g, n - 1);
        let prev = single_global_findings(e, g, n - 1);
        let cur = single_global_findings(e, g, n);
        assert forall|m: int| 0 <= m < cur.len() implies names_single_group(g, n, (#[trigger] cur[m]).0) by {
            if m < prev.len() {
                assert(cur[m] == prev[m]);
                assert(names_single_group(g, n - 1, prev[m].0));
                let k = choose|k: int| 0 <= k < n - 1 && (#[trigger] g[k]).1.len() == 1 && prev[m].0 == single_global_message(g[k].0);
                assert(g[k].1.len() == 1);
            } else {
                assert(g[n - 1].1.len() == 1);
            }
        }
    }
}

proof fn lemma_single_global_findings_hold(e: Seq<(Seq<char>, Seq<char>)>, g: Seq<(Seq<char>, Seq<usize>)>, n: int, k: int)
    requires
        0 <= k < n <= g.len(),
        g[k].1.len() == 1,
    ensures
        exists|m: int| 0 <= m < single_global_findings(e, g, n).len() && #[trigger] single_global_findings(e, g, n)[m] == (
            single_global_message(g[k].0),
            Some(e[g[k].1[0] as int].1),
        ),
    decreases n,
{
    let prev = single_global_findings(e, g, n - 1);
    let cur = single_global_findings(e, g, n);
    if k < n - 1 {
        lemma_single_global_findings_hold(e, g, n - 1, k);
        let m = choose|m: int| 0 <= m < prev.len() && #[trigger] prev[m] == (single_global_message(g[k].0), Some(e[g[k].1[0] as int].1));
        assert(cur[m] == prev[m]);
    } else {
        assert(cur[prev.len() as int] == (single_global_message(g[k].0), Some(e[g[k].1[0] as int].1)));
    }
}

/// A global label whose text no other global label has is reported, in its file; a text
/// that two global labels share is never reported.
pub proof fn law_single_global_labels(e: Seq<(Seq<char>, Seq<char>)>, g: Seq<(Seq<char>, Seq<usize>)>, i: int, j: int)
    requires
        is_key_grouping(entry_texts(e), g),
        e.len() <= usize::MAX,
        0 <= i < e.len(),
        0 <= j < e.len(),
    ensures
        (forall|o: int| 0 <= o < e.len() && o != i ==> (#[trigger] e[o]).0 != e[i].0) ==> exists|m: int|
            0 <= m < single_global_findings(e, g, g.len() as int).len() && #[trigger] single_global_findings(e, g, g.len() as int)[m]
                == (single_global_message(e[i].0), Some(e[i].1)),
        (i != j && e[i].0 == e[j].0) ==> forall|m: int| 0 <= m < single_global_findings(e, g, g.len() as int).len()
            ==> (#[trigger] single_global_findings(e, g, g.len() as int)[m]).0 != single_global_message(e[i].0),
{
    let keys = entry_texts(e);
    assert(keys[i] == e[i].0);
    assert(crate::grouping::key_listed(g, keys[i]));
    let k = choose|k: int| 0 <= k < g.len() && (#[trigger] g[k]).0 == keys[i];
    assert(g[k].1 == crate::grouping::positions_of(keys, g[k].0, keys.len() as int));
    if forall|o: int| 0 <= o < e.len() && o != i ==> (#[trigger] e[o]).0 != e[i].0 {
        assert forall|o: int| 0 <= o < keys.len() && o != i implies #[trigger] keys[o] != e[i].0 by {
            assert(keys[o] == e[o].0);
        }
        lemma_positions_single(keys, e[i].0, keys.len() as int, i);
        lemma_single_global_findings_hold(e, g, g.len() as int, k);
    }
    if i != j && e[i].0 == e[j].0 {
        assert(keys[j] == e[j].0);
        if i < j {
            lemma_positions_two(keys, e[i].0, keys.len() as int, i, j);
        } else {
            lemma_positions_two(keys, e[i].0, keys.len() as int, j, i);
        }
        lemma_single_global_findings_from(e, g, g.len() as int);
        let f = single_global_findings(e, g, g.len() as int);
        assert forall|m: int| 0 <= m < f.len() implies (#[trigger] f[m]).0 != single_global_message(e[i].0) by {
            assert(names_single_group(g, g.len() as int, f[m].0));
            let k2 = choose|k2: int| 0 <= k2 < g.len() && (#[trigger] g[k2]).1.len() == 1 && f[m].0 == single_global_message(g[k2].0);
            if f[m].0 == single_global_message(e[i].0) {
                lemma_single_global_message_injective(g[k2].0, e[i].0);
                crate::natural::lemma_lex_order_flip(g[k].0, g[k].0);
                if k2 < k {
                    assert(crate::natural::lex_order(g[k2].0, g[k].0) == crate::natural::TextOrder::Less);
                } else if k < k2 {
                    assert(crate::natural::lex_order(g[k].0, g[k2].0) == crate::natural::TextOrder::Less);
                }
                assert(g[k2].1 == crate::grouping::positions_of(keys, g[k2].0, keys.len() as int));
            }
        }
    }
}

/// The labels of the kind of all occurrences, as text and file, in order.
fn collect_labels_of_kind(screens: &Vec<ScreenLabels>, kind: LabelKind) -> (r: Vec<(String, String)>)
    ensures
        r.deep_view() == labels_of_kind(screens@, kind),
{
    let mut out: Vec<(String, String)> = Vec::new();
    let mut i: usize = 0;
    while i < screens.len()
        invariant
            0 <= i <= screens.len(),
            out.deep_view() == labels_of_kind(screens@.take(i as int), kind),
        decreases screens.len() - i,
    {
        let items = &screens[i].items;
        let path = &screens[i].path;
        let ghost base = out.deep_view();
        let mut k: usize = 0;
        assert(items@.take(0) =~= Seq::<ShownLabel>::empty());
        while k < items.len()
            invariant
                0 <= k <= items.len(),
                out.deep_view() == base + kind_entries(items@.take(k as int), kind, path@),
            decreases items.len() - k,
        {
            assert(items@.take(k + 1).drop_last() =~= items@.take(k as int));
            assert(items@.take(k + 1).last() == items@[k as int]);
            let ghost before = out.deep_view();
            match &items[k] {
                ShownLabel::Label { kind: lk, text } => {
                    if *lk == kind {
                        out.push((text.clone(), path.clone()));
                        assert(out.deep_view() =~= before.push((text@, path@)));
                    }
                },
                _ => {},
            }
            k = k + 1;
        }
        assert(items@.take(items.len() as int) =~= items@);
        assert(screens@.take(i + 1).drop_last() =~= screens@.take(i as int));
        assert(screens@.take(i + 1).last() == screens@[i as int]);
        i = i + 1;
    }
    assert(screens@.take(screens.len() as int) =~= screens@);
    out
}

/// The texts of the entries.
fn texts_of_entries(e: &Vec<(String, String)>) -> (r: Vec<String>)
    ensures
        r.deep_view() == entry_texts(e.deep_view()),
{
    let mut out: Vec<String> = Vec::new();
    let mut i: usize = 0;
    while i < e.len()
        invariant
            0 <= i <= e.len(),
            out.deep_view() == entry_texts(e.deep_view().take(i as int)),
        decreases e.len() - i,
    {
        let ghost before = out.deep_view();
        out.push(e[i].0.clone());
        assert(e.deep_view()[i as int].0 == e@[i as int].0@);
        assert(out.deep_view() =~= before.push(e@[i as int].0@));
        assert(entry_texts(e.deep_view().take(i + 1)) =~= entry_texts(e.deep_view().take(i as int)).push(e@[i as int].0@));
        i = i + 1;
    }
    assert(e.deep_view().take(e.len() as int) =~= e.deep_view());
    out
}

fn quoted_message(prefix: &str, text: &str, suffix: &str) -> (r: String)
    ensures
        r@ == prefix@ + text@ + suffix@,
{
    let mut v: Vec<char> = Vec::new();
    push_str(&mut v, prefix);
    push_str(&mut v, text);
    push_str(&mut v, suffix);
    seq_to_string(&v)
}

/// Reports each global label text, in increasing text order, that appears only once in
/// the hierarchy, as a warning placed in the file it appears in.
pub fn check_single_global_labels(screens: &Vec<ScreenLabels>) -> (r: Vec<Diagnostic>)
    ensures
        exists|g: Seq<(Seq<char>, Seq<usize>)>|
            #[trigger] is_key_grouping(entry_texts(labels_of_kind(screens@, LabelKind::Global)), g) && reports(
                r@,
                Severity::Warning,
                "erc-single-global-label"@,
                single_global_findings(labels_of_kind(screens@, LabelKind::Global), g, g.len() as int),
            ),
        forall|g: Seq<(Seq<char>, Seq<usize>)>|
            #[trigger] is_key_grouping(entry_texts(labels_of_kind(screens@, LabelKind::Global)), g) ==> reports(
                r@,
                Severity::Warning,
                "erc-single-global-label"@,
                single_global_findings(labels_of_kind(screens@, LabelKind::Global), g, g.len() as int),
            ),
{
    let entries = collect_labels_of_kind(screens, LabelKind::Global);
    let ghost e = entries.deep_view();
    let keys = texts_of_entries(&entries);
    let groups = group_by_key(&keys);
    let ghost g = groups.deep_view();
    let mut out: Vec<Diagnostic> = Vec::new();
    let mut k: usize = 0;
    while k < groups.len()
        invariant
            0 <= k <= groups.len(),
            e == entries.deep_view(),
            g == groups.deep_view(),
            keys.deep_view() == entry_texts(e),
            is_key_grouping(entry_texts(e), g),
            reports(out@, Severity::Warning, "erc-single-global-label"@, single_global_findings(e, g, k as int)),
        decreases groups.len() - k,
    {
        let text = &groups[k].0;
        let idx = &groups[k].1;
        assert(idx@ == g[k as int].1) by {
            assert(idx.deep_view() =~= idx@);
        }
        proof {
            assert(entry_texts(e).len() == entries.len());
            lemma_positions_bounded(entry_texts(e), g[k as int].0, e.len() as int);
        }
        let ghost found = single_global_findings(e, g, k as int);
        if idx.len() == 1 {
            let first = idx[0];
            let message = quoted_message("Global label '", text.as_str(), "' appears only once");
            let d = rule_diagnostic(Severity::Warning, "erc-single-global-label", message, Some(entries[first].1.clone()));
            let ghost before = out@;
            out.push(d);
            proof {
                reveal_strlit("Global label '");
                reveal_strlit("' appears only once");
                let added = seq![(single_global_message(g[k as int].0), Some(e[idx@[0] as int].1))];
                assert(single_global_findings(e, g, k + 1) =~= found + added);
                assert forall|i: int| 0 <= i < out@.len() implies #[trigger] is_rule_diagnostic(
                    out@[i],
                    Severity::Warning,
                    "erc-single-global-label"@,
                    (found + added)[i].0,
                    (found + added)[i].1,
                ) by {
                    if i < before.len() {
                        assert(out@[i] == before[i]);
                        assert((found + added)[i] == found[i]);
                    }
                }
            }
        }
        k = k + 1;
    }
    proof {
        assert forall|g2: Seq<(Seq<char>, Seq<usize>)>| #[trigger] is_key_grouping(entry_texts(e), g2) implies reports(
            out@,
            Severity::Warning,
            "erc-single-global-label"@,
            single_global_findings(e, g2, g2.len() as int),
        ) by {
            assert(entry_texts(e).len() == entries.len());
            law_grouping_unique(entry_texts(e), g, g2);
        }
    }
    out
}

/// Whether some text of the list is `t`.
fn contains_text(list: &Vec<String>, t: &String) -> (r: bool)
    ensures
        r == list.deep_view().contains(t@),
{
    let mut i: usize = 0;
    while i < list.len()
        invariant
            0 <= i <= list.len(),
            forall|j: int| 0 <= j < i ==> list.deep_view()[j] != t@,
        decreases list.len() - i,
    {
        if list[i] == *t {
            assert(list.deep_view()[i as int] == t@);
            return true;
        }
        i = i + 1;
    }
    false
}

/// Reports each global label text, in increasing text order, that a local label also
/// has, as an error placed in the file of its first global label.
pub fn check_same_local_global_label(screens: &Vec<ScreenLabels>) -> (r: Vec<Diagnostic>)
    ensures
        exists|g: Seq<(Seq<char>, Seq<usize>)>|
            #[trigger] is_key_grouping(entry_texts(labels_of_kind(screens@, LabelKind::Global)), g) && reports(
                r@,
                Severity::Error,
                "erc-same-local-global-label"@,
                same_name_findings(
                    labels_of_kind(screens@, LabelKind::Global),
                    entry_texts(labels_of_kind(screens@, LabelKind::Local)),
                    g,
                    g.len() as int,
                ),
            ),
        forall|g: Seq<(Seq<char>, Seq<usize>)>|
            #[trigger] is_key_grouping(entry_texts(labels_of_kind(screens@, LabelKind::Global)), g) ==> reports(
                r@,
                Severity::Error,
                "erc-same-local-global-label"@,
                same_name_findings(
                    labels_of_kind(screens@, LabelKind::Global),
                    entry_texts(labels_of_kind(screens@, LabelKind::Local)),
                    g,
                    g.len() as int,
                ),
            ),
{
    let entries = collect_labels_of_kind(screens, LabelKind::Global);
    let locals = collect_labels_of_kind(screens, LabelKind::Local);
    let local_texts = texts_of_entries(&locals);
    let ghost e = entries.deep_view();
    let ghost lt = local_texts.deep_view();
    let keys = texts_of_entries(&entries);
    let groups = group_by_key(&keys);
    let ghost g = groups.deep_view();
    let mut out: Vec<Diagnostic> = Vec::new();
    let mut k: usize = 0;
    while k < groups.len()
        invariant
            0 <= k <= groups.len(),
            e == entries.deep_view(),
            lt == local_texts.deep_view(),
            g == groups.deep_view(),
            keys.deep_view() == entry_texts(e),
            is_key_grouping(entry_texts(e), g),
            reports(out@, Severity::Error, "erc-same-local-global-label"@, same_name_findings(e, lt, g, k as int)),
        decreases groups.len() - k,
    {
        let text = &groups[k].0;
        let idx = &groups[k].1;
        assert(idx@ == g[k as int].1) by {
            assert(idx.deep_view() =~= idx@);
        }
        proof {
            assert(entry_texts(e).len() == entries.len());
            lemma_positions_bounded(entry_texts(e), g[k as int].0, e.len() as int);
        }
        let ghost found = same_name_findings(e, lt, g, k as int);
        if contains_text(&local_texts, text) {
            assert(idx@.len() > 0);
            let first = idx[0];
            let message = "Local and global labels have same name".to_string();
            let d = rule_diagnostic(Severity::Error, "erc-same-local-global-label", message, Some(entries[first].1.clone()));
            let ghost before = out@;
            out.push(d);
            proof {
                let added = seq![("Local and global labels have same name"@, Some(e[idx@[0] as int].1))];
                assert(same_name_findings(e, lt, g, k + 1) =~= found + added);
                assert forall|i: int| 0 <= i < out@.len() implies #[trigger] is_rule_diagnostic(
                    out@[i],
                    Severity::Error,
                    "erc-same-local-global-label"@,
                    (found + added)[i].0,
                    (found + added)[i].1,
                ) by {
                    if i < before.len() {
                        assert(out@[i] == before[i]);
                        assert((found + added)[i] == found[i]);
                    }
                }
            }
        }
        k = k + 1;
    }
    proof {
        assert forall|g2: Seq<(Seq<char>, Seq<usize>)>| #[trigger] is_key_grouping(entry_texts(e), g2) implies reports(
            out@,
            Severity::Error,
            "erc-same-local-global-label"@,
            same_name_findings(e, lt, g2, g2.len() as int),
        ) by {
            assert(entry_texts(e).len() == entries.len());
            law_grouping_unique(entry_texts(e), g, g2);
        }
    }
    out
}

/// What an item compared by case is: a local label, another label, or a power symbol.
#[derive(Debug, Clone, Copy, PartialEq, Eq, Structural)]
pub enum SimilarRole {
    LocalLabel,
    Label,
    Power,
}

/// Compared items as values.
pub open spec fn entry_views(s: Seq<(SimilarRole, String, String)>) -> Seq<(SimilarRole, Seq<char>, Seq<char>)> {
    s.map_values(|x: (SimilarRole, String, String)| (x.0, x.1@, x.2@))
}

/// The items that are compared by case among the items of one occurrence, as role, text
/// and file: local, global and hierarchical labels, and power symbols with a value.
pub open spec fn similar_entries_in(items: Seq<ShownLabel>, path: Seq<char>) -> Seq<(SimilarRole, Seq<char>, Seq<char>)>
    decreases items.len(),
{
    if items.len() == 0 {
        Seq::empty()
    } else {
        let prev = similar_entries_in(items.drop_last(), path);
        match items.last() {
            ShownLabel::Label { kind, text } => match kind {
                LabelKind::Local => prev.push((SimilarRole::LocalLabel, text@, path)),
                LabelKind::Global | LabelKind::Hierarchical => prev.push((SimilarRole::Label, text@, path)),
                LabelKind::Directive => prev,
            },
            ShownLabel::PowerSymbol { value } => match value {
                Some(v) => prev.push((SimilarRole::Power, v@, path)),
                None => prev,
            },
        }
    }
}

/// The items compared by case of all occurrences, in order.
pub open spec fn similar_entries(screens: Seq<ScreenLabels>) -> Seq<(SimilarRole, Seq<char>, Seq<char>)>
    decreases screens.len(),
{
    if screens.len() == 0 {
        Seq::empty()
    } else {
        similar_entries(screens.drop_last()) + similar_entries_in(screens.last().items@, screens.last().path@)
    }
}

/// A text with ASCII letters in lower case.
pub open spec fn ascii_lower(t: Seq<char>) -> Seq<char> {
    t.map_values(|c: char| lower_ascii(c))
}

/// The message that two names differ only by case.
pub open spec fn case_message(lead: Seq<char>, a: Seq<char>, b: Seq<char>) -> Seq<char> {
    lead + a + "' and '"@ + b + "'"@
}

/// The finding, as code and message, of item `a` against an earlier item `b`: texts
/// that differ only by ASCII case, unless both are local labels of different files.
pub open spec fn similar_pair(a: (SimilarRole, Seq<char>, Seq<char>), b: (SimilarRole, Seq<char>, Seq<char>)) -> Option<(Seq<char>, Seq<char>)> {
    if ascii_lower(a.1) != ascii_lower(b.1) || a.1 == b.1 || (a.0 == SimilarRole::LocalLabel && b.0
        == SimilarRole::LocalLabel && a.2 != b.2) {
        None
    } else if a.0 == SimilarRole::Power && b.0 == SimilarRole::Power {
        Some(("erc-similar-power"@, case_message("Similar power names differ only by case: '"@, a.1, b.1)))
    } else if a.0 == SimilarRole::Power || b.0 == SimilarRole::Power {
        Some(
            (
                "erc-similar-label-and-power"@,
                case_message("Similar label and power names differ only by case: '"@, a.1, b.1),
            ),
        )
    } else {
        Some(("erc-similar-labels"@, case_message("Similar labels differ only by case: '"@, a.1, b.1)))
    }
}

/// The findings of item `i` against the first `n` items, as code, message and the file
/// of item `i`.
pub open spec fn pair_findings(e: Seq<(SimilarRole, Seq<char>, Seq<char>)>, i: int, n: int) -> Seq<(Seq<char>, Seq<char>, Option<Seq<char>>)>
    decreases n,
{
    if n <= 0 {
        Seq::empty()
    } else {
        let prev = pair_findings(e, i, n - 1);
        match similar_pair(e[i], e[n - 1]) {
            Some((code, message)) => prev.push((code, message, Some(e[i].2))),
            None => prev,
        }
    }
}

/// The findings of the first `n` items, each against the items before it.
pub open spec fn similar_findings(e: Seq<(SimilarRole, Seq<char>, Seq<char>)>, n: int) -> Seq<(Seq<char>, Seq<char>, Option<Seq<char>>)>
    decreases n,
{
    if n <= 0 {
        Seq::empty()
    } else {
        similar_findings(e, n - 1) + pair_findings(e, n - 1, n - 1)
    }
}

/// Two texts are the same up to ASCII case.
pub open spec fn same_but_case(a: Seq<char>, b: Seq<char>) -> bool {
    a.len() == b.len() && forall|i: int| 0 <= i < a.len() ==> #[trigger] lower_ascii(a[i]) == lower_ascii(b[i])
}

/// Two names compared by case that differ only by ASCII case are reported, whatever
/// files they sit in, unless both are local labels of different files; the code says
/// whether labels, power names or both are involved. Names that are equal, or that
/// differ otherwise, are not reported.
pub proof fn law_case_only_differences_are_reported(a: (SimilarRole, Seq<char>, Seq<char>), b: (SimilarRole, Seq<char>, Seq<char>))
    ensures
        (a.1 != b.1 && same_but_case(a.1, b.1) && !(a.0 == SimilarRole::LocalLabel && b.0 == SimilarRole::LocalLabel
            && a.2 != b.2)) ==> similar_pair(a, b) == Some(
            if a.0 == SimilarRole::Power && b.0 == SimilarRole::Power {
                ("erc-similar-power"@, "Similar power names differ only by case: '"@ + a.1 + "' and '"@ + b.1 + "'"@)
            } else if a.0 == SimilarRole::Power || b.0 == SimilarRole::Power {
                (
                    "erc-similar-label-and-power"@,
                    "Similar label and power names differ only by case: '"@ + a.1 + "' and '"@ + b.1 + "'"@,
                )
            } else {
                ("erc-similar-labels"@, "Similar labels differ only by case: '"@ + a.1 + "' and '"@ + b.1 + "'"@)
            },
        ),
        (a.1 == b.1 || !same_but_case(a.1, b.1)) ==> similar_pair(a, b) is None,
        (a.0 == SimilarRole::LocalLabel && b.0 == SimilarRole::LocalLabel && a.2 != b.2) ==> similar_pair(a, b) is None,
{
    if same_but_case(a.1, b.1) {
        assert(ascii_lower(a.1) =~= ascii_lower(b.1));
    } else if ascii_lower(a.1) == ascii_lower(b.1) {
        assert(ascii_lower(a.1).len() == a.1.len());
        assert(ascii_lower(b.1).len() == b.1.len());
        assert(a.1.len() == b.1.len());
        assert forall|i: int| 0 <= i < a.1.len() implies #[trigger] lower_ascii(a.1[i]) == lower_ascii(b.1[i]) by {
            assert(ascii_lower(a.1)[i] == ascii_lower(b.1)[i]);
        }
    }
}

/// The finding of name `a` against an earlier name `b`, in `a`'s file (nothing where the
/// pair gives none).
pub open spec fn finding_for(a: (SimilarRole, Seq<char>, Seq<char>), b: (SimilarRole, Seq<char>, Seq<char>)) -> (Seq<char>, Seq<char>, Option<Seq<char>>) {
    match similar_pair(a, b) {
        Some(p) => (p.0, p.1, Some(a.2)),
        None => (Seq::empty(), Seq::empty(), None),
    }
}

/// The findings hold the finding.
pub open spec fn holds_finding(fs: Seq<(Seq<char>, Seq<char>, Option<Seq<char>>)>, f: (Seq<char>, Seq<char>, Option<Seq<char>>)) -> bool {
    exists|k: int| 0 <= k < fs.len() && #[trigger] fs[k] == f
}

proof fn lemma_pair_findings_hold(e: Seq<(SimilarRole, Seq<char>, Seq<char>)>, i: int, n: int, j: int)
    requires
        0 <= j < n <= e.len(),
        0 <= i < e.len(),
        similar_pair(e[i], e[j]) is Some,
    ensures
        holds_finding(pair_findings(e, i, n), finding_for(e[i], e[j])),
    decreases n,
{
    let f = finding_for(e[i], e[j]);
    let prev = pair_findings(e, i, n - 1);
    let cur = pair_findings(e, i, n);
    if j < n - 1 {
        lemma_pair_findings_hold(e, i, n - 1, j);
        let k = choose|k: int| 0 <= k < prev.len() && #[trigger] prev[k] == f;
        assert(cur[k] == prev[k]);
    } else {
        assert(cur[prev.len() as int] == f);
    }
}

proof fn lemma_similar_findings_hold(e: Seq<(SimilarRole, Seq<char>, Seq<char>)>, n: int, i: int, j: int)
    requires
        0 <= j < i < n <= e.len(),
        similar_pair(e[i], e[j]) is Some,
    ensures
        holds_finding(similar_findings(e, n), finding_for(e[i], e[j])),
    decreases n,
{
    let f = finding_for(e[i], e[j]);
    let prev = similar_findings(e, n - 1);
    let cur = similar_findings(e, n);
    if i < n - 1 {
        lemma_similar_findings_hold(e, n - 1, i, j);
        let k = choose|k: int| 0 <= k < prev.len() && #[trigger] prev[k] == f;
        assert(cur[k] == prev[k]);
    } else {
        lemma_pair_findings_hold(e, i, n - 1, j);
        let pf = pair_findings(e, n - 1, n - 1);
        let k = choose|k: int| 0 <= k < pf.len() && #[trigger] pf[k] == f;
        assert(cur[prev.len() + k] == pf[k]);
    }
}

/// Every pair of compared names that differ only by case (other than local labels of
/// different files) is among the check's findings: the later name is reported against
/// the earlier one, in the later one's file.
pub proof fn law_similar_pairs_are_found(e: Seq<(SimilarRole, Seq<char>, Seq<char>)>, i: int, j: int)
    requires
        0 <= j < i < e.len(),
        e[i].1 != e[j].1,
        same_but_case(e[i].1, e[j].1),
        !(e[i].0 == SimilarRole::LocalLabel && e[j].0 == SimilarRole::LocalLabel && e[i].2 != e[j].2),
    ensures
        similar_pair(e[i], e[j]) is Some,
        holds_finding(similar_findings(e, e.len() as int), finding_for(e[i], e[j])),
{
    law_case_only_differences_are_reported(e[i], e[j]);
    lemma_similar_findings_hold(e, e.len() as int, i, j);
}

/// The diagnostics report the findings, each a code, a message and a file, in order.
pub open spec fn reports_coded(ds: Seq<Diagnostic>, severity: Severity, findings: Seq<(Seq<char>, Seq<char>, Option<Seq<char>>)>) -> bool {
    &&& ds.len() == findings.len()
    &&& forall|i: int| 0 <= i < ds.len() ==> #[trigger] is_rule_diagnostic(ds[i], severity, findings[i].0, findings[i].1, findings[i].2)
}

/// The items compared by case of all occurrences, in order.
fn collect_similar_entries(screens: &Vec<ScreenLabels>) -> (r: Vec<(SimilarRole, String, String)>)
    ensures
        entry_views(r@) == similar_entries(screens@),
{
    let mut out: Vec<(SimilarRole, String, String)> = Vec::new();
    let mut i: usize = 0;
    while i < screens.len()
        invariant
            0 <= i <= screens.len(),
            entry_views(out@) == similar_entries(screens@.take(i as int)),
        decreases screens.len() - i,
    {
        let items = &screens[i].items;
        let path = &screens[i].path;
        let ghost base = entry_views(out@);
        let mut k: usize = 0;
        assert(items@.take(0) =~= Seq::<ShownLabel>::empty());
        while k < items.len()
            invariant
                0 <= k <= items.len(),
                entry_views(out@) == base + similar_entries_in(items@.take(k as int), path@),
            decreases items.len() - k,
        {
            assert(items@.take(k + 1).drop_last() =~= items@.take(k as int));
            assert(items@.take(k + 1).last() == items@[k as int]);
            let ghost before = entry_views(out@);
            match &items[k] {
                ShownLabel::Label { kind, text } => match kind {
                    LabelKind::Local => {
                        out.push((SimilarRole::LocalLabel, text.clone(), path.clone()));
                        assert(entry_views(out@) =~= before.push((SimilarRole::LocalLabel, text@, path@)));
                    },
                    LabelKind::Global | LabelKind::Hierarchical => {
                        out.push((SimilarRole::Label, text.clone(), path.clone()));
                        assert(entry_views(out@) =~= before.push((SimilarRole::Label, text@, path@)));
                    },
                    LabelKind::Directive => {},
                },
                ShownLabel::PowerSymbol { value } => match value {
                    Some(v) => {
                        out.push((SimilarRole::Power, v.clone(), path.clone()));
                        assert(entry_views(out@) =~= before.push((SimilarRole::Power, v@, path@)));
                    },
                    None => {},
                },
            }
            k = k + 1;
        }
        assert(items@.take(items.len() as int) =~= items@);
        assert(screens@.take(i + 1).drop_last() =~= screens@.take(i as int));
        assert(screens@.take(i + 1).last() == screens@[i as int]);
        i = i + 1;
    }
    assert(screens@.take(screens.len() as int) =~= screens@);
    out
}

/// A text with ASCII letters in lower case.
fn lower_chars(t: &String) -> (r: Vec<char>)
    ensures
        r@ == ascii_lower(t@),
{
    let v = str_to_chars(t.as_str());
    let mut out: Vec<char> = Vec::new();
    let mut i: usize = 0;
    while i < v.len()
        invariant
            0 <= i <= v.len(),
            v@ == t@,
            out@ == ascii_lower(v@.take(i as int)),
        decreases v.len() - i,
    {
        out.push(to_ascii_lowercase(v[i]));
        assert(out@ =~= ascii_lower(v@.take(i + 1)));
        i = i + 1;
    }
    assert(v@.take(v.len() as int) =~= v@);
    out
}

/// Whether two character lists are equal.
fn same_chars(a: &Vec<char>, b: &Vec<char>) -> (r: bool)
    ensures
        r == (a@ == b@),
{
    if a.len() != b.len() {
        return false;
    }
    let mut i: usize = 0;
    while i < a.len()
        invariant
            0 <= i <= a.len(),
            a.len() == b.len(),
            forall|j: int| 0 <= j < i ==> a@[j] == b@[j],
        decreases a.len() - i,
    {
        if a[i] != b[i] {
            return false;
        }
        i = i + 1;
    }
    assert(a@ =~= b@);
    true
}

/// The finding of item `a` against an earlier item `b`, as [`similar_pair`] says.
fn similar_pair_exec(
    a: &(SimilarRole, String, String),
    a_lower: &Vec<char>,
    b: &(SimilarRole, String, String),
    b_lower: &Vec<char>,
) -> (r: Option<(&'static str, String)>)
    requires
        a_lower@ == ascii_lower(a.1@),
        b_lower@ == ascii_lower(b.1@),
    ensures
        match similar_pair((a.0, a.1@, a.2@), (b.0, b.1@, b.2@)) {
            Some((code, message)) => r matches Some(x) && x.0@ == code && x.1@ == message,
            None => r is None,
        },
{
    if !same_chars(a_lower, b_lower) || a.1 == b.1 || (a.0 == SimilarRole::LocalLabel && b.0 == SimilarRole::LocalLabel
        && a.2 != b.2) {
        return None;
    }
    proof {
        reveal_strlit("' and '");
        reveal_strlit("'");
    }
    if a.0 == SimilarRole::Power && b.0 == SimilarRole::Power {
        proof {
            reveal_strlit("Similar power names differ only by case: '");
        }
        let m = similar_message("Similar power names differ only by case: '", a.1.as_str(), b.1.as_str());
        Some(("erc-similar-power", m))
    } else if a.0 == SimilarRole::Power || b.0 == SimilarRole::Power {
        let m = similar_message("Similar label and power names differ only by case: '", a.1.as_str(), b.1.as_str());
        Some(("erc-similar-label-and-power", m))
    } else {
        let m = similar_message("Similar labels differ only by case: '", a.1.as_str(), b.1.as_str());
        Some(("erc-similar-labels", m))
    }
}

fn similar_message(lead: &str, a: &str, b: &str) -> (r: String)
    ensures
        r@ == case_message(lead@, a@, b@),
{
    let mut v: Vec<char> = Vec::new();
    push_str(&mut v, lead);
    push_str(&mut v, a);
    push_str(&mut v, "' and '");
    push_str(&mut v, b);
    push_str(&mut v, "'");
    seq_to_string(&v)
}

/// Reports each label or power name whose text differs only by ASCII case from that of
/// an earlier label or power name (local labels only within one file), against each such
/// earlier one in order, as a warning placed in the later one's file.
pub fn check_similar_labels(screens: &Vec<ScreenLabels>) -> (r: Vec<Diagnostic>)
    ensures
        reports_coded(r@, Severity::Warning, similar_findings(similar_entries(screens@), similar_entries(screens@).len() as int)),
{
    let entries = collect_similar_entries(screens);
    let ghost e = entry_views(entries@);
    let mut lowered: Vec<Vec<char>> = Vec::new();
    let mut q: usize = 0;
    while q < entries.len()
        invariant
            0 <= q <= entries.len(),
            e == entry_views(entries@),
            lowered@.len() == q,
            forall|j: int| 0 <= j < q ==> (#[trigger] lowered@[j])@ == ascii_lower(e[j].1),
        decreases entries.len() - q,
    {
        lowered.push(lower_chars(&entries[q].1));
        q = q + 1;
    }
    let mut out: Vec<Diagnostic> = Vec::new();
    let mut i: usize = 0;
    while i < entries.len()
        invariant
            0 <= i <= entries.len(),
            e == entry_views(entries@),
            lowered@.len() == entries.len(),
            forall|j: int| 0 <= j < entries.len() ==> (#[trigger] lowered@[j])@ == ascii_lower(e[j].1),
            reports_coded(out@, Severity::Warning, similar_findings(e, i as int)),
        decreases entries.len() - i,
    {
        let ghost start = similar_findings(e, i as int);
        let mut j: usize = 0;
        while j < i
            invariant
                0 <= j <= i < entries.len(),
                e == entry_views(entries@),
                lowered@.len() == entries.len(),
                forall|t: int| 0 <= t < entries.len() ==> (#[trigger] lowered@[t])@ == ascii_lower(e[t].1),
                reports_coded(out@, Severity::Warning, start + pair_findings(e, i as int, j as int)),
            decreases i - j,
        {
            assert(e[i as int] == (entries@[i as int].0, entries@[i as int].1@, entries@[i as int].2@));
            assert(e[j as int] == (entries@[j as int].0, entries@[j as int].1@, entries@[j as int].2@));
            let ghost before = out@;
            let ghost prev = start + pair_findings(e, i as int, j as int);
            match similar_pair_exec(&entries[i], &lowered[i], &entries[j], &lowered[j]) {
                Some((code, message)) => {
                    let d = rule_diagnostic(Severity::Warning, code, message, Some(entries[i].2.clone()));
                    out.push(d);
                    proof {
                        let added = pair_findings(e, i as int, j + 1);
                        assert(start + added =~= prev.push((code@, message@, Some(e[i as int].2))));
                        assert forall|t: int| 0 <= t < out@.len() implies #[trigger] is_rule_diagnostic(
                            out@[t],
                            Severity::Warning,
                            (start + added)[t].0,
                            (start + added)[t].1,
                            (start + added)[t].2,
                        ) by {
                            if t < before.len() {
                                assert(out@[t] == before[t]);
                                assert((start + added)[t] == prev[t]);
                            }
                        }
                    }
                },
                None => {
                    assert(start + pair_findings(e, i as int, j + 1) =~= prev);
                },
            }
            j = j + 1;
        }
        assert(similar_findings(e, i + 1) == start + pair_findings(e, i as int, i as int));
        i = i + 1;
    }
    out
}

} // verus!
