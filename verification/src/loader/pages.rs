//! Page numbering of a loaded hierarchy, and the text of the intersheet references that
//! global labels show: the pages on which a label appears.

use crate::loader::selection::{
    lemma_screen_from_bounds, occurrence_count, page_views, screen_from, ScreenPageState,
};
use crate::grouping::{group_by_key, is_key_grouping, law_grouping_unique, lemma_positions_bounded};
use crate::loader::LoadedSheetPath;
use crate::text::{decimal, join_with, opt_view, push_decimal, push_str, seq_to_string, usize_to_string};
use vstd::prelude::*;

verus! {

/// The sheet paths numbered in order: the `i`-th is sheet `i + 1` of as many as there are.
pub open spec fn numbered(old_paths: Seq<LoadedSheetPath>, new_paths: Seq<LoadedSheetPath>) -> bool {
    &&& new_paths.len() == old_paths.len()
    &&& forall|i: int|
        0 <= i < new_paths.len() ==> #[trigger] new_paths[i] == (LoadedSheetPath {
            sheet_number: (i + 1) as usize,
            sheet_count: new_paths.len() as usize,
            ..old_paths[i]
        })
}

/// The page fields of the screens after numbering the first `n` sheet paths: the screen
/// of a reused file loses its page fields; the screen of a file used once, unless it
/// already shows a virtual page number, shows the sheet's page (its page text, else its
/// sheet number), the page count and the sheet number.
pub open spec fn numbered_pages(
    screens: Seq<(Seq<char>, Option<Seq<char>>, Option<usize>, Option<usize>)>,
    paths: Seq<LoadedSheetPath>,
    n: int,
) -> Seq<(Seq<char>, Option<Seq<char>>, Option<usize>, Option<usize>)>
    decreases n,
{
    if n <= 0 {
        screens
    } else {
        let prev = numbered_pages(screens, paths, n - 1);
        let sp = paths[n - 1];
        let file = sp.schematic_path@;
        let k = screen_from(prev, file, 0);
        if k < 0 || k >= prev.len() {
            prev
        } else if occurrence_count(paths, file) > 1 {
            prev.update(k, (file, None, None, None))
        } else if prev[k].3 is Some {
            prev
        } else {
            let page = match sp.page {
                Some(t) => t@,
                None => decimal(sp.sheet_number as nat),
            };
            prev.update(k, (file, Some(page), Some(sp.sheet_count), Some(sp.sheet_number)))
        }
    }
}

/// Numbers the sheet paths in order (sheet `i + 1` of as many as there are) and sets the
/// screens' page fields as [`numbered_pages`] says.
pub fn set_sheet_number_and_count(sheet_paths: &mut Vec<LoadedSheetPath>, screens: &mut Vec<ScreenPageState>)
    ensures
        numbered(old(sheet_paths)@, final(sheet_paths)@),
        page_views(final(screens)@) == numbered_pages(
            page_views(old(screens)@),
            final(sheet_paths)@,
            final(sheet_paths)@.len() as int,
        ),
{
    let ghost start = sheet_paths@;
    let count = sheet_paths.len();
    let mut i: usize = 0;
    while i < count
        invariant
            0 <= i <= count,
            count == sheet_paths.len(),
            start == old(sheet_paths)@,
            sheet_paths@.len() == start.len(),
            forall|k: int| 0 <= k < i ==> #[trigger] sheet_paths@[k] == (LoadedSheetPath {
                sheet_number: (k + 1) as usize,
                sheet_count: count,
                ..start[k]
            }),
            forall|k: int| i <= k < count ==> #[trigger] sheet_paths@[k] == start[k],
        decreases count - i,
    {
        let sp = &sheet_paths[i];
        let p = LoadedSheetPath {
            schematic_path: sp.schematic_path.clone(),
            instance_path: sp.instance_path.clone(),
            symbol_path: sp.symbol_path.clone(),
            sheet_uuid: sp.sheet_uuid.clone(),
            sheet_name: sp.sheet_name.clone(),
            page: sp.page.clone(),
            sheet_number: i + 1,
            sheet_count: count,
        };
        sheet_paths.set(i, p);
        i = i + 1;
    }
    let ghost paths = sheet_paths@;
    let ghost base = page_views(screens@);
    let mut j: usize = 0;
    while j < count
        invariant
            0 <= j <= count,
            count == sheet_paths.len(),
            paths == sheet_paths@,
            base == page_views(old(screens)@),
            page_views(screens@) == numbered_pages(base, paths, j as int),
        decreases count - j,
    {
        let sp = &sheet_paths[j];
        let ghost prev = page_views(screens@);
        let occurrences = crate::loader::selection::occurrence_count_exec(sheet_paths, &sp.schematic_path);
        let mut k: usize = 0;
        while k < screens.len() && screens[k].path != sp.schematic_path
            invariant
                0 <= k <= screens.len(),
                prev == page_views(screens@),
                screen_from(prev, sp.schematic_path@, k as int) == screen_from(prev, sp.schematic_path@, 0),
            decreases screens.len() - k,
        {
            assert(prev[k as int] == crate::loader::selection::page_view(screens@[k as int]));
            k = k + 1;
        }
        proof {
            lemma_screen_from_bounds(prev, sp.schematic_path@, k as int);
        }
        if k < screens.len() {
            assert(prev[k as int] == crate::loader::selection::page_view(screens@[k as int]));
            assert(screen_from(prev, sp.schematic_path@, k as int) == k as int);
            if occurrences > 1 {
                let entry = ScreenPageState {
                    path: sp.schematic_path.clone(),
                    page_number: None,
                    page_count: None,
                    virtual_page_number: None,
                };
                screens.set(k, entry);
                assert(page_views(screens@) =~= prev.update(k as int, (sp.schematic_path@, None, None, None)));
            } else if screens[k].virtual_page_number.is_none() {
                let page = match &sp.page {
                    Some(t) => t.clone(),
                    None => usize_to_string(sp.sheet_number),
                };
                let ghost pv = page@;
                let entry = ScreenPageState {
                    path: sp.schematic_path.clone(),
                    page_number: Some(page),
                    page_count: Some(sp.sheet_count),
                    virtual_page_number: Some(sp.sheet_number),
                };
                screens.set(k, entry);
                assert(page_views(screens@) =~= prev.update(
                    k as int,
                    (sp.schematic_path@, Some(pv), Some(sp.sheet_count), Some(sp.sheet_number)),
                ));
            }
        }
        j = j + 1;
    }
}

/// The page text of sheet number `n`: that of the last sheet path with the number (its
/// page text, else the number), where there is one.
pub open spec fn page_text_of(paths: Seq<LoadedSheetPath>, n: usize) -> Option<Seq<char>>
    decreases paths.len(),
{
    if paths.len() == 0 {
        None
    } else if paths.last().sheet_number == n {
        match paths.last().page {
            Some(t) => Some(t@),
            None => Some(decimal(n as nat)),
        }
    } else {
        page_text_of(paths.drop_last(), n)
    }
}

/// The page texts of the sheet numbers that have one, in order.
pub open spec fn page_texts(pages: Seq<usize>, paths: Seq<LoadedSheetPath>) -> Seq<Seq<char>>
    decreases pages.len(),
{
    if pages.len() == 0 {
        Seq::empty()
    } else {
        let rest = page_texts(pages.drop_last(), paths);
        match page_text_of(paths, pages.last()) {
            Some(t) => rest.push(t),
            None => rest,
        }
    }
}

fn page_text_exec(sheet_paths: &Vec<LoadedSheetPath>, n: usize) -> (r: Option<String>)
    ensures
        opt_view(r) == page_text_of(sheet_paths@, n),
{
    let mut k: usize = sheet_paths.len();
    assert(sheet_paths@.take(k as int) =~= sheet_paths@);
    while k > 0
        invariant
            0 <= k <= sheet_paths.len(),
            page_text_of(sheet_paths@, n) == page_text_of(sheet_paths@.take(k as int), n),
        decreases k,
    {
        assert(sheet_paths@.take(k as int).drop_last() =~= sheet_paths@.take(k - 1));
        assert(sheet_paths@.take(k as int).last() == sheet_paths@[k - 1]);
        let sp = &sheet_paths[k - 1];
        if sp.sheet_number == n {
            return match &sp.page {
                Some(t) => Some(t.clone()),
                None => Some(usize_to_string(n)),
            };
        }
        k = k - 1;
    }
    None
}

fn page_text_list(pages: &Vec<usize>, sheet_paths: &Vec<LoadedSheetPath>) -> (r: Vec<String>)
    ensures
        r.deep_view() == page_texts(pages@, sheet_paths@),
{
    let mut out: Vec<String> = Vec::new();
    let mut i: usize = 0;
    while i < pages.len()
        invariant
            0 <= i <= pages.len(),
            out.deep_view() == page_texts(pages@.take(i as int), sheet_paths@),
        decreases pages.len() - i,
    {
        assert(pages@.take(i + 1).drop_last() =~= pages@.take(i as int));
        assert(pages@.take(i + 1).last() == pages@[i as int]);
        let ghost before = out.deep_view();
        match page_text_exec(sheet_paths, pages[i]) {
            Some(t) => {
                let ghost tv = t@;
                out.push(t);
                assert(out.deep_view() =~= before.push(tv));
            },
            None => {},
        }
        i = i + 1;
    }
    assert(pages@.take(pages.len() as int) =~= pages@);
    out
}

/// The intersheet-reference value of a global label: the page texts of the sheets it
/// appears on, joined by commas, in brackets.
pub open spec fn refs_value(pages: Seq<usize>, paths: Seq<LoadedSheetPath>) -> Seq<char> {
    "["@ + join_with(page_texts(pages, paths), ","@) + "]"@
}

/// The intersheet-reference value of a global label on the given sheet numbers.
pub fn intersheet_ref_value(pages: &Vec<usize>, sheet_paths: &Vec<LoadedSheetPath>) -> (r: String)
    ensures
        r@ == refs_value(pages@, sheet_paths@),
{
    let texts = page_text_list(pages, sheet_paths);
    let joined = crate::text::join_strings(&texts, ",");
    let mut v: Vec<char> = Vec::new();
    push_str(&mut v, "[");
    push_str(&mut v, joined.as_str());
    push_str(&mut v, "]");
    seq_to_string(&v)
}

/// The sheet numbers without the current one, in order.
pub open spec fn without_page(pages: Seq<usize>, current: usize) -> Seq<usize>
    decreases pages.len(),
{
    if pages.len() == 0 {
        pages
    } else {
        let rest = without_page(pages.drop_last(), current);
        if pages.last() != current {
            rest.push(pages.last())
        } else {
            rest
        }
    }
}

/// The text an intersheet-reference field of a global label on the current sheet shows,
/// where the label appears on the sheets numbered `pages` (in increasing order): the
/// current sheet left out where own pages are not listed; a short `first..last` form
/// where asked and more than two pages remain, else the page texts joined by commas; the
/// result in brackets without prefix and suffix, wrapped in them otherwise, and only
/// prefix and suffix where no page remains.
pub open spec fn refs_field_text(
    pages: Seq<usize>,
    paths: Seq<LoadedSheetPath>,
    current: usize,
    own_page: Option<bool>,
    short: Option<bool>,
    prefix: Seq<char>,
    suffix: Seq<char>,
) -> Seq<char> {
    let listed = if own_page == Some(false) {
        without_page(pages, current)
    } else {
        pages
    };
    let refs = if short == Some(true) && listed.len() > 2 {
        let first = match page_text_of(paths, listed[0]) {
            Some(t) => t,
            None => Seq::empty(),
        };
        let last = match page_text_of(paths, listed.last()) {
            Some(t) => t,
            None => Seq::empty(),
        };
        first + ".."@ + last
    } else {
        join_with(page_texts(listed, paths), ","@)
    };
    if refs.len() == 0 {
        prefix + suffix
    } else if prefix.len() == 0 && suffix.len() == 0 {
        "["@ + refs + "]"@
    } else {
        prefix + refs + suffix
    }
}

fn without_current(pages: &Vec<usize>, current: usize) -> (r: Vec<usize>)
    ensures
        r@ == without_page(pages@, current),
{
    let mut out: Vec<usize> = Vec::new();
    let mut i: usize = 0;
    while i < pages.len()
        invariant
            0 <= i <= pages.len(),
            out@ == without_page(pages@.take(i as int), current),
        decreases pages.len() - i,
    {
        assert(pages@.take(i + 1).drop_last() =~= pages@.take(i as int));
        assert(pages@.take(i + 1).last() == pages@[i as int]);
        if pages[i] != current {
            out.push(pages[i]);
        }
        i = i + 1;
    }
    assert(pages@.take(pages.len() as int) =~= pages@);
    out
}

/// The text an intersheet-reference field of a global label on the current sheet
/// (number `current_sheet_number`) shows, as [`refs_field_text`] says.
pub fn intersheet_refs_field_text(
    pages: &Vec<usize>,
    sheet_paths: &Vec<LoadedSheetPath>,
    current_sheet_number: usize,
    own_page: Option<bool>,
    short: Option<bool>,
    prefix: Option<&str>,
    suffix: Option<&str>,
) -> (r: String)
    ensures
        r@ == refs_field_text(
            pages@,
            sheet_paths@,
            current_sheet_number,
            own_page,
            short,
            match prefix {
                Some(p) => p@,
                None => Seq::empty(),
            },
            match suffix {
                Some(s) => s@,
                None => Seq::empty(),
            },
        ),
{
    let pre: &str = match prefix {
        Some(p) => p,
        None => "",
    };
    let suf: &str = match suffix {
        Some(s) => s,
        None => "",
    };
    proof {
        reveal_strlit("");
    }
    let listed = match own_page {
        Some(false) => without_current(pages, current_sheet_number),
        _ => pages.clone(),
    };
    let mut refs: Vec<char> = Vec::new();
    let is_short = match short {
        Some(true) => true,
        _ => false,
    };
    if is_short && listed.len() > 2 {
        match page_text_exec(sheet_paths, listed[0]) {
            Some(t) => push_str(&mut refs, t.as_str()),
            None => {},
        }
        push_str(&mut refs, "..");
        match page_text_exec(sheet_paths, listed[listed.len() - 1]) {
            Some(t) => push_str(&mut refs, t.as_str()),
            None => {},
        }
    } else {
        let texts = page_text_list(&listed, sheet_paths);
        let joined = crate::text::join_strings(&texts, ",");
        push_str(&mut refs, joined.as_str());
    }
    let mut out: Vec<char> = Vec::new();
    if refs.len() == 0 {
        push_str(&mut out, pre);
        push_str(&mut out, suf);
    } else if pre.is_empty() && suf.is_empty() {
        push_str(&mut out, "[");
        crate::text::push_range(&mut out, &refs, 0, refs.len());
        push_str(&mut out, "]");
        assert(refs@.subrange(0, refs@.len() as int) =~= refs@);
    } else {
        push_str(&mut out, pre);
        crate::text::push_range(&mut out, &refs, 0, refs.len());
        push_str(&mut out, suf);
        assert(refs@.subrange(0, refs@.len() as int) =~= refs@);
    }
    seq_to_string(&out)
}

/// The text an intersheet-reference field shows for a global label that appears on no
/// listed page: the label's known value (`?` where there is none), wrapped in prefix and
/// suffix where either is set.
pub open spec fn unlisted_refs_text(known: Option<Seq<char>>, prefix: Seq<char>, suffix: Seq<char>) -> Seq<char> {
    let refs = match known {
        Some(k) => k,
        None => "?"@,
    };
    if prefix.len() == 0 && suffix.len() == 0 {
        refs
    } else {
        prefix + refs + suffix
    }
}

/// The text an intersheet-reference field shows for a global label that appears on no
/// listed page, as [`unlisted_refs_text`] says.
pub fn unlisted_intersheet_refs_text(known: Option<&str>, prefix: Option<&str>, suffix: Option<&str>) -> (r: String)
    ensures
        r@ == unlisted_refs_text(
            match known {
                Some(k) => Some(k@),
                None => None,
            },
            match prefix {
                Some(p) => p@,
                None => Seq::empty(),
            },
            match suffix {
                Some(s) => s@,
                None => Seq::empty(),
            },
        ),
{
    proof {
        reveal_strlit("");
    }
    let pre: &str = match prefix {
        Some(p) => p,
        None => "",
    };
    let suf: &str = match suffix {
        Some(s) => s,
        None => "",
    };
    let refs: &str = match known {
        Some(k) => k,
        None => "?",
    };
    let mut out: Vec<char> = Vec::new();
    if pre.is_empty() && suf.is_empty() {
        push_str(&mut out, refs);
    } else {
        push_str(&mut out, pre);
        push_str(&mut out, refs);
        push_str(&mut out, suf);
    }
    seq_to_string(&out)
}

/// The global labels of the first `n` occurrences, each with the occurrence's sheet
/// number, in order.
pub open spec fn label_sheets(sheet_paths: Seq<LoadedSheetPath>, labels: Seq<Vec<String>>, n: int) -> Seq<(Seq<char>, usize)>
    decreases n,
{
    if n <= 0 {
        Seq::empty()
    } else {
        label_sheets(sheet_paths, labels, n - 1) + labels[n - 1]@.map_values(
            |t: String| (t@, sheet_paths[n - 1].sheet_number),
        )
    }
}

/// The label texts of the pairs.
pub open spec fn label_texts(e: Seq<(Seq<char>, usize)>) -> Seq<Seq<char>> {
    e.map_values(|x: (Seq<char>, usize)| x.0)
}

/// `v` lists, in increasing order and each once, the sheet numbers of the pairs at the
/// positions `idx`.
pub open spec fn sorted_sheets_of(v: Seq<usize>, e: Seq<(Seq<char>, usize)>, idx: Seq<usize>) -> bool {
    &&& forall|a: int, b: int| 0 <= a < b < v.len() ==> v[a] < v[b]
    &&& forall|x: usize| v.contains(x) <==> exists|q: int| 0 <= q < idx.len() && (#[trigger] e[idx[q] as int]).1 == x
}

/// `r` gives each global label of the grouping `g`, in its order, the sheet numbers it
/// appears on and its intersheet-reference value.
pub open spec fn label_refs(
    r: Seq<(String, Vec<usize>, String)>,
    e: Seq<(Seq<char>, usize)>,
    g: Seq<(Seq<char>, Seq<usize>)>,
    sheet_paths: Seq<LoadedSheetPath>,
) -> bool {
    &&& r.len() == g.len()
    &&& forall|k: int| 0 <= k < r.len() ==> {
        &&& (#[trigger] r[k]).0@ == g[k].0
        &&& sorted_sheets_of(r[k].1@, e, g[k].1)
        &&& r[k].2@ == refs_value(r[k].1@, sheet_paths)
    }
}

/// Inserts `x` into the increasing list `v` unless it is there.
fn insert_sorted(v: &mut Vec<usize>, x: usize)
    requires
        forall|a: int, b: int| 0 <= a < b < old(v)@.len() ==> old(v)@[a] < old(v)@[b],
    ensures
        forall|a: int, b: int| 0 <= a < b < final(v)@.len() ==> final(v)@[a] < final(v)@[b],
        forall|y: usize| #[trigger] final(v)@.contains(y) <==> (old(v)@.contains(y) || y == x),
{
    let ghost o = v@;
    let mut p: usize = 0;
    while p < v.len() && v[p] < x
        invariant
            0 <= p <= v.len(),
            v@ == o,
            forall|a: int, b: int| 0 <= a < b < o.len() ==> o[a] < o[b],
            forall|a: int| 0 <= a < p ==> v@[a] < x,
        decreases v.len() - p,
    {
        p = p + 1;
    }
    if p < v.len() && v[p] == x {
        assert(v@[p as int] == x);
        assert(v@.contains(x));
        return;
    }
    v.insert(p, x);
    assert(v@ == o.insert(p as int, x));
    assert forall|a: int, b: int| 0 <= a < b < v@.len() implies v@[a] < v@[b] by {
        if b < p {
            assert(v@[a] == o[a] && v@[b] == o[b]);
        } else if b == p {
            assert(v@[a] == o[a]);
        } else if a < p {
            assert(v@[b] == o[b - 1]);
            assert(v@[a] == o[a]);
            assert(o[b - 1] >= x);
        } else if a == p {
            assert(v@[b] == o[b - 1]);
            assert(o[p as int] != x);
            assert(o[b - 1] >= o[p as int]);
        } else {
            assert(v@[a] == o[a - 1] && v@[b] == o[b - 1]);
        }
    }
    assert forall|y: usize| #[trigger] v@.contains(y) <==> (o.contains(y) || y == x) by {
        if v@.contains(y) {
            let q = choose|q: int| 0 <= q < v@.len() && v@[q] == y;
            if q < p {
                assert(o[q] == y);
            } else if q > p {
                assert(o[q - 1] == y);
            }
        }
        if o.contains(y) {
            let q = choose|q: int| 0 <= q < o.len() && o[q] == y;
            if q < p {
                assert(v@[q] == y);
            } else {
                assert(v@[q + 1] == y);
            }
        }
        if y == x {
            assert(v@[p as int] == x);
        }
    }
}

/// The global labels of the occurrences, grouped by text in increasing text order, each
/// with the sheet numbers it appears on (increasing, each once) and its
/// intersheet-reference value. `global_labels[k]` holds the global label texts of the
/// screen that occurrence `k` shows.
pub fn recompute_intersheet_refs(sheet_paths: &Vec<LoadedSheetPath>, global_labels: &Vec<Vec<String>>) -> (r: Vec<(String, Vec<usize>, String)>)
    requires
        global_labels@.len() == sheet_paths@.len(),
    ensures
        exists|g: Seq<(Seq<char>, Seq<usize>)>|
            #[trigger] is_key_grouping(label_texts(label_sheets(sheet_paths@, global_labels@, sheet_paths@.len() as int)), g)
                && label_refs(r@, label_sheets(sheet_paths@, global_labels@, sheet_paths@.len() as int), g, sheet_paths@),
        forall|g: Seq<(Seq<char>, Seq<usize>)>|
            #[trigger] is_key_grouping(label_texts(label_sheets(sheet_paths@, global_labels@, sheet_paths@.len() as int)), g)
                ==> label_refs(r@, label_sheets(sheet_paths@, global_labels@, sheet_paths@.len() as int), g, sheet_paths@),
{
    let mut texts: Vec<String> = Vec::new();
    let mut numbers: Vec<usize> = Vec::new();
    let mut k: usize = 0;
    while k < sheet_paths.len()
        invariant
            0 <= k <= sheet_paths.len(),
            global_labels@.len() == sheet_paths@.len(),
            texts.deep_view() == label_texts(label_sheets(sheet_paths@, global_labels@, k as int)),
            numbers@.len() == texts@.len(),
            forall|q: int| 0 <= q < numbers@.len() ==> numbers@[q] == (#[trigger] label_sheets(sheet_paths@, global_labels@, k as int)[q]).1,
        decreases sheet_paths.len() - k,
    {
        let labels = &global_labels[k];
        let number = sheet_paths[k].sheet_number;
        let ghost before = label_sheets(sheet_paths@, global_labels@, k as int);
        let ghost added = labels@.map_values(|t: String| (t@, sheet_paths@[k as int].sheet_number));
        let mut i: usize = 0;
        while i < labels.len()
            invariant
                0 <= i <= labels.len(),
                before == label_sheets(sheet_paths@, global_labels@, k as int),
                added == labels@.map_values(|t: String| (t@, sheet_paths@[k as int].sheet_number)),
                number == sheet_paths@[k as int].sheet_number,
                texts.deep_view() == label_texts(before + added.take(i as int)),
                numbers@.len() == texts@.len(),
                forall|q: int| 0 <= q < numbers@.len() ==> numbers@[q] == (#[trigger] (before + added.take(i as int))[q]).1,
            decreases labels.len() - i,
        {
            let ghost tv = texts.deep_view();
            texts.push(labels[i].clone());
            numbers.push(number);
            proof {
                assert(before + added.take(i + 1) =~= (before + added.take(i as int)).push(added[i as int]));
                assert(texts.deep_view() =~= tv.push(labels@[i as int]@));
            }
            i = i + 1;
        }
        proof {
            assert(added.take(labels@.len() as int) =~= added);
            assert(label_sheets(sheet_paths@, global_labels@, k + 1) == before + added);
        }
        k = k + 1;
    }
    let ghost e = label_sheets(sheet_paths@, global_labels@, sheet_paths@.len() as int);
    let groups = group_by_key(&texts);
    let ghost g = groups.deep_view();
    let mut out: Vec<(String, Vec<usize>, String)> = Vec::new();
    let mut m: usize = 0;
    while m < groups.len()
        invariant
            0 <= m <= groups.len(),
            g == groups.deep_view(),
            texts.deep_view() == label_texts(e),
            numbers@.len() == texts@.len(),
            forall|q: int| 0 <= q < numbers@.len() ==> numbers@[q] == (#[trigger] e[q]).1,
            is_key_grouping(label_texts(e), g),
            out@.len() == m,
            forall|t: int| 0 <= t < m ==> {
                &&& (#[trigger] out@[t]).0@ == g[t].0
                &&& sorted_sheets_of(out@[t].1@, e, g[t].1)
                &&& out@[t].2@ == refs_value(out@[t].1@, sheet_paths@)
            },
        decreases groups.len() - m,
    {
        let idx = &groups[m].1;
        assert(idx@ == g[m as int].1) by {
            assert(idx.deep_view() =~= idx@);
        }
        proof {
            assert(label_texts(e).len() == texts.len());
            lemma_positions_bounded(label_texts(e), g[m as int].0, e.len() as int);
        }
        let mut pages: Vec<usize> = Vec::new();
        let mut q: usize = 0;
        while q < idx.len()
            invariant
                0 <= q <= idx.len(),
                idx@ == g[m as int].1,
                numbers@.len() == e.len(),
                forall|a: int| 0 <= a < numbers@.len() ==> numbers@[a] == (#[trigger] e[a]).1,
                forall|a: int| 0 <= a < idx@.len() ==> 0 <= (#[trigger] idx@[a]) < e.len(),
                forall|a: int, b: int| 0 <= a < b < pages@.len() ==> pages@[a] < pages@[b],
                forall|x: usize| pages@.contains(x) <==> exists|w: int| 0 <= w < q && (#[trigger] e[idx@[w] as int]).1 == x,
            decreases idx.len() - q,
        {
            let ghost before = pages@;
            let n = numbers[idx[q]];
            insert_sorted(&mut pages, n);
            proof {
                assert forall|x: usize| pages@.contains(x) <==> exists|w: int| 0 <= w < q + 1 && (#[trigger] e[idx@[w] as int]).1 == x by {
                    if x == n {
                        assert(e[idx@[q as int] as int].1 == x);
                    }
                    if exists|w: int| 0 <= w < q + 1 && (#[trigger] e[idx@[w] as int]).1 == x {
                        let w = choose|w: int| 0 <= w < q + 1 && (#[trigger] e[idx@[w] as int]).1 == x;
                        if w < q {
                            assert(before.contains(x));
                        }
                    }
                }
            }
            q = q + 1;
        }
        let value = intersheet_ref_value(&pages, sheet_paths);
        out.push((groups[m].0.clone(), pages, value));
        proof {
            assert(out@[m as int].0@ == g[m as int].0);
        }
        m = m + 1;
    }
    proof {
        assert forall|g2: Seq<(Seq<char>, Seq<usize>)>| #[trigger] is_key_grouping(label_texts(e), g2) implies label_refs(
            out@,
            e,
            g2,
            sheet_paths@,
        ) by {
            assert(label_texts(e).len() == texts.len());
            law_grouping_unique(label_texts(e), g, g2);
        }
    }
    out
}

} // verus!
