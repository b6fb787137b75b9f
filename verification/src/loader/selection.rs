//! The current selection of a loaded hierarchy: which sheet occurrence and which variant
//! are current, what the current page is, how the page fields of reused screens follow
//! the selection, and which occurrence's state a screen or sheet shows.

use crate::loader::{instance_index, lemma_first_instance_from, sheet_path, HierarchyLink, LoadedSheetPath};
use crate::diagnostic::{Diagnostic, DiagnosticKind, Severity};
use crate::loader::settings::{bool_of, setting, text_of, LoadedProjectSettings};
use crate::loader::intersheet::{
    intersheet_refs_refreshed, lemma_refs_refresh_keeps_ready, refresh_current_sheet_intersheet_refs, RefsSettings,
};
use crate::loader::occurrence::{
    file_symbols_refreshed, lemma_occurrences_ready, live_sheets_refreshed, live_symbols_refreshed, occurrences_ready,
    opt_ref, refresh_file_symbols, refresh_live_sheet_variant_state, refresh_live_symbol_occurrence_state,
    reset_reused_screen_symbol_state, reused_screen_reset, variant_view, LiveSchematic,
};
use crate::text::{
    decimal, join_strings, join_with, opt_view, push_str, seq_to_string, str_eq, trim, trim_string, usize_to_string,
};
use vstd::prelude::*;

verus! {

/// The page fields of one schematic screen: the file it was read from, and the page
/// number, page count and virtual page number it shows (unset where none applies).
#[derive(Debug, Clone, PartialEq, Eq)]
pub struct ScreenPageState {
    pub path: String,
    pub page_number: Option<String>,
    pub page_count: Option<usize>,
    pub virtual_page_number: Option<usize>,
}

/// A screen's page fields as values.
pub open spec fn page_view(s: ScreenPageState) -> (Seq<char>, Option<Seq<char>>, Option<usize>, Option<usize>) {
    (s.path@, opt_view(s.page_number), s.page_count, s.virtual_page_number)
}

/// The page fields of the screens, in order.
pub open spec fn page_views(s: Seq<ScreenPageState>) -> Seq<(Seq<char>, Option<Seq<char>>, Option<usize>, Option<usize>)> {
    s.map_values(|x: ScreenPageState| page_view(x))
}

/// The number of the first `n` sheet paths that are occurrences of the file.
pub open spec fn occurrences_upto(paths: Seq<LoadedSheetPath>, file: Seq<char>, n: int) -> nat
    decreases n,
{
    if n <= 0 {
        0
    } else {
        occurrences_upto(paths, file, n - 1) + if paths[n - 1].schematic_path@ == file {
            1nat
        } else {
            0nat
        }
    }
}

/// The number of occurrences of the file in the hierarchy.
pub open spec fn occurrence_count(paths: Seq<LoadedSheetPath>, file: Seq<char>) -> nat {
    occurrences_upto(paths, file, paths.len() as int)
}

/// The position of the first screen read from the file, from `i` on, or the number of
/// screens.
pub open spec fn screen_from(screens: Seq<(Seq<char>, Option<Seq<char>>, Option<usize>, Option<usize>)>, file: Seq<char>, i: int) -> int
    decreases screens.len() - i,
{
    if i < 0 || i >= screens.len() {
        screens.len() as int
    } else if screens[i].0 == file {
        i
    } else {
        screen_from(screens, file, i + 1)
    }
}

/// The screens with the first one read from the file given the page fields, where there
/// is such a screen.
pub open spec fn set_screen_pages(
    screens: Seq<(Seq<char>, Option<Seq<char>>, Option<usize>, Option<usize>)>,
    file: Seq<char>,
    page: Option<Seq<char>>,
    count: Option<usize>,
    virtual_page: Option<usize>,
) -> Seq<(Seq<char>, Option<Seq<char>>, Option<usize>, Option<usize>)> {
    let k = screen_from(screens, file, 0);
    if 0 <= k < screens.len() {
        screens.update(k, (file, page, count, virtual_page))
    } else {
        screens
    }
}

/// The page fields after switching the current occurrence from `previous` to `next`
/// (instance paths): a reused screen (one whose file occurs more than once) that is left
/// for another file loses its page fields; a reused screen that is entered shows the
/// entered occurrence's page (its page text, else its sheet number), page count and
/// sheet number.
pub open spec fn switched_pages(
    screens: Seq<(Seq<char>, Option<Seq<char>>, Option<usize>, Option<usize>)>,
    paths: Seq<LoadedSheetPath>,
    previous: Seq<char>,
    next: Seq<char>,
) -> Seq<(Seq<char>, Option<Seq<char>>, Option<usize>, Option<usize>)> {
    let after_leave = match instance_index(paths, previous) {
        Some(p) => {
            let file = paths[p].schematic_path@;
            let switching = match instance_index(paths, next) {
                Some(n) => paths[n].schematic_path@ != file,
                None => true,
            };
            if occurrence_count(paths, file) > 1 && switching {
                set_screen_pages(screens, file, None, None, None)
            } else {
                screens
            }
        },
        None => screens,
    };
    match instance_index(paths, next) {
        Some(n) => {
            let sp = paths[n];
            let file = sp.schematic_path@;
            if occurrence_count(paths, file) > 1 {
                let page = match sp.page {
                    Some(t) => t@,
                    None => decimal(sp.sheet_number as nat),
                };
                set_screen_pages(after_leave, file, Some(page), Some(sp.sheet_count), Some(sp.sheet_number))
            } else {
                after_leave
            }
        },
        None => after_leave,
    }
}

pub(crate) fn occurrence_count_exec(paths: &Vec<LoadedSheetPath>, file: &String) -> (r: usize)
    ensures
        r == occurrence_count(paths@, file@),
{
    let mut n: usize = 0;
    let mut i: usize = 0;
    while i < paths.len()
        invariant
            0 <= i <= paths.len(),
            n == occurrences_upto(paths@, file@, i as int),
            n <= i,
        decreases paths.len() - i,
    {
        if paths[i].schematic_path == *file {
            n = n + 1;
        }
        i = i + 1;
    }
    n
}

pub proof fn lemma_screen_from_bounds(screens: Seq<(Seq<char>, Option<Seq<char>>, Option<usize>, Option<usize>)>, file: Seq<char>, i: int)
    requires
        0 <= i <= screens.len(),
    ensures
        i <= screen_from(screens, file, i) <= screens.len(),
        screen_from(screens, file, i) < screens.len() ==> screens[screen_from(screens, file, i)].0 == file,
    decreases screens.len() - i,
{
    if i < screens.len() && screens[i].0 != file {
        lemma_screen_from_bounds(screens, file, i + 1);
    }
}

fn set_pages(
    screens: &mut Vec<ScreenPageState>,
    file: &String,
    page: Option<String>,
    count: Option<usize>,
    virtual_page: Option<usize>,
)
    ensures
        page_views(final(screens)@) == set_screen_pages(page_views(old(screens)@), file@, opt_view(page), count, virtual_page),
{
    let ghost v = page_views(screens@);
    let mut i: usize = 0;
    while i < screens.len()
        invariant
            0 <= i <= screens.len(),
            v == page_views(screens@),
            v == page_views(old(screens)@),
            screen_from(v, file@, i as int) == screen_from(v, file@, 0),
        decreases screens.len() - i,
    {
        assert(v[i as int] == page_view(screens@[i as int]));
        if screens[i].path == *file {
            assert(screen_from(v, file@, i as int) == i);
            let ghost pv = opt_view(page);
            let entry = ScreenPageState { path: file.clone(), page_number: page, page_count: count, virtual_page_number: virtual_page };
            screens.set(i, entry);
            assert(page_views(screens@) =~= v.update(i as int, (file@, pv, count, virtual_page)));
            return;
        }
        i = i + 1;
    }
    assert(screen_from(v, file@, i as int) == v.len());
}

/// Follows a switch of the current occurrence from `previous_instance_path` to
/// `next_instance_path` on the screens' page fields, as [`switched_pages`] says.
pub fn refresh_current_screen_page_state(
    screens: &mut Vec<ScreenPageState>,
    sheet_paths: &Vec<LoadedSheetPath>,
    previous_instance_path: &str,
    next_instance_path: &str,
)
    ensures
        page_views(final(screens)@) == switched_pages(
            page_views(old(screens)@),
            sheet_paths@,
            previous_instance_path@,
            next_instance_path@,
        ),
{
    let previous = sheet_path(sheet_paths, previous_instance_path);
    let next = sheet_path(sheet_paths, next_instance_path);
    match previous {
        Some(p) => {
            let count = occurrence_count_exec(sheet_paths, &p.schematic_path);
            let switching = match next {
                Some(n) => n.schematic_path != p.schematic_path,
                None => true,
            };
            if count > 1 && switching {
                set_pages(screens, &p.schematic_path, None, None, None);
            }
        },
        None => {},
    }
    match next {
        Some(n) => {
            let count = occurrence_count_exec(sheet_paths, &n.schematic_path);
            if count > 1 {
                let page = match &n.page {
                    Some(t) => t.clone(),
                    None => usize_to_string(n.sheet_number),
                };
                set_pages(screens, &n.schematic_path, Some(page), Some(n.sheet_count), Some(n.sheet_number));
            }
        },
        None => {},
    }
}

/// A loaded hierarchy and its current selection: the project settings and local
/// settings read beside the root file, the sheet occurrences, the links between files,
/// the instance path of the current occurrence, the current variant, and for each
/// global label text the sheets it appears on with its intersheet-reference value.
#[derive(Debug)]
pub struct LoadedHierarchy {
    pub project: Option<LoadedProjectSettings>,
    pub project_local_settings: Option<LoadedProjectSettings>,
    pub sheet_paths: Vec<LoadedSheetPath>,
    pub links: Vec<HierarchyLink>,
    pub current_sheet_instance_path: String,
    pub current_variant: Option<String>,
    pub intersheet_refs: Vec<(String, Vec<usize>, String)>,
}

/// The occurrence with the instance path, where there is one.
pub open spec fn occurrence_at(paths: Seq<LoadedSheetPath>, ip: Seq<char>) -> Option<LoadedSheetPath> {
    match instance_index(paths, ip) {
        Some(k) => Some(paths[k]),
        None => None,
    }
}

/// A variant name as a selection keeps it: trimmed, and unset where empty.
pub open spec fn variant_selection(variant: Option<Seq<char>>) -> Option<Seq<char>> {
    match variant {
        Some(v) => if trim(v).len() > 0 {
            Some(trim(v))
        } else {
            None
        },
        None => None,
    }
}

/// The links of the hierarchy whose parent (`parents`: false) or child (`parents`: true)
/// file is the path, in order.
pub open spec fn links_touching(links: Seq<HierarchyLink>, path: Seq<char>, parents: bool) -> Seq<HierarchyLink>
    decreases links.len(),
{
    if links.len() == 0 {
        Seq::empty()
    } else {
        let rest = links_touching(links.drop_last(), path, parents);
        let l = links.last();
        let end = if parents {
            l.child_path@
        } else {
            l.parent_path@
        };
        if end == path {
            rest.push(l)
        } else {
            rest
        }
    }
}

/// The occurrences of the file, in order.
pub open spec fn occurrences_of(paths: Seq<LoadedSheetPath>, path: Seq<char>) -> Seq<LoadedSheetPath>
    decreases paths.len(),
{
    if paths.len() == 0 {
        Seq::empty()
    } else {
        let rest = occurrences_of(paths.drop_last(), path);
        if paths.last().schematic_path@ == path {
            rest.push(paths.last())
        } else {
            rest
        }
    }
}

fn links_touching_exec<'a>(links: &'a Vec<HierarchyLink>, path: &str, parents: bool) -> (r: Vec<&'a HierarchyLink>)
    ensures
        r@.map_values(|l: &HierarchyLink| *l) == links_touching(links@, path@, parents),
{
    let mut out: Vec<&'a HierarchyLink> = Vec::new();
    let mut i: usize = 0;
    while i < links.len()
        invariant
            0 <= i <= links.len(),
            out@.map_values(|l: &HierarchyLink| *l) == links_touching(links@.take(i as int), path@, parents),
        decreases links.len() - i,
    {
        let l = &links[i];
        let end = if parents {
            l.child_path.as_str()
        } else {
            l.parent_path.as_str()
        };
        assert(links@.take(i + 1).drop_last() =~= links@.take(i as int));
        assert(links@.take(i + 1).last() == links@[i as int]);
        let ghost before = out@;
        if str_eq(end, path) {
            out.push(l);
            assert(out@.map_values(|l: &HierarchyLink| *l) =~= before.map_values(|l: &HierarchyLink| *l).push(*l));
        }
        i = i + 1;
    }
    assert(links@.take(links.len() as int) =~= links@);
    out
}

/// The intersheet-reference settings agree with those of the project settings, as the
/// hierarchy's lookups give them.
pub open spec fn refs_settings_of(st: RefsSettings, project: Option<LoadedProjectSettings>) -> bool {
    match project {
        Some(p) => {
            &&& st.show == (bool_of(setting(p.json, "drawing"@, "intersheets_ref_show"@)) == Some(true))
            &&& st.own_page == bool_of(setting(p.json, "drawing"@, "intersheets_ref_own_page"@))
            &&& st.short == bool_of(setting(p.json, "drawing"@, "intersheets_ref_short"@))
            &&& opt_view(st.prefix) == text_of(setting(p.json, "drawing"@, "intersheets_ref_prefix"@))
            &&& opt_view(st.suffix) == text_of(setting(p.json, "drawing"@, "intersheets_ref_suffix"@))
        },
        None => {
            &&& !st.show
            &&& st.own_page is None
            &&& st.short is None
            &&& st.prefix is None
            &&& st.suffix is None
        },
    }
}

impl LoadedHierarchy {
    /// The intersheet-reference settings, as the project settings give them.
    pub fn refs_settings(&self) -> (r: RefsSettings)
        ensures
            refs_settings_of(r, self.project),
    {
        RefsSettings {
            show: self.intersheet_refs_show(),
            own_page: self.intersheet_refs_own_page(),
            short: self.intersheet_refs_short(),
            prefix: self.intersheet_refs_prefix(),
            suffix: self.intersheet_refs_suffix(),
        }
    }

    /// The project settings, where they were read.
    pub fn project(&self) -> (r: Option<&LoadedProjectSettings>)
        ensures
            r == match self.project {
                Some(p) => Some(&p),
                None => None,
            },
    {
        match &self.project {
            Some(p) => Some(p),
            None => None,
        }
    }

    /// The project's local settings, where they were read.
    pub fn project_local_settings(&self) -> (r: Option<&LoadedProjectSettings>)
        ensures
            r == match self.project_local_settings {
                Some(p) => Some(&p),
                None => None,
            },
    {
        match &self.project_local_settings {
            Some(p) => Some(p),
            None => None,
        }
    }

    /// Whether intersheet references are shown: as the project settings say, and not
    /// without them.
    pub fn intersheet_refs_show(&self) -> (r: bool)
        ensures
            r == match self.project {
                Some(p) => bool_of(setting(p.json, "drawing"@, "intersheets_ref_show"@)) == Some(true),
                None => false,
            },
    {
        match &self.project {
            Some(p) => match p.intersheet_refs_show() {
                Some(b) => b,
                None => false,
            },
            None => false,
        }
    }

    /// Whether intersheet references list the own page, as the project settings say.
    pub fn intersheet_refs_own_page(&self) -> (r: Option<bool>)
        ensures
            r == match self.project {
                Some(p) => bool_of(setting(p.json, "drawing"@, "intersheets_ref_own_page"@)),
                None => None,
            },
    {
        match &self.project {
            Some(p) => p.intersheet_refs_own_page(),
            None => None,
        }
    }

    /// Whether intersheet references use the short form, as the project settings say.
    pub fn intersheet_refs_short(&self) -> (r: Option<bool>)
        ensures
            r == match self.project {
                Some(p) => bool_of(setting(p.json, "drawing"@, "intersheets_ref_short"@)),
                None => None,
            },
    {
        match &self.project {
            Some(p) => p.intersheet_refs_short(),
            None => None,
        }
    }

    /// The text before intersheet references, as the project settings give it.
    pub fn intersheet_refs_prefix(&self) -> (r: Option<String>)
        ensures
            match (match self.project {
                Some(p) => text_of(setting(p.json, "drawing"@, "intersheets_ref_prefix"@)),
                None => None,
            }) {
                Some(t) => r matches Some(s) && s@ == t,
                None => r is None,
            },
    {
        match &self.project {
            Some(p) => p.intersheet_refs_prefix(),
            None => None,
        }
    }

    /// The text after intersheet references, as the project settings give it.
    pub fn intersheet_refs_suffix(&self) -> (r: Option<String>)
        ensures
            match (match self.project {
                Some(p) => text_of(setting(p.json, "drawing"@, "intersheets_ref_suffix"@)),
                None => None,
            }) {
                Some(t) => r matches Some(s) && s@ == t,
                None => r is None,
            },
    {
        match &self.project {
            Some(p) => p.intersheet_refs_suffix(),
            None => None,
        }
    }

    /// The root occurrence: the one with the empty instance path.
    pub fn root_sheet_path(&self) -> (r: Option<&LoadedSheetPath>)
        ensures
            match occurrence_at(self.sheet_paths@, Seq::empty()) {
                Some(p) => r == Some(&p),
                None => r is None,
            },
    {
        proof {
            reveal_strlit("");
            assert(""@ =~= Seq::<char>::empty());
        }
        sheet_path(&self.sheet_paths, "")
    }

    /// The current occurrence.
    pub fn current_sheet_path(&self) -> (r: Option<&LoadedSheetPath>)
        ensures
            match occurrence_at(self.sheet_paths@, self.current_sheet_instance_path@) {
                Some(p) => r == Some(&p),
                None => r is None,
            },
    {
        sheet_path(&self.sheet_paths, self.current_sheet_instance_path.as_str())
    }

    /// The page text of the current occurrence.
    pub fn current_page_number(&self) -> (r: Option<&str>)
        ensures
            match occurrence_at(self.sheet_paths@, self.current_sheet_instance_path@) {
                Some(p) => match p.page {
                    Some(t) => r matches Some(x) && x@ == t@,
                    None => r is None,
                },
                None => r is None,
            },
    {
        match self.current_sheet_path() {
            Some(p) => match &p.page {
                Some(t) => Some(t.as_str()),
                None => None,
            },
            None => None,
        }
    }

    /// The page count of the current occurrence.
    pub fn current_page_count(&self) -> (r: Option<usize>)
        ensures
            r == match occurrence_at(self.sheet_paths@, self.current_sheet_instance_path@) {
                Some(p) => Some(p.sheet_count),
                None => None,
            },
    {
        match self.current_sheet_path() {
            Some(p) => Some(p.sheet_count),
            None => None,
        }
    }

    /// The sheet number (virtual page number) of the current occurrence.
    pub fn current_virtual_page_number(&self) -> (r: Option<usize>)
        ensures
            r == match occurrence_at(self.sheet_paths@, self.current_sheet_instance_path@) {
                Some(p) => Some(p.sheet_number),
                None => None,
            },
    {
        match self.current_sheet_path() {
            Some(p) => Some(p.sheet_number),
            None => None,
        }
    }

    /// The current variant.
    pub fn current_variant(&self) -> (r: Option<&str>)
        ensures
            match self.current_variant {
                Some(v) => r matches Some(x) && x@ == v@,
                None => r is None,
            },
    {
        match &self.current_variant {
            Some(v) => Some(v.as_str()),
            None => None,
        }
    }

    /// Selects the variant, trimmed; an empty name unsets it. The sheets and then the
    /// symbols of the schematics are refreshed for it.
    pub fn set_current_variant(&mut self, schematics: &mut Vec<LiveSchematic>, variant: Option<&str>)
        requires
            occurrences_ready(old(schematics)@),
        ensures
            opt_view(final(self).current_variant) == variant_selection(
                match variant {
                    Some(v) => Some(v@),
                    None => None,
                },
            ),
            final(self).sheet_paths == old(self).sheet_paths,
            final(self).links == old(self).links,
            final(self).current_sheet_instance_path == old(self).current_sheet_instance_path,
            final(self).project == old(self).project,
            final(self).project_local_settings == old(self).project_local_settings,
            final(self).intersheet_refs == old(self).intersheet_refs,
            exists|mid: Seq<LiveSchematic>|
                #[trigger] live_sheets_refreshed(
                    old(schematics)@,
                    mid,
                    old(self).sheet_paths@,
                    old(self).current_sheet_instance_path@,
                    opt_view(final(self).current_variant),
                ) && live_symbols_refreshed(
                    mid,
                    final(schematics)@,
                    old(self).sheet_paths@,
                    old(self).current_sheet_instance_path@,
                    opt_view(final(self).current_variant),
                ),
            occurrences_ready(final(schematics)@),
    {
        self.current_variant = match variant {
            Some(v) => {
                let t = trim_string(v);
                if t.as_str().is_empty() {
                    None
                } else {
                    Some(t)
                }
            },
            None => None,
        };
        let cv: Option<&str> = match &self.current_variant {
            Some(v) => Some(v.as_str()),
            None => None,
        };
        let ghost o = schematics@;
        proof {
            lemma_occurrences_ready(o, self.sheet_paths@, self.current_sheet_instance_path@, None, None, variant_view(cv));
        }
        refresh_live_sheet_variant_state(schematics, &self.sheet_paths, self.current_sheet_instance_path.as_str(), cv);
        let ghost mid = schematics@;
        proof {
            lemma_occurrences_ready(mid, self.sheet_paths@, self.current_sheet_instance_path@, None, None, variant_view(cv));
        }
        refresh_live_symbol_occurrence_state(schematics, &self.sheet_paths, self.current_sheet_instance_path.as_str(), cv);
        proof {
            assert(live_sheets_refreshed(o, mid, self.sheet_paths@, self.current_sheet_instance_path@, variant_view(cv)));
        }
    }

    /// Makes the occurrence with the instance path current, where there is one, and says
    /// whether it did. The screens' page fields follow; a file shown more than once that
    /// is left for another file goes back to its first occurrence; the sheets are
    /// refreshed for the current variant; and the symbols of the new occurrence's file
    /// take their instances for it.
    pub fn set_current_sheet_path(
        &mut self,
        screens: &mut Vec<ScreenPageState>,
        schematics: &mut Vec<LiveSchematic>,
        instance_path: &str,
    ) -> (r: bool)
        requires
            occurrences_ready(old(schematics)@),
        ensures
            r == (instance_index(old(self).sheet_paths@, instance_path@) is Some),
            r ==> final(self).current_sheet_instance_path@ == instance_path@,
            r ==> page_views(final(screens)@) == switched_pages(
                page_views(old(screens)@),
                old(self).sheet_paths@,
                old(self).current_sheet_instance_path@,
                instance_path@,
            ),
            r ==> exists|m1: Seq<LiveSchematic>, m2: Seq<LiveSchematic>, m3: Seq<LiveSchematic>, st: RefsSettings|
                #[trigger] reused_screen_reset(
                    old(schematics)@,
                    m1,
                    old(self).sheet_paths@,
                    occurrence_at(old(self).sheet_paths@, old(self).current_sheet_instance_path@),
                    occurrence_at(old(self).sheet_paths@, instance_path@),
                    opt_view(old(self).current_variant),
                ) && #[trigger] live_sheets_refreshed(
                    m1,
                    m2,
                    old(self).sheet_paths@,
                    instance_path@,
                    opt_view(old(self).current_variant),
                ) && refs_settings_of(st, old(self).project) && #[trigger] intersheet_refs_refreshed(
                    m2,
                    m3,
                    old(self).sheet_paths@,
                    instance_path@,
                    old(self).intersheet_refs@,
                    st,
                ) && file_symbols_refreshed(
                    m3,
                    final(schematics)@,
                    occurrence_at(old(self).sheet_paths@, instance_path@)->0.schematic_path@,
                    instance_path@,
                    opt_view(old(self).current_variant),
                ),
            !r ==> *final(self) == *old(self),
            !r ==> final(screens)@ == old(screens)@,
            !r ==> final(schematics)@ == old(schematics)@,
            final(self).sheet_paths == old(self).sheet_paths,
            final(self).links == old(self).links,
            final(self).current_variant == old(self).current_variant,
            final(self).project == old(self).project,
            final(self).project_local_settings == old(self).project_local_settings,
            final(self).intersheet_refs == old(self).intersheet_refs,
            occurrences_ready(final(schematics)@),
    {
        let next = match sheet_path(&self.sheet_paths, instance_path) {
            Some(n) => n,
            None => {
                return false;
            },
        };
        let previous = sheet_path(&self.sheet_paths, self.current_sheet_instance_path.as_str());
        let file = next.schematic_path.clone();
        let cv: Option<&str> = match &self.current_variant {
            Some(v) => Some(v.as_str()),
            None => None,
        };
        let ghost sp = self.sheet_paths@;
        let ghost o = schematics@;
        proof {
            lemma_occurrences_ready(
                o,
                sp,
                instance_path@,
                opt_ref(previous),
                opt_ref(Some(next)),
                variant_view(cv),
            );
        }
        reset_reused_screen_symbol_state(schematics, &self.sheet_paths, previous, Some(next), cv);
        let ghost m1 = schematics@;
        refresh_current_screen_page_state(
            screens,
            &self.sheet_paths,
            self.current_sheet_instance_path.as_str(),
            instance_path,
        );
        proof {
            lemma_occurrences_ready(m1, sp, instance_path@, None, None, variant_view(cv));
        }
        refresh_live_sheet_variant_state(schematics, &self.sheet_paths, instance_path, cv);
        let ghost m2 = schematics@;
        proof {
            lemma_occurrences_ready(m2, sp, instance_path@, None, None, variant_view(cv));
        }
        let settings = self.refs_settings();
        refresh_current_sheet_intersheet_refs(schematics, &self.sheet_paths, instance_path, &self.intersheet_refs, &settings);
        let ghost m3 = schematics@;
        proof {
            lemma_refs_refresh_keeps_ready(m2, m3, sp, instance_path@, self.intersheet_refs@, settings);
        }
        refresh_file_symbols(schematics, &file, instance_path, cv);
        self.current_sheet_instance_path = instance_path.to_owned();
        proof {
            assert(reused_screen_reset(o, m1, sp, opt_ref(previous), opt_ref(Some(next)), variant_view(cv)));
            assert(live_sheets_refreshed(m1, m2, sp, instance_path@, variant_view(cv)));
            assert(intersheet_refs_refreshed(m2, m3, sp, instance_path@, self.intersheet_refs@, settings));
        }
        true
    }

    /// The links whose parent file is the path (given as the loader stores it).
    pub fn children_of(&self, path: &str) -> (r: Vec<&HierarchyLink>)
        ensures
            r@.map_values(|l: &HierarchyLink| *l) == links_touching(self.links@, path@, false),
    {
        links_touching_exec(&self.links, path, false)
    }

    /// The links whose child file is the path (given as the loader stores it).
    pub fn parents_of(&self, path: &str) -> (r: Vec<&HierarchyLink>)
        ensures
            r@.map_values(|l: &HierarchyLink| *l) == links_touching(self.links@, path@, true),
    {
        links_touching_exec(&self.links, path, true)
    }

    /// The occurrences of the file at the path (given as the loader stores it), in order.
    pub fn sheet_paths_of(&self, path: &str) -> (r: Vec<&LoadedSheetPath>)
        ensures
            r@.map_values(|p: &LoadedSheetPath| *p) == occurrences_of(self.sheet_paths@, path@),
    {
        let paths = &self.sheet_paths;
        let mut out: Vec<&LoadedSheetPath> = Vec::new();
        let mut i: usize = 0;
        while i < paths.len()
            invariant
                0 <= i <= paths.len(),
                out@.map_values(|p: &LoadedSheetPath| *p) == occurrences_of(paths@.take(i as int), path@),
            decreases paths.len() - i,
        {
            let p = &paths[i];
            assert(paths@.take(i + 1).drop_last() =~= paths@.take(i as int));
            assert(paths@.take(i + 1).last() == paths@[i as int]);
            let ghost before = out@;
            if str_eq(p.schematic_path.as_str(), path) {
                out.push(p);
                assert(out@.map_values(|q: &LoadedSheetPath| *q) =~= before.map_values(|q: &LoadedSheetPath| *q).push(*p));
            }
            i = i + 1;
        }
        assert(paths@.take(paths.len() as int) =~= paths@);
        out
    }
}

/// The position of the first file from `i` on in the stack that is the path, or the
/// stack's size.
pub open spec fn first_in_stack(stack: Seq<Seq<char>>, path: Seq<char>, i: int) -> int
    decreases stack.len() - i,
{
    if i < 0 || i >= stack.len() {
        stack.len() as int
    } else if stack[i] == path {
        i
    } else {
        first_in_stack(stack, path, i + 1)
    }
}

/// The message of a sheet that includes one of its direct ancestors: the files from the
/// first occurrence of the path on the stack of files being loaded, and the path again.
pub open spec fn cycle_message(stack: Seq<Seq<char>>, path: Seq<char>) -> Seq<char> {
    let k = first_in_stack(stack, path, 0);
    "sheet recursion detected through direct ancestors: "@ + join_with(stack.subrange(k, stack.len() as int).push(path), " -> "@)
}

/// A `sheet-cycle` error with the message, placed in the file at `path`.
pub open spec fn is_cycle_error(d: Diagnostic, message: Seq<char>, path: Seq<char>) -> bool {
    &&& d.severity == Severity::Error
    &&& d.code@ == "sheet-cycle"@
    &&& d.kind == DiagnosticKind::Generic
    &&& d.message@ == message
    &&& opt_view(d.path) == Some(path)
    &&& d.span is None
    &&& d.line is None
    &&& d.column is None
}

/// The error of loading the file at `path` while the files on `stack` (outermost first)
/// are being loaded: a `sheet-cycle` error placed in the file where it is one of them,
/// else nothing.
pub fn direct_ancestor_cycle(stack: &Vec<String>, path: &str) -> (r: Option<Diagnostic>)
    ensures
        first_in_stack(stack.deep_view(), path@, 0) < stack.len() ==> (r matches Some(d) && is_cycle_error(
            d,
            cycle_message(stack.deep_view(), path@),
            path@,
        )),
        first_in_stack(stack.deep_view(), path@, 0) >= stack.len() ==> r is None,
{
    let ghost sv = stack.deep_view();
    let mut k: usize = 0;
    while k < stack.len()
        invariant
            0 <= k <= stack.len(),
            sv == stack.deep_view(),
            first_in_stack(sv, path@, k as int) == first_in_stack(sv, path@, 0),
        decreases stack.len() - k,
    {
        assert(stack@[k as int]@ == sv[k as int]);
        if str_eq(stack[k].as_str(), path) {
            let mut chain: Vec<String> = Vec::new();
            let mut i: usize = k;
            while i < stack.len()
                invariant
                    k <= i <= stack.len(),
                    sv == stack.deep_view(),
                    chain.deep_view() == sv.subrange(k as int, i as int),
                decreases stack.len() - i,
            {
                let ghost before = chain.deep_view();
                chain.push(stack[i].clone());
                assert(chain.deep_view() =~= before.push(sv[i as int]));
                assert(sv.subrange(k as int, i + 1) =~= sv.subrange(k as int, i as int).push(sv[i as int]));
                i = i + 1;
            }
            let ghost before = chain.deep_view();
            chain.push(path.to_owned());
            assert(chain.deep_view() =~= before.push(path@));
            let joined = join_strings(&chain, " -> ");
            let mut m: Vec<char> = Vec::new();
            push_str(&mut m, "sheet recursion detected through direct ancestors: ");
            push_str(&mut m, joined.as_str());
            let d = Diagnostic::error("sheet-cycle", seq_to_string(&m)).with_path(path.to_owned());
            return Some(d);
        }
        k = k + 1;
    }
    None
}

} // verus!
