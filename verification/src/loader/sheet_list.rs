//! The list of sheet occurrences of a hierarchy: the root, then, depth first in link
//! order, every sheet below it that has a UUID, sorted in page order.

use crate::loader::{sort_loaded_sheet_paths, sorted_for_pages, HierarchyLink, LoadedSheetPath};
use crate::model::SheetInstance;
use crate::text::opt_view;
use vstd::prelude::*;

verus! {

/// A sheet path as values: file, instance path, symbol path, sheet UUID, sheet name,
/// page, sheet number and sheet count.
pub type SheetPathView = (Seq<char>, Seq<char>, Seq<char>, Option<Seq<char>>, Option<Seq<char>>, Option<Seq<char>>, usize, usize);

/// A sheet path as values.
pub open spec fn sheet_path_view(p: LoadedSheetPath) -> SheetPathView {
    (p.schematic_path@, p.instance_path@, p.symbol_path@, opt_view(p.sheet_uuid), opt_view(p.sheet_name), opt_view(p.page), p.sheet_number, p.sheet_count)
}

/// The views of a list of sheet paths.
pub open spec fn sheet_path_views(s: Seq<LoadedSheetPath>) -> Seq<SheetPathView> {
    s.map_values(|p: LoadedSheetPath| sheet_path_view(p))
}

/// The sheet paths below `parent`, whose symbol path is `parent_path`, from the `k`-th
/// link on: for each link from `parent` with a sheet UUID, the child's sheet path
/// (instance and symbol path: the parent's symbol path, `/`, the UUID), then those below
/// the child. `depth` bounds how many links deep the walk goes.
pub open spec fn child_sheet_paths_from(links: Seq<HierarchyLink>, parent: Seq<char>, parent_path: Seq<char>, k: int, depth: nat) -> Seq<SheetPathView>
    decreases depth, links.len() - k,
{
    if depth == 0 || k < 0 || k >= links.len() {
        Seq::empty()
    } else {
        let rest = child_sheet_paths_from(links, parent, parent_path, k + 1, depth);
        let l = links[k];
        match l.sheet_uuid {
            Some(uuid) => if l.parent_path@ == parent {
                let ip = parent_path + seq!['/'] + uuid@;
                seq![(l.child_path@, ip, ip, Some(uuid@), opt_view(l.sheet_name), None, 0usize, 0usize)]
                    + child_sheet_paths_from(links, l.child_path@, ip, 0, (depth - 1) as nat) + rest
            } else {
                rest
            },
            None => rest,
        }
    }
}

/// Position of the first sheet instance of the root, from `i` on: one with an empty
/// path or the root's symbol path; or the number of instances.
pub open spec fn root_instance_from(insts: Seq<SheetInstance>, root_path: Seq<char>, i: int) -> int
    decreases insts.len() - i,
{
    if 0 <= i < insts.len() && !(insts[i].path@.len() == 0 || insts[i].path@ == root_path) {
        root_instance_from(insts, root_path, i + 1)
    } else {
        i
    }
}

/// The page of the root: the screen's own root page, else that of the root's first
/// sheet instance.
pub open spec fn root_page(root_sheet_page: Option<String>, insts: Seq<SheetInstance>, root_path: Seq<char>) -> Option<Seq<char>> {
    match root_sheet_page {
        Some(p) => Some(p@),
        None => {
            let k = root_instance_from(insts, root_path, 0);
            if 0 <= k < insts.len() {
                opt_view(insts[k].page)
            } else {
                None
            }
        },
    }
}

/// The root's UUID: the root sheet's, else the screen's.
pub open spec fn root_uuid(root_sheet_uuid: Option<String>, screen_uuid: Option<String>) -> Option<Seq<char>> {
    match root_sheet_uuid {
        Some(u) => Some(u@),
        None => opt_view(screen_uuid),
    }
}

fn copy_opt(o: &Option<String>) -> (r: Option<String>)
    ensures
        r == *o,
{
    match o {
        Some(t) => Some(t.clone()),
        None => None,
    }
}

fn joined_path(parent: &String, uuid: &String) -> (r: String)
    ensures
        r@ == parent@ + seq!['/'] + uuid@,
{
    let mut v = crate::text::string_chars(parent);
    v.push('/');
    crate::text::push_str(&mut v, uuid.as_str());
    crate::text::seq_to_string(&v)
}

/// Appends the sheet paths below `parent` from the `k`-th link on, as
/// [`child_sheet_paths_from`] says.
fn build_child_sheet_paths(
    links: &Vec<HierarchyLink>,
    parent: &String,
    parent_path: &String,
    k: usize,
    depth: usize,
    out: &mut Vec<LoadedSheetPath>,
)
    ensures
        sheet_path_views(final(out)@) == sheet_path_views(old(out)@) + child_sheet_paths_from(
            links@,
            parent@,
            parent_path@,
            k as int,
            depth as nat,
        ),
    decreases depth, links.len() - k,
{
    if depth == 0 || k >= links.len() {
        assert(sheet_path_views(out@) =~= sheet_path_views(out@) + Seq::<SheetPathView>::empty());
        return;
    }
    let l = &links[k];
    let ghost before = sheet_path_views(out@);
    match &l.sheet_uuid {
        Some(uuid) => {
            if l.parent_path == *parent {
                let ip = joined_path(parent_path, uuid);
                let entry = LoadedSheetPath {
                    schematic_path: l.child_path.clone(),
                    instance_path: ip.clone(),
                    symbol_path: ip.clone(),
                    sheet_uuid: Some(uuid.clone()),
                    sheet_name: copy_opt(&l.sheet_name),
                    page: None,
                    sheet_number: 0,
                    sheet_count: 0,
                };
                out.push(entry);
                assert(sheet_path_views(out@) =~= before.push(sheet_path_view(entry)));
                let ghost mid = sheet_path_views(out@);
                build_child_sheet_paths(links, &l.child_path, &ip, 0, depth - 1, out);
                let ghost mid2 = sheet_path_views(out@);
                build_child_sheet_paths(links, parent, parent_path, k + 1, depth, out);
                assert(sheet_path_views(out@) =~= before + child_sheet_paths_from(
                    links@,
                    parent@,
                    parent_path@,
                    k as int,
                    depth as nat,
                ));
            } else {
                build_child_sheet_paths(links, parent, parent_path, k + 1, depth, out);
            }
        },
        None => {
            build_child_sheet_paths(links, parent, parent_path, k + 1, depth, out);
        },
    }
}

/// Position of the root's first sheet instance, as [`root_instance_from`] says.
fn find_root_instance(insts: &Vec<SheetInstance>, root_path: &String) -> (r: usize)
    ensures
        r == root_instance_from(insts@, root_path@, 0),
{
    let mut i: usize = 0;
    while i < insts.len() && !(insts[i].path.as_str().is_empty() || insts[i].path == *root_path)
        invariant
            0 <= i <= insts.len(),
            root_instance_from(insts@, root_path@, 0) == root_instance_from(insts@, root_path@, i as int),
        decreases insts.len() - i,
    {
        i = i + 1;
    }
    i
}

/// The sheet list of a hierarchy whose root file is `root_file`: the root (instance path
/// empty, symbol path `/` and the root's UUID, page as [`root_page`] says), then the
/// sheets below it depth first in link order, the whole sorted in page order. Without a
/// root UUID the list is empty. The walk goes at most as many links deep as there are
/// links, which is every chain of links that does not come back to a file it passed.
pub fn build_sheet_list_sorted_by_page_numbers(
    root_file: &String,
    root_sheet_uuid: &Option<String>,
    screen_uuid: &Option<String>,
    root_sheet_page: &Option<String>,
    sheet_instances: &Vec<SheetInstance>,
    links: &Vec<HierarchyLink>,
) -> (r: Vec<LoadedSheetPath>)
    ensures
        match root_uuid(*root_sheet_uuid, *screen_uuid) {
            None => r@.len() == 0,
            Some(uuid) => {
                let root_path = seq!['/'] + uuid;
                exists|m: Seq<LoadedSheetPath>|
                    #[trigger] sorted_for_pages(m, r@) && sheet_path_views(m) == seq![
                        (
                            root_file@,
                            Seq::<char>::empty(),
                            root_path,
                            Some(uuid),
                            None::<Seq<char>>,
                            root_page(*root_sheet_page, sheet_instances@, root_path),
                            0usize,
                            0usize,
                        ),
                    ] + child_sheet_paths_from(links@, root_file@, root_path, 0, links@.len() as nat)
            },
        },
{
    let uuid = match root_sheet_uuid {
        Some(u) => u.clone(),
        None => match screen_uuid {
            Some(u) => u.clone(),
            None => {
                return Vec::new();
            },
        },
    };
    let root_path = joined_path(&String::new(), &uuid);
    assert(root_path@ =~= seq!['/'] + uuid@);
    let page = match root_sheet_page {
        Some(p) => Some(p.clone()),
        None => {
            let k = find_root_instance(sheet_instances, &root_path);
            if k < sheet_instances.len() {
                copy_opt(&sheet_instances[k].page)
            } else {
                None
            }
        },
    };
    let mut sheet_paths: Vec<LoadedSheetPath> = Vec::new();
    sheet_paths.push(
        LoadedSheetPath {
            schematic_path: root_file.clone(),
            instance_path: String::new(),
            symbol_path: root_path.clone(),
            sheet_uuid: Some(uuid.clone()),
            sheet_name: None,
            page,
            sheet_number: 0,
            sheet_count: 0,
        },
    );
    build_child_sheet_paths(links, root_file, &root_path, 0, links.len(), &mut sheet_paths);
    let ghost m = sheet_paths@;
    sort_loaded_sheet_paths(&mut sheet_paths);
    assert(sorted_for_pages(m, sheet_paths@));
    sheet_paths
}

} // verus!
