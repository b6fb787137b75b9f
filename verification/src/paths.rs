//! File names of paths. What a path's file name, stem or sibling is follows the
//! platform's path rules, which differ between systems; these calls state what every
//! system gives, and the callers say what holds whatever else comes back.
//!
//! Every system splits a path at `/`. A path that holds no `\` and no `:` and does not
//! start with `//` has, on every system, no prefix (drive, share or verbatim form), so
//! its file name is the text after its last `/`, where that text is a plain component.

use vstd::prelude::*;

verus! {

/// `s` ends with `suffix`.
pub open spec fn ends_with(s: Seq<char>, suffix: Seq<char>) -> bool {
    suffix.len() <= s.len() && s.subrange(s.len() - suffix.len(), s.len() as int) == suffix
}

/// A path that every platform reads as one plain component: not empty, not `.` or `..`,
/// and holding no `/`, `\` or `:`.
pub open spec fn plain_component(p: Seq<char>) -> bool {
    &&& p.len() > 0
    &&& p != "."@
    &&& p != ".."@
    &&& !p.contains('/')
    &&& !p.contains('\\')
    &&& !p.contains(':')
}

/// A path that no platform reads with a prefix: no `\`, no `:`, and not starting with
/// `//`.
pub open spec fn portable_path(p: Seq<char>) -> bool {
    &&& !p.contains('\\')
    &&& !p.contains(':')
    &&& !(p.len() >= 2 && p[0] == '/' && p[1] == '/')
}

/// Position of the last `/` before `i`, or -1.
pub open spec fn last_slash_before(p: Seq<char>, i: int) -> int
    decreases i,
{
    if i <= 0 {
        -1
    } else if p[i - 1] == '/' {
        i - 1
    } else {
        last_slash_before(p, i - 1)
    }
}

/// The text after the last `/` of the path.
pub open spec fn last_component(p: Seq<char>) -> Seq<char> {
    p.subrange(last_slash_before(p, p.len() as int) + 1, p.len() as int)
}

/// The text of the path before its last component.
pub open spec fn before_last_component(p: Seq<char>) -> Seq<char> {
    p.subrange(0, last_slash_before(p, p.len() as int) + 1)
}

/// Position of the last `.` before `i`, or -1.
pub open spec fn last_dot_before(n: Seq<char>, i: int) -> int
    decreases i,
{
    if i <= 0 {
        -1
    } else if n[i - 1] == '.' {
        i - 1
    } else {
        last_dot_before(n, i - 1)
    }
}

/// The stem of a file name, as std documents it: the whole name where it holds no `.`
/// or its only `.` leads it, else the text before its last `.`.
pub open spec fn file_stem_of(name: Seq<char>) -> Seq<char> {
    let k = last_dot_before(name, name.len() as int);
    if k <= 0 {
        name
    } else {
        name.subrange(0, k)
    }
}

/// A path whose file name every platform finds the same: no prefix, and a plain last
/// component.
pub open spec fn plain_file_path(p: Seq<char>) -> bool {
    portable_path(p) && plain_component(last_component(p))
}

/// A plain component is its own last component, with nothing before it, and no
/// platform reads a prefix in it.
pub proof fn lemma_plain_component_is_file_path(p: Seq<char>)
    requires
        plain_component(p),
    ensures
        plain_file_path(p),
        last_component(p) == p,
        before_last_component(p) == Seq::<char>::empty(),
{
    lemma_no_slash(p, p.len() as int);
    assert(p.subrange(0, p.len() as int) =~= p);
    assert(p.subrange(0, 0) =~= Seq::<char>::empty());
    if p.len() >= 2 && p[0] == '/' {
        assert(p.contains('/'));
    }
}

proof fn lemma_no_slash(p: Seq<char>, i: int)
    requires
        0 <= i <= p.len(),
        !p.contains('/'),
    ensures
        last_slash_before(p, i) == -1,
    decreases i,
{
    if i > 0 {
        if p[i - 1] == '/' {
            assert(p.contains('/'));
        }
        lemma_no_slash(p, i - 1);
    }
}

/// `Path::file_name`, as text: the path's last component, where the platform's path
/// rules find one. Where the path holds no `\` (so no system reads it in verbatim form,
/// where `/` is no separator), the name holds no `/`; a path with a plain last component
/// and no prefix has that component as its name. Other paths are left to the platform.
#[verifier::external_body]
pub(crate) fn path_file_name(path: &str) -> (r: Option<String>)
    ensures
        !path@.contains('\\') ==> (r matches Some(n) ==> !n@.contains('/')),
        plain_file_path(path@) ==> r.is_some() && r.unwrap()@ == last_component(path@),
{
    match std::path::Path::new(path).file_name() {
        Some(name) => name.to_str().map(str::to_owned),
        None => None,
    }
}

/// `Path::file_stem`, as text: the file name without its extension, as std documents it
/// (see [`file_stem_of`]), where the platform's path rules find a file name. Where the
/// path holds no `\`, the stem holds neither `/` nor `\`; other paths are left to the
/// platform.
#[verifier::external_body]
pub(crate) fn path_file_stem(path: &str) -> (r: Option<String>)
    ensures
        !path@.contains('\\') ==> (r matches Some(n) ==> !n@.contains('/') && !n@.contains('\\')),
        plain_file_path(path@) ==> r.is_some() && r.unwrap()@ == file_stem_of(last_component(path@)),
{
    match std::path::Path::new(path).file_stem() {
        Some(stem) => stem.to_str().map(str::to_owned),
        None => None,
    }
}

/// `PathBuf::set_file_name`, as text: the path with its file name replaced by `name`
/// (its parent, then `name`). Where `name` is one relative component with no separator of
/// any platform (not empty, not `.` or `..`, no `/` or `\`), the result ends with it; a
/// path that is one plain component has an empty parent, so the result is `name` alone.
/// What separator stands before the name otherwise is left to the platform.
#[verifier::external_body]
pub(crate) fn path_with_file_name(path: &str, name: &str) -> (r: String)
    ensures
        (name@.len() > 0 && name@ != "."@ && name@ != ".."@ && !name@.contains('/')
            && !name@.contains('\\')) ==> ends_with(r@, name@),
        (plain_component(path@) && name@.len() > 0 && name@ != "."@ && name@ != ".."@ && !name@.contains('/')
            && !name@.contains('\\')) ==> r@ == name@,
{
    let mut buf = std::path::PathBuf::from(path);
    buf.set_file_name(name);
    buf.to_string_lossy().into_owned()
}

/// `Path::with_extension`, as text: where the path has no file name it comes back
/// unchanged; else the text up to the end of the file's stem, then (for an extension that
/// is not empty) `.` and the extension. Which holds, and where the stem ends, is stated for
/// paths whose file name every platform finds the same; for other paths only that a new
/// extension ends the result, if the path is not returned unchanged. The extension holds
/// no path separator, on which recent std releases panic.
#[verifier::external_body]
pub(crate) fn path_with_extension(path: &str, extension: &str) -> (r: String)
    requires
        !extension@.contains('/'),
        !extension@.contains('\\'),
    ensures
        r@ == path@ || extension@.len() == 0 || ends_with(r@, seq!['.'] + extension@),
        plain_file_path(path@) ==> r@ == before_last_component(path@) + file_stem_of(last_component(path@)) + if extension@.len() > 0 {
            seq!['.'] + extension@
        } else {
            Seq::<char>::empty()
        },
{
    std::path::Path::new(path).with_extension(extension).to_string_lossy().into_owned()
}

} // verus!
