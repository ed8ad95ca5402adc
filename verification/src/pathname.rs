//! Paths, held as text, with the operations of `std::path` that the library
//! relies on, as they behave on Unix, where `/` is the one separator.
use vstd::prelude::*;

verus! {

/// Whether `path` is absolute, which on Unix means that it starts at the root `/`.
pub open spec fn is_absolute_path(path: Seq<char>) -> bool {
    path.len() > 0 && path[0] == '/'
}

/// `path` appended to `base`, as `Path::join` does it on Unix: an absolute
/// `path` replaces `base`; otherwise `path` follows `base`, with a `/`
/// between them unless `base` is empty or already ends in `/`.
pub open spec fn path_join(base: Seq<char>, path: Seq<char>) -> Seq<char> {
    if is_absolute_path(path) {
        path
    } else if base.len() == 0 || base.last() == '/' {
        base + path
    } else {
        base + seq!['/'] + path
    }
}

/// What `Path::parent` gives for `path`.
pub uninterp spec fn path_parent(path: Seq<char>) -> Option<Seq<char>>;

/// Whether `path` is spelled plainly: not empty, not ending in `/`, with no
/// `//` and no `.` component, so that its components are exactly the texts
/// between its separators.
pub open spec fn is_plain_path(path: Seq<char>) -> bool {
    &&& path.len() > 0
    &&& path.last() != '/'
    &&& forall|i: int| 0 <= i < path.len() - 1 && #[trigger] path[i] == '/' ==> path[i + 1] != '/'
    &&& forall|i: int|
        0 <= i < path.len() && #[trigger] path[i] == '.' ==> !((i == 0 || path[i - 1] == '/') && (i
            == path.len() - 1 || path[i + 1] == '/'))
}

/// The index of the last `/` in `path`, or -1 where it has none.
pub open spec fn last_separator(path: Seq<char>) -> int
    decreases path.len(),
{
    if path.len() == 0 {
        -1
    } else if path.last() == '/' {
        path.len() - 1
    } else {
        last_separator(path.drop_last())
    }
}

/// A plainly spelled `path` without its final component: the empty path for
/// a single relative component, the root for a single component under the
/// root, and otherwise the text before the last `/`.
pub open spec fn plain_parent(path: Seq<char>) -> Seq<char> {
    let k = last_separator(path);
    if k < 0 {
        Seq::empty()
    } else if k == 0 {
        seq!['/']
    } else {
        path.take(k)
    }
}

/// The directory that holds `path`: its parent, or the empty path where it
/// has none. For a plainly spelled path that is `plain_parent(path)`.
pub open spec fn parent_or_empty(path: Seq<char>) -> Seq<char> {
    if is_plain_path(path) {
        plain_parent(path)
    } else {
        match path_parent(path) {
            Some(p) => p,
            None => Seq::empty(),
        }
    }
}

/// Whether `s` ends with `suffix`.
pub open spec fn ends_with(s: Seq<char>, suffix: Seq<char>) -> bool {
    suffix.len() <= s.len() && s.subrange(s.len() - suffix.len(), s.len() as int) == suffix
}

/// Joining keeps `path` whole at the end of the result; an absolute `path`
/// is the whole result; a relative one follows `base` whole, with at most a
/// `/` between them.
pub proof fn lemma_join_keeps_both_parts(base: Seq<char>, path: Seq<char>)
    ensures
        ends_with(path_join(base, path), path),
        is_absolute_path(path) ==> path_join(base, path) == path,
        !is_absolute_path(path) ==> {
            let r = path_join(base, path);
            &&& base.len() <= r.len() <= base.len() + 1 + path.len()
            &&& r.subrange(0, base.len() as int) == base
            &&& r.len() == base.len() + 1 + path.len() ==> r[base.len() as int] == '/'
        },
{
    let r = path_join(base, path);
    assert(r.subrange(r.len() - path.len(), r.len() as int) =~= path);
    if !is_absolute_path(path) {
        assert(r.subrange(0, base.len() as int) =~= base);
    }
}

/// `path` appended to `base`, as `std::path::Path::join` does it on Unix.
pub fn join(base: &str, path: &str) -> (r: String)
    ensures
        r@ == path_join(base@, path@),
{
    if is_absolute(path) {
        return path.to_owned();
    }
    let n: usize = base.unicode_len();
    if n == 0 || base.get_char(n - 1) == '/' {
        base.to_owned().concat(path)
    } else {
        proof {
            reveal_strlit("/");
        }
        base.to_owned().concat("/").concat(path)
    }
}

/// Whether `path` is absolute, as `std::path::Path::is_absolute` decides on
/// Unix: whether it starts with the root `/`.
pub fn is_absolute(path: &str) -> (r: bool)
    ensures
        r == is_absolute_path(path@),
{
    path.unicode_len() > 0 && path.get_char(0) == '/'
}

/// `std::path::Path::parent`: `path` without its final component, or `None`
/// where `path` ends in the root or is empty. The result is named by
/// `path_parent`. Stated of it is what the documentation gives: the empty
/// path and the root have no parent, and a plainly spelled path loses its
/// final component and the separator before it (the root stays). What it
/// gives for other spellings (`//`, `.` components, a trailing `/`) is left
/// unsaid. This is Unix behaviour.
#[verifier::external_body]
pub(crate) fn parent(path: &str) -> (r: Option<String>)
    ensures
        match r {
            Some(p) => {
                &&& path_parent(path@) == Some(p@)
                &&& path@.len() > 0
                &&& path@ != seq!['/']
                &&& is_plain_path(path@) ==> p@ == plain_parent(path@)
            },
            None => path_parent(path@) is None && !is_plain_path(path@),
        },
{
    match std::path::Path::new(path).parent() {
        Some(p) => Some(p.to_string_lossy().into_owned()),
        None => None,
    }
}

/// The directory that holds `path`, or the empty path where it has none.
pub fn parent_dir(path: &str) -> (r: String)
    ensures
        r@ == parent_or_empty(path@),
        r@ == match path_parent(path@) {
            Some(p) => p,
            None => Seq::empty(),
        },
{
    match parent(path) {
        Some(p) => p,
        None => String::new(),
    }
}

} // verus!
