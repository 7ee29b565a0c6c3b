//! File-system paths, held as strings. The operations on them are those of
//! `std::path`; their results are named here so that contracts can speak of
//! them.

use vstd::prelude::*;
use vstd::string::*;
use crate::text::opt_view;

verus! {

/// The path that `std::path::Path::join` gives for `base` and `part`.
pub uninterp spec fn path_join(base: Seq<char>, part: Seq<char>) -> Seq<char>;

/// Whether `std::path::Path` treats `a` and `b` as equal paths.
pub uninterp spec fn path_same(a: Seq<char>, b: Seq<char>) -> bool;

/// What `std::path::Path::strip_prefix` leaves of `path` below `prefix`, if
/// `path` starts with `prefix`.
pub uninterp spec fn path_below(path: Seq<char>, prefix: Seq<char>) -> Option<Seq<char>>;

/// Calls `Path::join`. The joined path depends on the two arguments alone;
/// it is text again, since both arguments are.
#[verifier::external_body]
pub(crate) fn join(base: &str, part: &str) -> (joined: String)
    ensures
        joined@ == path_join(base@, part@),
{
    std::path::Path::new(base).join(part).to_string_lossy().into_owned()
}

/// Compares two paths with `==` on `Path`, which compares them component by
/// component. The answer depends on the two arguments alone.
#[verifier::external_body]
pub(crate) fn same(a: &str, b: &str) -> (r: bool)
    ensures
        r == path_same(a@, b@),
{
    std::path::Path::new(a) == std::path::Path::new(b)
}

/// Calls `Path::strip_prefix`, which fails when `path` does not start with
/// `prefix`. The result depends on the two arguments alone.
#[verifier::external_body]
pub(crate) fn below(path: &str, prefix: &str) -> (rest: Option<String>)
    ensures
        opt_view(rest) == path_below(path@, prefix@),
{
    match std::path::Path::new(path).strip_prefix(prefix) {
        Ok(rest) => Some(rest.to_string_lossy().into_owned()),
        Err(_) => None,
    }
}

/// `base`, then `part` below it if there is one.
pub open spec fn join_opt(base: Seq<char>, part: Option<Seq<char>>) -> Seq<char> {
    match part {
        Some(p) => path_join(base, p),
        None => base,
    }
}

/// Where a project belongs: below `base`, in the folder of its category if it
/// has one, then in that of its type if it has one, under its own name.
pub open spec fn placed(
    base: Seq<char>,
    category: Option<Seq<char>>,
    p_type: Option<Seq<char>>,
    name: Seq<char>,
) -> Seq<char> {
    path_join(join_opt(join_opt(base, category), p_type), name)
}

/// `base` with `part` pushed onto it, if there is a part.
pub fn push_opt(base: String, part: &Option<String>) -> (out: String)
    ensures
        out@ == join_opt(base@, opt_view(*part)),
{
    match part {
        Some(p) => join(base.as_str(), p.as_str()),
        None => base,
    }
}

/// The directory in which a project belongs.
pub fn project_dir(
    base: &str,
    category: &Option<String>,
    p_type: &Option<String>,
    name: &str,
) -> (dir: String)
    ensures
        dir@ == placed(base@, opt_view(*category), opt_view(*p_type), name@),
{
    let root = String::from_str(base);
    let in_category = push_opt(root, category);
    let in_type = push_opt(in_category, p_type);
    join(in_type.as_str(), name)
}

/// Moves `path` from below `from_prefix` to below `to_prefix`.
pub fn replace_prefix(path: &str, from_prefix: &str, to_prefix: &str) -> (moved: String)
    requires
        path_below(path@, from_prefix@) is Some,
    ensures
        moved@ == path_join(to_prefix@, path_below(path@, from_prefix@)->Some_0),
{
    let relative = below(path, from_prefix).unwrap();
    join(to_prefix, relative.as_str())
}

/// Moves `path` from below `from_prefix` to below `to_prefix`, where it lies
/// below `from_prefix`; otherwise there is nothing to move.
pub fn rebase(path: &str, from_prefix: &str, to_prefix: &str) -> (moved: Option<String>)
    ensures
        opt_view(moved) == match path_below(path@, from_prefix@) {
            Some(relative) => Some(path_join(to_prefix@, relative)),
            None => None,
        },
{
    match below(path, from_prefix) {
        Some(_) => Some(replace_prefix(path, from_prefix, to_prefix)),
        None => None,
    }
}

} // verus!
