//! The parts of `std::path` that the library relies on. Paths are held as
//! text. Joining is stated here; what the other path operations give is
//! named here and left to `std`.
use vstd::prelude::*;

use crate::text::chars_of;

verus! {

/// The final component of a path, as `std::path::Path::file_name` gives it
/// (`None` for the root and for a path that ends in `..`).
pub uninterp spec fn path_file_name(path: Seq<char>) -> Option<Seq<char>>;

/// The path with its final component replaced by `name`, as
/// `std::path::Path::with_file_name` gives it.
pub uninterp spec fn path_with_file_name(path: Seq<char>, name: Seq<char>) -> Seq<char>;

/// Calls `std::path::Path::file_name` on `path`. Claimed: the result is
/// `path_file_name(path)`, converted to text. What the final component
/// is (how `.`, `..` and trailing slashes are treated) is left to the
/// name; the text of a component of a text path is itself text.
#[verifier::external_body]
pub(crate) fn file_name_of(path: &str) -> (r: Option<String>)
    ensures
        r is Some <==> path_file_name(path@) is Some,
        r matches Some(n) ==> n@ == path_file_name(path@)->0,
{
    match std::path::Path::new(path).file_name() {
        Some(name) => Some(name.to_string_lossy().into_owned()),
        None => None,
    }
}

/// Calls `std::path::Path::with_file_name`. Claimed: the result is
/// `path_with_file_name(path, name)`, converted to text; the rules by which
/// the component is replaced are left to the name.
#[verifier::external_body]
pub(crate) fn with_file_name(path: &str, name: &str) -> (r: String)
    ensures
        r@ == path_with_file_name(path@, name@),
{
    std::path::Path::new(path).with_file_name(name).to_string_lossy().into_owned()
}

/// The path `base` with `part` appended as a component, as
/// `std::path::Path::join` does it on Unix: an absolute `part` replaces
/// `base`; otherwise a `/` goes between them unless `base` is empty or
/// already ends in one.
pub open spec fn path_joined(base: Seq<char>, part: Seq<char>) -> Seq<char> {
    if part.len() > 0 && part[0] == '/' {
        part
    } else if base.len() > 0 && base.last() != '/' {
        base + seq!['/'] + part
    } else {
        base + part
    }
}

/// Whether two paths have the same components, as `==` on
/// `std::path::Path` tells.
pub uninterp spec fn same_path(a: Seq<char>, b: Seq<char>) -> bool;

/// `part` joined onto `base` as a path component (`Path::join`).
pub fn join_path(base: &str, part: &str) -> (r: String)
    ensures
        r@ == path_joined(base@, part@),
{
    let p = chars_of(part);
    if p.len() > 0 && p[0] == '/' {
        return part.to_owned();
    }
    let b = chars_of(base);
    let mut r = base.to_owned();
    if b.len() > 0 && b[b.len() - 1] != '/' {
        r.append("/");
        proof {
            reveal_strlit("/");
        }
    }
    r.append(part);
    proof {
        assert(r@ =~= path_joined(base@, part@));
    }
    r
}

/// Compares two paths with `==` on `std::path::Path`. Claimed: the result
/// is `same_path(a, b)`; which paths count as the same is left to the name.
#[verifier::external_body]
pub(crate) fn paths_equal(a: &str, b: &str) -> (r: bool)
    ensures
        r == same_path(a@, b@),
{
    std::path::Path::new(a) == std::path::Path::new(b)
}

} // verus!
