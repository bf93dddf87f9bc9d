//! Comparison of file paths given as strings, with the semantics of
//! `std::path::Path` (paths are compared component by component).

use vstd::prelude::*;

verus! {

/// Whether `std::path::Path` orders path `a` before path `b`.
pub uninterp spec fn path_lt(a: Seq<char>, b: Seq<char>) -> bool;

/// Whether `std::path::Path` considers paths `a` and `b` equal.
pub uninterp spec fn path_eq(a: Seq<char>, b: Seq<char>) -> bool;

/// Two paths name the same file: they are equal as strings, or
/// `std::path::Path` considers them equal.
pub open spec fn same_file(a: Seq<char>, b: Seq<char>) -> bool {
    a == b || path_eq(a, b)
}

/// Calls `<` on `std::path::Path` (component-wise ordering). The contract
/// claims that the result is the named relation of the two strings, that
/// the relation is asymmetric, and that no path precedes itself.
#[verifier::external_body]
pub(crate) fn path_precedes(a: &str, b: &str) -> (r: bool)
    ensures
        r == path_lt(a@, b@),
        r ==> !path_lt(b@, a@),
        a@ == b@ ==> !r,
{
    std::path::Path::new(a) < std::path::Path::new(b)
}

/// Calls `==` on `std::path::Path` (component-wise equality). The contract
/// claims that the result is the named relation of the two strings and
/// that every path equals itself.
#[verifier::external_body]
pub(crate) fn same_path(a: &str, b: &str) -> (r: bool)
    ensures
        r == path_eq(a@, b@),
        a@ == b@ ==> r,
        r == same_file(a@, b@),
{
    std::path::Path::new(a) == std::path::Path::new(b)
}

} // verus!
