//! How two version strings compare, as the `version_compare` crate decides it.
use vstd::prelude::*;

verus! {

/// The outcome of comparing two versions that could be compared.
#[derive(Clone, Copy, Debug, PartialEq, Eq, Structural)]
pub enum VersionOrder {
    Less,
    Equal,
    Greater,
}

/// What `version_compare::compare(a, b)` followed by `Cmp::ord` gives for the
/// version strings `a` and `b`: `None` when either string is not a version it can
/// read, or when the two are not ordered.
pub uninterp spec fn version_order(a: Seq<char>, b: Seq<char>) -> Option<VersionOrder>;

/// Calls `version_compare::compare` and keeps, as `Cmp::ord` does, only the
/// outcomes `Lt`, `Eq` and `Gt`. Its contract claims no more than that the result is
/// the value that `version_order` names for the two strings.
#[verifier::external_body]
pub(crate) fn compare_version_texts(a: &str, b: &str) -> (r: Option<VersionOrder>)
    ensures
        r == version_order(a@, b@),
{
    match version_compare::compare(a, b) {
        Ok(version_compare::Cmp::Lt) => Some(VersionOrder::Less),
        Ok(version_compare::Cmp::Eq) => Some(VersionOrder::Equal),
        Ok(version_compare::Cmp::Gt) => Some(VersionOrder::Greater),
        Ok(_) => None,
        Err(()) => None,
    }
}

} // verus!
