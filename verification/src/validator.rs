//! Timestamp validation for the logger's command line.

use vstd::prelude::*;

verus! {

/// Whether chrono accepts the text as an RFC 3339 date-and-time; the answer
/// is a function of the text alone.
pub uninterp spec fn is_rfc3339(s: Seq<char>) -> bool;

/// Relies on chrono's `DateTime::parse_from_rfc3339`: a pure parser of the
/// given text, used here only for its success or failure.
#[verifier::external_body]
pub(crate) fn rfc3339_parses(s: &str) -> (r: bool)
    ensures
        r == is_rfc3339(s@),
{
    chrono::DateTime::parse_from_rfc3339(s).is_ok()
}

/// Validation helpers that the logger adds onto plain strings.
pub trait OrionLoggerValidator where Self: View<V = Seq<char>> {
    #[allow(non_snake_case)]
    fn is_RFC3339_timestamp(&self) -> (r: bool)
        ensures
            r == is_rfc3339(self@),
    ;
}

impl OrionLoggerValidator for String {
    #[allow(non_snake_case)]
    fn is_RFC3339_timestamp(&self) -> (r: bool) {
        rfc3339_parses(self.as_str())
    }
}

} // verus!
