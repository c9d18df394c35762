//! A [`MatchableTerm`] serves as an interface between term matchers and the
//! kind of matches a typical user wants to use in a query: one given term,
//! or any term.
use vstd::prelude::*;
use vstd::std_specs::convert::FromSpecImpl;

verus! {

/// Matches one given term, or any term.
///
/// For graph names, the term is an `Option`, `None` standing for the
/// default graph.
pub enum MatchableTerm<T> {
    /// Matches only this term.
    ToTerm(T),
    /// Matches every term.
    AnyTerm,
}

impl<T> From<Option<T>> for MatchableTerm<T> {
    /// `Some(t)` matches only `t`, `None` matches every term.
    fn from(src: Option<T>) -> (r: MatchableTerm<T>) {
        match src {
            Some(t) => MatchableTerm::ToTerm(t),
            None => MatchableTerm::AnyTerm,
        }
    }
}

impl<T> FromSpecImpl<Option<T>> for MatchableTerm<T> {
    open spec fn obeys_from_spec() -> bool {
        true
    }

    open spec fn from_spec(src: Option<T>) -> MatchableTerm<T> {
        match src {
            Some(t) => MatchableTerm::ToTerm(t),
            None => MatchableTerm::AnyTerm,
        }
    }
}

} // verus!
