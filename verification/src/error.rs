//! The errors the library reports.

use vstd::prelude::*;

verus! {

/// What went wrong.
#[derive(Clone, Debug, PartialEq, Eq)]
pub enum BayesError {
    /// A variable role of a pattern had no argument to substitute; the role's name.
    SubstitutionNotFound(String),
    /// An entity was stored in a domain that was never registered; the domain's name.
    DomainNotRegistered(String),
    /// No scenario has this name.
    UnknownScenario(String),
    /// An option whose value could not be read; the option's name.
    InvalidOption(String),
}

} // verus!
