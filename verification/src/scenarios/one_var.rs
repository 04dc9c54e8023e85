//! One variable: a single drawn fact about each man. Its setup is not
//! written yet, so the factory hands it out but it writes nothing.

use vstd::prelude::*;

verus! {

/// The scenario of one variable.
pub struct OneVariable {}

} // verus!
