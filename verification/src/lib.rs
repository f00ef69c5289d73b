//! Structured test toolkit: named cases with dependency-aware selection and
//! lifecycle planning, named assertions that report failures as messages,
//! expectation bookkeeping for test doubles, and the reader of formatted test
//! output.
use vstd::prelude::*;

pub mod assertions;
pub mod mock;
pub mod report;
pub mod suite;
pub mod text;

verus! {

} // verus!
