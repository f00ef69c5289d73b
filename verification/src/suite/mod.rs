//! Suite planning: which cases run, in what order, and what each step of a
//! run does given how the previous cases ended.
use vstd::prelude::*;

pub mod config;
pub mod fail;
pub mod output;
pub mod pattern;
pub mod runner;
pub mod select;

pub use config::{CaseSpec, RunConfig};
pub use fail::{fail, fail_now, FailReason};
pub use runner::{CaseOutcome, RunOutcome, Runner, Stage, Step};
pub use select::{select_cases, SelectError};

verus! {

} // verus!
