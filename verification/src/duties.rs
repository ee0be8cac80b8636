//! Classes of duties a cadet can carry out. The duty runner itself drives
//! the game API client and lives with the process plumbing.

use vstd::prelude::*;

verus! {

/// The closed set of duty classes.
#[derive(Clone, Copy, Debug, PartialEq, Eq, Structural)]
pub enum DutyClass {
    Fly,
}

} // verus!
