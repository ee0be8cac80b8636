//! Worker ("cadet") loops. The long-lived loops themselves live with the
//! process plumbing; what stands here is the decision core each loop
//! consults.

use vstd::prelude::*;

pub mod astropath;

verus! {

/// A long-lived worker bound to one named queue.
pub trait Cadet {
    fn initialize(&self) {
    }
}

} // verus!
