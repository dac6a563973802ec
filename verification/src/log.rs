//! The handle for logging to standard error.
//!
//! The engine itself never writes anywhere: its callers observe the
//! public state transitions and log as they see fit.  [`StdErrLogger`] is
//! the conventional handle a surrounding binary hangs its standard-error
//! logging on.

use vstd::prelude::*;

verus! {

/// The standard-error logging handle.
pub struct StdErrLogger {}

impl StdErrLogger {
    /// Create the handle.
    pub fn new() -> (r: StdErrLogger)
        ensures
            r == (StdErrLogger {  }),
    {
        StdErrLogger {}
    }
}

} // verus!
