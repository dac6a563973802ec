//! A pessimistic include checker: it always requests a build.
//!
//! [`Includes`] records the declared include paths and whether they were
//! walked yet.  It carries no timestamps, so the only safe answer it can
//! give is that a build is needed: a conservative over-approximation of
//! the staleness oracle, for callers that want a cheap always-rebuild
//! policy.

use vstd::prelude::*;

verus! {

/// The declared include paths, and whether they were walked yet.
pub struct Includes {
    /// The declared paths.
    pub includes: Vec<String>,
    /// The declared paths were walked at least once.
    pub has_traversed: bool,
}

impl Includes {
    /// Wrap a list of declared include paths.
    pub fn new(includes: Vec<String>) -> (r: Includes)
        ensures
            r.includes@ == includes@,
            !r.has_traversed,
    {
        Includes { includes, has_traversed: false }
    }

    fn traverse(&mut self)
        ensures
            final(self).includes@ == old(self).includes@,
            final(self).has_traversed,
    {
        self.has_traversed = true;
    }

    /// Walk the declared paths once, then answer pessimistically: with no
    /// timestamps to compare, a build is always requested.
    pub fn needs_build(&mut self) -> (r: bool)
        ensures
            r,
            final(self).includes@ == old(self).includes@,
            final(self).has_traversed,
    {
        if !self.has_traversed {
            self.traverse();
        }
        true
    }
}

} // verus!
