use crate::TreeBuilder;
use vstd::prelude::*;

verus! {

/// Pairs one descent with one ascent: it steps into a branch when made and out of it when
/// released or dropped, whichever comes first. A guard holds the builder while it is armed,
/// and nothing once released or when made while the builder was disabled.
pub struct ScopedBranch {
    state: Option<TreeBuilder>,
}

impl ScopedBranch {
    /// Whether a release is still to step out of a branch.
    pub closed spec fn armed(&self) -> bool {
        self.state is Some
    }

    /// Steps into a branch of `state` and returns the guard that steps out of it.
    pub fn new(state: TreeBuilder) -> (r: ScopedBranch)
        ensures
            r.armed(),
    {
        state.enter();
        ScopedBranch { state: Some(state) }
    }

    /// A guard that does nothing.
    pub fn none() -> (r: ScopedBranch)
        ensures
            !r.armed(),
    {
        ScopedBranch { state: None }
    }

    pub fn is_armed(&self) -> (r: bool)
        ensures
            r == self.armed(),
    {
        self.state.is_some()
    }

    /// Steps out of the branch once; later calls do nothing.
    pub fn release(&mut self)
        ensures
            !final(self).armed(),
        opens_invariants none
        no_unwind
    {
        if let Some(state) = &self.state {
            state.exit();
        }
        self.state = None;
    }
}

impl Drop for ScopedBranch {
    fn drop(&mut self)
        opens_invariants none
        no_unwind
    {
        self.release();
    }
}

} // verus!
