//! Builds a hierarchical trace of leaves and branches and renders it as a box-drawn tree.
pub mod builder;
pub mod laws;
pub mod scoped_branch;
pub mod tree;

pub use builder::TreeBuilderBase;
pub use scoped_branch::ScopedBranch;
pub use tree::{Position, Tree};

use std::sync::{Arc, Mutex, MutexGuard};
use vstd::prelude::*;

verus! {

#[verifier::external_type_specification]
#[verifier::external_body]
#[verifier::reject_recursive_types(T)]
pub struct ExMutex<T: ?Sized>(Mutex<T>);

#[verifier::external_type_specification]
#[verifier::external_body]
#[verifier::reject_recursive_types(T)]
pub struct ExMutexGuard<'a, T: ?Sized + 'a>(MutexGuard<'a, T>);

pub assume_specification<T>[ Mutex::<T>::new ](t: T) -> Mutex<T>;

/// Relies on `Mutex::lock`: waits for the lock and holds it until the guard is dropped. No
/// operation of this crate panics while it holds the lock, nor takes it twice, so the lock is
/// never poisoned or re-entered; a poisoned state would still be handed over as it stands,
/// and each operation checks it with `is_consistent` before use.
#[verifier::external_body]
fn lock_state(m: &Arc<Mutex<TreeBuilderBase>>) -> MutexGuard<'_, TreeBuilderBase>
    opens_invariants none
    no_unwind
{
    m.lock().unwrap_or_else(std::sync::PoisonError::into_inner)
}

/// Relies on `MutexGuard::deref_mut`: the state that the held lock guards.
#[verifier::external_body]
fn state_mut<'a, 'b>(g: &'a mut MutexGuard<'b, TreeBuilderBase>) -> &'a mut TreeBuilderBase
    opens_invariants none
    no_unwind
{
    &mut *g
}

/// Reference wrapper for the builder state. Clones share one state, so what a handle sees
/// may change between two calls; `TreeBuilderBase` states what each operation does.
#[derive(Clone)]
pub struct TreeBuilder(Arc<Mutex<TreeBuilderBase>>);

impl TreeBuilder {
    /// Returns a new `TreeBuilder` with an empty `Tree`.
    pub fn new() -> TreeBuilder {
        TreeBuilder(Arc::new(Mutex::new(TreeBuilderBase::new())))
    }

    /// Sets the indentation level between tree branches; a width below two is taken as two.
    pub fn set_indentation(&self, indent: usize) {
        let mut g = lock_state(&self.0);
        let s = state_mut(&mut g);
        if s.is_consistent() {
            s.set_indentation(indent);
        }
    }

    /// Adds a new branch with text, `text` and returns a `ScopedBranch`.
    /// When the returned `ScopedBranch` goes out of scope, or if its `release()` method is
    /// called, the tree will step back out of the added branch.
    pub fn add_branch(&self, text: &str) -> ScopedBranch {
        if self.is_enabled() {
            self.add_leaf(text);
            ScopedBranch::new(self.clone())
        } else {
            ScopedBranch::none()
        }
    }

    /// Steps into a branch that lasts as long as the returned `ScopedBranch`.
    pub fn enter_scoped(&self) -> ScopedBranch {
        if self.is_enabled() {
            ScopedBranch::new(self.clone())
        } else {
            ScopedBranch::none()
        }
    }

    /// Adds a leaf to current branch with the given text, `text`.
    pub fn add_leaf(&self, text: &str) {
        let mut g = lock_state(&self.0);
        let s = state_mut(&mut g);
        if s.is_consistent() {
            s.add_leaf(text);
        }
    }

    /// Steps into a new child branch.
    /// Stepping out of the branch requires calling `exit()`.
    pub fn enter(&self) {
        let mut g = lock_state(&self.0);
        let s = state_mut(&mut g);
        if s.is_consistent() {
            s.enter();
        }
    }

    /// Exits the current branch, to the parent branch.
    /// If no parent branch exists, no action is taken
    pub fn exit(&self) -> bool
        opens_invariants none
        no_unwind
    {
        let mut g = lock_state(&self.0);
        let s = state_mut(&mut g);
        s.exit()
    }

    /// Returns the depth of the current branch
    /// The initial depth when no branches have been added is 0.
    pub fn depth(&self) -> usize {
        let mut g = lock_state(&self.0);
        let s = state_mut(&mut g);
        if s.is_consistent() {
            s.depth()
        } else {
            0
        }
    }

    /// Returns the rendered lines without clearing the tree.
    pub fn peek_lines(&self) -> Vec<String> {
        let mut g = lock_state(&self.0);
        let s = state_mut(&mut g);
        if s.is_consistent() {
            s.peek_lines()
        } else {
            Vec::new()
        }
    }

    /// Returns the rendered lines and clears the tree.
    pub fn flush_lines(&self) -> Vec<String> {
        let mut g = lock_state(&self.0);
        let s = state_mut(&mut g);
        if s.is_consistent() {
            s.flush_lines()
        } else {
            s.clear();
            Vec::new()
        }
    }

    /// Returns the tree as a string without clearing the tree.
    pub fn peek_string(&self) -> String {
        let mut g = lock_state(&self.0);
        let s = state_mut(&mut g);
        if s.is_consistent() {
            s.peek_string()
        } else {
            String::new()
        }
    }

    /// Returns the tree as a string and clears the tree.
    pub fn flush_string(&self) -> String {
        let mut g = lock_state(&self.0);
        let s = state_mut(&mut g);
        if s.is_consistent() {
            s.flush_string()
        } else {
            s.clear();
            String::new()
        }
    }

    /// Clears the tree.
    pub fn clear(&self) {
        let mut g = lock_state(&self.0);
        let s = state_mut(&mut g);
        s.clear();
    }

    /// Sets the enabled state of the tree.
    /// If not enabled, the tree will not be modified by adding leaves or branches.
    pub fn set_enabled(&self, enabled: bool) {
        let mut g = lock_state(&self.0);
        let s = state_mut(&mut g);
        if s.is_consistent() {
            s.set_enabled(enabled);
        }
    }

    /// Returns the enabled state of the tree.
    pub fn is_enabled(&self) -> bool {
        let mut g = lock_state(&self.0);
        let s = state_mut(&mut g);
        s.is_enabled()
    }
}

} // verus!
