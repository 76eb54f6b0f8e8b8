//! What a mutator is, and what counts as the scope of one.

use vstd::prelude::*;
use crate::errors::RuntimeError;
use crate::heap::Heap;
use crate::mutator_view::MutatorView;

verus! {

/// A type whose values show that a mutator is running: memory is read
/// and written only through one of them.
pub trait MutatorScope {

}

/// A piece of work that runs on the memory of the runtime, between two
/// points at which nothing is read from it or written to it.
pub trait Mutator: Sized {
    /// What the work is given.
    type Input;

    /// What the work gives back.
    type Output;

    /// Whether the work, given `input` and the heap as `before` has it,
    /// may leave the heap as `after` has it and return `r`. A mutator
    /// that says nothing of its work may do anything.
    open spec fn runs(
        &self,
        before: Heap,
        input: Self::Input,
        after: Heap,
        r: Result<Self::Output, RuntimeError>,
    ) -> bool {
        true
    }

    /// Does the work. It may allocate, read and write through `mem`, and
    /// must leave the memory well-formed and behind the view that it was given.
    fn run(&self, mem: &mut MutatorView, input: Self::Input) -> (r: Result<
        Self::Output,
        RuntimeError,
    >)
        requires
            old(mem).wf(),
        ensures
            final(mem).wf(),
            *final(final(mem).heap) == *final(old(mem).heap),
            self.runs(old(mem).mem(), input, final(mem).mem(), r),
    ;
}

} // verus!
