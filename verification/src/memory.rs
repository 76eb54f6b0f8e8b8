//! The memory of the runtime.

use vstd::prelude::*;
use crate::errors::RuntimeError;
use crate::heap::Heap;
use crate::mutator_view::MutatorView;
use crate::traits::Mutator;

verus! {

/// The memory of the runtime. It is read and written only by a mutator
/// that `mutate` runs.
pub struct Memory {
    heap: Heap,
}

impl Memory {
    /// The heap.
    pub closed spec fn heap(self) -> Heap {
        self.heap
    }

    /// The heap is well-formed.
    pub open spec fn wf(self) -> bool {
        self.heap().wf()
    }

    /// A memory with no object and no symbol yet.
    pub fn new() -> (memory: Memory)
        ensures
            memory.wf(),
    {
        Memory { heap: Heap::new() }
    }

    /// Runs the mutator `m` on `input` with a view of the memory that
    /// lasts as long as the run, and returns what the mutator returns.
    pub fn mutate<M: Mutator>(&mut self, m: &M, input: M::Input) -> (r: Result<
        M::Output,
        RuntimeError,
    >)
        requires
            old(self).wf(),
        ensures
            final(self).wf(),
            m.runs(old(self).heap(), input, final(self).heap(), r),
    {
        let mut guard = MutatorView::new(&mut self.heap);
        m.run(&mut guard, input)
    }
}

} // verus!
