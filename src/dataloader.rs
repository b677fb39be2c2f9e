//! Walking a dataset from its first index.
use vstd::prelude::*;

verus! {

/// Hands out the items of a dataset, starting at index 0.
pub struct Dataloader<D> {
    next_idx: u32,
    dataset: D,
}

impl<D> Dataloader<D> {
    /// The index of the next item to hand out.
    pub closed spec fn spec_next_idx(&self) -> u32 {
        self.next_idx
    }

    /// The dataset walked.
    pub closed spec fn spec_dataset(&self) -> D {
        self.dataset
    }

    /// A loader over `dataset`, positioned at its first item.
    pub fn new(dataset: D) -> (r: Dataloader<D>)
        ensures
            r.spec_next_idx() == 0,
            r.spec_dataset() == dataset,
    {
        Dataloader { next_idx: 0, dataset }
    }

    /// The index of the next item to hand out.
    pub fn next_idx(&self) -> (r: u32)
        ensures
            r == self.spec_next_idx(),
    {
        self.next_idx
    }
}

} // verus!
