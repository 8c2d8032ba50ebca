use vstd::prelude::*;

verus! {

/// How far a run of `total` iterations has come: `step` counts the
/// iteration under way, so the fraction `step / total` lies in `(0, 1]`.
#[derive(Clone, Copy, Debug, PartialEq, Eq, Structural)]
pub struct Progress {
    pub step: u64,
    pub total: u64,
}

impl Progress {
    /// The fraction is strictly positive and at most one.
    pub open spec fn wf(self) -> bool {
        0 < self.step <= self.total
    }

    /// The progress of iteration `index` (counted from zero) of `total`.
    pub fn of_iteration(index: u64, total: u64) -> (p: Progress)
        requires
            index < total,
        ensures
            p.step == index + 1,
            p.total == total,
            p.wf(),
    {
        Progress { step: index + 1, total }
    }

    /// Whether this is the last iteration, where the fraction is exactly one.
    pub fn is_complete(&self) -> (r: bool)
        ensures
            r == (self.step == self.total),
    {
        self.step == self.total
    }
}

} // verus!
