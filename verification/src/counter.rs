use vstd::prelude::*;

verus! {

/// Tracks whether a module that is being built still waits for its
/// child modules: while `is_building` holds, the number of children is
/// not known yet; afterwards `unfinished_child_module_count` counts the
/// children that have not finished.
#[derive(Clone, Copy, Debug, PartialEq, Eq, Structural)]
pub struct UnfinishCounter {
    pub is_building: bool,
    pub unfinished_child_module_count: usize,
}

impl UnfinishCounter {
    /// The module is finished: it is built and no child is outstanding.
    pub open spec fn finished(self) -> bool {
        !self.is_building && self.unfinished_child_module_count == 0
    }

    /// One more child may be reported as finished.
    pub open spec fn can_minus_one(self) -> bool {
        !self.is_building && self.unfinished_child_module_count > 0
    }

    /// The counter after one child was reported as finished.
    pub open spec fn spec_minus_one(self) -> UnfinishCounter {
        UnfinishCounter {
            is_building: false,
            unfinished_child_module_count: (self.unfinished_child_module_count - 1) as usize,
        }
    }

    /// A counter for a module whose build has just started.
    pub open spec fn building() -> UnfinishCounter {
        UnfinishCounter { is_building: true, unfinished_child_module_count: 0 }
    }

    pub fn new() -> (r: UnfinishCounter)
        ensures
            r == UnfinishCounter::building(),
    {
        UnfinishCounter { is_building: true, unfinished_child_module_count: 0 }
    }

    /// Marks the build as done, with `count` children still to finish.
    pub fn set_unfinished_child_module_count(&mut self, count: usize)
        ensures
            *final(self) == (UnfinishCounter {
                is_building: false,
                unfinished_child_module_count: count,
            }),
    {
        self.is_building = false;
        self.unfinished_child_module_count = count;
    }

    /// Records that one child module finished.
    pub fn minus_one(&mut self)
        requires
            old(self).can_minus_one(),
        ensures
            *final(self) == old(self).spec_minus_one(),
    {
        self.unfinished_child_module_count = self.unfinished_child_module_count - 1;
    }

    pub fn is_finished(&self) -> (r: bool)
        ensures
            r == self.finished(),
    {
        !self.is_building && self.unfinished_child_module_count == 0
    }
}

/// The counter after `k` children were reported as finished.
pub open spec fn count_down(c: UnfinishCounter, k: nat) -> UnfinishCounter
    decreases k,
{
    if k == 0 {
        c
    } else {
        count_down(c, (k - 1) as nat).spec_minus_one()
    }
}

/// Once the build reports `n` children, the module can be counted down
/// exactly `n` times, and it is finished after the `n`-th count and not
/// before.
pub proof fn lemma_finishes_after_all_children(n: usize, k: nat)
    requires
        k <= n,
    ensures
        count_down(UnfinishCounter { is_building: false, unfinished_child_module_count: n }, k)
            == (UnfinishCounter { is_building: false, unfinished_child_module_count: (n - k) as usize }),
        k < n ==> count_down(
            UnfinishCounter { is_building: false, unfinished_child_module_count: n },
            k,
        ).can_minus_one(),
        count_down(UnfinishCounter { is_building: false, unfinished_child_module_count: n }, k).finished()
            <==> k == n,
    decreases k,
{
    if k > 0 {
        lemma_finishes_after_all_children(n, (k - 1) as nat);
    }
}

/// A module whose build has not finished is never finished and cannot
/// be counted down.
pub proof fn lemma_building_is_unfinished(c: UnfinishCounter)
    requires
        c.is_building,
    ensures
        !c.finished(),
        !c.can_minus_one(),
{
}

} // verus!
