//! Keeping track of which workers of a render are still at work.
//!
//! The display asks once per frame which workers have finished, and shows the
//! render as in progress until a frame on which none is left. Once a render
//! has been seen to be over it stays over.

use vstd::prelude::*;

verus! {

/// Which workers of a render are still at work, as far as the display has
/// seen.
pub struct Progress {
    active: Vec<bool>,
    running: bool,
}

impl Progress {
    /// For each worker, whether it was still at work when last looked at.
    pub closed spec fn view(self) -> Seq<bool> {
        self.active@
    }

    /// Whether the render counts as in progress.
    pub closed spec fn spec_running(self) -> bool {
        self.running
    }

    /// The progress of a render that has just been started with `workers`
    /// workers: all of them at work, the render in progress.
    pub fn new(workers: usize) -> (progress: Progress)
        ensures
            progress@ == Seq::new(workers as nat, |i: int| true),
            progress.spec_running(),
    {
        let mut active: Vec<bool> = Vec::new();
        let mut i: usize = 0;
        while i < workers
            invariant
                i <= workers,
                active@ == Seq::new(i as nat, |j: int| true),
            decreases workers - i,
        {
            active.push(true);
            assert(active@ =~= Seq::new((i + 1) as nat, |j: int| true));
            i = i + 1;
        }
        Progress { active, running: true }
    }

    /// The number of workers.
    pub fn workers(&self) -> (workers: usize)
        ensures
            workers == self@.len(),
    {
        self.active.len()
    }

    /// Whether `worker` was still at work when last looked at.
    pub fn is_active(&self, worker: usize) -> (active: bool)
        requires
            worker < self@.len(),
        ensures
            active == self@[worker as int],
    {
        self.active[worker]
    }

    /// Whether the render counts as in progress.
    pub fn is_running(&self) -> (running: bool)
        ensures
            running == self.spec_running(),
    {
        self.running
    }

    /// Takes in one look at the workers, `finished[i]` saying whether worker
    /// `i` has finished, and says whether the render is still in progress.
    ///
    /// While the render is in progress, a worker stays at work exactly if it
    /// was at work and has not finished, and the render stays in progress
    /// exactly if some worker stays at work. A render that is over is left as
    /// it is.
    pub fn update(&mut self, finished: &Vec<bool>) -> (running: bool)
        requires
            finished@.len() == old(self)@.len(),
        ensures
            running == final(self).spec_running(),
            !old(self).spec_running() ==> !running && final(self)@ == old(self)@,
            old(self).spec_running() ==> {
                &&& final(self)@ == Seq::new(
                    old(self)@.len(),
                    |i: int| old(self)@[i] && !finished@[i],
                )
                &&& running == exists|i: int| 0 <= i < final(self)@.len() && final(self)@[i]
            },
    {
        if !self.running {
            return false;
        }
        let ghost before = self.active@;
        let mut any: bool = false;
        let mut i: usize = 0;
        while i < self.active.len()
            invariant
                i <= self.active@.len(),
                self.active@.len() == before.len(),
                finished@.len() == before.len(),
                self.running,
                forall|j: int|
                    0 <= j < i ==> #[trigger] self.active@[j] == (before[j] && !finished@[j]),
                forall|j: int| i <= j < before.len() ==> #[trigger] self.active@[j] == before[j],
                any == exists|j: int| 0 <= j < i && self.active@[j],
            decreases self.active@.len() - i,
        {
            let ghost seen = self.active@;
            if self.active[i] {
                if finished[i] {
                    self.active.set(i, false);
                } else {
                    any = true;
                }
            }
            proof {
                let now = self.active@;
                assert forall|j: int| 0 <= j < i implies now[j] == seen[j] by {}
                if any {
                    if now[i as int] {
                    } else {
                        let j = choose|j: int| 0 <= j < i && seen[j];
                        assert(now[j]);
                    }
                } else {
                    assert forall|j: int| 0 <= j < i + 1 implies !now[j] by {
                        if j < i {
                            assert(!seen[j]);
                        }
                    }
                }
            }
            i = i + 1;
        }
        self.running = any;
        assert(self.active@ =~= Seq::new(before.len(), |i: int| before[i] && !finished@[i]));
        any
    }
}

} // verus!
