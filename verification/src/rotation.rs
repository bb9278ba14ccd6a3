//! The round-robin rotation of the worker pool.

use std::collections::VecDeque;
use vstd::prelude::*;

use crate::worker::{Dispatch, DispatchView, Worker};

verus! {

/// Whether `ids` can be a rotation: it holds at least one handle and none
/// twice.
pub open spec fn is_pool(ids: Seq<nat>) -> bool {
    ids.len() > 0 && ids.no_duplicates()
}

/// One dispatch cycle: the handle at the front is taken off and put to the
/// back.
pub open spec fn rotate(ids: Seq<nat>) -> Seq<nat> {
    ids.drop_first().push(ids[0])
}

/// The rotation after `cycles` dispatch cycles.
pub open spec fn turned(ids: Seq<nat>, cycles: nat) -> Seq<nat>
    decreases cycles,
{
    if cycles == 0 {
        ids
    } else {
        rotate(turned(ids, (cycles - 1) as nat))
    }
}

/// The handles of a pool in the order in which work goes to them: the one at
/// the front is next, and the one that was served last stands at the back.
#[derive(Debug)]
pub struct Rotation {
    workers: VecDeque<Worker>,
}

impl View for Rotation {
    type V = Seq<nat>;

    /// The ids of the handles from front to back.
    closed spec fn view(&self) -> Seq<nat> {
        Seq::new(self.workers@.len(), |i: int| self.workers@[i]@)
    }
}

impl Rotation {
    /// Whether the rotation holds at least one handle and none twice.
    pub open spec fn wf(&self) -> bool {
        is_pool(self@)
    }

    /// A rotation of `pool_size` workers with the ids `0`, `1`, ... in this
    /// order from front to back.
    pub fn new(pool_size: usize) -> (rotation: Rotation)
        requires
            pool_size > 0,
        ensures
            rotation.wf(),
            rotation@ == Seq::new(pool_size as nat, |i: int| i as nat),
    {
        let mut workers: VecDeque<Worker> = VecDeque::new();
        let mut id: usize = 0;
        while id < pool_size
            invariant
                id <= pool_size,
                workers@.len() == id,
                forall|i: int| 0 <= i < id ==> workers@[i]@ == i,
            decreases pool_size - id,
        {
            workers.push_back(Worker::start(id));
            id += 1;
        }
        let rotation = Rotation { workers };
        assert(rotation@ =~= Seq::new(pool_size as nat, |i: int| i as nat));
        rotation
    }

    /// The number of handles.
    pub fn len(&self) -> (len: usize)
        ensures
            len == self@.len(),
    {
        self.workers.len()
    }

    /// The ids of the handles from front to back.
    pub fn ids(&self) -> (ids: Vec<usize>)
        ensures
            ids@.len() == self@.len(),
            forall|i: int| 0 <= i < ids@.len() ==> ids@[i] == self@[i],
    {
        let mut ids: Vec<usize> = Vec::new();
        let mut i: usize = 0;
        while i < self.workers.len()
            invariant
                i <= self.workers@.len(),
                ids@.len() == i,
                forall|k: int| 0 <= k < i ==> ids@[k] == self@[k],
            decreases self.workers@.len() - i,
        {
            ids.push(self.workers[i].id());
            i += 1;
        }
        ids
    }

    /// The handle at the back.
    pub fn back(&self) -> (worker: &Worker)
        requires
            self.wf(),
        ensures
            worker@ == self@.last(),
    {
        &self.workers[self.workers.len() - 1]
    }

    /// One dispatch cycle: takes the handle at the front, submits `link` to
    /// it and puts it to the back.
    pub fn dispatch(&mut self, link: String) -> (item: Dispatch)
        requires
            old(self).wf(),
        ensures
            item@ == (DispatchView { worker: old(self)@[0], url: link@ }),
            final(self)@ == rotate(old(self)@),
            final(self).wf(),
    {
        let ghost before = self@;
        match self.workers.pop_front() {
            Some(worker) => {
                let item = worker.process(link);
                self.workers.push_back(worker);
                assert(self@ =~= rotate(before));
                proof {
                    lemma_rotate_keeps_pool(before);
                }
                item
            },
            None => vstd::pervasive::unreached(),
        }
    }
}

/// A dispatch cycle leaves a pool a pool, of the same size and with the same
/// handles.
pub proof fn lemma_rotate_keeps_pool(ids: Seq<nat>)
    requires
        is_pool(ids),
    ensures
        is_pool(rotate(ids)),
        rotate(ids).len() == ids.len(),
        rotate(ids).to_set() == ids.to_set(),
{
    let next = rotate(ids);
    assert forall|i: int, j: int| 0 <= i < next.len() && 0 <= j < next.len() && i != j implies next[i]
        != next[j] by {
        let a = if i == next.len() - 1 { 0 } else { i + 1 };
        let b = if j == next.len() - 1 { 0 } else { j + 1 };
        assert(next[i] == ids[a]);
        assert(next[j] == ids[b]);
    }
    assert forall|x: nat| next.to_set().contains(x) == ids.to_set().contains(x) by {
        if ids.to_set().contains(x) {
            let i = choose|i: int| 0 <= i < ids.len() && ids[i] == x;
            let k = if i == 0 { ids.len() - 1 } else { i - 1 };
            assert(next[k] == x);
        }
        if next.to_set().contains(x) {
            let k = choose|k: int| 0 <= k < next.len() && next[k] == x;
            let i = if k == next.len() - 1 { 0 } else { k + 1 };
            assert(ids[i] == x);
        }
    }
    assert(next.to_set() =~= ids.to_set());
}

} // verus!
