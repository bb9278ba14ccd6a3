//! The handle by which the coordinator addresses one worker of the pool.

use vstd::prelude::*;

use crate::protocol::WorkerMsg;

verus! {

/// A work item with the worker that it is meant for, as plain values.
pub struct DispatchView {
    pub worker: nat,
    pub url: Seq<char>,
}

/// A work item on its way to one worker: the host delivers `msg` to the
/// inbound queue of the worker with the id `worker`.
#[derive(Debug)]
pub struct Dispatch {
    pub worker: usize,
    pub msg: WorkerMsg,
}

impl View for Dispatch {
    type V = DispatchView;

    open spec fn view(&self) -> DispatchView {
        DispatchView { worker: self.worker as nat, url: self.msg@ }
    }
}

impl DeepView for Dispatch {
    type V = DispatchView;

    open spec fn deep_view(&self) -> DispatchView {
        self@
    }
}

/// The handle of one worker of the pool, known by its id.
#[derive(Debug)]
pub struct Worker {
    id: usize,
}

impl View for Worker {
    type V = nat;

    /// The id of the worker.
    closed spec fn view(&self) -> nat {
        self.id as nat
    }
}

impl Worker {
    /// The handle of the worker with the given id. The worker itself, with
    /// its thread and its inbound queue, is the host's to set going.
    pub fn start(id: usize) -> (worker: Worker)
        ensures
            worker@ == id,
    {
        Worker { id }
    }

    /// The id of the worker.
    pub fn id(&self) -> (id: usize)
        ensures
            id == self@,
    {
        self.id
    }

    /// Submits `link` to this worker: the work item that asks it to process
    /// `link`, addressed to it and to no other worker.
    pub fn process(&self, link: String) -> (item: Dispatch)
        ensures
            item@ == (DispatchView { worker: self@, url: link@ }),
    {
        Dispatch { worker: self.id, msg: WorkerMsg::Process(link) }
    }
}

} // verus!
