//! The coordinator: the visited set, the worker rotation and the handling of
//! result messages.

use vstd::hash_set::StringHashSet;
use vstd::prelude::*;

use crate::model::{lemma_handle_after_found, lemma_handle_split, started, State};
use crate::protocol::MasterMsg;
use crate::rotation::Rotation;
use crate::worker::{Dispatch, DispatchView};

verus! {

/// What handling one result message asks of the host.
#[derive(Debug)]
pub struct Step {
    /// The work items to deliver, in the order in which they were made.
    pub dispatches: Vec<Dispatch>,
    /// The target, if this message was the one in which it was seen: the
    /// search has then succeeded.
    pub found: Option<String>,
}

/// The coordinator of a search. It alone holds the visited set and the
/// rotation; the host delivers what it dispatches and hands it the result
/// messages one at a time.
pub struct Coordinator {
    visited: StringHashSet,
    workers: Rotation,
    target: String,
    found: bool,
}

impl View for Coordinator {
    type V = State;

    closed spec fn view(&self) -> State {
        State {
            visited: self.visited@,
            rotation: self.workers@,
            target: self.target@,
            found: self.found,
        }
    }
}

impl Coordinator {
    /// Whether the rotation holds at least one handle and none twice.
    pub open spec fn wf(&self) -> bool {
        self@.wf()
    }

    /// Starts a search for `target` from `start` with the given pool: marks
    /// `start` visited and dispatches it to the handle at the back of the
    /// rotation.
    pub fn start(workers: Rotation, start: String, target: String) -> (begun: (Coordinator, Dispatch))
        requires
            workers.wf(),
        ensures
            begun.0.wf(),
            (begun.0@, begun.1@) == started(workers@, start@, target@),
    {
        let mut visited = StringHashSet::new();
        visited.insert(start.clone());
        let seed = workers.back().process(start);
        (Coordinator { visited, workers, target, found: false }, seed)
    }

    /// Whether `url` has been dispatched or is being dispatched.
    pub fn has_visited(&self, url: &str) -> (visited: bool)
        ensures
            visited == self@.visited.contains(url@),
    {
        self.visited.contains(url)
    }

    /// Whether the target has been seen.
    pub fn has_found(&self) -> (found: bool)
        ensures
            found == self@.found,
    {
        self.found
    }

    /// The URL that is searched for.
    pub fn target(&self) -> (target: &String)
        ensures
            target@ == self@.target,
    {
        &self.target
    }

    /// The rotation of the worker handles.
    pub fn rotation(&self) -> (workers: &Rotation)
        ensures
            workers@ == self@.rotation,
    {
        &self.workers
    }

    /// Handles one result message: visits its links in their order, up to
    /// and including the first that is the target.
    pub fn handle(&mut self, msg: MasterMsg) -> (step: Step)
        requires
            old(self).wf(),
        ensures
            final(self).wf(),
            final(self)@ == old(self)@.handle(msg@).0,
            step.dispatches.deep_view() == old(self)@.handle(msg@).1,
            step.found is Some <==> !old(self)@.found && final(self)@.found,
            step.found matches Some(url) ==> url@ == old(self)@.target,
    {
        let ghost before = self@;
        let ghost all = msg@;
        let links = msg.links();
        let mut dispatches: Vec<Dispatch> = Vec::new();
        if self.found {
            proof {
                lemma_handle_after_found(before, all);
            }
            assert(dispatches.deep_view() =~= Seq::<DispatchView>::empty());
            return Step { dispatches, found: None };
        }
        let mut i: usize = 0;
        assert(all.take(0) =~= Seq::<Seq<char>>::empty());
        assert(dispatches.deep_view() =~= Seq::<DispatchView>::empty());
        while i < links.len()
            invariant
                i <= links.len(),
                links.deep_view() == all,
                all == msg@,
                before == old(self)@,
                self@.target == before.target,
                self.wf(),
                !before.found,
                !self@.found,
                (self@, dispatches.deep_view()) == before.handle(all.take(i as int)),
            decreases links.len() - i,
        {
            let ghost state = self@;
            let ghost made = dispatches.deep_view();
            let link = &links[i];
            proof {
                assert(all.take(i + 1).drop_last() =~= all.take(i as int));
                assert(all.take(i + 1).last() == link@);
            }
            if *link == self.target {
                self.found = true;
                proof {
                    assert(self@ == state.visit(link@).0);
                    assert((self@, made) == before.handle(all.take(i + 1)));
                    lemma_handle_after_found(self@, all.skip(i + 1));
                    lemma_handle_split(before, all.take(i + 1), all.skip(i + 1));
                    assert(all.take(i + 1) + all.skip(i + 1) =~= all);
                    assert(made + Seq::<DispatchView>::empty() =~= made);
                }
                return Step { dispatches, found: Some(self.target.clone()) };
            }
            if !self.visited.contains(link.as_str()) {
                self.visited.insert(link.clone());
                let item = self.workers.dispatch(link.clone());
                dispatches.push(item);
                assert(dispatches.deep_view() =~= made.push(item@));
                assert(self@ == state.visit(link@).0);
            }
            i += 1;
        }
        assert(all.take(i as int) =~= all);
        Step { dispatches, found: None }
    }
}

} // verus!
