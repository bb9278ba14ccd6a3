//! The coordinator as a state machine over plain values: what it holds, and
//! what each link, each result message and each run of messages does to it.

use vstd::prelude::*;

use crate::rotation::{is_pool, rotate};
use crate::worker::DispatchView;

verus! {

/// What the coordinator holds.
pub struct State {
    /// The URLs that were dispatched or are being dispatched.
    pub visited: Set<Seq<char>>,
    /// The ids of the worker handles, the next to be served at the front.
    pub rotation: Seq<nat>,
    /// The URL that is searched for.
    pub target: Seq<char>,
    /// Whether the target has been seen.
    pub found: bool,
}

/// The coordinator right after start-up, and the dispatch that seeds the
/// search: the start URL is marked visited and goes to the handle at the back
/// of the rotation, which is not turned.
pub open spec fn started(rotation: Seq<nat>, start: Seq<char>, target: Seq<char>) -> (
    State,
    DispatchView,
) {
    (
        State { visited: Set::empty().insert(start), rotation, target, found: false },
        DispatchView { worker: rotation.last(), url: start },
    )
}

impl State {
    /// Whether the rotation holds at least one handle and none twice.
    pub open spec fn wf(self) -> bool {
        is_pool(self.rotation)
    }

    /// What one link of a result message does.
    ///
    /// Once the target has been seen, nothing. Else the target itself ends the
    /// search; a link that is not yet visited is marked visited and goes to
    /// the handle at the front of the rotation, which is then turned; a
    /// visited link is dropped.
    pub open spec fn visit(self, link: Seq<char>) -> (State, Option<DispatchView>) {
        if self.found {
            (self, None)
        } else if link == self.target {
            (State { found: true, ..self }, None)
        } else if self.visited.contains(link) {
            (self, None)
        } else {
            (
                State {
                    visited: self.visited.insert(link),
                    rotation: rotate(self.rotation),
                    ..self
                },
                Some(DispatchView { worker: self.rotation[0], url: link }),
            )
        }
    }

    /// What one result message does: its links are visited in their order.
    /// The dispatches are given in the order in which they are made.
    pub open spec fn handle(self, links: Seq<Seq<char>>) -> (State, Seq<DispatchView>)
        decreases links.len(),
    {
        if links.len() == 0 {
            (self, Seq::empty())
        } else {
            let (state, dispatches) = self.handle(links.drop_last());
            let (next, dispatch) = state.visit(links.last());
            match dispatch {
                Some(item) => (next, dispatches.push(item)),
                None => (next, dispatches),
            }
        }
    }

    /// What a run of result messages does: they are handled one at a time in
    /// the order of their arrival.
    pub open spec fn run(self, messages: Seq<Seq<Seq<char>>>) -> (State, Seq<DispatchView>)
        decreases messages.len(),
    {
        if messages.len() == 0 {
            (self, Seq::empty())
        } else {
            let (state, dispatches) = self.run(messages.drop_last());
            let (next, more) = state.handle(messages.last());
            (next, dispatches + more)
        }
    }
}

/// The URLs of a sequence of dispatches, in the same order.
pub open spec fn urls_of(dispatches: Seq<DispatchView>) -> Seq<Seq<char>> {
    Seq::new(dispatches.len(), |i: int| dispatches[i].url)
}

/// The workers of a sequence of dispatches, in the same order.
pub open spec fn workers_of(dispatches: Seq<DispatchView>) -> Seq<nat> {
    Seq::new(dispatches.len(), |i: int| dispatches[i].worker)
}

/// Once the target has been seen, a result message changes nothing and
/// causes no dispatch.
pub proof fn lemma_handle_after_found(state: State, links: Seq<Seq<char>>)
    requires
        state.found,
    ensures
        state.handle(links) == (state, Seq::<DispatchView>::empty()),
    decreases links.len(),
{
    if links.len() > 0 {
        lemma_handle_after_found(state, links.drop_last());
    }
}

/// Handling a message is handling its first links and then the rest.
pub proof fn lemma_handle_split(state: State, first: Seq<Seq<char>>, rest: Seq<Seq<char>>)
    ensures
        state.handle(first + rest) == ({
            let (mid, dispatches) = state.handle(first);
            let (end, more) = mid.handle(rest);
            (end, dispatches + more)
        }),
    decreases rest.len(),
{
    let (mid, dispatches) = state.handle(first);
    if rest.len() == 0 {
        assert(first + rest =~= first);
        assert(dispatches + Seq::<DispatchView>::empty() =~= dispatches);
    } else {
        lemma_handle_split(state, first, rest.drop_last());
        assert((first + rest).drop_last() =~= first + rest.drop_last());
        assert((first + rest).last() == rest.last());
        let (before, some) = mid.handle(rest.drop_last());
        let (end, dispatch) = before.visit(rest.last());
        match dispatch {
            Some(item) => {
                assert((dispatches + some).push(item) =~= dispatches + some.push(item));
            },
            None => {},
        }
    }
}

} // verus!
