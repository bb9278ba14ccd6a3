//! What holds of every run of the coordinator.

use vstd::prelude::*;
use vstd::arithmetic::div_mod::{lemma_mod_add_multiples_vanish, lemma_small_mod};

use crate::model::{lemma_handle_after_found, started, urls_of, workers_of, State};
use crate::rotation::{is_pool, lemma_rotate_keeps_pool, rotate, turned};
use crate::worker::DispatchView;

verus! {

/// The handles that the first `cycles` dispatch cycles take off the front of
/// a rotation and put to its back, in the order of the cycles.
pub open spec fn served(ids: Seq<nat>, cycles: nat) -> Seq<nat> {
    Seq::new(cycles, |k: int| turned(ids, k as nat)[0])
}

/// Whether the message `links` is the one in which the search succeeds: the
/// target had not been seen before it and has been seen after it.
pub open spec fn succeeds(state: State, links: Seq<Seq<char>>) -> bool {
    !state.found && state.handle(links).0.found
}

/// A link never changes the target, never takes a URL out of the visited
/// set and never hides that the target has been seen; it leaves a pool a
/// pool of the same handles.
pub proof fn lemma_visit_keeps(state: State, link: Seq<char>)
    ensures
        state.visit(link).0.target == state.target,
        state.visited.subset_of(state.visit(link).0.visited),
        state.found ==> state.visit(link).0.found,
        state.wf() ==> state.visit(link).0.wf(),
        state.wf() ==> state.visit(link).0.rotation.len() == state.rotation.len(),
        state.wf() ==> state.visit(link).0.rotation.to_set() == state.rotation.to_set(),
{
    if state.wf() {
        lemma_rotate_keeps_pool(state.rotation);
    }
}

/// No URL twice within one message: the visited set only grows, by
/// exactly the URLs that are dispatched; each of them was not visited
/// before, and none is dispatched twice.
pub proof fn lemma_handle_dedup(state: State, links: Seq<Seq<char>>)
    ensures
        state.visited.subset_of(state.handle(links).0.visited),
        state.handle(links).0.visited == state.visited.union(
            urls_of(state.handle(links).1).to_set(),
        ),
        forall|i: int|
            0 <= i < state.handle(links).1.len() ==> !state.visited.contains(
                #[trigger] state.handle(links).1[i].url,
            ),
        urls_of(state.handle(links).1).no_duplicates(),
    decreases links.len(),
{
    let (end, dispatches) = state.handle(links);
    if links.len() == 0 {
        assert(urls_of(dispatches).to_set() =~= Set::<Seq<char>>::empty());
        assert(end.visited =~= state.visited.union(urls_of(dispatches).to_set()));
    } else {
        lemma_handle_dedup(state, links.drop_last());
        let (mid, made) = state.handle(links.drop_last());
        let (next, dispatch) = mid.visit(links.last());
        assert(next == end);
        match dispatch {
            Some(item) => {
                assert(dispatches == made.push(item));
                assert(!mid.visited.contains(item.url));
                assert forall|i: int| 0 <= i < made.len() implies made[i].url != item.url by {
                    assert(urls_of(made)[i] == made[i].url);
                    assert(urls_of(made).to_set().contains(made[i].url));
                }
                assert forall|i: int| 0 <= i < dispatches.len() implies !state.visited.contains(
                    #[trigger] dispatches[i].url,
                ) by {
                    if i < made.len() {
                        assert(dispatches[i] == made[i]);
                    }
                }
                assert forall|i: int, j: int|
                    0 <= i < dispatches.len() && 0 <= j < dispatches.len() && i != j implies urls_of(
                    dispatches,
                )[i] != urls_of(dispatches)[j] by {
                    if i < made.len() && j < made.len() {
                        assert(urls_of(made)[i] != urls_of(made)[j]);
                    }
                }
                assert(urls_of(dispatches) =~= urls_of(made).push(item.url));
                assert forall|url: Seq<char>|
                    urls_of(dispatches).to_set().contains(url) == (urls_of(made).to_set().contains(
                        url,
                    ) || url == item.url) by {
                    if urls_of(made).to_set().contains(url) {
                        let i = choose|i: int| 0 <= i < made.len() && urls_of(made)[i] == url;
                        assert(urls_of(dispatches)[i] == url);
                    }
                    if url == item.url {
                        assert(urls_of(dispatches)[made.len() as int] == url);
                    }
                }
                assert(end.visited =~= state.visited.union(urls_of(dispatches).to_set()));
            },
            None => {
                assert(end.visited =~= mid.visited);
            },
        }
    }
}

/// The URLs of two runs of dispatches, one after the other.
proof fn lemma_urls_of_add(first: Seq<DispatchView>, rest: Seq<DispatchView>)
    ensures
        urls_of(first + rest) == urls_of(first) + urls_of(rest),
        workers_of(first + rest) == workers_of(first) + workers_of(rest),
{
    assert(urls_of(first + rest) =~= urls_of(first) + urls_of(rest));
    assert(workers_of(first + rest) =~= workers_of(first) + workers_of(rest));
}

/// No URL twice over a run: for every sequence of result messages, the
/// visited set never shrinks, it grows by exactly the URLs that are
/// dispatched, each of them was not visited before the run, and none is
/// dispatched twice.
pub proof fn lemma_run_dedup(state: State, messages: Seq<Seq<Seq<char>>>)
    ensures
        state.visited.subset_of(state.run(messages).0.visited),
        state.run(messages).0.visited == state.visited.union(
            urls_of(state.run(messages).1).to_set(),
        ),
        forall|i: int|
            0 <= i < state.run(messages).1.len() ==> !state.visited.contains(
                #[trigger] state.run(messages).1[i].url,
            ),
        urls_of(state.run(messages).1).no_duplicates(),
    decreases messages.len(),
{
    let (end, dispatches) = state.run(messages);
    if messages.len() == 0 {
        assert(urls_of(dispatches).to_set() =~= Set::<Seq<char>>::empty());
        assert(end.visited =~= state.visited.union(urls_of(dispatches).to_set()));
    } else {
        lemma_run_dedup(state, messages.drop_last());
        let (mid, made) = state.run(messages.drop_last());
        lemma_handle_dedup(mid, messages.last());
        let (next, more) = mid.handle(messages.last());
        assert(next == end);
        assert(dispatches == made + more);
        lemma_urls_of_add(made, more);
        assert forall|i: int| 0 <= i < more.len() implies !state.visited.contains(more[i].url)
            && !urls_of(made).to_set().contains(more[i].url) by {
            assert(!mid.visited.contains(more[i].url));
        }
        assert forall|i: int| 0 <= i < dispatches.len() implies !state.visited.contains(
            #[trigger] dispatches[i].url,
        ) by {
            if i < made.len() {
                assert(dispatches[i] == made[i]);
            } else {
                assert(dispatches[i] == more[i - made.len()]);
            }
        }
        assert forall|i: int, j: int|
            0 <= i < dispatches.len() && 0 <= j < dispatches.len() && i < j implies urls_of(
            dispatches,
        )[i] != urls_of(dispatches)[j] by {
            if j < made.len() {
                assert(urls_of(made)[i] != urls_of(made)[j]);
            } else if i < made.len() {
                assert(urls_of(made)[i] == made[i].url);
                assert(urls_of(made).to_set().contains(made[i].url));
                assert(dispatches[j] == more[j - made.len()]);
            } else {
                assert(urls_of(more)[i - made.len()] != urls_of(more)[j - made.len()]);
            }
        }
        assert forall|url: Seq<char>|
            urls_of(dispatches).to_set().contains(url) == (urls_of(made).to_set().contains(url)
                || urls_of(more).to_set().contains(url)) by {
            if urls_of(made).to_set().contains(url) {
                let i = choose|i: int| 0 <= i < made.len() && urls_of(made)[i] == url;
                assert(urls_of(dispatches)[i] == url);
            }
            if urls_of(more).to_set().contains(url) {
                let i = choose|i: int| 0 <= i < more.len() && urls_of(more)[i] == url;
                assert(urls_of(dispatches)[made.len() + i] == url);
            }
        }
        assert(end.visited =~= state.visited.union(urls_of(dispatches).to_set()));
    }
}

/// No URL twice from start-up on: of all the dispatches of a search, the one
/// that seeds it and those that any sequence of result messages causes, no
/// two are for the same URL, and the visited set holds exactly their URLs.
pub proof fn lemma_each_url_dispatched_once(
    rotation: Seq<nat>,
    start: Seq<char>,
    target: Seq<char>,
    messages: Seq<Seq<Seq<char>>>,
)
    ensures
        ({
            let (state, seed) = started(rotation, start, target);
            let (end, dispatches) = state.run(messages);
            &&& urls_of(seq![seed] + dispatches).no_duplicates()
            &&& end.visited == urls_of(seq![seed] + dispatches).to_set()
        }),
{
    let (state, seed) = started(rotation, start, target);
    let (end, dispatches) = state.run(messages);
    let all = seq![seed] + dispatches;
    lemma_run_dedup(state, messages);
    assert(state.visited.contains(start));
    assert forall|i: int, j: int| 0 <= i < all.len() && 0 <= j < all.len() && i < j implies urls_of(
        all,
    )[i] != urls_of(all)[j] by {
        assert(all[j] == dispatches[j - 1]);
        if i == 0 {
            assert(!state.visited.contains(dispatches[j - 1].url));
        } else {
            assert(all[i] == dispatches[i - 1]);
            assert(urls_of(dispatches)[i - 1] != urls_of(dispatches)[j - 1]);
        }
    }
    assert forall|url: Seq<char>| end.visited.contains(url) == urls_of(all).to_set().contains(
        url,
    ) by {
        if url == start {
            assert(urls_of(all)[0] == url);
        }
        if urls_of(dispatches).to_set().contains(url) {
            let i = choose|i: int| 0 <= i < dispatches.len() && urls_of(dispatches)[i] == url;
            assert(urls_of(all)[i + 1] == url);
        }
        if urls_of(all).to_set().contains(url) {
            let i = choose|i: int| 0 <= i < all.len() && urls_of(all)[i] == url;
            if i > 0 {
                assert(urls_of(dispatches)[i - 1] == url);
            }
        }
    }
    assert(end.visited =~= urls_of(all).to_set());
}

/// Dispatch cycles leave a pool a pool, of the same size and with the same
/// handles.
pub proof fn lemma_turned_keeps_pool(ids: Seq<nat>, cycles: nat)
    requires
        is_pool(ids),
    ensures
        is_pool(turned(ids, cycles)),
        turned(ids, cycles).len() == ids.len(),
        turned(ids, cycles).to_set() == ids.to_set(),
    decreases cycles,
{
    if cycles > 0 {
        lemma_turned_keeps_pool(ids, (cycles - 1) as nat);
        lemma_rotate_keeps_pool(turned(ids, (cycles - 1) as nat));
    }
}

/// Turning a rotation by some cycles and then by some more is turning it by
/// all of them.
pub proof fn lemma_turned_add(ids: Seq<nat>, first: nat, more: nat)
    ensures
        turned(turned(ids, first), more) == turned(ids, first + more),
    decreases more,
{
    if more > 0 {
        lemma_turned_add(ids, first, (more - 1) as nat);
    }
}

/// Round robin: after any number of cycles the handle at each place is the
/// one that stood that many places further on, counted round the pool.
pub proof fn lemma_turned_index(ids: Seq<nat>, cycles: nat, i: int)
    requires
        0 <= i < ids.len(),
    ensures
        turned(ids, cycles).len() == ids.len(),
        turned(ids, cycles)[i] == ids[(i + cycles) % (ids.len() as int)],
    decreases cycles,
{
    let n = ids.len() as int;
    if cycles == 0 {
        lemma_small_mod(i as nat, n as nat);
    } else {
        let earlier = turned(ids, (cycles - 1) as nat);
        lemma_turned_index(ids, (cycles - 1) as nat, i);
        if i < n - 1 {
            lemma_turned_index(ids, (cycles - 1) as nat, i + 1);
            assert(rotate(earlier)[i] == earlier[i + 1]);
        } else {
            lemma_turned_index(ids, (cycles - 1) as nat, 0);
            assert(rotate(earlier)[i] == earlier[0]);
            lemma_mod_add_multiples_vanish(cycles - 1, n);
            assert(i + cycles == n + (cycles - 1));
        }
    }
}

/// The handles served by some cycles and then some more.
proof fn lemma_served_add(ids: Seq<nat>, first: nat, more: nat)
    ensures
        served(ids, first + more) == served(ids, first) + served(turned(ids, first), more),
{
    let all = served(ids, first + more);
    let parts = served(ids, first) + served(turned(ids, first), more);
    assert forall|k: int| 0 <= k < all.len() implies all[k] == parts[k] by {
        if k >= first {
            lemma_turned_add(ids, first, (k - first) as nat);
        }
    }
    assert(all =~= parts);
}

/// Rotation within one message: a pool stays a pool of the same handles;
/// each dispatch is one cycle, which serves the handle then at the front, so
/// the workers dispatched to are the handles served, in the same order, and
/// the rotation has been turned once for each dispatch.
pub proof fn lemma_handle_rotation(state: State, links: Seq<Seq<char>>)
    requires
        state.wf(),
    ensures
        state.handle(links).0.wf(),
        state.handle(links).0.rotation == turned(state.rotation, state.handle(links).1.len()),
        workers_of(state.handle(links).1) == served(state.rotation, state.handle(links).1.len()),
    decreases links.len(),
{
    let (end, dispatches) = state.handle(links);
    if links.len() == 0 {
        assert(workers_of(dispatches) =~= served(state.rotation, 0));
    } else {
        lemma_handle_rotation(state, links.drop_last());
        let (mid, made) = state.handle(links.drop_last());
        let (next, dispatch) = mid.visit(links.last());
        lemma_visit_keeps(mid, links.last());
        match dispatch {
            Some(item) => {
                assert(dispatches == made.push(item));
                let workers = workers_of(dispatches);
                let handles = served(state.rotation, dispatches.len());
                assert forall|k: int| 0 <= k < workers.len() implies workers[k] == handles[k] by {
                    if k < made.len() {
                        assert(workers_of(made)[k] == served(state.rotation, made.len())[k]);
                    }
                }
                assert(workers =~= handles);
            },
            None => {},
        }
    }
}

/// Rotation over a run: for every sequence of result messages, the
/// rotation holds the same handles as before, each once; the workers
/// dispatched to are, in the same order, the handles that the dispatch cycles
/// took off the front and put to the back, so each handle was turned exactly
/// as often as it was dispatched to; and the rotation has been turned once
/// for each dispatch.
pub proof fn lemma_run_rotation(state: State, messages: Seq<Seq<Seq<char>>>)
    requires
        state.wf(),
    ensures
        state.run(messages).0.wf(),
        state.run(messages).0.rotation.len() == state.rotation.len(),
        state.run(messages).0.rotation.to_set() == state.rotation.to_set(),
        state.run(messages).0.rotation == turned(state.rotation, state.run(messages).1.len()),
        workers_of(state.run(messages).1) == served(state.rotation, state.run(messages).1.len()),
        forall|worker: nat|
            workers_of(state.run(messages).1).to_multiset().count(worker) == served(
                state.rotation,
                state.run(messages).1.len(),
            ).to_multiset().count(worker),
    decreases messages.len(),
{
    let (end, dispatches) = state.run(messages);
    if messages.len() == 0 {
        assert(workers_of(dispatches) =~= served(state.rotation, 0));
    } else {
        lemma_run_rotation(state, messages.drop_last());
        let (mid, made) = state.run(messages.drop_last());
        lemma_handle_rotation(mid, messages.last());
        let (next, more) = mid.handle(messages.last());
        assert(dispatches == made + more);
        lemma_urls_of_add(made, more);
        lemma_turned_add(state.rotation, made.len(), more.len());
        lemma_served_add(state.rotation, made.len(), more.len());
    }
    lemma_turned_keeps_pool(state.rotation, dispatches.len());
}

/// Round robin over a run: the `k`-th dispatch that a sequence of result
/// messages causes goes to the handle that stood `k` places from the front,
/// counted round the pool.
pub proof fn lemma_run_round_robin(state: State, messages: Seq<Seq<Seq<char>>>, k: int)
    requires
        state.wf(),
        0 <= k < state.run(messages).1.len(),
    ensures
        state.run(messages).1[k].worker == state.rotation[k % (state.rotation.len() as int)],
{
    lemma_run_rotation(state, messages);
    let dispatches = state.run(messages).1;
    assert(workers_of(dispatches)[k] == dispatches[k].worker);
    assert(served(state.rotation, dispatches.len())[k] == turned(state.rotation, k as nat)[0]);
    lemma_turned_index(state.rotation, k as nat, 0);
}

/// The target stays the same, and once seen it stays seen, over every
/// message.
pub proof fn lemma_handle_keeps(state: State, links: Seq<Seq<char>>)
    ensures
        state.handle(links).0.target == state.target,
        state.found ==> state.handle(links).0.found,
    decreases links.len(),
{
    if links.len() > 0 {
        lemma_handle_keeps(state, links.drop_last());
        lemma_visit_keeps(state.handle(links.drop_last()).0, links.last());
    }
}

/// The target stays the same, and once seen it stays seen, over every run.
pub proof fn lemma_run_keeps(state: State, messages: Seq<Seq<Seq<char>>>)
    ensures
        state.run(messages).0.target == state.target,
        state.found ==> state.run(messages).0.found,
    decreases messages.len(),
{
    if messages.len() > 0 {
        lemma_run_keeps(state, messages.drop_last());
        lemma_handle_keeps(state.run(messages.drop_last()).0, messages.last());
    }
}

/// While the target has not been seen, a message makes it seen exactly if
/// it holds the target.
pub proof fn lemma_handle_finds(state: State, links: Seq<Seq<char>>)
    requires
        !state.found,
    ensures
        state.handle(links).0.found <==> links.contains(state.target),
    decreases links.len(),
{
    if links.len() > 0 {
        let first = links.drop_last();
        lemma_handle_finds(state, first);
        lemma_handle_keeps(state, first);
        let mid = state.handle(first).0;
        if first.contains(state.target) {
            let i = choose|i: int| 0 <= i < first.len() && first[i] == state.target;
            assert(links[i] == state.target);
            lemma_visit_keeps(mid, links.last());
        } else if links.last() == state.target {
            assert(links[links.len() - 1] == state.target);
        } else {
            assert forall|i: int| 0 <= i < links.len() implies links[i] != state.target by {
                if i < first.len() {
                    assert(first[i] == links[i]);
                }
            }
        }
    }
}

/// A message without the target, handled while the target has not been
/// seen, leaves none of its links out: afterwards each of them is visited,
/// and those dispatched are exactly those that were not visited before.
pub proof fn lemma_handle_visits_every_link(state: State, links: Seq<Seq<char>>)
    requires
        !state.found,
        !links.contains(state.target),
    ensures
        state.handle(links).0.visited == state.visited.union(links.to_set()),
        urls_of(state.handle(links).1).to_set() == links.to_set().difference(state.visited),
    decreases links.len(),
{
    let (end, dispatches) = state.handle(links);
    lemma_handle_dedup(state, links);
    if links.len() == 0 {
        assert(links.to_set() =~= Set::<Seq<char>>::empty());
        assert(end.visited =~= state.visited.union(links.to_set()));
    } else {
        let first = links.drop_last();
        assert forall|i: int| 0 <= i < first.len() implies first[i] != state.target by {
            assert(links[i] == first[i]);
        }
        lemma_handle_visits_every_link(state, first);
        lemma_handle_finds(state, first);
        lemma_handle_keeps(state, first);
        assert(links[links.len() - 1] != state.target);
        assert forall|url: Seq<char>| links.to_set().contains(url) == (first.to_set().contains(url)
            || url == links.last()) by {
            if first.to_set().contains(url) {
                let i = choose|i: int| 0 <= i < first.len() && first[i] == url;
                assert(links[i] == url);
            }
            if links.to_set().contains(url) {
                let i = choose|i: int| 0 <= i < links.len() && links[i] == url;
                if i < first.len() {
                    assert(first[i] == url);
                }
            }
        }
        assert(end.visited =~= state.visited.union(links.to_set()));
    }
    let made = urls_of(dispatches).to_set();
    assert forall|url: Seq<char>| made.contains(url) == (links.to_set().contains(url)
        && !state.visited.contains(url)) by {
        assert(end.visited.contains(url) == (state.visited.contains(url) || made.contains(url)));
        assert(end.visited.contains(url) == (state.visited.contains(url) || links.to_set().contains(
            url,
        )));
        if made.contains(url) {
            let i = choose|i: int| 0 <= i < dispatches.len() && urls_of(dispatches)[i] == url;
            assert(!state.visited.contains(state.handle(links).1[i].url));
        }
    }
    assert(made =~= links.to_set().difference(state.visited));
}

/// Short circuit within a message: where the target stands at `at` and not
/// before, the message does what its links before `at` do, and the target is
/// seen. No link behind the target is visited or dispatched.
pub proof fn lemma_handle_stops_at_target(state: State, links: Seq<Seq<char>>, at: int)
    requires
        !state.found,
        0 <= at < links.len(),
        links[at] == state.target,
        forall|i: int| 0 <= i < at ==> links[i] != state.target,
    ensures
        state.handle(links) == ({
            let (before, dispatches) = state.handle(links.take(at));
            (State { found: true, ..before }, dispatches)
        }),
{
    let head = links.take(at);
    let (before, dispatches) = state.handle(head);
    assert(!head.contains(state.target));
    lemma_handle_finds(state, head);
    lemma_handle_keeps(state, head);
    let upto = links.take(at + 1);
    assert(upto.drop_last() =~= head);
    assert(upto.last() == state.target);
    let seen = State { found: true, ..before };
    assert(state.handle(upto) == (seen, dispatches));
    crate::model::lemma_handle_split(state, upto, links.skip(at + 1));
    lemma_handle_after_found(seen, links.skip(at + 1));
    assert(upto + links.skip(at + 1) =~= links);
    assert(dispatches + Seq::<DispatchView>::empty() =~= dispatches);
}

/// Once the target has been seen, no sequence of result messages changes
/// anything or causes a dispatch.
pub proof fn lemma_run_after_found(state: State, messages: Seq<Seq<Seq<char>>>)
    requires
        state.found,
    ensures
        state.run(messages) == (state, Seq::<DispatchView>::empty()),
    decreases messages.len(),
{
    if messages.len() > 0 {
        lemma_run_after_found(state, messages.drop_last());
        lemma_handle_after_found(state, messages.last());
    }
}

/// Success is reported once: if the search succeeds in the message at `at`,
/// it succeeds in no later message of the run, and no later message causes a
/// dispatch.
pub proof fn lemma_success_is_final(
    state: State,
    messages: Seq<Seq<Seq<char>>>,
    at: int,
    later: int,
)
    requires
        0 <= at < later < messages.len(),
        succeeds(state.run(messages.take(at)).0, messages[at]),
    ensures
        !succeeds(state.run(messages.take(later)).0, messages[later]),
        state.run(messages.take(later)).0.handle(messages[later]).1.len() == 0,
{
    let upto = messages.take(at + 1);
    assert(upto.drop_last() =~= messages.take(at));
    assert(upto.last() == messages[at]);
    let seen = state.run(upto).0;
    assert(seen.found);
    lemma_run_split(state, upto, messages.subrange(at + 1, later));
    assert(upto + messages.subrange(at + 1, later) =~= messages.take(later));
    lemma_run_after_found(seen, messages.subrange(at + 1, later));
    lemma_handle_after_found(seen, messages[later]);
}

/// Running over messages is running over the first of them and then over
/// the rest.
pub proof fn lemma_run_split(
    state: State,
    first: Seq<Seq<Seq<char>>>,
    rest: Seq<Seq<Seq<char>>>,
)
    ensures
        state.run(first + rest) == ({
            let (mid, dispatches) = state.run(first);
            let (end, more) = mid.run(rest);
            (end, dispatches + more)
        }),
    decreases rest.len(),
{
    let (mid, dispatches) = state.run(first);
    if rest.len() == 0 {
        assert(first + rest =~= first);
        assert(dispatches + Seq::<DispatchView>::empty() =~= dispatches);
    } else {
        lemma_run_split(state, first, rest.drop_last());
        assert((first + rest).drop_last() =~= first + rest.drop_last());
        assert((first + rest).last() == rest.last());
        let (before, some) = mid.run(rest.drop_last());
        let (end, more) = before.handle(rest.last());
        assert((dispatches + some) + more =~= dispatches + (some + more));
    }
}

/// A failed fetch at the coordinator: an empty result message, which is
/// what a failed fetch gives, changes nothing and causes no dispatch, so the
/// messages after it are handled as if it had not come.
pub proof fn lemma_empty_message_is_skipped(
    state: State,
    before: Seq<Seq<Seq<char>>>,
    after: Seq<Seq<Seq<char>>>,
)
    ensures
        state.handle(Seq::empty()) == (state, Seq::<DispatchView>::empty()),
        state.run(before + seq![Seq::<Seq<char>>::empty()] + after) == state.run(before + after),
{
    let empty = Seq::<Seq<char>>::empty();
    let (mid, dispatches) = state.run(before);
    let with = before + seq![empty];
    assert(with.drop_last() =~= before);
    assert(with.last() == empty);
    assert(dispatches + Seq::<DispatchView>::empty() =~= dispatches);
    assert(state.run(with) == (mid, dispatches));
    lemma_run_split(state, with, after);
    lemma_run_split(state, before, after);
}

} // verus!
