//! What holds of the streaming whatever happens.

use vstd::prelude::*;
use crate::chunk_manager::{ChunkLoadTask, TaskOutput};
use crate::config::{desired, StreamConfig};
use crate::keys::{ChunkKey, Viewpoint};
use crate::seq_facts::lemma_filter_keeps_distinct;
use crate::stream_view::{live_task, ticked, StreamView};

verus! {

/// No layer is pending and resident at once. In a well-formed state a
/// resident layer has a handle and a pending one has none.
pub proof fn lemma_pending_excludes_resident(state: StreamView, key: ChunkKey)
    ensures
        !(state.is_pending(key) && state.is_resident(key)),
        state.wf() && state.is_pending(key) ==> state.records[key].handle is None,
        state.wf() && state.is_resident(key) ==> state.records[key].handle is Some,
{
}

/// For a pending layer exactly one piece of work is awaited, and for any
/// other layer none: the queue never holds two pieces of work for one
/// layer unless all but one are abandoned.
pub proof fn lemma_one_task_for_a_pending_layer(state: StreamView, key: ChunkKey)
    requires
        state.wf(),
    ensures
        state.is_pending(key) <==> state.queue.contains(live_task(key)),
        forall|i: int, j: int|
            0 <= i < state.queue.len() && 0 <= j < state.queue.len() && state.queue[i]
                == live_task(key) && state.queue[j] == live_task(key) ==> i == j,
{
    if state.queue.contains(live_task(key)) {
        let i = choose|i: int| 0 <= i < state.queue.len() && state.queue[i] == live_task(key);
        assert(!state.queue[i].abandoned);
    }
    assert forall|i: int, j: int|
        0 <= i < state.queue.len() && 0 <= j < state.queue.len() && state.queue[i] == live_task(
            key,
        ) && state.queue[j] == live_task(key) implies i == j by {
        if i < j {
            assert(!state.queue[i].abandoned && !state.queue[j].abandoned);
        }
        if j < i {
            assert(!state.queue[j].abandoned && !state.queue[i].abandoned);
        }
    }
}

/// A tick never starts a layer that has a record, pending or resident, and
/// starts no layer twice: the work that is awaited for a pending layer
/// stays the only such work.
pub proof fn lemma_no_second_dispatch(
    before: StreamView,
    after: StreamView,
    viewpoint: Viewpoint,
    config: StreamConfig,
    despawn: Seq<u64>,
    dispatch: Seq<ChunkKey>,
    key: ChunkKey,
)
    requires
        ticked(before, after, viewpoint, config, despawn, dispatch),
        before.is_pending(key) || before.is_resident(key),
    ensures
        !dispatch.contains(key),
        forall|i: int, j: int| 0 <= i < j < dispatch.len() ==> dispatch[i] != dispatch[j],
{
    assert forall|i: int, j: int| 0 <= i < j < dispatch.len()
        implies dispatch[i] != dispatch[j] by {
        assert(dispatch[i].before(dispatch[j]));
    }
}

/// A resident layer that has left the range is gone after the tick, and its
/// handle stands in the list of handles to take down exactly once. No layer
/// holds that handle after the tick, and it is below the handles that are
/// still to be given out, so it is never taken down again.
pub proof fn lemma_eviction_takes_down_once(
    before: StreamView,
    after: StreamView,
    viewpoint: Viewpoint,
    config: StreamConfig,
    despawn: Seq<u64>,
    dispatch: Seq<ChunkKey>,
    key: ChunkKey,
)
    requires
        before.wf(),
        ticked(before, after, viewpoint, config, despawn, dispatch),
        before.is_resident(key),
        !desired(key, viewpoint, config),
    ensures
        !after.records.contains_key(key),
        exists|i: int| 0 <= i < despawn.len() && despawn[i] == before.handle(key),
        forall|i: int, j: int|
            0 <= i < despawn.len() && 0 <= j < despawn.len() && despawn[i] == before.handle(key)
                && despawn[j] == before.handle(key) ==> i == j,
        forall|k: ChunkKey| #[trigger] after.is_resident(k)
            ==> after.handle(k) != before.handle(key),
        before.handle(key) < after.next_handle,
{
    assert forall|k: ChunkKey| #[trigger] after.is_resident(k)
        implies after.handle(k) != before.handle(key) by {
        assert(before.is_resident(k));
    }
    let gone = before.leaves_shown(viewpoint, config);
    let leaving = before.keys.filter(gone);
    assert(before.keys.contains(key));
    let at = choose|at: int| 0 <= at < before.keys.len() && before.keys[at] == key;
    before.keys.lemma_filter_contains(gone, at);
    let i = choose|i: int| 0 <= i < leaving.len() && leaving[i] == key;
    assert(despawn[i] == before.handle(key));
    assert forall|a: int, b: int|
        0 <= a < despawn.len() && 0 <= b < despawn.len() && despawn[a] == before.handle(key)
            && despawn[b] == before.handle(key) implies a == b by {
        lemma_evicted_keys(before, viewpoint, config, a);
        lemma_evicted_keys(before, viewpoint, config, b);
        lemma_filter_keeps_distinct(before.keys, gone);
        assert(before.is_resident(leaving[a]) && before.is_resident(leaving[b]));
    }
}

/// Every handle that a tick takes down is the handle of a resident layer
/// that has left the range.
pub proof fn lemma_evicted_keys(
    before: StreamView,
    viewpoint: Viewpoint,
    config: StreamConfig,
    i: int,
)
    requires
        0 <= i < before.evicted_handles(viewpoint, config).len(),
    ensures
        ({
            let key = before.keys.filter(before.leaves_shown(viewpoint, config))[i];
            &&& before.is_resident(key)
            &&& !desired(key, viewpoint, config)
            &&& before.evicted_handles(viewpoint, config)[i] == before.handle(key)
        }),
{
    before.keys.lemma_filter_pred(before.leaves_shown(viewpoint, config), i);
}

/// A layer that has left the range has no record after the tick, whether
/// it was resident or pending. A pending one had no handle to take down,
/// and all work for it is abandoned after the tick.
pub proof fn lemma_eviction_is_complete(
    before: StreamView,
    after: StreamView,
    viewpoint: Viewpoint,
    config: StreamConfig,
    despawn: Seq<u64>,
    dispatch: Seq<ChunkKey>,
    key: ChunkKey,
)
    requires
        before.wf(),
        ticked(before, after, viewpoint, config, despawn, dispatch),
        !desired(key, viewpoint, config),
    ensures
        !after.records.contains_key(key),
        !after.is_pending(key) && !after.is_resident(key),
        before.is_pending(key) ==> before.records[key].handle is None,
        forall|i: int|
            0 <= i < after.queue.len() && (#[trigger] after.queue[i]).key == key
                ==> after.queue[i].abandoned,
{
    assert forall|i: int|
        0 <= i < after.queue.len() && (#[trigger] after.queue[i]).key == key
            implies after.queue[i].abandoned by {
        if i >= before.queue.len() {
            let at = i - before.queue.len();
            assert(dispatch.contains(dispatch[at]));
        }
    }
}

/// What abandoned work yields is thrown away: taking its result in changes
/// nothing and hands nothing out.
pub proof fn lemma_abandoned_yield_is_dropped(
    start: StreamView,
    results: Seq<Option<TaskOutput>>,
    n: int,
    fullbright: bool,
)
    requires
        0 < n <= start.queue.len(),
        start.queue[n - 1].abandoned,
    ensures
        start.polled(results, n) == start.polled(results, n - 1),
        start.spawned(results, n, fullbright) == start.spawned(results, n - 1, fullbright),
{
}

/// While results are taken in, the record of a layer stays as it is until
/// the result of the work that is awaited for it is taken in.
pub proof fn lemma_waiting_layer_is_untouched(
    start: StreamView,
    results: Seq<Option<TaskOutput>>,
    n: int,
    j: int,
)
    requires
        start.wf(),
        0 <= n <= j < start.queue.len(),
        !start.queue[j].abandoned,
    ensures
        start.polled(results, n).is_pending(start.queue[j].key),
    decreases n,
{
    if n > 0 {
        lemma_waiting_layer_is_untouched(start, results, n - 1, j);
        assert(!start.queue[n - 1].abandoned ==> start.queue[n - 1].key != start.queue[j].key);
    }
}

/// Work that is awaited and has ended is never in vain: once its result has
/// been taken in, its layer is resident and holds the cells that the work
/// has yielded.
pub proof fn lemma_finished_work_is_installed(
    start: StreamView,
    results: Seq<Option<TaskOutput>>,
    n: int,
    j: int,
)
    requires
        start.wf(),
        0 <= j < n <= start.queue.len(),
        !start.queue[j].abandoned,
        results[j] is Some,
    ensures
        start.polled(results, n).is_resident(start.queue[j].key),
        start.polled(results, n).records[start.queue[j].key].grid == Some(
            results[j]->Some_0.chunk,
        ),
    decreases n,
{
    if n == j + 1 {
        lemma_waiting_layer_is_untouched(start, results, j, j);
    } else {
        lemma_finished_work_is_installed(start, results, n - 1, j);
    }
}

/// Taking results in makes no record and drops none, and leaves resident
/// layers as they are.
pub proof fn lemma_polling_keeps_the_keys(
    start: StreamView,
    results: Seq<Option<TaskOutput>>,
    n: int,
    key: ChunkKey,
)
    ensures
        start.polled(results, n).records.contains_key(key) == start.records.contains_key(key),
        start.is_resident(key) ==> start.polled(results, n).records[key] == start.records[key],
        start.next_handle <= start.polled(results, n).next_handle,
    decreases n,
{
    if n > 0 {
        lemma_polling_keeps_the_keys(start, results, n - 1, key);
    }
}

/// The surfaces handed out while results are taken in carry the handles
/// from the next one on, counted up by one, and the next handle moves on by
/// their number.
pub proof fn lemma_handles_count_up(
    start: StreamView,
    results: Seq<Option<TaskOutput>>,
    n: int,
    fullbright: bool,
)
    requires
        0 <= start.next_handle,
        0 <= n,
        start.next_handle + n <= u64::MAX,
    ensures
        start.spawned(results, n, fullbright).len() <= n,
        start.polled(results, n).next_handle == start.next_handle + start.spawned(
            results,
            n,
            fullbright,
        ).len(),
        forall|a: int|
            0 <= a < start.spawned(results, n, fullbright).len() ==> (#[trigger] start.spawned(
                results,
                n,
                fullbright,
            )[a]).handle == start.next_handle + a,
    decreases n,
{
    if n > 0 {
        lemma_handles_count_up(start, results, n - 1, fullbright);
    }
}

/// Handles are given out in growing order: whatever becomes resident while
/// results are taken in gets a handle that no layer had before.
pub proof fn lemma_new_handles_are_fresh(
    start: StreamView,
    results: Seq<Option<TaskOutput>>,
    n: int,
    key: ChunkKey,
)
    requires
        start.wf(),
        start.polled(results, n).is_resident(key),
        !start.is_resident(key),
        start.polled(results, n).next_handle <= u64::MAX,
    ensures
        start.next_handle <= start.polled(results, n).handle(key) < start.polled(
            results,
            n,
        ).next_handle,
    decreases n,
{
    if n > 0 {
        let earlier = start.polled(results, n - 1);
        lemma_polling_keeps_the_keys(start, results, n - 1, key);
        lemma_polling_keeps_the_keys(start, results, n, key);
        if earlier.is_resident(key) {
            lemma_new_handles_are_fresh(start, results, n - 1, key);
            match results[n - 1] {
                Some(output) => {
                    let task: ChunkLoadTask = start.queue[n - 1];
                    assert(task.key != key || !earlier.takes(task));
                },
                None => {},
            }
        }
    }
}

} // verus!
