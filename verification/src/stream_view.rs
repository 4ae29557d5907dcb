//! The state of the streaming as mathematical values, and what each step
//! of the streaming does to it.

use vstd::prelude::*;
use crate::chunk_manager::{ChunkLoadTask, MaterialParams, SpawnAction, TaskOutput};
use crate::config::{desired, StreamConfig};
use crate::keys::{ChunkKey, Viewpoint};
use crate::registry::{ChunkRecord, Lifecycle};
use crate::voxel::Chunk;

verus! {

/// The state of the streaming as mathematical values.
pub struct StreamView {
    /// The record of each layer that is pending or resident.
    pub records: Map<ChunkKey, ChunkRecord>,
    /// The keys of the records, in the order in which they were asked for.
    pub keys: Seq<ChunkKey>,
    /// The work under way, oldest first.
    pub queue: Seq<ChunkLoadTask>,
    /// The handle that is given out next.
    pub next_handle: int,
}

impl StreamView {
    /// Whether the layer is resident.
    pub open spec fn is_resident(self, key: ChunkKey) -> bool {
        self.records.contains_key(key) && self.records[key].state == Lifecycle::Resident
    }

    /// Whether the layer is pending.
    pub open spec fn is_pending(self, key: ChunkKey) -> bool {
        self.records.contains_key(key) && self.records[key].state == Lifecycle::Pending
    }

    /// The handle of a resident layer.
    pub open spec fn handle(self, key: ChunkKey) -> u64 {
        self.records[key].handle->Some_0
    }

    /// What always holds of the records:
    /// every record is well formed and stands under its own key;
    /// `keys` lists the keys of the records, each once;
    /// and the handles of resident layers differ from each other and have
    /// all been given out already.
    pub open spec fn records_wf(self) -> bool {
        &&& forall|k: ChunkKey| #[trigger]
            self.records.contains_key(k) ==> self.records[k].key == k && self.records[k].wf()
        &&& self.keys.no_duplicates()
        &&& forall|k: ChunkKey| #[trigger] self.keys.contains(k) <==> self.records.contains_key(k)
        &&& forall|k: ChunkKey| #[trigger] self.is_resident(k) ==> self.handle(k) < self.next_handle
        &&& forall|a: ChunkKey, b: ChunkKey|
            #![trigger self.is_resident(a), self.is_resident(b)]
            self.is_resident(a) && self.is_resident(b) && a != b ==> self.handle(a)
                != self.handle(b)
        &&& 0 <= self.next_handle <= u64::MAX
    }

    /// What always holds of the work under way: work that is not abandoned
    /// is the work for a pending layer, no two such pieces of work are for
    /// the same layer, and for every pending layer there is one.
    pub open spec fn queue_wf(self) -> bool {
        &&& forall|i: int|
            0 <= i < self.queue.len() && !(#[trigger] self.queue[i]).abandoned ==> self.is_pending(
                self.queue[i].key,
            )
        &&& forall|i: int, j: int|
            0 <= i < j < self.queue.len() && !(#[trigger] self.queue[i]).abandoned && !(
            #[trigger] self.queue[j]).abandoned ==> self.queue[i].key != self.queue[j].key
        &&& forall|k: ChunkKey| #[trigger] self.is_pending(k) ==> self.queue.contains(live_task(k))
    }

    /// What always holds of the state.
    pub open spec fn wf(self) -> bool {
        self.records_wf() && self.queue_wf()
    }

    /// Whether the layer leaves the range while its surface is shown.
    pub open spec fn leaves_shown(self, viewpoint: Viewpoint, config: StreamConfig) -> spec_fn(
        ChunkKey,
    ) -> bool {
        |k: ChunkKey| !desired(k, viewpoint, config) && self.is_resident(k)
    }

    /// The handle of a layer, as a function.
    pub open spec fn handle_of(self) -> spec_fn(ChunkKey) -> u64 {
        |k: ChunkKey| self.handle(k)
    }

    /// The handles to take down when the viewer is at `viewpoint`: those of
    /// the resident layers out of range, in the order of `keys`.
    pub open spec fn evicted_handles(self, viewpoint: Viewpoint, config: StreamConfig) -> Seq<u64> {
        self.keys.filter(self.leaves_shown(viewpoint, config)).map_values(self.handle_of())
    }

    /// The cells of the chunk in column `(chunk_x, chunk_z)`, as far as the
    /// records hold them: those of its lowest resident layer.
    pub open spec fn column_grid(self, chunk_x: int, chunk_z: int) -> Option<Chunk> {
        if self.is_resident(key_at(chunk_x, chunk_z, 0)) {
            self.records[key_at(chunk_x, chunk_z, 0)].grid
        } else if self.is_resident(key_at(chunk_x, chunk_z, 1)) {
            self.records[key_at(chunk_x, chunk_z, 1)].grid
        } else if self.is_resident(key_at(chunk_x, chunk_z, 2)) {
            self.records[key_at(chunk_x, chunk_z, 2)].grid
        } else {
            None
        }
    }

    /// Whether the yield of the work `task` is taken: the work has not been
    /// abandoned, and its layer is pending.
    pub open spec fn takes(self, task: ChunkLoadTask) -> bool {
        !task.abandoned && self.is_pending(task.key)
    }

    /// The state after the work `task` has ended with the cells `chunk`.
    /// Where the yield is taken the layer becomes resident, with those
    /// cells and under the next handle. Where it is not, nothing changes.
    /// The queue is not touched here.
    pub open spec fn integrated(self, task: ChunkLoadTask, chunk: Chunk) -> StreamView {
        if self.takes(task) {
            StreamView {
                records: self.records.insert(
                    task.key,
                    ChunkRecord::resident_spec(task.key, self.next_handle as u64, chunk),
                ),
                keys: self.keys,
                queue: self.queue,
                next_handle: self.next_handle + 1,
            }
        } else {
            self
        }
    }

    /// What is handed out when the work for the pending layer `key` has
    /// ended with `output`.
    pub open spec fn spawn_for(self, key: ChunkKey, output: TaskOutput, fullbright: bool)
        -> SpawnAction {
        SpawnAction {
            handle: self.next_handle as u64,
            key,
            placement: key.placement_spec(),
            mesh: output.mesh,
            material: material_for(fullbright),
        }
    }

    /// The state after the first `n` results have been taken in, one after
    /// the other; result number `i` belongs to the work number `i` of the
    /// queue, and `None` says that this work still runs.
    pub open spec fn polled(self, results: Seq<Option<TaskOutput>>, n: int) -> StreamView
        decreases n,
    {
        if n <= 0 {
            self
        } else {
            let earlier = self.polled(results, n - 1);
            match results[n - 1] {
                Some(output) => earlier.integrated(self.queue[n - 1], output.chunk),
                None => earlier,
            }
        }
    }

    /// What is handed out while the first `n` results are taken in.
    pub open spec fn spawned(self, results: Seq<Option<TaskOutput>>, n: int, fullbright: bool)
        -> Seq<
        SpawnAction,
    >
        decreases n,
    {
        if n <= 0 {
            Seq::empty()
        } else {
            let earlier = self.polled(results, n - 1);
            let actions = self.spawned(results, n - 1, fullbright);
            match results[n - 1] {
                Some(output) => if earlier.takes(self.queue[n - 1]) {
                    actions.push(earlier.spawn_for(self.queue[n - 1].key, output, fullbright))
                } else {
                    actions
                },
                None => actions,
            }
        }
    }

    /// The work that still runs among the first `n` pieces, in its order.
    pub open spec fn still_running(self, results: Seq<Option<TaskOutput>>, n: int) -> Seq<
        ChunkLoadTask,
    >
        decreases n,
    {
        if n <= 0 {
            Seq::empty()
        } else {
            let earlier = self.still_running(results, n - 1);
            if results[n - 1] is None {
                earlier.push(self.queue[n - 1])
            } else {
                earlier
            }
        }
    }
}

/// What one tick does for a viewer at `viewpoint`: how the state `after`
/// and the two lists of actions follow from the state `before`.
///
/// The handles to take down are those of the resident layers out of range.
/// The layers to start are those in range without a record, in the order
/// of their keys. Afterwards the records are those of the layers in range:
/// the old ones unchanged, the new ones pending. The work for every layer
/// out of range is abandoned, and work for each layer started is added to
/// the queue.
pub open spec fn ticked(
    before: StreamView,
    after: StreamView,
    viewpoint: Viewpoint,
    config: StreamConfig,
    despawn: Seq<u64>,
    dispatch: Seq<ChunkKey>,
) -> bool {
    &&& despawn == before.evicted_handles(viewpoint, config)
    &&& forall|i: int, j: int|
        0 <= i < j < dispatch.len() ==> (#[trigger] dispatch[i]).before(#[trigger] dispatch[j])
    &&& forall|k: ChunkKey| #[trigger]
        dispatch.contains(k) <==> desired(k, viewpoint, config) && !before.records.contains_key(k)
    &&& forall|k: ChunkKey| #[trigger]
        after.records.contains_key(k) <==> desired(k, viewpoint, config)
    &&& forall|k: ChunkKey| #[trigger]
        after.records.contains_key(k) ==> after.records[k] == if before.records.contains_key(k) {
            before.records[k]
        } else {
            ChunkRecord::pending_spec(k)
        }
    &&& after.keys == before.keys.filter(wanted(viewpoint, config)) + dispatch
    &&& after.queue == before.queue.map_values(abandon_unwanted(viewpoint, config))
        + dispatch.map_values(live_tasks())
    &&& after.next_handle == before.next_handle
}

/// Whether a key is in range, as a function.
pub open spec fn wanted(viewpoint: Viewpoint, config: StreamConfig) -> spec_fn(ChunkKey) -> bool {
    |k: ChunkKey| desired(k, viewpoint, config)
}

/// The work for the layer `key`, not abandoned.
pub open spec fn live_task(key: ChunkKey) -> ChunkLoadTask {
    ChunkLoadTask { key, abandoned: false }
}

/// `live_task` as a function.
pub open spec fn live_tasks() -> spec_fn(ChunkKey) -> ChunkLoadTask {
    |k: ChunkKey| live_task(k)
}

/// What a tick does to a piece of work: work for a layer out of range is
/// abandoned, and abandoned work stays so.
pub open spec fn abandon_unwanted(viewpoint: Viewpoint, config: StreamConfig) -> spec_fn(
    ChunkLoadTask,
) -> ChunkLoadTask {
    |t: ChunkLoadTask|
        ChunkLoadTask { key: t.key, abandoned: t.abandoned || !desired(t.key, viewpoint, config) }
}

/// How a surface is shaded: with full brightness on it is drawn without
/// lighting and glows by itself. The geometry never depends on this.
pub open spec fn material_for(fullbright: bool) -> MaterialParams {
    MaterialParams { unlit: fullbright, emissive: fullbright }
}

/// The key of layer `layer` of the column `(chunk_x, chunk_z)`.
pub open spec fn key_at(chunk_x: int, chunk_z: int, layer: int) -> ChunkKey {
    ChunkKey { chunk_x: chunk_x as i32, chunk_z: chunk_z as i32, vertical_layer: layer as i32 }
}

/// Whether the column `c` lies next to the column `(chunk_x, chunk_z)`,
/// across one of its four sides.
pub open spec fn beside(c: (int, int), chunk_x: int, chunk_z: int) -> bool {
    ||| c == (chunk_x - 1, chunk_z)
    ||| c == (chunk_x + 1, chunk_z)
    ||| c == (chunk_x, chunk_z - 1)
    ||| c == (chunk_x, chunk_z + 1)
}

/// Taking results in leaves the queue and the keys as they are.
pub proof fn lemma_polled_keeps_queue(start: StreamView, results: Seq<Option<TaskOutput>>, n: int)
    ensures
        start.polled(results, n).queue == start.queue,
        start.polled(results, n).keys == start.keys,
    decreases n,
{
    if n > 0 {
        lemma_polled_keeps_queue(start, results, n - 1);
    }
}

/// Work that still runs is among the work that stays in the queue.
pub proof fn lemma_still_running_holds(
    start: StreamView,
    results: Seq<Option<TaskOutput>>,
    n: int,
    j: int,
)
    requires
        0 <= j < n,
        results[j] is None,
    ensures
        start.still_running(results, n).contains(start.queue[j]),
    decreases n,
{
    let earlier = start.still_running(results, n - 1);
    if j == n - 1 {
        assert(earlier.push(start.queue[j])[earlier.len() as int] == start.queue[j]);
    } else {
        lemma_still_running_holds(start, results, n - 1, j);
        let at = choose|at: int| 0 <= at < earlier.len() && earlier[at] == start.queue[j];
        if results[n - 1] is None {
            assert(earlier.push(start.queue[n - 1])[at] == start.queue[j]);
        }
    }
}

/// All work that stays in the queue is work of the queue that still runs.
pub proof fn lemma_still_running_source(
    start: StreamView,
    results: Seq<Option<TaskOutput>>,
    n: int,
    a: int,
)
    requires
        0 <= a < start.still_running(results, n).len(),
    ensures
        exists|j: int|
            0 <= j < n && results[j] is None && start.queue[j] == start.still_running(
                results,
                n,
            )[a],
    decreases n,
{
    if n > 0 {
        let earlier = start.still_running(results, n - 1);
        if a < earlier.len() {
            lemma_still_running_source(start, results, n - 1, a);
            let j = choose|j: int|
                0 <= j < n - 1 && results[j] is None && start.queue[j] == earlier[a];
            assert(0 <= j < n && results[j] is None && start.queue[j] == start.still_running(
                results,
                n,
            )[a]);
        } else {
            assert(results[n - 1] is None && start.queue[n - 1] == start.still_running(
                results,
                n,
            )[a]);
        }
    }
}

/// Where no two pieces of work that are not abandoned are for the same
/// layer, that holds of the work that stays in the queue too.
pub proof fn lemma_still_running_keeps_apart(
    start: StreamView,
    results: Seq<Option<TaskOutput>>,
    n: int,
)
    requires
        0 <= n <= start.queue.len(),
        forall|i: int, j: int|
            0 <= i < j < start.queue.len() && !(#[trigger] start.queue[i]).abandoned && !(
            #[trigger] start.queue[j]).abandoned ==> start.queue[i].key != start.queue[j].key,
    ensures
        forall|a: int, b: int|
            0 <= a < b < start.still_running(results, n).len() && !(
            #[trigger] start.still_running(results, n)[a]).abandoned && !(
            #[trigger] start.still_running(results, n)[b]).abandoned ==> start.still_running(
                results,
                n,
            )[a].key != start.still_running(results, n)[b].key,
    decreases n,
{
    if n > 0 {
        let earlier = start.still_running(results, n - 1);
        let now = start.still_running(results, n);
        lemma_still_running_keeps_apart(start, results, n - 1);
        assert forall|a: int, b: int|
            0 <= a < b < now.len() && !(#[trigger] now[a]).abandoned && !(
            #[trigger] now[b]).abandoned implies now[a].key != now[b].key by {
            if b < earlier.len() {
                assert(earlier[a] == now[a] && earlier[b] == now[b]);
            } else {
                lemma_still_running_source(start, results, n - 1, a);
                let j = choose|j: int|
                    0 <= j < n - 1 && results[j] is None && start.queue[j] == earlier[a];
                assert(start.queue[j] == now[a]);
                assert(start.queue[n - 1] == now[b]);
            }
        }
    }
}

} // verus!
