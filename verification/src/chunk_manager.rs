//! The streaming of chunk layers around the viewer.
//!
//! A layer is asked for when it comes within range, becomes resident when
//! the work on it has ended and its surface has been handed out, and is
//! dropped when it leaves the range. The manager decides; the caller runs
//! the work, shows the surfaces and takes them down again.
//!
//! One test of range serves both for dropping and for asking:
//! `crate::config::desired`.

use vstd::prelude::*;
use crate::config::{desired, is_desired, StreamConfig};
use crate::constants::{TOTAL_HEIGHT, VERTICAL_CHUNK_HEIGHT, VERTICAL_LAYERS};
use crate::keys::{chunk_coord, chunk_of, ChunkKey, Placement, Viewpoint};
use crate::loaded::{fits_i32, LoadedChunks};
use crate::mesher::{
    build_vertical_chunk_mesh_among, layer_end, layer_start, scope_of, SurfaceMesh,
};
use crate::registry::{ChunkRecord, Registry};
use crate::seq_facts::lemma_filter_keeps_distinct;
use crate::stream_view::{
    abandon_unwanted, beside, key_at, lemma_still_running_holds,
    lemma_still_running_keeps_apart, lemma_still_running_source, live_task, live_tasks, ticked,
    wanted, StreamView,
};
use crate::terrain::TerrainSamples;
use crate::voxel::Chunk;

verus! {

/// Work under way for one chunk layer.
#[derive(Copy, Clone, PartialEq, Eq, Debug, Structural)]
pub struct ChunkLoadTask {
    pub key: ChunkKey,
    /// The layer was dropped while the work ran: the work is left to run,
    /// and what it yields is thrown away.
    pub abandoned: bool,
}

/// What the work on a chunk layer yields: the cells of the chunk and the
/// surface of the layer.
pub struct TaskOutput {
    pub chunk: Chunk,
    pub mesh: SurfaceMesh,
}

/// How a surface is to be shaded.
#[derive(Copy, Clone, PartialEq, Eq, Debug, Structural)]
pub struct MaterialParams {
    /// Drawn without lighting.
    pub unlit: bool,
    /// Glows white by itself.
    pub emissive: bool,
}

/// A surface to show, where, and the handle under which it is known from
/// now on.
pub struct SpawnAction {
    pub handle: u64,
    pub key: ChunkKey,
    pub placement: Placement,
    pub mesh: SurfaceMesh,
    pub material: MaterialParams,
}

/// What one tick asks of the caller.
pub struct TickActions {
    /// Handles of surfaces to take down, each once.
    pub despawn: Vec<u64>,
    /// Layers to start work on, each once, in this order.
    pub dispatch: Vec<ChunkKey>,
}

/// Why results are not taken in.
#[derive(Copy, Clone, PartialEq, Eq, Debug, Structural)]
pub enum StreamError {
    /// There is not exactly one result for each piece of work under way.
    ResultCountMismatch,
    /// There are not enough handles left for as many results.
    HandlesExhausted,
}

/// The first layer of a chunk that the vertical layer `layer` covers; the
/// top of the chunk for a layer that does not exist.
pub open spec fn layer_offset_spec(layer: int) -> int {
    if 0 <= layer < VERTICAL_LAYERS {
        layer * VERTICAL_CHUNK_HEIGHT
    } else {
        TOTAL_HEIGHT as int
    }
}

/// The first layer of a chunk that the vertical layer `layer` covers.
pub fn layer_offset(layer: i32) -> (offset: usize)
    ensures
        offset == layer_offset_spec(layer as int),
{
    if 0 <= layer && layer < VERTICAL_LAYERS as i32 {
        (layer as usize) * VERTICAL_CHUNK_HEIGHT
    } else {
        TOTAL_HEIGHT
    }
}

/// The work on one chunk layer: the cells of the chunk from the noise
/// samples, then the surface of the layer `key.vertical_layer` of it, with
/// the chunks of `around` asked across the sides of the chunk. It reads its
/// arguments and touches nothing else.
pub fn load_chunk(key: ChunkKey, samples: &TerrainSamples, around: Option<&LoadedChunks>)
    -> (output:
    TaskOutput)
    requires
        samples@.wf(),
        around matches Some(loaded) ==> loaded.wf(),
    ensures
        output.chunk.wf(),
        output.chunk@ == samples@.cells(),
        output.mesh@ == scope_of(
            &output.chunk,
            around,
            key.chunk_x,
            key.chunk_z,
            layer_start(layer_offset_spec(key.vertical_layer as int) as usize),
            layer_end(layer_offset_spec(key.vertical_layer as int) as usize),
        ).mesh(),
        output.mesh@.wf(),
{
    let chunk = Chunk::new(samples);
    let mesh = build_vertical_chunk_mesh_among(
        &chunk,
        around,
        key.chunk_x,
        key.chunk_z,
        layer_offset(key.vertical_layer),
    );
    TaskOutput { chunk, mesh }
}

/// The registry of chunk layers together with the work under way.
pub struct ChunkManager {
    loaded_chunks: Registry,
    order: Vec<ChunkKey>,
    load_queue: Vec<ChunkLoadTask>,
    next_handle: u64,
}

impl View for ChunkManager {
    type V = StreamView;

    closed spec fn view(&self) -> StreamView {
        StreamView {
            records: self.loaded_chunks@,
            keys: self.order@,
            queue: self.load_queue@,
            next_handle: self.next_handle as int,
        }
    }
}

impl Default for ChunkManager {
    fn default() -> (manager: ChunkManager)
        ensures
            manager.wf(),
            manager@.records == Map::<ChunkKey, ChunkRecord>::empty(),
            manager@.keys == Seq::<ChunkKey>::empty(),
            manager@.queue == Seq::<ChunkLoadTask>::empty(),
            manager@.next_handle == 0,
    {
        ChunkManager::new()
    }
}

impl ChunkManager {
    /// What always holds of the manager.
    pub open spec fn wf(&self) -> bool {
        self@.wf()
    }

    /// A manager that knows no layer. Handles are given out from 0 on.
    pub fn new() -> (manager: ChunkManager)
        ensures
            manager.wf(),
            manager@.records == Map::<ChunkKey, ChunkRecord>::empty(),
            manager@.keys == Seq::<ChunkKey>::empty(),
            manager@.queue == Seq::<ChunkLoadTask>::empty(),
            manager@.next_handle == 0,
    {
        ChunkManager::starting_at(0)
    }

    /// A manager that knows no layer and gives handles out from
    /// `first_handle` on.
    pub fn starting_at(first_handle: u64) -> (manager: ChunkManager)
        ensures
            manager.wf(),
            manager@.records == Map::<ChunkKey, ChunkRecord>::empty(),
            manager@.keys == Seq::<ChunkKey>::empty(),
            manager@.queue == Seq::<ChunkLoadTask>::empty(),
            manager@.next_handle == first_handle,
    {
        ChunkManager {
            loaded_chunks: Registry::new(),
            order: Vec::new(),
            load_queue: Vec::new(),
            next_handle: first_handle,
        }
    }

    /// The record of a layer, if it is pending or resident.
    pub fn get(&self, key: &ChunkKey) -> (found: Option<&ChunkRecord>)
        ensures
            found == if self@.records.contains_key(*key) {
                Some(&self@.records[*key])
            } else {
                None
            },
    {
        self.loaded_chunks.get(key)
    }

    /// The keys of all records, in the order in which they were asked for.
    pub fn keys(&self) -> (keys: &Vec<ChunkKey>)
        ensures
            keys@ == self@.keys,
    {
        &self.order
    }

    /// The work under way, oldest first.
    pub fn load_queue(&self) -> (tasks: &Vec<ChunkLoadTask>)
        ensures
            tasks@ == self@.queue,
    {
        &self.load_queue
    }

    /// Starts a layer: where there is no record for `key` yet, a pending
    /// record is made, work for it is put in the queue, and the result is
    /// `true`. Where there is one already, pending or resident, nothing
    /// changes and the result is `false`: a layer is never started twice.
    pub fn spawn_vertical_chunk_layer(&mut self, key: ChunkKey) -> (started: bool)
        requires
            old(self).wf(),
        ensures
            final(self).wf(),
            started == !old(self)@.records.contains_key(key),
            started ==> final(self)@ == (StreamView {
                records: old(self)@.records.insert(key, ChunkRecord::pending_spec(key)),
                keys: old(self)@.keys.push(key),
                queue: old(self)@.queue.push(live_task(key)),
                next_handle: old(self)@.next_handle,
            }),
            !started ==> final(self)@ == old(self)@,
    {
        if self.loaded_chunks.contains(&key) {
            return false;
        }
        let ghost before = self@;
        self.loaded_chunks.insert(ChunkRecord::pending(key));
        self.order.push(key);
        self.load_queue.push(ChunkLoadTask { key, abandoned: false });
        proof {
            let after = self@;
            let last = before.queue.len() as int;
            assert(after.queue[last] == live_task(key));
            assert forall|k: ChunkKey| #[trigger] after.keys.contains(k)
                <==> after.records.contains_key(k) by {
                if after.keys.contains(k) {
                    let j = choose|j: int| 0 <= j < after.keys.len() && after.keys[j] == k;
                    if j < before.keys.len() {
                        assert(before.keys[j] == k);
                        assert(before.keys.contains(k));
                    }
                }
                if after.records.contains_key(k) {
                    if k == key {
                        assert(after.keys[before.keys.len() as int] == k);
                    } else {
                        assert(before.keys.contains(k));
                        let j = choose|j: int| 0 <= j < before.keys.len() && before.keys[j] == k;
                        assert(after.keys[j] == k);
                    }
                }
            }
            assert(after.keys.no_duplicates()) by {
                assert forall|i: int, j: int| 0 <= i < j < after.keys.len()
                    implies after.keys[i] != after.keys[j] by {
                    if j == before.keys.len() {
                        assert(before.keys.contains(before.keys[i]));
                    }
                }
            }
            assert forall|k: ChunkKey| #[trigger] after.is_resident(k)
                implies after.handle(k) < after.next_handle by {
                assert(before.is_resident(k));
            }
            assert forall|a: ChunkKey, b: ChunkKey|
                #![trigger after.is_resident(a), after.is_resident(b)]
                after.is_resident(a) && after.is_resident(b) && a != b
                    implies after.handle(a) != after.handle(b) by {
                assert(before.is_resident(a) && before.is_resident(b));
            }
            assert forall|i: int|
                0 <= i < after.queue.len() && !(#[trigger] after.queue[i]).abandoned
                    implies after.is_pending(
                    after.queue[i].key,
                ) by {
                if i < last {
                    assert(before.queue[i] == after.queue[i]);
                    assert(before.is_pending(before.queue[i].key));
                }
            }
            assert forall|i: int, j: int|
                0 <= i < j < after.queue.len() && !(#[trigger] after.queue[i]).abandoned && !(
                #[trigger] after.queue[j]).abandoned implies after.queue[i].key
                    != after.queue[j].key by {
                assert(before.queue[i] == after.queue[i]);
                assert(before.is_pending(before.queue[i].key));
                if j < last {
                    assert(before.queue[j] == after.queue[j]);
                }
            }
            assert forall|k: ChunkKey| #[trigger] after.is_pending(k) implies after.queue.contains(
                live_task(k),
            ) by {
                if k != key {
                    assert(before.is_pending(k));
                    let j = choose|j: int|
                        0 <= j < before.queue.len() && before.queue[j] == live_task(k);
                    assert(after.queue[j] == live_task(k));
                }
            }
        }
        true
    }

    /// Drops every record whose layer is out of range, abandons the work
    /// for every such layer, and returns the handles of the layers dropped
    /// that were resident.
    fn evict(&mut self, viewpoint: &Viewpoint, config: &StreamConfig) -> (despawn: Vec<u64>)
        requires
            old(self).wf(),
            config.wf(),
        ensures
            final(self).wf(),
            despawn@ == old(self)@.evicted_handles(*viewpoint, *config),
            final(self)@.keys == old(self)@.keys.filter(wanted(*viewpoint, *config)),
            final(self)@.queue == old(self)@.queue.map_values(
                abandon_unwanted(*viewpoint, *config),
            ),
            final(self)@.next_handle == old(self)@.next_handle,
            forall|k: ChunkKey|
                #[trigger] final(self)@.records.contains_key(k)
                    <==> old(self)@.records.contains_key(k)
                    && desired(k, *viewpoint, *config),
            forall|k: ChunkKey|
                #[trigger] final(self)@.records.contains_key(k) ==> final(self)@.records[k] == old(
                    self,
                )@.records[k],
    {
        let ghost before = self@;
        let ghost stay = wanted(*viewpoint, *config);
        let ghost gone = before.leaves_shown(*viewpoint, *config);
        let mut kept: Vec<ChunkKey> = Vec::new();
        let mut despawn: Vec<u64> = Vec::new();
        let ghost mut taken: Seq<ChunkKey> = Seq::empty();
        let n: usize = self.order.len();
        let mut i: usize = 0;
        proof {
            assert(before.keys.take(0) =~= Seq::<ChunkKey>::empty());
            assert(before.keys.take(0).filter(stay) == Seq::<ChunkKey>::empty()) by {
                reveal_with_fuel(Seq::filter, 1);
            }
            assert(before.keys.take(0).filter(gone) == Seq::<ChunkKey>::empty()) by {
                reveal_with_fuel(Seq::filter, 1);
            }
            assert(taken.map_values(before.handle_of()) =~= Seq::<u64>::empty());
        }
        while i < n
            invariant
                before.wf(),
                config.wf(),
                before == old(self)@,
                stay == wanted(*viewpoint, *config),
                gone == before.leaves_shown(*viewpoint, *config),
                n == before.keys.len(),
                i <= n,
                self.order@ == before.keys,
                self.load_queue@ == old(self).load_queue@,
                self.next_handle == old(self).next_handle,
                self.loaded_chunks.wf(),
                kept@ == before.keys.take(i as int).filter(stay),
                taken == before.keys.take(i as int).filter(gone),
                despawn@ == taken.map_values(before.handle_of()),
                forall|k: ChunkKey| #[trigger]
                    self.loaded_chunks@.contains_key(k) <==> before.records.contains_key(k) && (
                    desired(k, *viewpoint, *config) || !before.keys.take(i as int).contains(k)),
                forall|k: ChunkKey| #[trigger]
                    self.loaded_chunks@.contains_key(k) ==> self.loaded_chunks@[k]
                        == before.records[k],
            decreases n - i,
        {
            let key = self.order[i];
            proof {
                before.keys.lemma_take_succ_push(i as int);
                before.keys.take(i as int).lemma_filter_push(key, stay);
                before.keys.take(i as int).lemma_filter_push(key, gone);
                assert(before.keys.contains(key));
                assert(before.records.contains_key(key));
                assert(!before.keys.take(i as int).contains(key)) by {
                    if before.keys.take(i as int).contains(key) {
                        let j = choose|j: int|
                            0 <= j < i && before.keys.take(i as int)[j] == key;
                        assert(before.keys[j] == before.keys[i as int]);
                    }
                }
                assert forall|k: ChunkKey|
                    before.keys.take(i as int + 1).contains(k) <==> (before.keys.take(
                        i as int,
                    ).contains(k) || k == key) by {
                    let longer = before.keys.take(i as int + 1);
                    let shorter = before.keys.take(i as int);
                    if longer.contains(k) {
                        let j = choose|j: int| 0 <= j < longer.len() && longer[j] == k;
                        if j < i {
                            assert(shorter[j] == k);
                        }
                    }
                    if shorter.contains(k) {
                        let j = choose|j: int| 0 <= j < shorter.len() && shorter[j] == k;
                        assert(longer[j] == k);
                    }
                    if k == key {
                        assert(longer[i as int] == k);
                    }
                }
            }
            if is_desired(&key, viewpoint, config) {
                kept.push(key);
            } else {
                let record = self.loaded_chunks.remove(&key);
                match record {
                    Some(ChunkRecord { handle: Some(h), .. }) => {
                        proof {
                            assert(before.is_resident(key));
                            taken.lemma_push_map_commute(before.handle_of(), key);
                            taken = taken.push(key);
                        }
                        despawn.push(h);
                    },
                    _ => {
                        assert(!before.is_resident(key));
                    },
                }
            }
            i += 1;
        }
        self.order = kept;
        let ghost mark = abandon_unwanted(*viewpoint, *config);
        let mut marked: Vec<ChunkLoadTask> = Vec::with_capacity(self.load_queue.len());
        let m: usize = self.load_queue.len();
        let mut j: usize = 0;
        proof {
            assert(before.queue.take(0).map_values(mark) =~= Seq::<ChunkLoadTask>::empty());
        }
        while j < m
            invariant
                config.wf(),
                mark == abandon_unwanted(*viewpoint, *config),
                m == before.queue.len(),
                j <= m,
                self.load_queue@ == before.queue,
                marked@ == before.queue.take(j as int).map_values(mark),
            decreases m - j,
        {
            let task = self.load_queue[j];
            let abandoned = task.abandoned || !is_desired(&task.key, viewpoint, config);
            proof {
                before.queue.lemma_take_succ_push(j as int);
                before.queue.take(j as int).lemma_push_map_commute(mark, task);
            }
            marked.push(ChunkLoadTask { key: task.key, abandoned });
            j += 1;
        }
        self.load_queue = marked;
        proof {
            assert(before.keys.take(n as int) =~= before.keys);
            assert(before.queue.take(m as int) =~= before.queue);
            lemma_filter_keeps_distinct(before.keys, stay);
            let after = self@;
            assert forall|k: ChunkKey| #[trigger] after.keys.contains(k)
                <==> after.records.contains_key(k) by {
                if after.keys.contains(k) {
                    before.keys.lemma_filter_contains_rev(stay, k);
                    let j = choose|j: int| 0 <= j < after.keys.len() && after.keys[j] == k;
                    before.keys.lemma_filter_pred(stay, j);
                }
                if after.records.contains_key(k) {
                    assert(before.keys.contains(k));
                    let j = choose|j: int| 0 <= j < before.keys.len() && before.keys[j] == k;
                    before.keys.lemma_filter_contains(stay, j);
                }
            }
            assert forall|k: ChunkKey| #[trigger] after.is_resident(k)
                implies after.handle(k) < after.next_handle by {
                assert(before.is_resident(k));
            }
            assert forall|a: ChunkKey, b: ChunkKey|
                #![trigger after.is_resident(a), after.is_resident(b)]
                after.is_resident(a) && after.is_resident(b) && a != b
                    implies after.handle(a) != after.handle(b) by {
                assert(before.is_resident(a) && before.is_resident(b));
            }
            assert forall|i: int|
                0 <= i < after.queue.len() && !(#[trigger] after.queue[i]).abandoned
                    implies after.is_pending(
                    after.queue[i].key,
                ) by {
                assert(!before.queue[i].abandoned);
                assert(before.is_pending(before.queue[i].key));
            }
            assert forall|i: int, j: int|
                0 <= i < j < after.queue.len() && !(#[trigger] after.queue[i]).abandoned && !(
                #[trigger] after.queue[j]).abandoned implies after.queue[i].key
                    != after.queue[j].key by {
                assert(!before.queue[i].abandoned && !before.queue[j].abandoned);
            }
            assert forall|k: ChunkKey| #[trigger] after.is_pending(k) implies after.queue.contains(
                live_task(k),
            ) by {
                assert(before.is_pending(k));
                let i = choose|i: int|
                    0 <= i < before.queue.len() && before.queue[i] == live_task(k);
                assert(after.queue[i] == live_task(k));
            }
        }
        despawn
    }

    /// Starts every layer that is in range and has no record, and returns
    /// their keys in the order in which they were started.
    fn dispatch_missing(&mut self, viewpoint: &Viewpoint, config: &StreamConfig) -> (dispatch: Vec<
        ChunkKey,
    >)
        requires
            old(self).wf(),
            config.wf(),
        ensures
            final(self).wf(),
            forall|i: int, j: int|
                0 <= i < j < dispatch@.len() ==> (#[trigger] dispatch@[i]).before(
                    #[trigger] dispatch@[j],
                ),
            forall|k: ChunkKey| #[trigger]
                dispatch@.contains(k) <==> desired(k, *viewpoint, *config) && !old(
                    self,
                )@.records.contains_key(k),
            forall|k: ChunkKey| #[trigger]
                final(self)@.records.contains_key(k) <==> old(self)@.records.contains_key(k)
                    || desired(k, *viewpoint, *config),
            forall|k: ChunkKey| #[trigger]
                final(self)@.records.contains_key(k) ==> final(self)@.records[k] == if old(
                    self,
                )@.records.contains_key(k) {
                    old(self)@.records[k]
                } else {
                    ChunkRecord::pending_spec(k)
                },
            final(self)@.keys == old(self)@.keys + dispatch@,
            final(self)@.queue == old(self)@.queue + dispatch@.map_values(live_tasks()),
            final(self)@.next_handle == old(self)@.next_handle,
    {
        let ghost before = self@;
        let mut dispatch: Vec<ChunkKey> = Vec::new();
        let reach: i64 = config.render_distance();
        let centre_x: i64 = chunk_coord(viewpoint.x) as i64;
        let centre_z: i64 = chunk_coord(viewpoint.z) as i64;
        let ghost centre = (centre_x as int, centre_z as int);
        let layers: i32 = VERTICAL_LAYERS as i32;
        proof {
            assert(before.keys + dispatch@ =~= before.keys);
            assert(before.queue + dispatch@.map_values(live_tasks()) =~= before.queue);
        }
        let mut dx: i64 = -reach;
        while dx <= reach
            invariant
                before == old(self)@,
                before.wf(),
                config.wf(),
                self.wf(),
                reach == config.distance(),
                centre_x == chunk_of(viewpoint.x as int),
                centre_z == chunk_of(viewpoint.z as int),
                centre == (centre_x as int, centre_z as int),
                layers == VERTICAL_LAYERS,
                -reach <= dx <= reach + 1,
                scan_state(before, self@, dispatch@, *viewpoint, *config),
                forall|k: ChunkKey|
                    desired(k, *viewpoint, *config)
                        && scanned(k, centre, (dx as int, -reach as int, 0))
                        ==> #[trigger] self@.records.contains_key(k),
                forall|k: ChunkKey| #[trigger]
                    dispatch@.contains(k)
                        ==> scanned(k, centre, (dx as int, -reach as int, 0)),
            decreases reach - dx + 1,
        {
            let mut dz: i64 = -reach;
            while dz <= reach
                invariant
                    before == old(self)@,
                    before.wf(),
                    config.wf(),
                    self.wf(),
                    reach == config.distance(),
                    centre_x == chunk_of(viewpoint.x as int),
                    centre_z == chunk_of(viewpoint.z as int),
                    centre == (centre_x as int, centre_z as int),
                centre == (centre_x as int, centre_z as int),
                    layers == VERTICAL_LAYERS,
                    -reach <= dx <= reach,
                    -reach <= dz <= reach + 1,
                    scan_state(before, self@, dispatch@, *viewpoint, *config),
                    forall|k: ChunkKey|
                        desired(k, *viewpoint, *config)
                            && scanned(k, centre, (dx as int, dz as int, 0))
                            ==> #[trigger] self@.records.contains_key(k),
                    forall|k: ChunkKey| #[trigger]
                        dispatch@.contains(k)
                            ==> scanned(k, centre, (dx as int, dz as int, 0)),
                decreases reach - dz + 1,
            {
                let cx: i64 = centre_x + dx;
                let cz: i64 = centre_z + dz;
                if i32::MIN as i64 <= cx && cx <= i32::MAX as i64 && i32::MIN as i64 <= cz && cz
                    <= i32::MAX as i64 {
                    let mut layer: i32 = 0;
                    while layer < layers
                        invariant
                            before == old(self)@,
                            before.wf(),
                            config.wf(),
                            self.wf(),
                            reach == config.distance(),
                            centre_x == chunk_of(viewpoint.x as int),
                            centre_z == chunk_of(viewpoint.z as int),
                            centre == (centre_x as int, centre_z as int),
                    centre == (centre_x as int, centre_z as int),
                centre == (centre_x as int, centre_z as int),
                            layers == VERTICAL_LAYERS,
                            -reach <= dx <= reach,
                            -reach <= dz <= reach,
                            cx == centre_x + dx,
                            cz == centre_z + dz,
                            i32::MIN <= cx <= i32::MAX,
                            i32::MIN <= cz <= i32::MAX,
                            0 <= layer <= layers,
                            scan_state(before, self@, dispatch@, *viewpoint, *config),
                            forall|k: ChunkKey|
                                desired(k, *viewpoint, *config)
                                    && scanned(k, centre, (dx as int, dz as int, layer as int))
                                        ==> #[trigger] self@.records.contains_key(k),
                            forall|k: ChunkKey| #[trigger]
                                dispatch@.contains(k)
                                    ==> scanned(k, centre, (dx as int, dz as int, layer as int)),
                        decreases layers - layer,
                    {
                        let key = ChunkKey {
                            chunk_x: cx as i32,
                            chunk_z: cz as i32,
                            vertical_layer: layer,
                        };
                        let ghost prior = self@;
                        let ghost listed = dispatch@;
                        let ghost here = (dx as int, dz as int, layer as int);
                        let ghost next = (dx as int, dz as int, layer as int + 1);
                        if is_desired(&key, viewpoint, config) {
                            if self.spawn_vertical_chunk_layer(key) {
                                dispatch.push(key);
                                proof {
                                    assert forall|k: ChunkKey| listed.contains(k)
                                        implies k.before(key) by {
                                        assert(scanned(k, centre, here));
                                    }
                                    assert forall|k: ChunkKey| #[trigger] dispatch@.contains(k)
                                        implies scanned(k, centre, next) by {
                                        if k != key {
                                            let at = choose|at: int| 0 <= at < dispatch@.len()
                                                && dispatch@[at] == k;
                                            assert(listed[at] == k);
                                            assert(listed.contains(k));
                                        }
                                    }
                                    lemma_scan_state_push(
                                        before,
                                        prior,
                                        self@,
                                        listed,
                                        key,
                                        *viewpoint,
                                        *config,
                                    );
                                }
                            }
                        }
                        layer += 1;
                    }
                }
                dz += 1;
            }
            dx += 1;
        }
        proof {
            let after = self@;
            assert forall|k: ChunkKey| desired(k, *viewpoint, *config)
                implies #[trigger] after.records.contains_key(k) by {
                assert(scanned(k, centre, (dx as int, -reach as int, 0)));
            }
            assert forall|k: ChunkKey| #[trigger]
                dispatch@.contains(k)
                    <==> desired(k, *viewpoint, *config) && !before.records.contains_key(k) by {
                if desired(k, *viewpoint, *config) && !before.records.contains_key(k) {
                    assert(after.records.contains_key(k));
                }
            }
        }
        dispatch
    }

    /// One tick of the streaming for a viewer at `viewpoint`.
    ///
    /// Every record whose layer is out of range is dropped, and the handles
    /// of those that were resident are returned to be taken down. The work
    /// for a dropped pending layer is abandoned: it is left to run, and what
    /// it yields is thrown away when it ends. Then every layer in range
    /// without a record is started and its key returned, in the order of
    /// the keys. After the tick the records are those of the layers in
    /// range.
    ///
    /// While there is no viewer nothing changes and nothing is asked.
    pub fn update_chunks(&mut self, viewpoint: Option<Viewpoint>, config: &StreamConfig)
        -> (actions:
        TickActions)
        requires
            old(self).wf(),
            config.wf(),
        ensures
            final(self).wf(),
            match viewpoint {
                None => final(self)@ == old(self)@ && actions.despawn@.len() == 0
                    && actions.dispatch@.len() == 0,
                Some(v) => ticked(
                    old(self)@,
                    final(self)@,
                    v,
                    *config,
                    actions.despawn@,
                    actions.dispatch@,
                ),
            },
    {
        match viewpoint {
            None => TickActions { despawn: Vec::new(), dispatch: Vec::new() },
            Some(v) => {
                let ghost before = self@;
                let despawn = self.evict(&v, config);
                let ghost mid = self@;
                let dispatch = self.dispatch_missing(&v, config);
                proof {
                    let after = self@;
                    assert forall|k: ChunkKey| #[trigger]
                        dispatch@.contains(k)
                            <==> desired(k, v, *config) && !before.records.contains_key(k) by {
                        assert(mid.records.contains_key(k) <==> before.records.contains_key(k)
                            && desired(k, v, *config));
                    }
                    assert forall|k: ChunkKey| #[trigger]
                        after.records.contains_key(k) <==> desired(k, v, *config) by {
                        assert(mid.records.contains_key(k) <==> before.records.contains_key(k)
                            && desired(k, v, *config));
                    }
                    assert forall|k: ChunkKey| #[trigger] after.records.contains_key(k)
                        implies after.records[k] == (if before.records.contains_key(k) {
                        before.records[k]
                    } else {
                        ChunkRecord::pending_spec(k)
                    }) by {
                        assert(mid.records.contains_key(k) <==> before.records.contains_key(k)
                            && desired(k, v, *config));
                    }
                }
                TickActions { despawn, dispatch }
            },
        }
    }

    /// Makes the pending layer `key` resident with what the work for it has
    /// yielded.
    fn install(&mut self, key: ChunkKey, output: TaskOutput, fullbright: bool) -> (action:
        SpawnAction)
        requires
            old(self)@.records_wf(),
            old(self)@.is_pending(key),
            output.chunk.wf(),
            old(self)@.next_handle < u64::MAX,
        ensures
            final(self)@.records_wf(),
            final(self)@ == old(self)@.integrated(live_task(key), output.chunk),
            action == old(self)@.spawn_for(key, output, fullbright),
    {
        let ghost before = self@;
        let handle = self.next_handle;
        self.next_handle = handle + 1;
        let TaskOutput { chunk, mesh } = output;
        self.loaded_chunks.insert(ChunkRecord::resident(key, handle, chunk));
        proof {
            let after = self@;
            assert(after.records =~= before.integrated(live_task(key), chunk).records);
            assert forall|k: ChunkKey| #[trigger] after.keys.contains(k)
                <==> after.records.contains_key(k) by {
                assert(before.keys.contains(k) <==> before.records.contains_key(k));
            }
            assert forall|k: ChunkKey| #[trigger] after.is_resident(k)
                implies after.handle(k) < after.next_handle by {
                if k != key {
                    assert(before.is_resident(k));
                }
            }
            assert forall|a: ChunkKey, b: ChunkKey|
                #![trigger after.is_resident(a), after.is_resident(b)]
                after.is_resident(a) && after.is_resident(b) && a != b
                    implies after.handle(a) != after.handle(b) by {
                if a != key {
                    assert(before.is_resident(a));
                }
                if b != key {
                    assert(before.is_resident(b));
                }
            }
        }
        SpawnAction {
            handle,
            key,
            placement: key.placement(),
            mesh,
            material: MaterialParams { unlit: fullbright, emissive: fullbright },
        }
    }

    /// Takes in what the work under way has yielded since the last call.
    ///
    /// `results` holds one entry for each piece of work in the queue, in
    /// the order of the queue: `None` for work that still runs, which stays
    /// in the queue, and the yield of work that has ended, which leaves it.
    /// The results are taken in one after the other. The yield of work that
    /// was abandoned is thrown away. Any other work was for a pending layer,
    /// which becomes resident: it gets the next handle, its record takes the
    /// cells, and its surface is returned to be shown at the layer's place.
    ///
    /// Nothing is taken in, and nothing changes, unless there is one result
    /// for each piece of work and a handle left for each result.
    pub fn poll_chunk_tasks(&mut self, results: Vec<Option<TaskOutput>>, fullbright: bool)
        -> (taken:
        Result<Vec<SpawnAction>, StreamError>)
        requires
            old(self).wf(),
            forall|i: int|
                0 <= i < results@.len() ==> (#[trigger] results@[i] matches Some(output)
                    ==> output.chunk.wf()),
        ensures
            final(self).wf(),
            results@.len() != old(self)@.queue.len() ==> taken == Err::<
                Vec<SpawnAction>,
                StreamError,
            >(StreamError::ResultCountMismatch),
            results@.len() == old(self)@.queue.len() && old(self)@.next_handle + results@.len()
                > u64::MAX ==> taken == Err::<Vec<SpawnAction>, StreamError>(
                StreamError::HandlesExhausted,
            ),
            taken is Err ==> final(self)@ == old(self)@,
            results@.len() == old(self)@.queue.len() && old(self)@.next_handle + results@.len()
                <= u64::MAX ==> taken is Ok,
            taken matches Ok(actions) ==> {
                let n = results@.len() as int;
                let end = old(self)@.polled(results@, n);
                &&& actions@ == old(self)@.spawned(results@, n, fullbright)
                &&& final(self)@ == (StreamView {
                    records: end.records,
                    keys: end.keys,
                    queue: old(self)@.still_running(results@, n),
                    next_handle: end.next_handle,
                })
            },
    {
        let n: usize = results.len();
        if n != self.load_queue.len() {
            return Err(StreamError::ResultCountMismatch);
        }
        if n as u64 > u64::MAX - self.next_handle {
            return Err(StreamError::HandlesExhausted);
        }
        let ghost before = self@;
        let ghost given = results@;
        let mut results = results;
        let mut reversed: Vec<Option<TaskOutput>> = Vec::new();
        while results.len() > 0
            invariant
                n == given.len(),
                results@.len() + reversed@.len() == n,
                results@ =~= given.take(results@.len() as int),
                forall|j: int|
                    0 <= j < reversed@.len() ==> #[trigger] reversed@[j] == given[n - 1 - j],
            decreases results@.len(),
        {
            let last = results.pop();
            match last {
                Some(entry) => {
                    reversed.push(entry);
                },
                None => {},
            }
        }
        let mut actions: Vec<SpawnAction> = Vec::new();
        let mut running: Vec<ChunkLoadTask> = Vec::new();
        let mut i: usize = 0;
        proof {
            assert forall|k: ChunkKey| #[trigger] before.is_pending(k) implies exists|j: int|
                #[trigger] awaited(before.queue, given, 0, j) && before.queue[j].key == k by {
                let j = choose|j: int| 0 <= j < before.queue.len()
                    && before.queue[j] == live_task(k);
                assert(awaited(before.queue, given, 0, j));
            }
        }
        while i < n
            invariant
                before == old(self)@,
                before.wf(),
                self@.records_wf(),
                i <= n,
                n == given.len(),
                n == before.queue.len(),
                before.next_handle + n <= u64::MAX,
                self.load_queue@ == before.queue,
                forall|j: int|
                    0 <= j < given.len() ==> (#[trigger] given[j] matches Some(output)
                        ==> output.chunk.wf()),
                reversed@.len() == n - i,
                forall|j: int|
                    0 <= j < reversed@.len() ==> #[trigger] reversed@[j] == given[n - 1 - j],
                self@ == before.polled(given, i as int),
                self@.next_handle <= before.next_handle + i,
                actions@ == before.spawned(given, i as int, fullbright),
                running@ == before.still_running(given, i as int),
                forall|j: int| #[trigger]
                    awaited(before.queue, given, i as int, j) ==> self@.is_pending(
                        before.queue[j].key,
                    ),
                forall|k: ChunkKey| #[trigger]
                    self@.is_pending(k) ==> exists|j: int| #[trigger]
                        awaited(before.queue, given, i as int, j) && before.queue[j].key == k,
            decreases n - i,
        {
            let task = self.load_queue[i];
            let ghost prior = self@;
            let entry = reversed.pop();
            assert(entry == Some(given[i as int]));
            match entry {
                Some(Some(output)) => {
                    if !task.abandoned {
                        assert(awaited(before.queue, given, i as int, i as int));
                        let action = self.install(task.key, output, fullbright);
                        actions.push(action);
                    }
                    proof {
                        assert forall|j: int| #[trigger]
                            awaited(before.queue, given, i as int + 1, j) implies self@.is_pending(
                            before.queue[j].key,
                        ) by {
                            assert(awaited(before.queue, given, i as int, j));
                            assert(j != i);
                        }
                        assert forall|k: ChunkKey| #[trigger] self@.is_pending(k)
                            implies exists|j: int|
                            #[trigger] awaited(before.queue, given, i as int + 1, j)
                                && before.queue[j].key == k by {
                            assert(prior.is_pending(k));
                            let j = choose|j: int|
                                #[trigger] awaited(before.queue, given, i as int, j)
                                    && before.queue[j].key == k;
                            assert(awaited(before.queue, given, i as int + 1, j));
                        }
                    }
                },
                _ => {
                    running.push(task);
                    proof {
                        assert forall|j: int| #[trigger]
                            awaited(before.queue, given, i as int + 1, j) implies self@.is_pending(
                            before.queue[j].key,
                        ) by {
                            assert(awaited(before.queue, given, i as int, j));
                        }
                        assert forall|k: ChunkKey| #[trigger] self@.is_pending(k)
                            implies exists|j: int|
                            #[trigger] awaited(before.queue, given, i as int + 1, j)
                                && before.queue[j].key == k by {
                            let j = choose|j: int|
                                #[trigger] awaited(before.queue, given, i as int, j)
                                    && before.queue[j].key == k;
                            assert(awaited(before.queue, given, i as int + 1, j));
                        }
                    }
                },
            }
            i += 1;
        }
        let ghost last = self@;
        self.load_queue = running;
        proof {
            let after = self@;
            let end = before.polled(given, n as int);
            assert forall|k: ChunkKey| #[trigger] after.is_resident(k)
                implies after.handle(k) < after.next_handle by {
                assert(end.is_resident(k));
            }
            assert forall|a: ChunkKey, b: ChunkKey|
                #![trigger after.is_resident(a), after.is_resident(b)]
                after.is_resident(a) && after.is_resident(b) && a != b
                    implies after.handle(a) != after.handle(b) by {
                assert(end.is_resident(a) && end.is_resident(b));
            }
            assert forall|a: int|
                0 <= a < after.queue.len() && !(#[trigger] after.queue[a]).abandoned
                    implies after.is_pending(
                    after.queue[a].key,
                ) by {
                lemma_still_running_source(before, given, n as int, a);
                let j = choose|j: int|
                    0 <= j < n && given[j] is None && before.queue[j] == after.queue[a];
                assert(awaited(before.queue, given, n as int, j));
                assert(last.is_pending(before.queue[j].key));
            }
            assert forall|a: int, b: int|
                0 <= a < b < after.queue.len() && !(#[trigger] after.queue[a]).abandoned && !(
                #[trigger] after.queue[b]).abandoned implies after.queue[a].key
                    != after.queue[b].key by {
                lemma_still_running_keeps_apart(before, given, n as int);
            }
            assert forall|k: ChunkKey| #[trigger] after.is_pending(k) implies after.queue.contains(
                live_task(k),
            ) by {
                assert(last.is_pending(k));
                let j = choose|j: int|
                    #[trigger] awaited(before.queue, given, n as int, j) && before.queue[j].key
                        == k;
                assert(before.queue[j] == live_task(k));
                lemma_still_running_holds(before, given, n as int, j);
            }
        }
        Ok(actions)
    }

    /// The cells of the chunk in column `(chunk_x, chunk_z)`, if one of its
    /// layers is resident.
    pub fn resident_grid(&self, chunk_x: i32, chunk_z: i32) -> (grid: Option<&Chunk>)
        requires
            self.wf(),
        ensures
            grid is Some <==> self@.column_grid(chunk_x as int, chunk_z as int) is Some,
            grid matches Some(g) ==> *g == self@.column_grid(chunk_x as int, chunk_z as int)->Some_0
                && g.wf(),
    {
        let layers: i32 = VERTICAL_LAYERS as i32;
        let mut layer: i32 = 0;
        while layer < layers
            invariant
                self.wf(),
                0 <= layer <= layers,
                layers == 3,
                forall|l: int|
                    0 <= l < layer ==> !self@.is_resident(
                        #[trigger] key_at(chunk_x as int, chunk_z as int, l),
                    ),
            decreases layers - layer,
        {
            let key = ChunkKey { chunk_x, chunk_z, vertical_layer: layer };
            assert(key == key_at(chunk_x as int, chunk_z as int, layer as int));
            match self.loaded_chunks.get(&key) {
                Some(record) => {
                    match &record.grid {
                        Some(g) => {
                            assert(self@.is_resident(key));
                            assert(self@.records[key].wf());
                            return Some(g);
                        },
                        None => {
                            assert(self@.records[key].wf());
                        },
                    }
                },
                None => {},
            }
            layer += 1;
        }
        assert(!self@.is_resident(key_at(chunk_x as int, chunk_z as int, 0)));
        assert(!self@.is_resident(key_at(chunk_x as int, chunk_z as int, 1)));
        assert(!self@.is_resident(key_at(chunk_x as int, chunk_z as int, 2)));
        None
    }

    /// Copies the cells of column `(chunk_x, chunk_z)` into `into`, if they
    /// are at hand.
    fn copy_column(&self, into: &mut LoadedChunks, chunk_x: i64, chunk_z: i64)
        requires
            self.wf(),
            old(into).wf(),
        ensures
            final(into).wf(),
            forall|c: (int, int)|
                c != (chunk_x as int, chunk_z as int) ==> (#[trigger] final(into)@.contains_key(c)
                    == old(into)@.contains_key(c)),
            forall|c: (int, int)|
                c != (chunk_x as int, chunk_z as int) && #[trigger] final(into)@.contains_key(c)
                    ==> final(into)@[c] == old(into)@[c],
            final(into)@.contains_key((chunk_x as int, chunk_z as int)) <==> old(
                into,
            )@.contains_key((chunk_x as int, chunk_z as int)) || (fits_i32(chunk_x as int)
                && fits_i32(chunk_z as int) && self@.column_grid(chunk_x as int, chunk_z as int)
                is Some),
            fits_i32(chunk_x as int) && fits_i32(chunk_z as int) && self@.column_grid(
                chunk_x as int,
                chunk_z as int,
            ) is Some ==> final(into)@[(chunk_x as int, chunk_z as int)]@ == self@.column_grid(
                chunk_x as int,
                chunk_z as int,
            )->Some_0@,
    {
        if i32::MIN as i64 <= chunk_x && chunk_x <= i32::MAX as i64 && i32::MIN as i64 <= chunk_z
            && chunk_z <= i32::MAX as i64 {
            match self.resident_grid(chunk_x as i32, chunk_z as i32) {
                Some(grid) => {
                    into.insert(chunk_x as i32, chunk_z as i32, grid.duplicate());
                },
                None => {},
            }
        }
    }

    /// The chunks around column `(chunk_x, chunk_z)` for the meshing of a
    /// layer of it: a copy of the cells of each of the four columns next
    /// to it, as far as a layer of that column is resident.
    pub fn neighbors_of(&self, chunk_x: i32, chunk_z: i32) -> (around: LoadedChunks)
        requires
            self.wf(),
        ensures
            around.wf(),
            forall|c: (int, int)| #[trigger]
                around@.contains_key(c) <==> beside(c, chunk_x as int, chunk_z as int) && fits_i32(
                    c.0,
                ) && fits_i32(c.1) && self@.column_grid(c.0, c.1) is Some,
            forall|c: (int, int)| #[trigger]
                around@.contains_key(c) ==> around@[c]@ == self@.column_grid(c.0, c.1)->Some_0@,
    {
        let mut around = LoadedChunks::new();
        self.copy_column(&mut around, chunk_x as i64 - 1, chunk_z as i64);
        self.copy_column(&mut around, chunk_x as i64 + 1, chunk_z as i64);
        self.copy_column(&mut around, chunk_x as i64, chunk_z as i64 - 1);
        self.copy_column(&mut around, chunk_x as i64, chunk_z as i64 + 1);
        around
    }
}

/// Whether the work number `j` of `queue` is still awaited when the first
/// `i` results have been taken in: it is not abandoned, and its result has
/// not been taken in or says that it still runs.
spec fn awaited(queue: Seq<ChunkLoadTask>, given: Seq<Option<TaskOutput>>, i: int, j: int) -> bool {
    0 <= j < queue.len() && !queue[j].abandoned && (j >= i || given[j] is None)
}

/// Whether the scan for layers to start has passed the key `k` when it
/// stands at the offsets `at.0`, `at.1` from the viewer's chunk `centre` and
/// at the layer `at.2`: the scan runs over x, within that over z, within
/// that over the layers.
spec fn scanned(k: ChunkKey, centre: (int, int), at: (int, int, int)) -> bool {
    let kx = k.chunk_x - centre.0;
    let kz = k.chunk_z - centre.1;
    kx < at.0 || (kx == at.0 && (kz < at.1 || (kz == at.1 && k.vertical_layer < at.2)))
}

/// What holds while layers are being started: `now` is the state `before`
/// with a pending record, a key and a piece of work added for each key of
/// `listed`, and those keys are in range, new and in growing order.
spec fn scan_state(
    before: StreamView,
    now: StreamView,
    listed: Seq<ChunkKey>,
    viewpoint: Viewpoint,
    config: StreamConfig,
) -> bool {
    &&& forall|i: int, j: int|
        0 <= i < j < listed.len() ==> (#[trigger] listed[i]).before(#[trigger] listed[j])
    &&& forall|k: ChunkKey| #[trigger]
        listed.contains(k) ==> desired(k, viewpoint, config) && !before.records.contains_key(k)
    &&& forall|k: ChunkKey| #[trigger]
        now.records.contains_key(k) <==> before.records.contains_key(k) || listed.contains(k)
    &&& forall|k: ChunkKey| #[trigger]
        now.records.contains_key(k) ==> now.records[k] == if before.records.contains_key(k) {
            before.records[k]
        } else {
            ChunkRecord::pending_spec(k)
        }
    &&& now.keys == before.keys + listed
    &&& now.queue == before.queue + listed.map_values(live_tasks())
    &&& now.next_handle == before.next_handle
}

/// Starting one more layer keeps `scan_state`.
proof fn lemma_scan_state_push(
    before: StreamView,
    prior: StreamView,
    now: StreamView,
    listed: Seq<ChunkKey>,
    key: ChunkKey,
    viewpoint: Viewpoint,
    config: StreamConfig,
)
    requires
        scan_state(before, prior, listed, viewpoint, config),
        desired(key, viewpoint, config),
        !prior.records.contains_key(key),
        forall|k: ChunkKey| listed.contains(k) ==> k.before(key),
        now == (StreamView {
            records: prior.records.insert(key, ChunkRecord::pending_spec(key)),
            keys: prior.keys.push(key),
            queue: prior.queue.push(live_task(key)),
            next_handle: prior.next_handle,
        }),
    ensures
        scan_state(before, now, listed.push(key), viewpoint, config),
{
    let longer = listed.push(key);
    assert(!listed.contains(key));
    assert forall|k: ChunkKey| #[trigger] longer.contains(k)
        <==> listed.contains(k) || k == key by {
        if longer.contains(k) {
            let j = choose|j: int| 0 <= j < longer.len() && longer[j] == k;
            if j < listed.len() {
                assert(listed[j] == k);
            }
        }
        if listed.contains(k) {
            let j = choose|j: int| 0 <= j < listed.len() && listed[j] == k;
            assert(longer[j] == k);
        }
        if k == key {
            assert(longer[listed.len() as int] == k);
        }
    }
    assert forall|i: int, j: int| 0 <= i < j < longer.len() implies (#[trigger] longer[i]).before(
        #[trigger] longer[j],
    ) by {
        if j == listed.len() {
            assert(listed.contains(listed[i]));
        } else {
            assert(listed[i].before(listed[j]));
        }
    }
    assert(now.keys =~= before.keys + longer);
    listed.lemma_push_map_commute(live_tasks(), key);
    assert(now.queue =~= before.queue + longer.map_values(live_tasks()));
}

} // verus!
