//! The record of every chunk layer that is being loaded or is resident.

use std::collections::HashMap;
use vstd::prelude::*;
use crate::keys::{lemma_code_injective, ChunkKey};
use crate::voxel::Chunk;

verus! {

/// Where a chunk layer stands between being asked for and being shown.
#[derive(Copy, Clone, PartialEq, Eq, Debug, Structural)]
pub enum Lifecycle {
    /// Work on the layer is under way; nothing is shown yet.
    Pending,
    /// The layer's surface has been handed out under a render handle.
    Resident,
}

/// What is known of one chunk layer.
pub struct ChunkRecord {
    pub key: ChunkKey,
    pub state: Lifecycle,
    /// The handle under which the surface was handed out.
    pub handle: Option<u64>,
    /// The cells of the chunk.
    pub grid: Option<Chunk>,
}

impl ChunkRecord {
    /// A resident record has a handle and a well-formed grid; a pending one
    /// has neither.
    pub open spec fn wf(self) -> bool {
        match self.state {
            Lifecycle::Pending => self.handle is None && self.grid is None,
            Lifecycle::Resident => self.handle is Some && self.grid is Some
                && self.grid->Some_0.wf(),
        }
    }

    /// The record of a layer that has just been asked for.
    pub open spec fn pending_spec(key: ChunkKey) -> ChunkRecord {
        ChunkRecord { key, state: Lifecycle::Pending, handle: None, grid: None }
    }

    /// The record of a layer that has just been asked for.
    pub fn pending(key: ChunkKey) -> (record: ChunkRecord)
        ensures
            record == ChunkRecord::pending_spec(key),
            record.wf(),
    {
        ChunkRecord { key, state: Lifecycle::Pending, handle: None, grid: None }
    }

    /// The record of a layer whose surface is shown under `handle`.
    pub open spec fn resident_spec(key: ChunkKey, handle: u64, grid: Chunk) -> ChunkRecord {
        ChunkRecord { key, state: Lifecycle::Resident, handle: Some(handle), grid: Some(grid) }
    }

    /// The record of a layer whose surface is shown under `handle`.
    pub fn resident(key: ChunkKey, handle: u64, grid: Chunk) -> (record: ChunkRecord)
        requires
            grid.wf(),
        ensures
            record == ChunkRecord::resident_spec(key, handle, grid),
            record.wf(),
    {
        ChunkRecord { key, state: Lifecycle::Resident, handle: Some(handle), grid: Some(grid) }
    }

    /// Whether work on the layer is still under way.
    pub fn is_pending(&self) -> (pending: bool)
        ensures
            pending == (self.state == Lifecycle::Pending),
    {
        match self.state {
            Lifecycle::Pending => true,
            Lifecycle::Resident => false,
        }
    }
}

/// Records by key: at most one for a key.
pub struct Registry {
    records: HashMap<u128, ChunkRecord>,
}

impl View for Registry {
    type V = Map<ChunkKey, ChunkRecord>;

    closed spec fn view(&self) -> Map<ChunkKey, ChunkRecord> {
        Map::new(
            |k: ChunkKey| self.records@.contains_key(k.code() as u128),
            |k: ChunkKey| self.records@[k.code() as u128],
        )
    }
}

impl Registry {
    /// Every record is well formed and stands under its own key.
    pub open spec fn wf(&self) -> bool {
        forall|k: ChunkKey| #[trigger] self@.contains_key(k) ==> self@[k].key == k && self@[k].wf()
    }

    /// No records.
    pub fn new() -> (registry: Registry)
        ensures
            registry.wf(),
            registry@ == Map::<ChunkKey, ChunkRecord>::empty(),
    {
        let registry = Registry { records: HashMap::new() };
        assert(registry@ =~= Map::<ChunkKey, ChunkRecord>::empty());
        registry
    }

    /// Whether there is a record for `key`.
    pub fn contains(&self, key: &ChunkKey) -> (found: bool)
        ensures
            found == self@.contains_key(*key),
    {
        let code = key.to_code();
        self.records.contains_key(&code)
    }

    /// The record of `key`, if there is one.
    pub fn get(&self, key: &ChunkKey) -> (found: Option<&ChunkRecord>)
        ensures
            found == if self@.contains_key(*key) {
                Some(&self@[*key])
            } else {
                None
            },
    {
        let code = key.to_code();
        self.records.get(&code)
    }

    /// Puts `record` under its key, in place of what was there.
    pub fn insert(&mut self, record: ChunkRecord)
        requires
            old(self).wf(),
            record.wf(),
        ensures
            final(self).wf(),
            final(self)@ == old(self)@.insert(record.key, record),
    {
        let code = record.key.to_code();
        self.records.insert(code, record);
        proof {
            let after = old(self)@.insert(record.key, record);
            assert forall|k: ChunkKey| self@.contains_key(k) == after.contains_key(k) by {
                if k.code() == record.key.code() {
                    lemma_code_injective(k, record.key);
                }
            }
            assert forall|k: ChunkKey| self@.contains_key(k) implies self@[k] == after[k] by {
                if k.code() == record.key.code() {
                    lemma_code_injective(k, record.key);
                }
            }
            assert(self@ =~= after);
        }
    }

    /// Takes the record of `key` out, if there is one.
    pub fn remove(&mut self, key: &ChunkKey) -> (taken: Option<ChunkRecord>)
        requires
            old(self).wf(),
        ensures
            final(self).wf(),
            final(self)@ == old(self)@.remove(*key),
            taken == if old(self)@.contains_key(*key) {
                Some(old(self)@[*key])
            } else {
                None
            },
    {
        let code = key.to_code();
        let taken = self.records.remove(&code);
        proof {
            let after = old(self)@.remove(*key);
            assert forall|k: ChunkKey| self@.contains_key(k) == after.contains_key(k) by {
                if k.code() == key.code() {
                    lemma_code_injective(k, *key);
                }
            }
            assert(self@ =~= after);
        }
        taken
    }
}

} // verus!
