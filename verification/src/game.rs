//! The game world's bookkeeping.
use vstd::prelude::*;

pub mod chunk;

use crate::ecs::registry::Registry;
use crate::game::chunk::store::{ChunkStore, StoreGroup};

verus! {

/// A game: its entities, with messages of type `M`, and its chunks.
pub struct Game<M> {
    ecs: Registry<M>,
    chunk_store: ChunkStore,
}

impl<M> Game<M> {
    pub closed spec fn spec_ecs(&self) -> Registry<M> {
        self.ecs
    }

    pub closed spec fn spec_chunk_store(&self) -> ChunkStore {
        self.chunk_store
    }

    /// A game with no entities and no chunks.
    pub fn new() -> (r: Self)
        ensures
            r.spec_ecs().wf(),
            r.spec_ecs().spec_archetypes() == Seq::<crate::ecs::archetype::Archetype>::empty(),
            r.spec_chunk_store().wf(),
            r.spec_chunk_store().spec_groups() == Map::<(i32, i32), StoreGroup>::empty(),
    {
        Game { ecs: Registry::new(), chunk_store: ChunkStore::new() }
    }

    /// Advances the game by one tick, which as yet changes nothing.
    pub fn tick(&mut self)
        ensures
            *final(self) == *old(self),
    {
    }
}

} // verus!
