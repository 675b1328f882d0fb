//! Entities: handles to rows of archetypes.
use vstd::prelude::*;

verus! {

/// How many entities an archetype had created before a given one.
pub type Generation = u64;

/// The number of an archetype.
pub type ArchetypeId = u32;

/// The key under which an archetype finds the row of an entity.
pub type ArchetypeIdx = u32;

/// A handle to an entity: the archetype that holds it, the key of its row
/// there, and the generation that tells it apart from earlier holders of the
/// same key.
#[derive(Clone, Copy, Debug, PartialEq, Eq, Structural)]
pub struct Entity {
    generation: Generation,
    archetype_id: ArchetypeId,
    archetype_idx: ArchetypeIdx,
}

impl Entity {
    pub closed spec fn spec_generation(&self) -> Generation {
        self.generation
    }

    pub closed spec fn spec_archetype_id(&self) -> ArchetypeId {
        self.archetype_id
    }

    pub closed spec fn spec_archetype_idx(&self) -> ArchetypeIdx {
        self.archetype_idx
    }

    /// The entity of the given generation, archetype and key.
    pub closed spec fn spec_new(generation: Generation, archetype_id: ArchetypeId, archetype_idx: ArchetypeIdx) -> Entity {
        Entity { generation, archetype_id, archetype_idx }
    }

    /// The entity of the given generation, archetype and key.
    pub fn new(generation: Generation, archetype_id: ArchetypeId, archetype_idx: ArchetypeIdx) -> (r: Self)
        ensures
            r == Entity::spec_new(generation, archetype_id, archetype_idx),
            r.spec_generation() == generation,
            r.spec_archetype_id() == archetype_id,
            r.spec_archetype_idx() == archetype_idx,
    {
        Entity { generation, archetype_id, archetype_idx }
    }

    pub fn generation(&self) -> (r: Generation)
        ensures
            r == self.spec_generation(),
    {
        self.generation
    }

    pub fn archetype_id(&self) -> (r: ArchetypeId)
        ensures
            r == self.spec_archetype_id(),
    {
        self.archetype_id
    }

    pub fn archetype_idx(&self) -> (r: ArchetypeIdx)
        ensures
            r == self.spec_archetype_idx(),
    {
        self.archetype_idx
    }
}

impl Default for Entity {
    /// The entity of generation 0 with key 0 in archetype 0.
    fn default() -> (r: Self)
        ensures
            r.spec_generation() == 0,
            r.spec_archetype_id() == 0,
            r.spec_archetype_idx() == 0,
    {
        Entity { generation: 0, archetype_id: 0, archetype_idx: 0 }
    }
}

/// Two entities are equal exactly when their generation, archetype and key are.
pub proof fn lemma_entity_eq(a: Entity, b: Entity)
    ensures
        a == b <==> (a.spec_generation() == b.spec_generation() && a.spec_archetype_id()
            == b.spec_archetype_id() && a.spec_archetype_idx() == b.spec_archetype_idx()),
{
}

/// An entity made from a generation, an archetype and a key gives them back,
/// and two are equal exactly when they were made from the same three.
pub proof fn lemma_entity_new(
    g1: Generation,
    id1: ArchetypeId,
    idx1: ArchetypeIdx,
    g2: Generation,
    id2: ArchetypeId,
    idx2: ArchetypeIdx,
)
    ensures
        Entity::spec_new(g1, id1, idx1).spec_generation() == g1,
        Entity::spec_new(g1, id1, idx1).spec_archetype_id() == id1,
        Entity::spec_new(g1, id1, idx1).spec_archetype_idx() == idx1,
        Entity::spec_new(g1, id1, idx1) == Entity::spec_new(g2, id2, idx2) <==> (g1 == g2 && id1 == id2 && idx1
            == idx2),
{
}

} // verus!
