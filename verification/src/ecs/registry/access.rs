//! Access to other entities' components while one archetype is iterated.
use vstd::prelude::*;

use crate::ecs::archetype::Archetype;
use crate::ecs::entity::{ArchetypeId, ArchetypeIdx, Entity};
use crate::ecs::registry::UnsafeRegistryCell;
use crate::ecs::sort::distinct;
use crate::ecs::storage::table::first_index;
use crate::ecs::util::{self, is_disjoint, is_subset};

verus! {

/// What a running iteration may look up besides the components it is given.
pub trait Accessor {
    /// The entities can be looked up.
    spec fn spec_valid(&self) -> bool;

    /// A shared lookup of these types for this entity is allowed.
    spec fn spec_may_get(&self, entity: Entity, wanted: Seq<u64>) -> bool;

    /// A lookup that reads `read` and changes `write` for this entity is
    /// allowed.
    spec fn spec_may_get_mut(&self, entity: Entity, read: Seq<u64>, write: Seq<u64>) -> bool;

    /// Whether the entity exists.
    fn contains(&self, entity: Entity) -> bool
        requires
            self.spec_valid(),
    ;

    /// Whether the entity's archetype has every type of `type_ids`.
    fn has(&self, entity: Entity, type_ids: &[u64]) -> bool;

    /// The values of the requested types.
    fn get(&self, entity: Entity, wanted: &[u64]) -> Option<Vec<Vec<u8>>>
        requires
            self.spec_may_get(entity, wanted@),
    ;

    /// The columns of the types read and changed, read types first.
    fn get_mut(&mut self, entity: Entity, read: &[u64], write: &[u64]) -> Option<Vec<usize>>
        requires
            old(self).spec_may_get_mut(entity, read@, write@),
    ;
}

/// The accessor of an iteration over the archetypes that have the local
/// types. It knows the row being visited, whose changed components it must
/// not hand out again, and the global types it may hand out for others.
pub struct IterAccessor<'a, M> {
    registry: UnsafeRegistryCell<'a, M>,
    iter_pos: (ArchetypeId, ArchetypeIdx),
    local_write: Vec<u64>,
    global_values: Vec<u64>,
    global_read: Vec<u64>,
    global_write: Vec<u64>,
}

impl<'a, M> IterAccessor<'a, M> {
    pub closed spec fn spec_registry(&self) -> UnsafeRegistryCell<'a, M> {
        self.registry
    }

    /// The archetype being visited and the row in it.
    pub closed spec fn spec_iter_pos(&self) -> (ArchetypeId, ArchetypeIdx) {
        self.iter_pos
    }

    pub closed spec fn spec_local_write(&self) -> Seq<u64> {
        self.local_write@
    }

    pub closed spec fn spec_global_values(&self) -> Seq<u64> {
        self.global_values@
    }

    pub closed spec fn spec_global_read(&self) -> Seq<u64> {
        self.global_read@
    }

    pub closed spec fn spec_global_write(&self) -> Seq<u64> {
        self.global_write@
    }

    /// An accessor that visits no row yet: its position is past every
    /// archetype. `local_write` are the types the iteration changes;
    /// `global_values`, `global_read` and `global_write` are the types it may
    /// look up for other entities: all of them, those only read, and those
    /// changed.
    pub fn new(
        registry: UnsafeRegistryCell<'a, M>,
        local_write: Vec<u64>,
        global_values: Vec<u64>,
        global_read: Vec<u64>,
        global_write: Vec<u64>,
    ) -> (r: Self)
        ensures
            r.spec_registry() == registry,
            r.spec_iter_pos() == (ArchetypeId::MAX, ArchetypeIdx::MAX),
            r.spec_local_write() == local_write@,
            r.spec_global_values() == global_values@,
            r.spec_global_read() == global_read@,
            r.spec_global_write() == global_write@,
    {
        IterAccessor {
            registry,
            iter_pos: (ArchetypeId::MAX, ArchetypeIdx::MAX),
            local_write,
            global_values,
            global_read,
            global_write,
        }
    }

    /// Moves the accessor to row `row` of archetype `archetype_id`.
    pub fn visit(&mut self, archetype_id: ArchetypeId, row: ArchetypeIdx)
        ensures
            final(self).spec_iter_pos() == (archetype_id, row),
            final(self).spec_registry() == old(self).spec_registry(),
            final(self).spec_local_write() == old(self).spec_local_write(),
            final(self).spec_global_values() == old(self).spec_global_values(),
            final(self).spec_global_read() == old(self).spec_global_read(),
            final(self).spec_global_write() == old(self).spec_global_write(),
    {
        self.iter_pos = (archetype_id, row);
    }

    /// `entity` is in the row being visited. Where it names the visited
    /// archetype, that archetype must exist.
    pub open spec fn spec_is_current(&self, entity: Entity) -> bool {
        let a: Archetype = self.spec_registry().0.spec_archetypes()[self.spec_iter_pos().0 as int];
        &&& entity.spec_archetype_id() == self.spec_iter_pos().0
        &&& a.spec_lookup().contains_key(entity.spec_archetype_idx() as usize)
        &&& a.spec_lookup()[entity.spec_archetype_idx() as usize] == self.spec_iter_pos().1 as usize
    }

    /// Looking `entity` up reaches an archetype when it names the visited one.
    pub open spec fn spec_position_valid(&self, entity: Entity) -> bool {
        entity.spec_archetype_id() == self.spec_iter_pos().0 ==> (self.spec_iter_pos().0 as int)
            < self.spec_registry().0.spec_archetypes().len()
    }

    /// Whether the row being visited holds `entity`.
    fn visits(&self, entity: Entity) -> (r: bool)
        requires
            self.spec_registry().0.wf(),
            self.spec_position_valid(entity),
        ensures
            r == self.spec_is_current(entity),
    {
        if entity.archetype_id() == self.iter_pos.0 {
            let archetypes = self.registry.archetypes();
            archetypes[self.iter_pos.0 as usize].index_of(entity) == Some(self.iter_pos.1 as usize)
        } else {
            false
        }
    }
}

impl<'a, M> Accessor for IterAccessor<'a, M> {
    /// The registry is well formed.
    open spec fn spec_valid(&self) -> bool {
        self.spec_registry().0.wf()
    }

    /// The registry is well formed; the entity in the visited row is not
    /// asked for a type the iteration changes; only global types are asked
    /// for.
    open spec fn spec_may_get(&self, entity: Entity, wanted: Seq<u64>) -> bool {
        &&& self.spec_registry().0.wf()
        &&& self.spec_position_valid(entity)
        &&& (self.spec_is_current(entity) ==> is_disjoint(wanted, self.spec_local_write()))
        &&& is_subset(wanted, self.spec_global_values())
    }

    /// As for a shared lookup, with the changed types counted as asked for;
    /// read types must be global, changed ones globally changed, and no type
    /// asked for twice.
    open spec fn spec_may_get_mut(&self, entity: Entity, read: Seq<u64>, write: Seq<u64>) -> bool {
        &&& self.spec_registry().0.wf()
        &&& self.spec_position_valid(entity)
        &&& (self.spec_is_current(entity) ==> is_disjoint(read + write, self.spec_local_write()))
        &&& is_subset(read, self.spec_global_values())
        &&& is_subset(write, self.spec_global_write())
        &&& distinct(read + write)
    }

    fn contains(&self, entity: Entity) -> (r: bool)
        ensures
            r == self.spec_registry().0.spec_contains(entity),
    {
        self.registry.contains(entity)
    }

    fn has(&self, entity: Entity, type_ids: &[u64]) -> (r: bool)
        ensures
            r == self.spec_registry().0.spec_has(entity, type_ids@),
    {
        self.registry.has(entity, type_ids)
    }

    fn get(&self, entity: Entity, wanted: &[u64]) -> (r: Option<Vec<Vec<u8>>>)
        ensures
            match r {
                None => self.spec_registry().0.spec_get(entity, wanted@) is None,
                Some(vals) => self.spec_registry().0.spec_get(entity, wanted@) matches Some(s) && vals@.len()
                    == s.len() && forall|i: int| 0 <= i < s.len() ==> #[trigger] vals@[i]@ == s[i],
            },
    {
        if self.visits(entity) {
            if !util::disjoint(wanted, self.local_write.as_slice()) {
                assert(false);
            }
        }
        if !util::subset(wanted, self.global_values.as_slice()) {
            assert(false);
        }
        self.registry.get(entity, wanted)
    }

    fn get_mut(&mut self, entity: Entity, read: &[u64], write: &[u64]) -> (r: Option<Vec<usize>>)
        ensures
            *final(self) == *old(self),
            r is Some <==> old(self).spec_registry().0.spec_contains(entity) && old(self).spec_registry().0.spec_has(
                entity,
                read@ + write@,
            ),
            r matches Some(cols) ==> cols@.len() == read@.len() + write@.len() && forall|i: int|
                0 <= i < read@.len() + write@.len() ==> first_index(
                    old(self).spec_registry().0.spec_archetypes()[entity.spec_archetype_id() as int].spec_table().spec_type_ids(),
                    (read@ + write@)[i],
                    #[trigger] cols@[i] as int,
                ),
    {
        let mut wanted: Vec<u64> = vstd::slice::slice_to_vec(read);
        let mut tail: Vec<u64> = vstd::slice::slice_to_vec(write);
        wanted.append(&mut tail);
        if self.visits(entity) {
            if !util::disjoint(wanted.as_slice(), self.local_write.as_slice()) {
                assert(false);
            }
        }
        if !util::subset(read, self.global_values.as_slice()) || !util::subset(write, self.global_write.as_slice()) {
            assert(false);
        }
        self.registry.get_mut(entity, wanted.as_slice())
    }
}

} // verus!
