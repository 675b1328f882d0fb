//! Archetypes: the entities that have one set of component types, with a
//! lookup from each entity's key to its row.
use vstd::prelude::*;

use slab::Slab;

use crate::ecs::entity::{ArchetypeId, ArchetypeIdx, Entity, Generation};
use crate::ecs::storage::column::Column;
use crate::ecs::sort::distinct;
use crate::ecs::storage::table::{first_index, grown_capacity, pushed_capacity, Table};

verus! {

#[verifier::external_type_specification]
#[verifier::external_body]
#[verifier::reject_recursive_types(T)]
pub struct ExSlab<T>(Slab<T>);

/// The entries of a slab of row numbers: each occupied key with its value.
pub uninterp spec fn slab_entries(s: Slab<usize>) -> Map<usize, usize>;

/// The number of slots of a slab of row numbers, occupied or vacant: a slot,
/// once made, stays, and the keys that are handed out are slot numbers.
pub uninterp spec fn slab_slots(s: Slab<usize>) -> nat;

/// `Slab::new`: a slab with no entries.
#[verifier::external_body]
fn slab_new() -> (r: Slab<usize>)
    ensures
        slab_entries(r) =~= Map::empty(),
        slab_slots(r) == 0,
{
    Slab::new()
}

/// `Slab::insert`: stores `val` under a key that was vacant and returns the
/// key, which is a vacant slot or else a new slot after the last one.
#[verifier::external_body]
fn slab_insert(s: &mut Slab<usize>, val: usize) -> (key: usize)
    ensures
        !slab_entries(*old(s)).contains_key(key),
        slab_entries(*final(s)) == slab_entries(*old(s)).insert(key, val),
        key <= slab_slots(*old(s)),
        slab_slots(*final(s)) == if key == slab_slots(*old(s)) {
            (key + 1) as nat
        } else {
            slab_slots(*old(s))
        },
{
    s.insert(val)
}

/// `Slab::get`: the value under `key`, if the key is occupied.
#[verifier::external_body]
fn slab_get(s: &Slab<usize>, key: usize) -> (r: Option<usize>)
    ensures
        r == if slab_entries(*s).contains_key(key) {
            Some(slab_entries(*s)[key])
        } else {
            None
        },
{
    s.get(key).copied()
}

/// `Slab::get_mut`: the value under `key`, to change in place, if the key is
/// occupied.
#[verifier::external_body]
fn slab_get_mut(s: &mut Slab<usize>, key: usize) -> (r: Option<&mut usize>)
    ensures
        match r {
            Some(v) => slab_entries(*old(s)).contains_key(key) && *v == slab_entries(*old(s))[key]
                && slab_entries(*final(s)) == slab_entries(*old(s)).insert(key, *final(v)),
            None => !slab_entries(*old(s)).contains_key(key) && slab_entries(*final(s))
                == slab_entries(*old(s)),
        },
        slab_slots(*final(s)) == slab_slots(*old(s)),
{
    s.get_mut(key)
}

/// `Slab::remove`: takes the value under an occupied key out and frees the
/// key; its slot stays, vacant.
#[verifier::external_body]
fn slab_remove(s: &mut Slab<usize>, key: usize) -> (r: usize)
    requires
        slab_entries(*old(s)).contains_key(key),
    ensures
        r == slab_entries(*old(s))[key],
        slab_entries(*final(s)) == slab_entries(*old(s)).remove(key),
        slab_slots(*final(s)) == slab_slots(*old(s)),
{
    s.remove(key)
}

/// The entities that share one set of component types.
pub struct Archetype {
    table: Table,
    entities: Vec<Entity>,
    entity_lookup: Slab<usize>,
    generation: Generation,
    id: ArchetypeId,
    pushed: Ghost<nat>,
}

impl Archetype {
    /// The entity of each row, including rows left behind by removals.
    pub closed spec fn spec_entities(&self) -> Seq<Entity> {
        self.entities@
    }

    /// The row of each occupied key.
    pub closed spec fn spec_lookup(&self) -> Map<usize, usize> {
        slab_entries(self.entity_lookup)
    }

    /// How many entities have been pushed since the archetype was made.
    pub closed spec fn spec_pushed(&self) -> nat {
        self.pushed@
    }

    /// The key of the entity in each row points at that row.
    pub open spec fn rows_tracked(&self) -> bool {
        forall|i: int|
            0 <= i < self.spec_entities().len() ==> {
                &&& self.spec_lookup().contains_key(
                    (#[trigger] self.spec_entities()[i]).spec_archetype_idx() as usize,
                )
                &&& self.spec_lookup()[self.spec_entities()[i].spec_archetype_idx() as usize] == i
            }
    }

    pub closed spec fn spec_generation(&self) -> Generation {
        self.generation
    }

    pub closed spec fn spec_id(&self) -> ArchetypeId {
        self.id
    }

    pub closed spec fn spec_table(&self) -> Table {
        self.table
    }

    /// One entity per row of the table, and every key points at a row.
    pub closed spec fn wf(&self) -> bool {
        &&& self.table.wf()
        &&& self.entities@.len() == self.table.spec_len()
        &&& forall|k: usize| #[trigger] slab_entries(self.entity_lookup).contains_key(k)
            ==> slab_entries(self.entity_lookup)[k] < self.entities@.len()
        &&& forall|k1: usize, k2: usize|
            #![trigger slab_entries(self.entity_lookup)[k1], slab_entries(self.entity_lookup)[k2]]
            slab_entries(self.entity_lookup).contains_key(k1) && slab_entries(self.entity_lookup).contains_key(k2)
                && k1 != k2 ==> slab_entries(self.entity_lookup)[k1] != slab_entries(self.entity_lookup)[k2]
        &&& slab_slots(self.entity_lookup) <= self.pushed@
        &&& self.pushed@ <= u32::MAX + 1 ==> self.rows_tracked()
        &&& self.pushed@ < u64::MAX ==> {
            &&& self.generation == self.pushed@ + 1
            &&& forall|i: int|
                0 <= i < self.entities@.len() ==> (#[trigger] self.entities@[i]).spec_generation() < self.generation
        }
    }

    /// While fewer than `u32::MAX + 2` entities have been pushed, the key of
    /// the entity in each row points at that row.
    pub proof fn lemma_rows_tracked(&self)
        requires
            self.wf(),
            self.spec_pushed() <= u32::MAX + 1,
        ensures
            self.rows_tracked(),
            self.spec_entities().len() > 0 ==> self.last_row_tracked(),
    {
        if self.spec_entities().len() > 0 {
            let n = self.spec_entities().len() - 1;
            assert(self.spec_entities()[n] == self.spec_entities().last());
        }
    }

    /// The key of the entity in the last row points at the last row.
    pub open spec fn last_row_tracked(&self) -> bool {
        let last_key = self.spec_entities().last().spec_archetype_idx() as usize;
        &&& self.spec_entities().len() > 0
        &&& self.spec_lookup().contains_key(last_key)
        &&& self.spec_lookup()[last_key] == self.spec_entities().len() - 1
    }

    /// An archetype with no entities over the given component columns; its
    /// first generation is 1.
    pub fn new(id: ArchetypeId, columns: Vec<Column>, type_ids: Vec<u64>) -> (r: Self)
        requires
            columns@.len() == type_ids@.len(),
            forall|i: int| 0 <= i < columns@.len() ==> (#[trigger] columns@[i]).wf(),
        ensures
            r.wf(),
            r.spec_id() == id,
            r.spec_generation() == 1,
            r.spec_pushed() == 0,
            r.spec_entities() == Seq::<Entity>::empty(),
            r.spec_lookup() == Map::<usize, usize>::empty(),
            r.spec_table().spec_type_ids() == type_ids@,
            r.spec_table().spec_len() == 0,
            r.spec_table().spec_cap() == 0,
            forall|i: int| 0 <= i < columns@.len() ==> #[trigger] r.spec_table().spec_column(i) == columns@[i],
    {
        Archetype {
            table: Table::new(columns, type_ids),
            entities: Vec::new(),
            entity_lookup: slab_new(),
            generation: 1,
            id,
            pushed: Ghost(0),
        }
    }

    /// The number of the archetype.
    pub fn id(&self) -> (r: ArchetypeId)
        ensures
            r == self.spec_id(),
    {
        self.id
    }

    /// The number of rows.
    pub fn len(&self) -> (r: usize)
        requires
            self.wf(),
        ensures
            r == self.spec_entities().len(),
    {
        self.table.len()
    }

    /// The table of components.
    pub fn table(&self) -> (r: &Table)
        ensures
            *r == self.spec_table(),
    {
        &self.table
    }

    /// The entity of each row.
    pub fn entities(&self) -> (r: &[Entity])
        ensures
            r@ == self.spec_entities(),
    {
        self.entities.as_slice()
    }

    /// The component types of the table.
    pub fn type_ids(&self) -> (r: &[u64])
        ensures
            r@ == self.spec_table().spec_type_ids(),
    {
        self.table.type_ids()
    }

    /// The row that the key of `entity` points at, if the key is occupied.
    pub fn index_of(&self, entity: Entity) -> (r: Option<usize>)
        ensures
            r == if self.spec_lookup().contains_key(entity.spec_archetype_idx() as usize) {
                Some(self.spec_lookup()[entity.spec_archetype_idx() as usize])
            } else {
                None
            },
    {
        slab_get(&self.entity_lookup, entity.archetype_idx() as usize)
    }

    /// Whether the key of `entity` points at a row that holds an entity of the
    /// same generation.
    pub fn contains(&self, entity: Entity) -> (r: bool)
        requires
            self.wf(),
        ensures
            r == (self.spec_lookup().contains_key(entity.spec_archetype_idx() as usize)
                && self.spec_entities()[self.spec_lookup()[entity.spec_archetype_idx() as usize] as int].spec_generation()
                == entity.spec_generation()),
    {
        match slab_get(&self.entity_lookup, entity.archetype_idx() as usize) {
            Some(i) => self.entities[i].generation() == entity.generation(),
            None => false,
        }
    }

    /// Adds an entity with the given component values: a row is appended, a
    /// fresh key is made to point at it, and the entity gets the current
    /// generation, which then advances (wrapping). The key is a slot of the
    /// lookup, and there are never more slots than pushes, so while at most
    /// `u32::MAX` entities were pushed before, the key fits the entity and the
    /// new entity is held in the last row.
    pub fn push(&mut self, wanted: &[u64], values: Vec<Vec<u8>>) -> (e: Entity)
        requires
            old(self).wf(),
            old(self).spec_table().push_fits(),
            values@.len() == wanted@.len(),
            forall|i: int| 0 <= i < wanted@.len() ==> old(self).spec_table().spec_type_ids().contains(#[trigger] wanted@[i]),
            forall|i: int, c: int|
                0 <= i < wanted@.len() && #[trigger] first_index(old(self).spec_table().spec_type_ids(), wanted@[i], c)
                    ==> values@[i]@.len() == old(self).spec_table().spec_column(c).spec_elem_size(),
        ensures
            final(self).wf(),
            final(self).spec_id() == old(self).spec_id(),
            final(self).spec_entities() == old(self).spec_entities().push(e),
            e.spec_generation() == old(self).spec_generation(),
            e.spec_archetype_id() == old(self).spec_id(),
            final(self).spec_generation() == (if old(self).spec_generation() == u64::MAX {
                0
            } else {
                old(self).spec_generation() + 1
            }),
            final(self).spec_pushed() == old(self).spec_pushed() + 1,
            exists|k: usize|
                k <= old(self).spec_pushed() && !old(self).spec_lookup().contains_key(k) && final(self).spec_lookup()
                    == old(self).spec_lookup().insert(k, old(self).spec_entities().len() as usize)
                    && e.spec_archetype_idx() == k as u32,
            old(self).spec_pushed() <= u32::MAX ==> {
                &&& !old(self).contains_spec(e)
                &&& final(self).contains_spec(e)
                &&& final(self).spec_lookup()[e.spec_archetype_idx() as usize] == old(self).spec_entities().len()
                &&& final(self).spec_get(e, wanted@) is Some
                &&& distinct(wanted@) && old(self).spec_entities().len() == 0 ==> final(self).spec_get(e, wanted@)
                    == Some(Seq::new(wanted@.len(), |i: int| values@[i]@))
            },
            old(self).spec_pushed() < u64::MAX ==> forall|i: int|
                0 <= i < old(self).spec_entities().len() ==> (#[trigger] old(self).spec_entities()[i]).spec_generation()
                    < e.spec_generation(),
            final(self).spec_table().spec_type_ids() == old(self).spec_table().spec_type_ids(),
            forall|c: int|
                0 <= c < old(self).spec_table().spec_type_ids().len() ==> (#[trigger] final(self).spec_table().spec_column(
                    c,
                )).spec_elem_size() == old(self).spec_table().spec_column(c).spec_elem_size(),
            final(self).spec_table().spec_len() == old(self).spec_table().spec_len() + 1,
            final(self).spec_table().spec_cap() == pushed_capacity(
                old(self).spec_table().spec_len(),
                old(self).spec_table().spec_cap(),
            ),
            forall|c: int|
                0 <= c < old(self).spec_table().spec_type_ids().len() ==> (#[trigger] final(self).spec_table().spec_column(
                    c,
                )).spec_capacity() == grown_capacity(
                    old(self).spec_table().spec_column(c).spec_capacity(),
                    old(self).spec_table().spec_len(),
                    old(self).spec_table().spec_cap(),
                ),
            forall|e2: Entity| #[trigger] old(self).contains_spec(e2) ==> final(self).contains_spec(e2),
            forall|e2: Entity, w: Seq<u64>|
                #[trigger] old(self).spec_get(e2, w) is Some ==> final(self).spec_get(e2, w) == old(self).spec_get(e2, w),
    {
        let table_len = self.table.len();
        let ghost vals = values@;
        self.table.push(wanted, values);
        proof {
            let ids = self.table.spec_type_ids();
            if distinct(wanted@) && table_len == 0 {
                assert forall|i: int| 0 <= i < wanted@.len() implies #[trigger] self.table.spec_cell(
                    ids.index_of_first(wanted@[i])->0,
                    table_len as int,
                ) == vals[i]@ by {
                    ids.index_of_first_ensures(wanted@[i]);
                    let c = ids.index_of_first(wanted@[i])->0;
                    assert(first_index(old(self).table.spec_type_ids(), wanted@[i], c));
                    if old(self).table.spec_column(c).spec_elem_size() == 0 {
                        assert(vals[i]@ =~= Seq::<u8>::empty());
                    } else {
                        assert forall|k2: int| i < k2 < wanted@.len() implies !first_index(
                            old(self).table.spec_type_ids(),
                            #[trigger] wanted@[k2],
                            c,
                        ) by {
                            assert(wanted@[i] != wanted@[k2]);
                        }
                    }
                }
            }
        }
        let key = slab_insert(&mut self.entity_lookup, table_len);
        let archetype_idx = key as ArchetypeIdx;
        let entity = Entity::new(self.generation, self.id, archetype_idx);
        self.generation = self.generation.wrapping_add(1);
        self.entities.push(entity);
        proof {
            self.pushed@ = self.pushed@ + 1;
        }
        assert(!old(self).spec_lookup().contains_key(key));
        proof {
            if old(self).pushed@ <= u32::MAX {
                assert forall|i: int| 0 <= i < self.entities@.len() implies {
                    &&& self.spec_lookup().contains_key((#[trigger] self.entities@[i]).spec_archetype_idx() as usize)
                    &&& self.spec_lookup()[self.entities@[i].spec_archetype_idx() as usize] == i
                } by {
                    if i < table_len {
                        assert(self.entities@[i] == old(self).entities@[i]);
                        assert(old(self).rows_tracked());
                        assert(old(self).spec_entities()[i] == old(self).entities@[i]);
                    }
                }
            }
            if self.pushed@ < u64::MAX {
                assert forall|i: int| 0 <= i < self.entities@.len() implies (#[trigger] self.entities@[i]).spec_generation()
                    < self.generation by {
                    if i < table_len {
                        assert(self.entities@[i] == old(self).entities@[i]);
                    }
                }
            }
            if key <= u32::MAX {
                assert((key as u32) as usize == key);
                assert(self.spec_lookup()[key] == table_len);
                assert(self.entities@[table_len as int] == entity);
                if distinct(wanted@) && table_len == 0 {
                    let ids = self.table.spec_type_ids();
                    assert(self.spec_get(entity, wanted@) =~= Some(Seq::new(wanted@.len(), |i: int| vals[i]@)));
                }
            }
            assert forall|e2: Entity| #[trigger] old(self).contains_spec(e2) implies self.contains_spec(e2) by {
                let key2 = e2.spec_archetype_idx() as usize;
                assert(key2 != key);
                assert(self.spec_lookup()[key2] == old(self).spec_lookup()[key2]);
            }
            assert forall|e2: Entity, w: Seq<u64>| #[trigger] old(self).spec_get(e2, w) is Some implies self.spec_get(
                e2,
                w,
            ) == old(self).spec_get(e2, w) by {
                let key2 = e2.spec_archetype_idx() as usize;
                assert(key2 != key);
                let row2 = old(self).spec_lookup()[key2];
                assert(self.spec_lookup()[key2] == row2);
                assert(self.entities@[row2 as int] == old(self).entities@[row2 as int]);
                let ids = self.table.spec_type_ids();
                assert forall|i: int| 0 <= i < w.len() implies #[trigger] self.table.spec_cell(
                    ids.index_of_first(w[i])->0,
                    0,
                ) == old(self).table.spec_cell(ids.index_of_first(w[i])->0, 0) by {
                    ids.index_of_first_ensures(w[i]);
                    let c = ids.index_of_first(w[i])->0;
                    assert(0 <= c < ids.len());
                }
                assert(self.spec_get(e2, w) =~= old(self).spec_get(e2, w));
            }
        }
        entity
    }

    /// When the key of `entity` points at a row that holds exactly this entity
    /// and the table has every requested type, the values of the requested
    /// types where the columns begin, that is in the first row.
    pub fn get(&self, entity: Entity, wanted: &[u64]) -> (r: Option<Vec<Vec<u8>>>)
        requires
            self.wf(),
        ensures
            match r {
                None => self.spec_get(entity, wanted@) is None,
                Some(vals) => self.spec_get(entity, wanted@) matches Some(s) && vals@.len() == s.len()
                    && forall|i: int| 0 <= i < s.len() ==> #[trigger] vals@[i]@ == s[i],
            },
    {
        let row = match slab_get(&self.entity_lookup, entity.archetype_idx() as usize) {
            Some(i) => i,
            None => return None,
        };
        if self.entities[row] != entity {
            return None;
        }
        let ptrs = match self.table.try_as_mut_ptr(wanted) {
            Ok(p) => p,
            Err(_) => return None,
        };
        let mut vals: Vec<Vec<u8>> = Vec::new();
        let mut k: usize = 0;
        while k < ptrs.len()
            invariant
                self.wf(),
                row < self.entities@.len(),
                ptrs@.len() == wanted@.len(),
                forall|i: int| 0 <= i < wanted@.len() ==> first_index(self.table.spec_type_ids(), wanted@[i], #[trigger] ptrs@[i] as int),
                k <= ptrs@.len(),
                vals@.len() == k,
                forall|i: int| 0 <= i < k ==> #[trigger] vals@[i]@ == self.table.spec_cell(ptrs@[i] as int, 0),
            decreases ptrs.len() - k,
        {
            let c = ptrs[k];
            proof {
                self.table.lemma_wf_column(c as int);
            }
            let v = self.table.column(c).read(0);
            vals.push(v);
            k = k + 1;
        }
        proof {
            let ids = self.table.spec_type_ids();
            assert forall|i: int| 0 <= i < wanted@.len() implies #[trigger] vals@[i]@ == self.table.spec_cell(
                ids.index_of_first(wanted@[i])->0,
                0,
            ) by {
                ids.index_of_first_ensures(wanted@[i]);
                let c = ids.index_of_first(wanted@[i])->0;
                assert(first_index(ids, wanted@[i], c));
                assert(first_index(ids, wanted@[i], ptrs@[i] as int));
                if c < ptrs@[i] {
                    assert(ids[c] != wanted@[i]);
                } else if ptrs@[i] < c {
                    assert(ids[ptrs@[i] as int] != wanted@[i]);
                }
                self.table.lemma_wf_column(c);
                if self.table.spec_column(c).spec_elem_size() == 0 {
                    assert(vals@[i]@ =~= Seq::<u8>::empty());
                }
            }
        }
        Some(vals)
    }

    /// When the key of `entity` points at a row of the same generation and
    /// the table has every requested type, the columns of the requested
    /// types, each the first of its type; the borrowed components are where
    /// those columns begin, in the first row.
    pub fn get_mut(&mut self, entity: Entity, wanted: &[u64]) -> (r: Option<Vec<usize>>)
        requires
            old(self).wf(),
        ensures
            *final(self) == *old(self),
            r is Some <==> old(self).contains_spec(entity) && forall|i: int|
                0 <= i < wanted@.len() ==> old(self).spec_table().spec_type_ids().contains(#[trigger] wanted@[i]),
            r matches Some(cols) ==> cols@.len() == wanted@.len() && forall|i: int|
                0 <= i < wanted@.len() ==> first_index(
                    old(self).spec_table().spec_type_ids(),
                    wanted@[i],
                    #[trigger] cols@[i] as int,
                ),
    {
        UnsafeArchetypeCell(&*self).get_mut(entity, wanted)
    }

    /// Removes `entity` when its key points at a row of the same generation:
    /// the last row is moved into that row, the key of the entity in the last
    /// row is pointed at it, the row count goes down by one, and the entity's
    /// key is freed. Where the last row is not the one its entity's key points
    /// at, which only keys past `u32::MAX` can bring about, only the key is
    /// freed.
    pub fn remove(&mut self, entity: Entity) -> (r: bool)
        requires
            old(self).wf(),
        ensures
            final(self).wf(),
            r == old(self).contains_spec(entity),
            !r ==> *final(self) == *old(self),
            r && old(self).last_row_tracked() ==> {
                let i = old(self).spec_lookup()[entity.spec_archetype_idx() as usize];
                let last = old(self).spec_entities().last();
                &&& final(self).spec_entities() == crate::ecs::sort::swapped(
                    old(self).spec_entities(),
                    i as int,
                    old(self).spec_entities().len() - 1,
                ).drop_last()
                &&& final(self).spec_lookup() == old(self).spec_lookup().insert(
                    last.spec_archetype_idx() as usize,
                    i,
                ).remove(entity.spec_archetype_idx() as usize)
            },
            r && !old(self).last_row_tracked() ==> final(self).spec_entities() == old(self).spec_entities()
                && final(self).spec_lookup() == old(self).spec_lookup().remove(entity.spec_archetype_idx() as usize),
            r ==> !final(self).contains_spec(entity),
            forall|e2: Entity|
                #[trigger] old(self).contains_spec(e2) && e2.spec_archetype_idx() != entity.spec_archetype_idx()
                    ==> final(self).contains_spec(e2),
            final(self).spec_id() == old(self).spec_id(),
            final(self).spec_generation() == old(self).spec_generation(),
            final(self).spec_pushed() == old(self).spec_pushed(),
            final(self).spec_table().spec_type_ids() == old(self).spec_table().spec_type_ids(),
            r && old(self).spec_pushed() <= u32::MAX + 1 ==> old(self).last_row_tracked()
                && final(self).spec_entities().len() == old(self).spec_entities().len() - 1,
            forall|e2: Entity, c: int|
                r && #[trigger] old(self).contains_spec(e2) && e2.spec_archetype_idx() != entity.spec_archetype_idx() && 0
                    <= c < old(self).spec_table().spec_type_ids().len() ==> #[trigger] final(self).spec_table().spec_cell(
                    c,
                    final(self).spec_lookup()[e2.spec_archetype_idx() as usize] as int,
                ) == old(self).spec_table().spec_cell(c, old(self).spec_lookup()[e2.spec_archetype_idx() as usize] as int),
    {
        let key = entity.archetype_idx() as usize;
        let entity_idx = match slab_get(&self.entity_lookup, key) {
            Some(i) => {
                if self.entities[i].generation() != entity.generation() {
                    return false;
                }
                i
            },
            None => return false,
        };
        let len = self.table.len();
        let last = self.entities[len - 1];
        let ghost old_lookup = self.spec_lookup();
        let ghost lk = last.spec_archetype_idx() as usize;
        let tracked_last = match slab_get(&self.entity_lookup, last.archetype_idx() as usize) {
            Some(row) => row == len - 1,
            None => false,
        };
        if tracked_last {
            match slab_get_mut(&mut self.entity_lookup, last.archetype_idx() as usize) {
                Some(slot) => {
                    *slot = entity_idx;
                },
                None => {},
            }
            self.table.swap_remove(entity_idx);
            let moved = self.entities[len - 1];
            let here = self.entities[entity_idx];
            self.entities.set(entity_idx, moved);
            self.entities.set(len - 1, here);
            self.entities.pop();
            slab_remove(&mut self.entity_lookup, key);
            proof {
                assert(self.entities@ =~= crate::ecs::sort::swapped(old(self).entities@, entity_idx as int, len - 1).drop_last());
                assert forall|j: int| 0 <= j < self.entities@.len() implies #[trigger] self.entities@[j] == if j
                    == entity_idx {
                    old(self).entities@[len - 1]
                } else {
                    old(self).entities@[j]
                } by {}
                if self.pushed@ < u64::MAX {
                    assert forall|j: int| 0 <= j < self.entities@.len() implies (#[trigger] self.entities@[j]).spec_generation()
                        < self.generation by {
                        if j == entity_idx {
                            assert(old(self).entities@[len - 1].spec_generation() < self.generation);
                        } else {
                            assert(old(self).entities@[j].spec_generation() < self.generation);
                        }
                    }
                }
                assert forall|e2: Entity, c: int|
                    #[trigger] old(self).contains_spec(e2) && e2.spec_archetype_idx() != entity.spec_archetype_idx() && 0
                        <= c < old(self).spec_table().spec_type_ids().len() implies #[trigger] self.spec_table().spec_cell(
                    c,
                    self.spec_lookup()[e2.spec_archetype_idx() as usize] as int,
                ) == old(self).spec_table().spec_cell(c, old_lookup[e2.spec_archetype_idx() as usize] as int) by {
                    let k2 = e2.spec_archetype_idx() as usize;
                    assert(k2 != key);
                    let j = old_lookup[k2];
                    let oc = old(self).table.spec_column(c);
                    let nc = self.table.spec_column(c);
                    old(self).table.lemma_wf_column(c);
                    oc.lemma_wf();
                    assert(nc.spec_elem_size() == oc.spec_elem_size());
                    if oc.spec_elem_size() > 0 {
                        assert(nc.spec_slots() == crate::ecs::sort::swapped(oc.spec_slots(), entity_idx as int, len - 1));
                    }
                    if k2 != lk {
                        assert(old_lookup[k2] != old_lookup[lk]);
                        assert(old_lookup[k2] != old_lookup[key]);
                        assert(self.spec_lookup()[k2] == j);
                        assert(j != entity_idx && j != len - 1);
                        assert(self.table.spec_cell(c, j as int) == old(self).table.spec_cell(c, j as int));
                    } else {
                        assert(self.spec_lookup()[k2] == entity_idx);
                        assert(j == len - 1);
                        assert(self.table.spec_cell(c, entity_idx as int) == old(self).table.spec_cell(c, len - 1));
                    }
                }
                if self.pushed@ <= u32::MAX + 1 {
                    assert(old(self).rows_tracked());
                    let nl = self.spec_lookup();
                    assert forall|j: int| 0 <= j < self.entities@.len() implies {
                        &&& nl.contains_key((#[trigger] self.entities@[j]).spec_archetype_idx() as usize)
                        &&& nl[self.entities@[j].spec_archetype_idx() as usize] == j
                    } by {
                        if j == entity_idx {
                            assert(old(self).spec_entities()[len - 1] == old(self).entities@[len - 1]);
                        } else {
                            assert(old(self).spec_entities()[j] == old(self).entities@[j]);
                            let kj = old(self).entities@[j].spec_archetype_idx() as usize;
                            assert(old_lookup[kj] == j);
                            assert(kj != key);
                            assert(old(self).spec_entities()[len - 1] == old(self).entities@[len - 1]);
                            assert(kj != lk);
                        }
                    }
                }
                let new_lookup = self.spec_lookup();
                assert(new_lookup == old_lookup.insert(lk, entity_idx).remove(key));
                if lk == key {
                    assert(old_lookup[key] == len - 1);
                }
                assert forall|k: usize| #[trigger] new_lookup.contains_key(k) implies new_lookup[k] < self.entities@.len() by {
                    if k != lk {
                        assert(old_lookup[k] != old_lookup[lk]);
                    }
                }
                assert forall|k1: usize, k2: usize|
                    new_lookup.contains_key(k1) && new_lookup.contains_key(k2) && k1 != k2 implies #[trigger] new_lookup[k1]
                    != #[trigger] new_lookup[k2] by {
                    if k1 == lk {
                        assert(old_lookup[k2] != old_lookup[key]);
                    } else if k2 == lk {
                        assert(old_lookup[k1] != old_lookup[key]);
                    } else {
                        assert(old_lookup[k1] != old_lookup[k2]);
                    }
                }
                assert forall|e2: Entity|
                    #[trigger] old(self).contains_spec(e2) && e2.spec_archetype_idx() != entity.spec_archetype_idx()
                        implies self.contains_spec(e2) by {
                    let k2 = e2.spec_archetype_idx() as usize;
                    assert(k2 != key);
                    if k2 != lk {
                        assert(old_lookup[k2] != old_lookup[lk]);
                        assert(old_lookup[k2] != old_lookup[key]);
                        assert(new_lookup[k2] == old_lookup[k2]);
                    }
                }
            }
        } else {
            slab_remove(&mut self.entity_lookup, key);
            proof {
                assert(!old(self).last_row_tracked());
                if old(self).pushed@ <= u32::MAX + 1 {
                    old(self).lemma_rows_tracked();
                }
                assert(self.entities@ == old(self).entities@);
                let new_lookup = self.spec_lookup();
                assert forall|k1: usize, k2: usize|
                    new_lookup.contains_key(k1) && new_lookup.contains_key(k2) && k1 != k2 implies #[trigger] new_lookup[k1]
                    != #[trigger] new_lookup[k2] by {
                    assert(old_lookup[k1] != old_lookup[k2]);
                }
            }
        }
        true
    }

    /// What `get` gives for `entity` and the requested types: the bytes of
    /// each requested type, from the first column of that type, in the first
    /// row, where the columns begin; nothing when the key is vacant, the row
    /// it points at holds another entity, or a requested type has no column.
    pub open spec fn spec_get(&self, entity: Entity, wanted: Seq<u64>) -> Option<Seq<Seq<u8>>> {
        let key = entity.spec_archetype_idx() as usize;
        let ids = self.spec_table().spec_type_ids();
        if self.spec_lookup().contains_key(key) && self.spec_entities()[self.spec_lookup()[key] as int] == entity
            && forall|i: int| 0 <= i < wanted.len() ==> ids.contains(#[trigger] wanted[i]) {
            Some(
                Seq::new(
                    wanted.len(),
                    |i: int| self.spec_table().spec_cell(ids.index_of_first(wanted[i])->0, 0),
                ),
            )
        } else {
            None
        }
    }

    /// A well-formed archetype has no more rows than `usize` counts.
    pub proof fn lemma_len_fits(&self)
        requires
            self.wf(),
        ensures
            self.spec_entities().len() <= usize::MAX,
    {
        self.table.lemma_len_fits();
    }

    /// Whether the key of `entity` points at a row of the same generation.
    pub open spec fn contains_spec(&self, entity: Entity) -> bool {
        &&& self.spec_lookup().contains_key(entity.spec_archetype_idx() as usize)
        &&& self.spec_entities()[self.spec_lookup()[entity.spec_archetype_idx() as usize] as int].spec_generation()
            == entity.spec_generation()
    }
}

/// Shared access to an archetype through which its components can also be
/// borrowed for change.
pub struct UnsafeArchetypeCell<'a>(pub &'a Archetype);

impl<'a> UnsafeArchetypeCell<'a> {
    /// The values of the requested types, as `Archetype::get` gives them.
    pub fn get(&self, entity: Entity, wanted: &[u64]) -> (r: Option<Vec<Vec<u8>>>)
        requires
            self.0.wf(),
        ensures
            match r {
                None => self.0.spec_get(entity, wanted@) is None,
                Some(vals) => self.0.spec_get(entity, wanted@) matches Some(s) && vals@.len() == s.len()
                    && forall|i: int| 0 <= i < s.len() ==> #[trigger] vals@[i]@ == s[i],
            },
    {
        self.0.get(entity, wanted)
    }

    /// The columns of the requested types, as `Archetype::get_mut` gives them.
    pub fn get_mut(&self, entity: Entity, wanted: &[u64]) -> (r: Option<Vec<usize>>)
        requires
            self.0.wf(),
        ensures
            r is Some <==> self.0.contains_spec(entity) && forall|i: int|
                0 <= i < wanted@.len() ==> self.0.spec_table().spec_type_ids().contains(#[trigger] wanted@[i]),
            r matches Some(cols) ==> cols@.len() == wanted@.len() && forall|i: int|
                0 <= i < wanted@.len() ==> first_index(
                    self.0.spec_table().spec_type_ids(),
                    wanted@[i],
                    #[trigger] cols@[i] as int,
                ),
    {
        let a = self.0;
        let row = match slab_get(&a.entity_lookup, entity.archetype_idx() as usize) {
            Some(i) => i,
            None => return None,
        };
        if a.entities[row].generation() != entity.generation() {
            return None;
        }
        match a.table.try_as_mut_ptr(wanted) {
            Ok(cols) => Some(cols),
            Err(_) => None,
        }
    }

    /// The table of the archetype.
    pub fn table(&self) -> (r: &Table)
        ensures
            *r == self.0.spec_table(),
    {
        &self.0.table
    }
}

} // verus!
