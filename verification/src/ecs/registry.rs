//! The registry: one archetype per set of component types, found by the
//! sorted type ids of the set, and the message channels.
use vstd::prelude::*;

pub mod access;

use crate::ecs::archetype::{Archetype, UnsafeArchetypeCell};
use crate::ecs::entity::{lemma_entity_eq, ArchetypeId, Entity};
use crate::ecs::message::Messages;
use crate::ecs::sort::{distinct, lemma_sorted_distinct_strict, strictly_sorted};
use crate::ecs::storage::column::Column;
use crate::ecs::storage::table::{first_index, grown_capacity, pushed_capacity};
use crate::ecs::util::{self, is_subset};

verus! {

/// `a` and `b` agree on their first `n` elements.
pub open spec fn same_prefix(a: Seq<u64>, b: Seq<u64>, n: int) -> bool {
    forall|k: int| 0 <= k < n ==> a[k] == b[k]
}

/// `a` and `b` first differ at position `n`, where `a` has ended or has the
/// smaller element.
pub open spec fn lex_less_at(a: Seq<u64>, b: Seq<u64>, n: int) -> bool {
    &&& 0 <= n <= a.len()
    &&& n < b.len()
    &&& same_prefix(a, b, n)
    &&& (n == a.len() || a[n] < b[n])
}

/// `a` comes before `b` in lexicographic order.
pub open spec fn lex_less(a: Seq<u64>, b: Seq<u64>) -> bool {
    exists|n: int| lex_less_at(a, b, n)
}

/// The order is strict: nothing comes before itself, and of two sequences at
/// most one comes before the other.
pub proof fn lemma_lex_asymmetric(a: Seq<u64>, b: Seq<u64>)
    requires
        lex_less(a, b),
    ensures
        !lex_less(b, a),
        a != b,
{
    let n = choose|n: int| lex_less_at(a, b, n);
    if lex_less(b, a) {
        let m = choose|m: int| lex_less_at(b, a, m);
        if m < n {
            assert(a[m] == b[m]);
        } else if n < m {
            assert(b[n] == a[n]);
        }
    }
    if a == b {
        assert(a[n] == b[n]);
    }
}

/// The order is transitive.
pub proof fn lemma_lex_transitive(a: Seq<u64>, b: Seq<u64>, c: Seq<u64>)
    requires
        lex_less(a, b),
        lex_less(b, c),
    ensures
        lex_less(a, c),
{
    let n = choose|n: int| lex_less_at(a, b, n);
    let m = choose|m: int| lex_less_at(b, c, m);
    if n <= m {
        assert(lex_less_at(a, c, n));
    } else {
        assert(a[m] == b[m]);
        assert(lex_less_at(a, c, m));
    }
}

/// How two keys compare.
#[derive(Clone, Copy, Debug, PartialEq, Eq, Structural)]
pub enum KeyOrder {
    Less,
    Equal,
    Greater,
}

/// Compares two keys in lexicographic order.
pub fn compare_keys(a: &[u64], b: &[u64]) -> (r: KeyOrder)
    ensures
        r == KeyOrder::Less <==> lex_less(a@, b@),
        r == KeyOrder::Equal <==> a@ == b@,
        r == KeyOrder::Greater <==> lex_less(b@, a@),
{
    let mut i: usize = 0;
    while i < a.len() && i < b.len()
        invariant
            i <= a@.len(),
            i <= b@.len(),
            same_prefix(a@, b@, i as int),
        decreases a.len() - i,
    {
        if a[i] < b[i] {
            assert(lex_less_at(a@, b@, i as int));
            proof {
                lemma_lex_asymmetric(a@, b@);
            }
            return KeyOrder::Less;
        } else if b[i] < a[i] {
            assert(lex_less_at(b@, a@, i as int));
            proof {
                lemma_lex_asymmetric(b@, a@);
            }
            return KeyOrder::Greater;
        }
        i = i + 1;
    }
    if i < b.len() {
        assert(lex_less_at(a@, b@, i as int));
        proof {
            lemma_lex_asymmetric(a@, b@);
        }
        KeyOrder::Less
    } else if i < a.len() {
        assert(lex_less_at(b@, a@, i as int));
        proof {
            lemma_lex_asymmetric(b@, a@);
        }
        KeyOrder::Greater
    } else {
        assert(a@ =~= b@);
        assert(!lex_less(a@, b@));
        KeyOrder::Equal
    }
}

/// Every value has the size that each archetype gives its component type.
pub open spec fn sizes_agree(archetypes: Seq<Archetype>, type_ids: Seq<u64>, values: Seq<Vec<u8>>) -> bool {
    forall|a: int, c: int, i: int|
        0 <= a < archetypes.len() && 0 <= c < archetypes[a].spec_table().spec_type_ids().len() && 0 <= i
            < type_ids.len() && #[trigger] archetypes[a].spec_table().spec_type_ids()[c] == #[trigger] type_ids[i]
            ==> archetypes[a].spec_table().spec_column(c).spec_elem_size() == values[i]@.len()
}

/// Two strictly sorted sequences with the same elements are equal.
proof fn lemma_strictly_sorted_same_multiset(a: Seq<u64>, b: Seq<u64>)
    requires
        strictly_sorted(a),
        strictly_sorted(b),
        a.to_multiset() == b.to_multiset(),
    ensures
        a == b,
{
    let leq = |x: u64, y: u64| x <= y;
    assert(vstd::relations::total_ordering(leq));
    assert(vstd::relations::sorted_by(a, leq));
    assert(vstd::relations::sorted_by(b, leq));
    vstd::seq_lib::lemma_sorted_unique(a, b, leq);
}

/// The archetypes of all entities, each found by the sorted type ids of its
/// component types, and the message channels.
pub struct Registry<M> {
    archetypes: Vec<Archetype>,
    archetype_lookup: Vec<(Vec<u64>, ArchetypeId)>,
    messages: Messages<M>,
}

impl<M> Registry<M> {
    pub closed spec fn spec_archetypes(&self) -> Seq<Archetype> {
        self.archetypes@
    }

    /// The sorted type ids under which each archetype is found, in order.
    pub closed spec fn spec_keys(&self) -> Seq<Seq<u64>> {
        Seq::new(self.archetype_lookup@.len(), |i: int| self.archetype_lookup@[i].0@)
    }

    /// The archetype found under each key.
    pub closed spec fn spec_ids(&self) -> Seq<ArchetypeId> {
        Seq::new(self.archetype_lookup@.len(), |i: int| self.archetype_lookup@[i].1)
    }

    pub closed spec fn spec_messages(&self) -> Messages<M> {
        self.messages
    }

    /// Each archetype is well formed and numbered by its place; the keys are
    /// in ascending order, each strictly sorted and made of the type ids of
    /// its archetype.
    pub closed spec fn wf(&self) -> bool {
        let keys = self.spec_keys();
        let ids = self.spec_ids();
        &&& forall|i: int|
            0 <= i < self.archetypes@.len() ==> (#[trigger] self.archetypes@[i]).wf() && self.archetypes@[i].spec_id()
                == i
        &&& forall|i: int, j: int| #![trigger keys[i], keys[j]] 0 <= i < j < keys.len() ==> lex_less(keys[i], keys[j])
        &&& forall|i: int|
            0 <= i < keys.len() ==> {
                &&& ids[i] < self.archetypes@.len()
                &&& strictly_sorted(#[trigger] keys[i])
                &&& keys[i].to_multiset() == self.archetypes@[ids[i] as int].spec_table().spec_type_ids().to_multiset()
            }
        &&& self.messages.wf()
    }

    /// The archetype `entity` names, if there is one.
    pub open spec fn spec_archetype_of(&self, entity: Entity) -> Option<Archetype> {
        if (entity.spec_archetype_id() as int) < self.spec_archetypes().len() {
            Some(self.spec_archetypes()[entity.spec_archetype_id() as int])
        } else {
            None
        }
    }

    /// The archetype of `entity` holds it under its key.
    pub open spec fn spec_contains(&self, entity: Entity) -> bool {
        self.spec_archetype_of(entity) matches Some(a) && a.contains_spec(entity)
    }

    /// The archetype of `entity` has every type of `type_ids`.
    pub open spec fn spec_has(&self, entity: Entity, type_ids: Seq<u64>) -> bool {
        self.spec_archetype_of(entity) matches Some(a) && is_subset(type_ids, a.spec_table().spec_type_ids())
    }

    /// What `get` gives: the archetype's answer, or nothing when `entity`
    /// names no archetype.
    pub open spec fn spec_get(&self, entity: Entity, wanted: Seq<u64>) -> Option<Seq<Seq<u8>>> {
        match self.spec_archetype_of(entity) {
            Some(a) => a.spec_get(entity, wanted),
            None => None,
        }
    }

    /// Some key is made of the types of `type_ids`.
    pub open spec fn found_under(&self, type_ids: Seq<u64>) -> bool {
        exists|i: int| 0 <= i < self.spec_keys().len() && #[trigger] self.spec_keys()[i].to_multiset() == type_ids.to_multiset()
    }

    /// The archetype found under the types of `type_ids` can take a row.
    pub open spec fn push_fits(&self, type_ids: Seq<u64>) -> bool {
        forall|i: int|
            0 <= i < self.spec_keys().len() && #[trigger] self.spec_keys()[i].to_multiset() == type_ids.to_multiset()
                ==> self.spec_archetypes()[self.spec_ids()[i] as int].spec_table().push_fits()
    }

    /// Changing one archetype, keeping its number and its types, keeps the
    /// registry well formed.
    proof fn lemma_wf_after_update(before: Self, after: Self, id: int)
        requires
            before.wf(),
            0 <= id < before.archetypes@.len(),
            after.archetype_lookup@ == before.archetype_lookup@,
            after.messages == before.messages,
            after.archetypes@ == before.archetypes@.update(id, after.archetypes@[id]),
            after.archetypes@[id].wf(),
            after.archetypes@[id].spec_id() == id,
            after.archetypes@[id].spec_table().spec_type_ids() == before.archetypes@[id].spec_table().spec_type_ids(),
        ensures
            after.wf(),
    {
        assert(after.spec_keys() =~= before.spec_keys());
        assert(after.spec_ids() =~= before.spec_ids());
        let keys = after.spec_keys();
        let ids = after.spec_ids();
        assert forall|p: int| #![trigger keys[p]] #![trigger ids[p]] 0 <= p < keys.len() implies {
            &&& ids[p] < after.archetypes@.len()
            &&& strictly_sorted(keys[p])
            &&& keys[p].to_multiset() == after.archetypes@[ids[p] as int].spec_table().spec_type_ids().to_multiset()
        } by {
            assert(strictly_sorted(before.spec_keys()[p]));
        }
    }

    /// A registry with no archetypes and no message channels.
    pub fn new() -> (r: Self)
        ensures
            r.wf(),
            r.spec_archetypes() == Seq::<Archetype>::empty(),
            r.spec_keys() == Seq::<Seq<u64>>::empty(),
            r.spec_messages().spec_view() == Map::<u64, (Seq<M>, Seq<M>)>::empty(),
    {
        let r = Registry { archetypes: Vec::new(), archetype_lookup: Vec::new(), messages: Messages::new() };
        assert(r.spec_keys() =~= Seq::<Seq<u64>>::empty());
        r
    }

    /// The message channels.
    pub fn messages(&self) -> (r: &Messages<M>)
        ensures
            *r == self.spec_messages(),
    {
        &self.messages
    }

    /// The message channels, to change.
    pub fn messages_mut(&mut self) -> (r: &mut Messages<M>)
        ensures
            *r == old(self).spec_messages(),
            final(self).spec_messages() == *final(r),
            final(self).spec_archetypes() == old(self).spec_archetypes(),
            final(self).spec_keys() == old(self).spec_keys(),
            final(self).spec_ids() == old(self).spec_ids(),
    {
        &mut self.messages
    }

    /// Binary search of the keys for `key`: where it is, or where it would go.
    fn search(&self, key: &[u64]) -> (r: Result<usize, usize>)
        requires
            self.wf(),
        ensures
            match r {
                Ok(i) => i < self.spec_keys().len() && self.spec_keys()[i as int] == key@,
                Err(i) => i <= self.spec_keys().len() && (forall|k: int|
                    0 <= k < i ==> lex_less(#[trigger] self.spec_keys()[k], key@)) && (forall|k: int|
                    i <= k < self.spec_keys().len() ==> lex_less(key@, #[trigger] self.spec_keys()[k])),
            },
    {
        let ghost keys = self.spec_keys();
        let mut lo: usize = 0;
        let mut hi: usize = self.archetype_lookup.len();
        while lo < hi
            invariant
                self.wf(),
                keys == self.spec_keys(),
                lo <= hi <= keys.len(),
                forall|k: int| 0 <= k < lo ==> lex_less(#[trigger] keys[k], key@),
                forall|k: int| hi <= k < keys.len() ==> lex_less(key@, #[trigger] keys[k]),
            decreases hi - lo,
        {
            let mid = lo + (hi - lo) / 2;
            let order = compare_keys(self.archetype_lookup[mid].0.as_slice(), key);
            assert(keys[mid as int] == self.archetype_lookup@[mid as int].0@);
            match order {
                KeyOrder::Equal => {
                    return Ok(mid);
                },
                KeyOrder::Less => {
                    assert forall|k: int| 0 <= k < mid + 1 implies lex_less(#[trigger] keys[k], key@) by {
                        if k < mid {
                            lemma_lex_transitive(keys[k], keys[mid as int], key@);
                        }
                    }
                    lo = mid + 1;
                },
                KeyOrder::Greater => {
                    assert forall|k: int| mid <= k < keys.len() implies lex_less(key@, #[trigger] keys[k]) by {
                        if mid < k {
                            lemma_lex_transitive(key@, keys[mid as int], keys[k]);
                        }
                    }
                    hi = mid;
                },
            }
        }
        Err(lo)
    }

    /// Adds an entity with the given component values, one per type of
    /// `type_ids`, to the archetype found under the sorted type ids; when
    /// there is none, an archetype for these types is made first, numbered
    /// after the others, and its key is put in order.
    pub fn push(&mut self, type_ids: &[u64], values: Vec<Vec<u8>>) -> (e: Entity)
        requires
            old(self).wf(),
            distinct(type_ids@),
            values@.len() == type_ids@.len(),
            old(self).spec_archetypes().len() < u32::MAX,
            sizes_agree(old(self).spec_archetypes(), type_ids@, values@),
            old(self).push_fits(type_ids@),
            forall|i: int| 0 <= i < values@.len() ==> (#[trigger] values@[i])@.len() <= isize::MAX,
        ensures
            final(self).wf(),
            final(self).spec_messages() == old(self).spec_messages(),
            (e.spec_archetype_id() as int) < final(self).spec_archetypes().len(),
            final(self).spec_has(e, type_ids@),
            old(self).found_under(type_ids@) ==> final(self).spec_archetypes().len() == old(self).spec_archetypes().len()
                && final(self).spec_keys() == old(self).spec_keys(),
            !old(self).found_under(type_ids@) ==> {
                &&& final(self).spec_archetypes().len() == old(self).spec_archetypes().len() + 1
                &&& e.spec_archetype_id() == old(self).spec_archetypes().len()
                &&& final(self).spec_archetypes()[e.spec_archetype_id() as int].spec_table().spec_type_ids() == type_ids@
                &&& final(self).spec_archetypes()[e.spec_archetype_id() as int].spec_entities().len() == 1
                &&& forall|c: int|
                    0 <= c < type_ids@.len() ==> (#[trigger] final(self).spec_archetypes()[e.spec_archetype_id() as int].spec_table().spec_column(
                        c,
                    )).spec_elem_size() == values@[c]@.len()
            },
            final(self).found_under(type_ids@),
            forall|i: int|
                0 <= i < final(self).spec_keys().len() && #[trigger] final(self).spec_keys()[i].to_multiset()
                    == type_ids@.to_multiset() ==> final(self).spec_ids()[i] == e.spec_archetype_id(),
            old(self).found_under(type_ids@) ==> ({
                let t0 = old(self).spec_archetypes()[e.spec_archetype_id() as int].spec_table();
                let t1 = final(self).spec_archetypes()[e.spec_archetype_id() as int].spec_table();
                &&& t1.spec_type_ids() == t0.spec_type_ids()
                &&& t1.spec_len() == t0.spec_len() + 1
                &&& t1.spec_cap() == pushed_capacity(t0.spec_len(), t0.spec_cap())
                &&& forall|c: int|
                    0 <= c < t0.spec_type_ids().len() ==> (#[trigger] t1.spec_column(c)).spec_elem_size()
                        == t0.spec_column(c).spec_elem_size() && t1.spec_column(c).spec_capacity() == grown_capacity(
                        t0.spec_column(c).spec_capacity(),
                        t0.spec_len(),
                        t0.spec_cap(),
                    )
            }),
            !old(self).found_under(type_ids@) ==> ({
                let t1 = final(self).spec_archetypes()[e.spec_archetype_id() as int].spec_table();
                &&& t1.spec_len() == 1
                &&& t1.spec_cap() == 1
                &&& forall|c: int|
                    0 <= c < type_ids@.len() ==> (#[trigger] t1.spec_column(c)).spec_capacity() == if values@[c]@.len()
                        == 0 {
                        usize::MAX as nat
                    } else {
                        1
                    }
            }),
            forall|i: int|
                0 <= i < old(self).spec_keys().len() && #[trigger] old(self).spec_keys()[i].to_multiset()
                    == type_ids@.to_multiset() ==> e.spec_archetype_id() == old(self).spec_ids()[i],
            final(self).spec_archetypes()[e.spec_archetype_id() as int].spec_entities() == (if old(self).found_under(
                type_ids@,
            ) {
                old(self).spec_archetypes()[e.spec_archetype_id() as int].spec_entities()
            } else {
                Seq::<Entity>::empty()
            }).push(e),
            forall|i: int|
                0 <= i < old(self).spec_archetypes().len() && i != e.spec_archetype_id()
                    ==> #[trigger] final(self).spec_archetypes()[i] == old(self).spec_archetypes()[i],
            final(self).spec_archetypes()[e.spec_archetype_id() as int].spec_pushed() == (if old(self).found_under(
                type_ids@,
            ) {
                old(self).spec_archetypes()[e.spec_archetype_id() as int].spec_pushed()
            } else {
                0
            }) + 1,
            final(self).spec_archetypes()[e.spec_archetype_id() as int].spec_pushed() <= u32::MAX + 1 ==> {
                &&& !old(self).spec_contains(e)
                &&& final(self).spec_contains(e)
                &&& final(self).spec_get(e, type_ids@) is Some
                &&& final(self).spec_archetypes()[e.spec_archetype_id() as int].spec_entities().len() == 1
                    ==> final(self).spec_get(e, type_ids@) == Some(Seq::new(type_ids@.len(), |i: int| values@[i]@))
            },
            forall|e2: Entity| #[trigger] old(self).spec_contains(e2) ==> final(self).spec_contains(e2),
            forall|e2: Entity, w: Seq<u64>|
                #[trigger] old(self).spec_get(e2, w) is Some ==> final(self).spec_get(e2, w) == old(self).spec_get(e2, w),
    {
        broadcast use vstd::seq_lib::group_to_multiset_ensures;

        let mut tys: Vec<u64> = vstd::slice::slice_to_vec(type_ids);
        util::insertion_sort(tys.as_mut_slice());
        proof {
            lemma_sorted_distinct_strict(type_ids@, tys@);
        }
        let ghost old_keys = self.spec_keys();
        match self.search(tys.as_slice()) {
            Ok(i) => {
                let archetype_id = self.archetype_lookup[i].1;
                let ghost a = self.archetypes@[archetype_id as int];
                proof {
                    assert(self.spec_ids()[i as int] == archetype_id);
                    assert(old_keys[i as int] == tys@);
                    let ids = a.spec_table().spec_type_ids();
                    assert(ids.to_multiset() == type_ids@.to_multiset());
                    assert forall|k: int| 0 <= k < type_ids@.len() implies ids.contains(#[trigger] type_ids@[k]) by {
                        assert(type_ids@.to_multiset().count(type_ids@[k]) > 0);
                    }
                    assert forall|k: int, c: int|
                        0 <= k < type_ids@.len() && #[trigger] first_index(ids, type_ids@[k], c) implies values@[k]@.len()
                        == a.spec_table().spec_column(c).spec_elem_size() by {
                        assert(a.spec_table().spec_type_ids()[c] == type_ids@[k]);
                    }
                    assert(old_keys[i as int].to_multiset() == type_ids@.to_multiset());
                }
                let e = self.archetypes[archetype_id as usize].push(type_ids, values);
                proof {
                    Self::lemma_wf_after_update(*old(self), *self, archetype_id as int);
                    assert forall|j: int|
                        0 <= j < old_keys.len() && #[trigger] old_keys[j].to_multiset() == type_ids@.to_multiset()
                            implies e.spec_archetype_id() == old(self).spec_ids()[j] by {
                        if j != i {
                            assert(strictly_sorted(old_keys[j]));
                            lemma_strictly_sorted_same_multiset(old_keys[j], tys@);
                            if j < i {
                                assert(lex_less(old_keys[j], old_keys[i as int]));
                                lemma_lex_asymmetric(old_keys[j], old_keys[i as int]);
                            } else {
                                assert(lex_less(old_keys[i as int], old_keys[j]));
                                lemma_lex_asymmetric(old_keys[i as int], old_keys[j]);
                            }
                        }
                    }
                    assert(old(self).found_under(type_ids@));
                    assert(self.spec_keys()[i as int].to_multiset() == type_ids@.to_multiset());
                }
                e
            },
            Err(i) => {
                util::assert_no_alias(tys.as_slice(), "aliasing in component tuple");
                proof {
                    assert forall|j: int| 0 <= j < old_keys.len() implies #[trigger] old_keys[j].to_multiset()
                        != type_ids@.to_multiset() by {
                        if old_keys[j].to_multiset() == type_ids@.to_multiset() {
                            assert(strictly_sorted(old_keys[j]));
                            lemma_strictly_sorted_same_multiset(old_keys[j], tys@);
                            if j < i {
                                lemma_lex_asymmetric(old_keys[j], tys@);
                            } else {
                                lemma_lex_asymmetric(tys@, old_keys[j]);
                            }
                        }
                    }
                }
                let archetype_id = self.archetypes.len() as ArchetypeId;
                let mut columns: Vec<Column> = Vec::new();
                let mut k: usize = 0;
                while k < values.len()
                    invariant
                        k <= values@.len(),
                        columns@.len() == k,
                        forall|j: int|
                            0 <= j < k ==> (#[trigger] columns@[j]).wf() && columns@[j].spec_elem_size()
                                == values@[j]@.len() && columns@[j].spec_slots() == Seq::<Seq<u8>>::empty()
                                && columns@[j].spec_capacity() == if values@[j]@.len() == 0 {
                                usize::MAX as nat
                            } else {
                                0
                            },
                    decreases values.len() - k,
                {
                    columns.push(Column::new(values[k].len()));
                    k = k + 1;
                }
                let ghost cols = columns@;
                let archetype = Archetype::new(archetype_id, columns, vstd::slice::slice_to_vec(type_ids));
                proof {
                    let t = archetype.spec_table();
                    assert(pushed_capacity(t.spec_len(), t.spec_cap()) == 1);
                    assert forall|c: int| 0 <= c < t.spec_type_ids().len() implies ({
                        let col = #[trigger] t.spec_column(c);
                        col.spec_capacity() < 1 ==> {
                            &&& col.spec_capacity() + (1 - t.spec_cap()) <= usize::MAX
                            &&& col.spec_elem_size() * (col.spec_capacity() + (1 - t.spec_cap())) <= isize::MAX
                        }
                    }) by {
                        let col = t.spec_column(c);
                        assert(col == cols[c]);
                        assert(col.spec_elem_size() == values@[c]@.len());
                        assert(values@[c]@.len() <= isize::MAX);
                        if col.spec_capacity() < 1 {
                            assert(col.spec_capacity() == 0);
                            assert(t.spec_cap() == 0);
                            assert(col.spec_elem_size() * (col.spec_capacity() + (1 - t.spec_cap())) == col.spec_elem_size()
                                * 1);
                        }
                    }
                    assert(t.push_fits());
                }
                self.archetypes.push(archetype);
                self.archetype_lookup.insert(i, (tys, archetype_id));
                proof {
                    let t = archetype.spec_table();
                    assert(pushed_capacity(0, 0) == 1);
                    assert forall|k2: int, c: int|
                        0 <= k2 < type_ids@.len() && #[trigger] first_index(t.spec_type_ids(), type_ids@[k2], c)
                            implies values@[k2]@.len() == t.spec_column(c).spec_elem_size() by {
                        if c != k2 {
                            if c < k2 {
                                assert(type_ids@[c] != type_ids@[k2]);
                            } else {
                                assert(t.spec_type_ids()[k2] != type_ids@[k2]);
                            }
                        }
                    }
                    assert forall|k2: int| 0 <= k2 < type_ids@.len() implies t.spec_type_ids().contains(
                        #[trigger] type_ids@[k2],
                    ) by {
                        assert(t.spec_type_ids()[k2] == type_ids@[k2]);
                    }
                    let keys = self.spec_keys();
                    assert(keys =~= old_keys.insert(i as int, tys@));
                    assert(self.spec_ids() =~= old(self).spec_ids().insert(i as int, archetype_id));
                    assert forall|p: int, q: int| #![trigger keys[p], keys[q]] 0 <= p < q < keys.len() implies lex_less(
                        keys[p],
                        keys[q],
                    ) by {
                        if q < i {
                            assert(lex_less(old_keys[p], old_keys[q]));
                        } else if q == i {
                            assert(lex_less(old_keys[p], tys@));
                        } else if p < i {
                            assert(lex_less(old_keys[p], old_keys[q - 1]));
                        } else if p == i {
                            assert(lex_less(tys@, old_keys[q - 1]));
                        } else {
                            assert(lex_less(old_keys[p - 1], old_keys[q - 1]));
                        }
                    }
                    assert forall|p: int| #![trigger keys[p]] #![trigger self.spec_ids()[p]] 0 <= p < keys.len() implies {
                        &&& self.spec_ids()[p] < self.archetypes@.len()
                        &&& strictly_sorted(keys[p])
                        &&& keys[p].to_multiset() == self.archetypes@[self.spec_ids()[p] as int].spec_table().spec_type_ids().to_multiset()
                    } by {
                        if p < i {
                            assert(keys[p] == old_keys[p]);
                            assert(strictly_sorted(old_keys[p]));
                        } else if p > i {
                            assert(keys[p] == old_keys[p - 1]);
                            assert(strictly_sorted(old_keys[p - 1]));
                        }
                    }
                }
                assert(self.wf());
                let ghost mid_self = *self;
                let e = self.archetypes[archetype_id as usize].push(type_ids, values);
                proof {
                    Self::lemma_wf_after_update(mid_self, *self, archetype_id as int);
                    assert(self.spec_keys()[i as int] == tys@);
                    assert(self.spec_keys()[i as int].to_multiset() == type_ids@.to_multiset());
                    assert forall|c: int| 0 <= c < type_ids@.len() implies (#[trigger] self.archetypes@[archetype_id as int].spec_table().spec_column(
                        c,
                    )).spec_elem_size() == values@[c]@.len() by {
                        assert(archetype.spec_table().spec_column(c) == cols[c]);
                    }
                }
                e
            },
        }
    }

    /// Removes `entity` from the archetype it names, as `Archetype::remove`
    /// does; false when it names no archetype or the archetype does not hold
    /// it.
    pub fn remove(&mut self, entity: Entity) -> (r: bool)
        requires
            old(self).wf(),
        ensures
            final(self).wf(),
            r == old(self).spec_contains(entity),
            r ==> !final(self).spec_contains(entity),
            forall|e2: Entity| #[trigger] old(self).spec_contains(e2) && e2 != entity ==> final(self).spec_contains(e2),
            !r ==> final(self).spec_archetypes() == old(self).spec_archetypes(),
            final(self).spec_keys() == old(self).spec_keys(),
            final(self).spec_messages() == old(self).spec_messages(),
            final(self).spec_archetypes().len() == old(self).spec_archetypes().len(),
            forall|i: int|
                0 <= i < old(self).spec_archetypes().len() && i != entity.spec_archetype_id()
                    ==> #[trigger] final(self).spec_archetypes()[i] == old(self).spec_archetypes()[i],
            r ==> final(self).spec_archetypes()[entity.spec_archetype_id() as int].spec_pushed() == old(
                self,
            ).spec_archetypes()[entity.spec_archetype_id() as int].spec_pushed(),
            r && old(self).spec_archetypes()[entity.spec_archetype_id() as int].spec_pushed() <= u32::MAX + 1
                ==> final(self).spec_archetypes()[entity.spec_archetype_id() as int].spec_entities().len() == old(
                self,
            ).spec_archetypes()[entity.spec_archetype_id() as int].spec_entities().len() - 1,
    {
        let id = entity.archetype_id() as usize;
        if id < self.archetypes.len() {
            let r = self.archetypes[id].remove(entity);
            proof {
                Self::lemma_wf_after_update(*old(self), *self, id as int);
                assert forall|e2: Entity| #[trigger] old(self).spec_contains(e2) && e2 != entity implies self.spec_contains(
                    e2,
                ) by {
                    if e2.spec_archetype_id() == entity.spec_archetype_id() && r {
                        assert(old(self).archetypes@[id as int].contains_spec(e2));
                        lemma_entity_eq(e2, entity);
                        assert(e2.spec_archetype_idx() != entity.spec_archetype_idx());
                    }
                }
            }
            r
        } else {
            false
        }
    }

    /// Whether the archetype `entity` names holds it.
    pub fn contains(&self, entity: Entity) -> (r: bool)
        requires
            self.wf(),
        ensures
            r == self.spec_contains(entity),
    {
        let id = entity.archetype_id() as usize;
        if id < self.archetypes.len() {
            self.archetypes[id].contains(entity)
        } else {
            false
        }
    }

    /// Whether the archetype `entity` names has every type of `type_ids`.
    pub fn has(&self, entity: Entity, type_ids: &[u64]) -> (r: bool)
        ensures
            r == self.spec_has(entity, type_ids@),
    {
        let id = entity.archetype_id() as usize;
        if id < self.archetypes.len() {
            util::subset(type_ids, self.archetypes[id].type_ids())
        } else {
            false
        }
    }

    /// The values of the requested types, as the archetype `entity` names
    /// gives them.
    pub fn get(&self, entity: Entity, wanted: &[u64]) -> (r: Option<Vec<Vec<u8>>>)
        requires
            self.wf(),
        ensures
            match r {
                None => self.spec_get(entity, wanted@) is None,
                Some(vals) => self.spec_get(entity, wanted@) matches Some(s) && vals@.len() == s.len()
                    && forall|i: int| 0 <= i < s.len() ==> #[trigger] vals@[i]@ == s[i],
            },
    {
        let id = entity.archetype_id() as usize;
        if id < self.archetypes.len() {
            self.archetypes[id].get(entity, wanted)
        } else {
            None
        }
    }

    /// The columns of the requested types in the archetype `entity` names, as
    /// `Archetype::get_mut` gives them; no type may be requested twice.
    pub fn get_mut(&mut self, entity: Entity, wanted: &[u64]) -> (r: Option<Vec<usize>>)
        requires
            old(self).wf(),
            distinct(wanted@),
        ensures
            *final(self) == *old(self),
            r is Some <==> old(self).spec_contains(entity) && old(self).spec_has(entity, wanted@),
            r matches Some(cols) ==> cols@.len() == wanted@.len() && forall|i: int|
                0 <= i < wanted@.len() ==> first_index(
                    old(self).spec_archetypes()[entity.spec_archetype_id() as int].spec_table().spec_type_ids(),
                    wanted@[i],
                    #[trigger] cols@[i] as int,
                ),
    {
        util::assert_no_alias(wanted, "aliasing in component tuple");
        self.unsafe_cell().get_mut(entity, wanted)
    }

    /// The archetypes, to change; what is done to them is up to the caller.
    pub fn archetypes_mut(&mut self) -> (r: &mut [Archetype])
        ensures
            r@ == old(self).spec_archetypes(),
            final(self).spec_archetypes() == final(r)@,
            final(self).spec_keys() == old(self).spec_keys(),
            final(self).spec_ids() == old(self).spec_ids(),
            final(self).spec_messages() == old(self).spec_messages(),
    {
        self.archetypes.as_mut_slice()
    }

    /// Shared access through which components can also be borrowed for change.
    pub fn unsafe_cell(&self) -> (r: UnsafeRegistryCell<'_, M>)
        ensures
            r.0 == self,
    {
        UnsafeRegistryCell(self)
    }

    /// The archetypes, numbered by their place.
    pub fn archetypes(&self) -> (r: &[Archetype])
        ensures
            r@ == self.spec_archetypes(),
    {
        self.archetypes.as_slice()
    }
}

/// Shared access to a registry through which components can also be borrowed
/// for change.
pub struct UnsafeRegistryCell<'a, M>(pub &'a Registry<M>);

impl<'a, M> UnsafeRegistryCell<'a, M> {
    /// The message channels.
    pub fn messages(&self) -> (r: &'a Messages<M>)
        ensures
            *r == self.0.spec_messages(),
    {
        self.0.messages()
    }

    /// The archetypes.
    pub fn archetypes(&self) -> (r: &'a [Archetype])
        ensures
            r@ == self.0.spec_archetypes(),
    {
        self.0.archetypes()
    }

    /// Whether the registry holds `entity`.
    pub fn contains(&self, entity: Entity) -> (r: bool)
        requires
            self.0.wf(),
        ensures
            r == self.0.spec_contains(entity),
    {
        self.0.contains(entity)
    }

    /// Whether the archetype of `entity` has every type of `type_ids`.
    pub fn has(&self, entity: Entity, type_ids: &[u64]) -> (r: bool)
        ensures
            r == self.0.spec_has(entity, type_ids@),
    {
        self.0.has(entity, type_ids)
    }

    /// The values of the requested types, as `Registry::get` gives them.
    pub fn get(&self, entity: Entity, wanted: &[u64]) -> (r: Option<Vec<Vec<u8>>>)
        requires
            self.0.wf(),
        ensures
            match r {
                None => self.0.spec_get(entity, wanted@) is None,
                Some(vals) => self.0.spec_get(entity, wanted@) matches Some(s) && vals@.len() == s.len()
                    && forall|i: int| 0 <= i < s.len() ==> #[trigger] vals@[i]@ == s[i],
            },
    {
        self.0.get(entity, wanted)
    }

    /// The columns of the requested types, as `Registry::get_mut` gives them.
    pub fn get_mut(&self, entity: Entity, wanted: &[u64]) -> (r: Option<Vec<usize>>)
        requires
            self.0.wf(),
            distinct(wanted@),
        ensures
            r is Some <==> self.0.spec_contains(entity) && self.0.spec_has(entity, wanted@),
            r matches Some(cols) ==> cols@.len() == wanted@.len() && forall|i: int|
                0 <= i < wanted@.len() ==> first_index(
                    self.0.spec_archetypes()[entity.spec_archetype_id() as int].spec_table().spec_type_ids(),
                    wanted@[i],
                    #[trigger] cols@[i] as int,
                ),
    {
        util::assert_no_alias(wanted, "aliasing in component tuple");
        let id = entity.archetype_id() as usize;
        let archetypes = self.0.archetypes();
        if id < archetypes.len() {
            proof {
                assert(archetypes@[id as int].wf());
            }
            UnsafeArchetypeCell(&archetypes[id]).get_mut(entity, wanted)
        } else {
            None
        }
    }
}

} // verus!
