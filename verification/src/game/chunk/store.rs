//! A store of chunks, grouped in squares of four by four chunks.
use vstd::prelude::*;

verus! {

/// The position of a chunk, in chunks.
#[derive(Clone, Copy, Debug, PartialEq, Eq, Structural)]
pub struct ChunkPosition {
    pub x: i32,
    pub z: i32,
}

/// The bookkeeping of a chunk held in memory.
#[derive(Clone, Copy, Debug, PartialEq, Eq, Structural)]
pub struct ChunkStoreEntry {
    pub view_count: u32,
    pub last_ticked: u64,
}

impl ChunkStoreEntry {
    /// An entry that no one views and that was never ticked.
    pub fn new() -> (r: Self)
        ensures
            r.view_count == 0,
            r.last_ticked == 0,
    {
        ChunkStoreEntry { view_count: 0, last_ticked: 0 }
    }
}

/// The index of an offset in a group `w` entries wide.
pub open spec fn group_index(w: nat, offset: (usize, usize)) -> nat {
    (offset.0 + w * offset.1) as nat
}

/// The number of entries that hold a chunk.
pub open spec fn occupied_in(s: Seq<Option<ChunkStoreEntry>>) -> nat
    decreases s.len(),
{
    if s.len() == 0 {
        0
    } else {
        occupied_in(s.drop_last()) + if s.last() is Some {
            1nat
        } else {
            0nat
        }
    }
}

/// No more entries hold a chunk than there are entries.
pub proof fn lemma_occupied_bound(s: Seq<Option<ChunkStoreEntry>>)
    ensures
        occupied_in(s) <= s.len(),
    decreases s.len(),
{
    if s.len() > 0 {
        lemma_occupied_bound(s.drop_last());
    }
}

/// Changing one entry changes the number of occupied entries by what that
/// entry held and now holds.
pub proof fn lemma_occupied_update(s: Seq<Option<ChunkStoreEntry>>, i: int, v: Option<ChunkStoreEntry>)
    requires
        0 <= i < s.len(),
    ensures
        occupied_in(s.update(i, v)) + (if s[i] is Some {
            1nat
        } else {
            0nat
        }) == occupied_in(s) + (if v is Some {
            1nat
        } else {
            0nat
        }),
    decreases s.len(),
{
    let t = s.update(i, v);
    if i == s.len() - 1 {
        assert(t.drop_last() =~= s.drop_last());
    } else {
        assert(t.drop_last() =~= s.drop_last().update(i, v));
        lemma_occupied_update(s.drop_last(), i, v);
    }
}

/// Changing the chunk of an occupied entry keeps the number occupied.
pub proof fn lemma_occupied_keep(s: Seq<Option<ChunkStoreEntry>>, i: int)
    requires
        0 <= i < s.len(),
        s[i] is Some,
    ensures
        forall|t: Seq<Option<ChunkStoreEntry>>|
            t.len() == s.len() && t[i] is Some && (forall|j: int| 0 <= j < s.len() && j != i ==> t[j] == s[j])
                ==> #[trigger] occupied_in(t) == occupied_in(s),
{
    assert forall|t: Seq<Option<ChunkStoreEntry>>|
        t.len() == s.len() && t[i] is Some && (forall|j: int| 0 <= j < s.len() && j != i ==> t[j] == s[j])
            implies #[trigger] occupied_in(t) == occupied_in(s) by {
        assert(t =~= s.update(i, t[i]));
        lemma_occupied_update(s, i, t[i]);
    }
}

/// A square of `G` entries, `W` wide, with the count of the entries that
/// hold a chunk.
pub struct ChunkStoreGroup<const W: usize, const G: usize> {
    entries: Vec<Option<ChunkStoreEntry>>,
    occupied_count: usize,
}

impl<const W: usize, const G: usize> ChunkStoreGroup<W, G> {
    pub closed spec fn spec_entries(&self) -> Seq<Option<ChunkStoreEntry>> {
        self.entries@
    }

    pub closed spec fn spec_occupied_count(&self) -> nat {
        self.occupied_count as nat
    }

    /// There are `G` entries, and the count is the number that hold a chunk.
    pub closed spec fn wf(&self) -> bool {
        &&& self.entries@.len() == G
        &&& self.occupied_count == occupied_in(self.entries@)
    }

    /// The count of a well-formed group is the number of occupied entries.
    pub proof fn lemma_count(&self)
        requires
            self.wf(),
        ensures
            self.spec_occupied_count() == occupied_in(self.spec_entries()),
            self.spec_entries().len() == G,
    {
    }

    /// A group of empty entries.
    pub fn new() -> (r: Self)
        ensures
            r.wf(),
            r.spec_occupied_count() == 0,
            forall|i: int| 0 <= i < G ==> r.spec_entries()[i] is None,
    {
        let mut entries: Vec<Option<ChunkStoreEntry>> = Vec::new();
        let mut i: usize = 0;
        while i < G
            invariant
                i <= G,
                entries@.len() == i,
                forall|k: int| 0 <= k < i ==> entries@[k] is None,
                occupied_in(entries@) == 0,
            decreases G - i,
        {
            let ghost before = entries@;
            entries.push(None);
            assert(entries@.drop_last() =~= before);
            i = i + 1;
        }
        ChunkStoreGroup { entries, occupied_count: 0 }
    }

    /// The number of occupied entries, as counted.
    pub fn occupied_count(&self) -> (r: usize)
        ensures
            r == self.spec_occupied_count(),
    {
        self.occupied_count
    }

    /// The entry at `offset`, if it is in range and holds a chunk.
    pub fn get(&self, offset: (usize, usize)) -> (r: Option<&ChunkStoreEntry>)
        requires
            self.wf(),
            group_index(W as nat, offset) <= usize::MAX,
        ensures
            r == if group_index(W as nat, offset) < G {
                match self.spec_entries()[group_index(W as nat, offset) as int] {
                    Some(e) => Some(&e),
                    None => None,
                }
            } else {
                None::<&ChunkStoreEntry>
            },
    {
        let index = offset.0 + W * offset.1;
        if index < self.entries.len() {
            match &self.entries[index] {
                Some(e) => Some(e),
                None => None,
            }
        } else {
            None
        }
    }

    /// The entry at `offset`, to change in place, if it is in range and holds a
    /// chunk.
    pub fn get_mut(&mut self, offset: (usize, usize)) -> (r: Option<&mut ChunkStoreEntry>)
        requires
            old(self).wf(),
            group_index(W as nat, offset) <= usize::MAX,
        ensures
            final(self).spec_occupied_count() == old(self).spec_occupied_count(),
            match r {
                Some(e) => {
                    let i = group_index(W as nat, offset) as int;
                    &&& i < G
                    &&& old(self).spec_entries()[i] == Some(*e)
                    &&& final(self).spec_entries() == old(self).spec_entries().update(i, Some(*final(e)))
                    &&& occupied_in(final(self).spec_entries()) == occupied_in(old(self).spec_entries())
                },
                None => (group_index(W as nat, offset) >= G || old(self).spec_entries()[group_index(
                    W as nat,
                    offset,
                ) as int] is None) && final(self).spec_entries() == old(self).spec_entries(),
            },
            final(self).wf(),
    {
        let index = offset.0 + W * offset.1;
        if index < self.entries.len() {
            proof {
                if self.entries@[index as int] is Some {
                    lemma_occupied_keep(self.entries@, index as int);
                }
            }
            match &mut self.entries[index] {
                Some(e) => Some(e),
                None => None,
            }
        } else {
            None
        }
    }

    /// Takes the chunk at `offset` out, if the offset is in range; the count
    /// goes down when there was one.
    pub fn remove(&mut self, offset: (usize, usize)) -> (r: Option<ChunkStoreEntry>)
        requires
            old(self).wf(),
            group_index(W as nat, offset) <= usize::MAX,
        ensures
            final(self).wf(),
            group_index(W as nat, offset) < G ==> {
                let i = group_index(W as nat, offset) as int;
                &&& r == old(self).spec_entries()[i]
                &&& final(self).spec_entries() == old(self).spec_entries().update(i, None)
                &&& final(self).spec_occupied_count() == old(self).spec_occupied_count() - (if r is Some {
                    1int
                } else {
                    0int
                })
            },
            group_index(W as nat, offset) >= G ==> r is None && final(self).spec_entries() == old(
                self,
            ).spec_entries() && final(self).spec_occupied_count() == old(self).spec_occupied_count(),
    {
        let index = offset.0 + W * offset.1;
        if index < self.entries.len() {
            let prev = self.entries[index];
            proof {
                lemma_occupied_update(self.entries@, index as int, None);
            }
            self.entries.set(index, None);
            if prev.is_some() {
                self.occupied_count = self.occupied_count - 1;
            }
            prev
        } else {
            None
        }
    }

    /// Puts a chunk at `offset` and returns the one that was there; the chunk
    /// is dropped when the offset is out of range. The count goes up when the
    /// entry was empty.
    pub fn insert(&mut self, offset: (usize, usize), chunk: ChunkStoreEntry) -> (r: Option<ChunkStoreEntry>)
        requires
            old(self).wf(),
            group_index(W as nat, offset) <= usize::MAX,
        ensures
            final(self).wf(),
            group_index(W as nat, offset) < G ==> {
                let i = group_index(W as nat, offset) as int;
                &&& r == old(self).spec_entries()[i]
                &&& final(self).spec_entries() == old(self).spec_entries().update(i, Some(chunk))
                &&& final(self).spec_occupied_count() == old(self).spec_occupied_count() + (if r is None {
                    1int
                } else {
                    0int
                })
            },
            group_index(W as nat, offset) >= G ==> r is None && final(self).spec_entries() == old(
                self,
            ).spec_entries() && final(self).spec_occupied_count() == old(self).spec_occupied_count(),
    {
        let prev = self.remove(offset);
        let index = offset.0 + W * offset.1;
        if index < self.entries.len() {
            proof {
                lemma_occupied_update(self.entries@, index as int, Some(chunk));
                lemma_occupied_bound(self.entries@.update(index as int, Some(chunk)));
            }
            self.entries.set(index, Some(chunk));
            self.occupied_count = self.occupied_count + 1;
            proof {
                assert(old(self).spec_entries().update(index as int, None).update(index as int, Some(chunk))
                    =~= old(self).spec_entries().update(index as int, Some(chunk)));
            }
        }
        prev
    }
}

/// The width of a group, in chunks.
pub const GROUP_WIDTH: usize = 4;

/// The number of chunks in a group.
pub const GROUP_SIZE: usize = 16;

/// A group of the store.
pub type StoreGroup = ChunkStoreGroup<4, 16>;

/// `num_integer::div_mod_floor` on `i32`: the quotient rounded down and the
/// remainder, which for a positive divisor lies in `0..y`.
#[verifier::external_body]
fn div_mod_floor(x: i32, y: i32) -> (r: (i32, i32))
    requires
        y > 0,
    ensures
        r.0 == x / y,
        r.1 == x % y,
{
    num_integer::div_mod_floor(x, y)
}

/// The groups of the store, in a `hashbrown` map keyed by group position.
#[verifier::external_body]
pub struct ChunkGroups {
    map: hashbrown::HashMap<(i32, i32), StoreGroup>,
}

/// The groups a map holds, by group position.
pub uninterp spec fn chunk_groups(m: ChunkGroups) -> Map<(i32, i32), StoreGroup>;

/// `HashMap::new`: no groups.
#[verifier::external_body]
fn groups_new() -> (r: ChunkGroups)
    ensures
        chunk_groups(r) =~= Map::empty(),
{
    ChunkGroups { map: hashbrown::HashMap::new() }
}

/// `HashMap::get`: the group at `k`, if there is one.
#[verifier::external_body]
fn groups_get(m: &ChunkGroups, k: (i32, i32)) -> (r: Option<&StoreGroup>)
    ensures
        r == if chunk_groups(*m).contains_key(k) {
            Some(&chunk_groups(*m)[k])
        } else {
            None::<&StoreGroup>
        },
{
    m.map.get(&k)
}

/// `HashMap::get_mut`: the group at `k`, to change in place, if there is one.
#[verifier::external_body]
fn groups_get_mut(m: &mut ChunkGroups, k: (i32, i32)) -> (r: Option<&mut StoreGroup>)
    ensures
        match r {
            Some(g) => chunk_groups(*old(m)).contains_key(k) && *g == chunk_groups(*old(m))[k]
                && chunk_groups(*final(m)) == chunk_groups(*old(m)).insert(k, *final(g)),
            None => !chunk_groups(*old(m)).contains_key(k) && chunk_groups(*final(m)) == chunk_groups(
                *old(m),
            ),
        },
{
    m.map.get_mut(&k)
}

/// `HashMap::insert`: puts `v` at `k` and returns what was there.
#[verifier::external_body]
fn groups_insert(m: &mut ChunkGroups, k: (i32, i32), v: StoreGroup) -> (r: Option<StoreGroup>)
    ensures
        chunk_groups(*final(m)) == chunk_groups(*old(m)).insert(k, v),
        r == if chunk_groups(*old(m)).contains_key(k) {
            Some(chunk_groups(*old(m))[k])
        } else {
            None
        },
{
    m.map.insert(k, v)
}

/// `HashMap::remove`: takes out the group at `k`, if there is one.
#[verifier::external_body]
fn groups_remove(m: &mut ChunkGroups, k: (i32, i32)) -> (r: Option<StoreGroup>)
    ensures
        chunk_groups(*final(m)) == chunk_groups(*old(m)).remove(k),
        r == if chunk_groups(*old(m)).contains_key(k) {
            Some(chunk_groups(*old(m))[k])
        } else {
            None
        },
{
    m.map.remove(&k)
}

/// Position `j` holds the first occupied entry at or after `from`.
pub open spec fn first_occupied(entries: Seq<Option<ChunkStoreEntry>>, from: int, j: int) -> bool {
    &&& from <= j < entries.len()
    &&& entries[j] is Some
    &&& forall|k: int| from <= k < j ==> entries[k] is None
}

impl<const W: usize, const G: usize> ChunkStoreGroup<W, G> {
    /// The occupied entries, in order.
    pub fn iter(&self) -> (r: ChunkStoreGroupIter<'_, W, G>)
        ensures
            r.spec_group() == *self,
            r.spec_curr() == 0,
    {
        ChunkStoreGroupIter { group: self, curr: 0 }
    }
}

/// The occupied entries of a group, one at a time.
pub struct ChunkStoreGroupIter<'a, const W: usize, const G: usize> {
    group: &'a ChunkStoreGroup<W, G>,
    curr: usize,
}

impl<'a, const W: usize, const G: usize> ChunkStoreGroupIter<'a, W, G> {
    pub closed spec fn spec_group(&self) -> ChunkStoreGroup<W, G> {
        *self.group
    }

    /// The position the search for the next entry starts at.
    pub closed spec fn spec_curr(&self) -> nat {
        self.curr as nat
    }

    /// The next occupied entry; none when no entry from the current position
    /// on is occupied.
    pub fn next(&mut self) -> (r: Option<&'a ChunkStoreEntry>)
        ensures
            final(self).spec_group() == old(self).spec_group(),
            match r {
                Some(e) => exists|j: int|
                    #[trigger] first_occupied(old(self).spec_group().spec_entries(), old(self).spec_curr() as int, j)
                        && final(self).spec_curr() == j + 1 && old(self).spec_group().spec_entries()[j] == Some(*e),
                None => (forall|k: int|
                    old(self).spec_curr() <= k < old(self).spec_group().spec_entries().len()
                        ==> #[trigger] old(self).spec_group().spec_entries()[k] is None) && final(self).spec_curr() == if old(
                    self,
                ).spec_curr() < old(self).spec_group().spec_entries().len() {
                    old(self).spec_group().spec_entries().len()
                } else {
                    old(self).spec_curr()
                },
            },
    {
        let entries = &self.group.entries;
        while self.curr < entries.len()
            invariant
                entries@ == old(self).spec_group().spec_entries(),
                self.group == old(self).group,
                old(self).curr <= self.curr,
                forall|k: int| old(self).curr <= k < self.curr ==> #[trigger] entries@[k] is None,
                old(self).curr < entries@.len() ==> self.curr <= entries@.len(),
                old(self).curr >= entries@.len() ==> self.curr == old(self).curr,
            decreases entries.len() - self.curr,
        {
            let i = self.curr;
            self.curr = self.curr + 1;
            match &entries[i] {
                Some(inner) => {
                    assert(first_occupied(entries@, old(self).curr as int, i as int));
                    assert(entries@[i as int] == Some(*inner));
                    assert(self.spec_curr() == i + 1);
                    assert(first_occupied(old(self).spec_group().spec_entries(), old(self).spec_curr() as int, i as int));
                    assert(old(self).spec_group().spec_entries()[i as int] == Some(*inner));
                    return Some(inner);
                },
                None => {},
            }
        }
        None
    }
}

/// The group of a position and the offset inside it.
pub open spec fn group_of(position: ChunkPosition) -> ((i32, i32), (usize, usize)) {
    (
        ((position.x / 4) as i32, (position.z / 4) as i32),
        ((position.x % 4) as usize, (position.z % 4) as usize),
    )
}

/// Chunks by position, in groups of four by four.
pub struct ChunkStore {
    pub chunks: ChunkGroups,
}

impl ChunkStore {
    /// The groups of the store, by group position.
    pub open spec fn spec_groups(&self) -> Map<(i32, i32), StoreGroup> {
        chunk_groups(self.chunks)
    }

    /// Every group has its entries.
    pub open spec fn wf(&self) -> bool {
        forall|k: (i32, i32)| #[trigger] self.spec_groups().contains_key(k) ==> self.spec_groups()[k].wf()
    }

    /// A store of no chunks.
    pub fn new() -> (r: Self)
        ensures
            r.wf(),
            r.spec_groups() == Map::<(i32, i32), StoreGroup>::empty(),
    {
        ChunkStore { chunks: groups_new() }
    }

    /// The chunk at `position`, if its group holds one there.
    pub fn get(&self, position: ChunkPosition) -> (r: Option<&ChunkStoreEntry>)
        requires
            self.wf(),
        ensures
            ({
                let (g, o) = group_of(position);
                r == if self.spec_groups().contains_key(g) {
                    match self.spec_groups()[g].spec_entries()[group_index(4, o) as int] {
                        Some(e) => Some(&e),
                        None => None,
                    }
                } else {
                    None::<&ChunkStoreEntry>
                }
            }),
    {
        let (gx, gxr) = div_mod_floor(position.x, 4);
        let (gz, gzr) = div_mod_floor(position.z, 4);
        match groups_get(&self.chunks, (gx, gz)) {
            Some(group) => group.get((gxr as usize, gzr as usize)),
            None => None,
        }
    }

    /// The chunk at `position`, to change in place, if its group holds one there.
    pub fn get_mut(&mut self, position: ChunkPosition) -> (r: Option<&mut ChunkStoreEntry>)
        requires
            old(self).wf(),
        ensures
            final(self).wf(),
            final(self).spec_groups().dom() == old(self).spec_groups().dom(),
            ({
                let (g, o) = group_of(position);
                let i = group_index(4, o) as int;
                &&& forall|k: (i32, i32)| #[trigger] old(self).spec_groups().contains_key(k) && k != g
                    ==> final(self).spec_groups()[k] == old(self).spec_groups()[k]
                &&& match r {
                    Some(e) => {
                        &&& old(self).spec_groups().contains_key(g)
                        &&& old(self).spec_groups()[g].spec_entries()[i] == Some(*e)
                        &&& final(self).spec_groups()[g].spec_entries() == old(self).spec_groups()[g].spec_entries().update(
                            i,
                            Some(*final(e)),
                        )
                        &&& final(self).spec_groups()[g].spec_occupied_count() == old(self).spec_groups()[g].spec_occupied_count()
                    },
                    None => {
                        &&& old(self).spec_groups().contains_key(g) ==> {
                            &&& old(self).spec_groups()[g].spec_entries()[i] is None
                            &&& final(self).spec_groups()[g].spec_entries() == old(self).spec_groups()[g].spec_entries()
                            &&& final(self).spec_groups()[g].spec_occupied_count() == old(self).spec_groups()[g].spec_occupied_count()
                        }
                        &&& !old(self).spec_groups().contains_key(g) ==> final(self).spec_groups() == old(self).spec_groups()
                    },
                }
            }),
    {
        let (gx, gxr) = div_mod_floor(position.x, 4);
        let (gz, gzr) = div_mod_floor(position.z, 4);
        match groups_get_mut(&mut self.chunks, (gx, gz)) {
            Some(group) => group.get_mut((gxr as usize, gzr as usize)),
            None => None,
        }
    }

    /// Puts a chunk at `position` and returns the one that was there. Where
    /// the group of `position` is missing, the group made for the chunk is the
    /// one stored, with the chunk in it, so that `get` finds every chunk that
    /// was put and not taken out since; storing a fresh empty group in its
    /// place would lose the chunk.
    pub fn insert(&mut self, position: ChunkPosition, chunk: ChunkStoreEntry) -> (r: Option<ChunkStoreEntry>)
        requires
            old(self).wf(),
        ensures
            final(self).wf(),
            ({
                let (g, o) = group_of(position);
                let i = group_index(4, o) as int;
                &&& final(self).spec_groups().dom() == old(self).spec_groups().dom().insert(g)
                &&& forall|k: (i32, i32)| #[trigger] old(self).spec_groups().contains_key(k) && k != g
                    ==> final(self).spec_groups()[k] == old(self).spec_groups()[k]
                &&& old(self).spec_groups().contains_key(g) ==> {
                    let before = old(self).spec_groups()[g];
                    &&& r == before.spec_entries()[i]
                    &&& final(self).spec_groups()[g].spec_entries() == before.spec_entries().update(i, Some(chunk))
                }
                &&& !old(self).spec_groups().contains_key(g) ==> {
                    &&& r is None
                    &&& final(self).spec_groups()[g].spec_entries() == Seq::new(
                        16,
                        |j: int| if j == i { Some(chunk) } else { None },
                    )
                }
            }),
    {
        let (gx, gxr) = div_mod_floor(position.x, 4);
        let (gz, gzr) = div_mod_floor(position.z, 4);
        proof {
            lemma_group_of_injective(position, position);
        }
        match groups_get_mut(&mut self.chunks, (gx, gz)) {
            Some(group) => {
                proof {
                    assert(old(self).spec_groups().contains_key((gx, gz)));
                }
                group.insert((gxr as usize, gzr as usize), chunk)
            },
            None => {
                let mut group = StoreGroup::new();
                group.insert((gxr as usize, gzr as usize), chunk);
                proof {
                    let i = group_index(4, group_of(position).1) as int;
                    assert(group.spec_entries() =~= Seq::new(
                        16,
                        |j: int| if j == i { Some(chunk) } else { None },
                    ));
                }
                groups_insert(&mut self.chunks, (gx, gz), group);
                assert forall|k: (i32, i32)| #[trigger] self.spec_groups().contains_key(k) implies self.spec_groups()[k].wf() by {
                    if k != (gx, gz) {
                        assert(old(self).spec_groups().contains_key(k));
                    }
                }
                None
            },
        }
    }

    /// Takes the chunk at `position` out of its group. A group is dropped
    /// once it holds no chunk, and only then: dropping it whatever it holds
    /// would lose the other chunks of the group, which `get` must still find.
    pub fn remove(&mut self, position: ChunkPosition) -> (r: Option<ChunkStoreEntry>)
        requires
            old(self).wf(),
        ensures
            final(self).wf(),
            ({
                let (g, o) = group_of(position);
                let i = group_index(4, o) as int;
                &&& r == if old(self).spec_groups().contains_key(g) {
                    old(self).spec_groups()[g].spec_entries()[i]
                } else {
                    None
                }
                &&& !old(self).spec_groups().contains_key(g) ==> final(self).spec_groups() == old(self).spec_groups()
                &&& old(self).spec_groups().contains_key(g) ==> {
                    let left = old(self).spec_groups()[g].spec_entries().update(i, None);
                    &&& occupied_in(left) == 0 ==> final(self).spec_groups() == old(self).spec_groups().remove(g)
                    &&& occupied_in(left) != 0 ==> final(self).spec_groups().dom() == old(self).spec_groups().dom()
                        && final(self).spec_groups()[g].spec_entries() == left
                        && forall|k: (i32, i32)| #[trigger] old(self).spec_groups().contains_key(k) && k != g
                            ==> final(self).spec_groups()[k] == old(self).spec_groups()[k]
                }
            }),
    {
        let (gx, gxr) = div_mod_floor(position.x, 4);
        let (gz, gzr) = div_mod_floor(position.z, 4);
        proof {
            lemma_group_of_injective(position, position);
        }
        let mut removed = None;
        let mut empty = false;
        match groups_get_mut(&mut self.chunks, (gx, gz)) {
            Some(group) => {
                proof {
                    assert(old(self).spec_groups().contains_key((gx, gz)));
                }
                removed = group.remove((gxr as usize, gzr as usize));
                proof {
                    group.lemma_count();
                }
                empty = group.occupied_count() == 0;
            },
            None => {},
        }
        if empty {
            groups_remove(&mut self.chunks, (gx, gz));
        }
        removed
    }
}

/// Distinct positions have distinct places: a group and an offset inside it
/// name one position, and every offset lies inside the group.
pub proof fn lemma_group_of_injective(p: ChunkPosition, q: ChunkPosition)
    ensures
        group_of(p) == group_of(q) ==> p == q,
        group_of(p).1.0 < 4 && group_of(p).1.1 < 4,
{
    assert(p.x == 4 * (p.x / 4) + p.x % 4);
    assert(p.z == 4 * (p.z / 4) + p.z % 4);
    assert(q.x == 4 * (q.x / 4) + q.x % 4);
    assert(q.z == 4 * (q.z / 4) + q.z % 4);
}

} // verus!
