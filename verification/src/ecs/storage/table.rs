//! A table: columns of components that share their rows.
use vstd::prelude::*;

use crate::ecs::storage::column::{max_nat, Column};

verus! {

/// A requested type that the table has no column for.
#[derive(Clone, Copy, Debug)]
pub struct TryAsPtrError;

/// The first position of `t` in `ids`.
pub open spec fn first_index(ids: Seq<u64>, t: u64, i: int) -> bool {
    &&& 0 <= i < ids.len()
    &&& ids[i] == t
    &&& forall|k: int| 0 <= k < i ==> ids[k] != t
}

/// `cols` holds, for each requested type, the first column of that type.
pub open spec fn columns_of(ids: Seq<u64>, wanted: Seq<u64>, cols: Seq<usize>) -> bool {
    &&& cols.len() == wanted.len()
    &&& forall|i: int| 0 <= i < wanted.len() ==> first_index(ids, wanted[i], #[trigger] cols[i] as int)
}

/// The last of the first `k` requests that go to column `c`.
pub open spec fn last_target(ptrs: Seq<usize>, c: int, k: nat) -> Option<nat>
    decreases k,
{
    if k == 0 {
        None
    } else if ptrs[k - 1] == c {
        Some((k - 1) as nat)
    } else {
        last_target(ptrs, c, (k - 1) as nat)
    }
}

/// The capacity a table of `len` rows and capacity `cap` has after a push.
pub open spec fn pushed_capacity(len: nat, cap: nat) -> nat {
    if len >= cap {
        cap + max_nat((len - cap + 1) as nat, cap)
    } else {
        cap
    }
}

/// The capacity a column of capacity `col_cap` has after a push into a table
/// of `len` rows and capacity `cap`: a column with too little room grows by
/// as many slots as the table does.
pub open spec fn grown_capacity(col_cap: nat, len: nat, cap: nat) -> nat {
    let new_cap = pushed_capacity(len, cap);
    if col_cap < new_cap {
        (col_cap + new_cap - cap) as nat
    } else {
        col_cap
    }
}

/// Rows of components, one column per component type.
pub struct Table {
    len: usize,
    cap: usize,
    columns: Vec<Column>,
    type_ids: Vec<u64>,
}

impl Table {
    pub closed spec fn spec_len(&self) -> nat {
        self.len as nat
    }

    pub closed spec fn spec_cap(&self) -> nat {
        self.cap as nat
    }

    pub closed spec fn spec_type_ids(&self) -> Seq<u64> {
        self.type_ids@
    }

    pub closed spec fn spec_column(&self, i: int) -> Column {
        self.columns@[i]
    }

    /// The bytes of row `row` in column `c`; a column of zero-sized
    /// components holds no bytes.
    pub open spec fn spec_cell(&self, c: int, row: int) -> Seq<u8> {
        if self.spec_column(c).spec_elem_size() == 0 {
            Seq::empty()
        } else {
            self.spec_column(c).spec_slots()[row]
        }
    }

    /// One column per type id, each with room for every row.
    pub closed spec fn wf(&self) -> bool {
        &&& self.columns@.len() == self.type_ids@.len()
        &&& self.len <= self.cap
        &&& forall|i: int|
            0 <= i < self.columns@.len() ==> (#[trigger] self.columns@[i]).wf()
                && self.columns@[i].spec_capacity() >= self.cap
    }

    /// The number of rows and the capacity are counted in `usize`.
    pub proof fn lemma_len_fits(&self)
        ensures
            self.spec_len() <= usize::MAX,
            self.spec_cap() <= usize::MAX,
    {
    }

    /// What well-formedness says of one column.
    pub proof fn lemma_wf_column(&self, c: int)
        requires
            self.wf(),
            0 <= c < self.spec_type_ids().len(),
        ensures
            self.spec_column(c).wf(),
            self.spec_column(c).spec_capacity() >= self.spec_cap(),
            self.spec_len() <= self.spec_cap(),
    {
    }

    /// A table of no rows over the given columns, whose types are `type_ids`.
    pub fn new(columns: Vec<Column>, type_ids: Vec<u64>) -> (r: Self)
        requires
            columns@.len() == type_ids@.len(),
            forall|i: int| 0 <= i < columns@.len() ==> (#[trigger] columns@[i]).wf(),
        ensures
            r.wf(),
            r.spec_len() == 0,
            r.spec_cap() == 0,
            r.spec_type_ids() == type_ids@,
            forall|i: int| 0 <= i < columns@.len() ==> r.spec_column(i) == columns@[i],
    {
        Table { len: 0, cap: 0, columns, type_ids }
    }

    /// The number of rows.
    pub fn len(&self) -> (r: usize)
        ensures
            r == self.spec_len(),
    {
        self.len
    }

    /// The column at `column_idx`.
    pub fn column(&self, column_idx: usize) -> (r: &Column)
        requires
            column_idx < self.spec_type_ids().len(),
            self.wf(),
        ensures
            *r == self.spec_column(column_idx as int),
    {
        &self.columns[column_idx]
    }

    /// The types of the columns, in column order.
    pub fn type_ids(&self) -> (r: &[u64])
        ensures
            r@ == self.spec_type_ids(),
    {
        self.type_ids.as_slice()
    }

    /// The columns of the requested types, each the first column of its type,
    /// or an error when the table lacks one of them.
    pub fn try_as_mut_ptr(&self, wanted: &[u64]) -> (r: Result<Vec<usize>, TryAsPtrError>)
        ensures
            r is Ok <==> forall|i: int| 0 <= i < wanted@.len() ==> self.spec_type_ids().contains(#[trigger] wanted@[i]),
            r matches Ok(v) ==> v@.len() == wanted@.len() && forall|i: int|
                0 <= i < wanted@.len() ==> first_index(self.spec_type_ids(), wanted@[i], #[trigger] v@[i] as int),
    {
        let mut ptrs: Vec<usize> = Vec::new();
        let mut i: usize = 0;
        while i < wanted.len()
            invariant
                i <= wanted@.len(),
                ptrs@.len() == i,
                forall|k: int| 0 <= k < i ==> self.type_ids@.contains(#[trigger] wanted@[k]),
                forall|k: int| 0 <= k < i ==> first_index(self.type_ids@, wanted@[k], #[trigger] ptrs@[k] as int),
            decreases wanted.len() - i,
        {
            let mut j: usize = 0;
            let mut found = false;
            while j < self.type_ids.len() && !found
                invariant
                    i < wanted@.len(),
                    j <= self.type_ids@.len(),
                    ptrs@.len() == i,
                    forall|k: int| 0 <= k < j ==> self.type_ids@[k] != wanted@[i as int],
                    found ==> j < self.type_ids@.len() && self.type_ids@[j as int] == wanted@[i as int],
                decreases self.type_ids.len() - j + if found {
                    0int
                } else {
                    1int
                },
            {
                if wanted[i] == self.type_ids[j] {
                    found = true;
                } else {
                    j = j + 1;
                }
            }
            if !found {
                assert(!self.type_ids@.contains(wanted@[i as int]));
                return Err(TryAsPtrError);
            }
            assert(first_index(self.type_ids@, wanted@[i as int], j as int));
            ptrs.push(j);
            i = i + 1;
        }
        Ok(ptrs)
    }

    /// The columns of the requested types; every requested type must have one.
    pub fn as_mut_ptr(&self, wanted: &[u64]) -> (r: Vec<usize>)
        requires
            forall|i: int| 0 <= i < wanted@.len() ==> self.spec_type_ids().contains(#[trigger] wanted@[i]),
        ensures
            r@.len() == wanted@.len(),
            forall|i: int| 0 <= i < wanted@.len() ==> first_index(self.spec_type_ids(), wanted@[i], #[trigger] r@[i] as int),
    {
        match self.try_as_mut_ptr(wanted) {
            Ok(v) => v,
            Err(_) => {
                assert(false);
                Vec::new()
            },
        }
    }

    /// A push fits in memory: the grown capacity fits in `usize`, and every
    /// column that must grow still fits in one allocation.
    pub open spec fn push_fits(&self) -> bool {
        let new_cap = pushed_capacity(self.spec_len(), self.spec_cap());
        &&& new_cap <= usize::MAX
        &&& forall|i: int|
            0 <= i < self.spec_type_ids().len() ==> {
                let c = #[trigger] self.spec_column(i);
                c.spec_capacity() < new_cap ==> {
                    &&& c.spec_capacity() + (new_cap - self.spec_cap()) <= usize::MAX
                    &&& c.spec_elem_size() * (c.spec_capacity() + (new_cap - self.spec_cap())) <= isize::MAX
                }
            }
    }

    /// Appends a row: the table first grows when it is full, by at least as
    /// many rows as it has room for, then each value is written into the
    /// column of its type; of two values for one column the later one stays.
    pub fn push(&mut self, wanted: &[u64], values: Vec<Vec<u8>>)
        requires
            old(self).wf(),
            old(self).push_fits(),
            values@.len() == wanted@.len(),
            forall|i: int| 0 <= i < wanted@.len() ==> old(self).spec_type_ids().contains(#[trigger] wanted@[i]),
            forall|i: int, c: int|
                0 <= i < wanted@.len() && #[trigger] first_index(old(self).spec_type_ids(), wanted@[i], c)
                    ==> values@[i]@.len() == old(self).spec_column(c).spec_elem_size(),
        ensures
            final(self).wf(),
            final(self).spec_len() == old(self).spec_len() + 1,
            final(self).spec_cap() == pushed_capacity(old(self).spec_len(), old(self).spec_cap()),
            final(self).spec_type_ids() == old(self).spec_type_ids(),
            forall|c: int|
                0 <= c < old(self).spec_type_ids().len() ==> (#[trigger] final(self).spec_column(c)).spec_capacity()
                    == grown_capacity(old(self).spec_column(c).spec_capacity(), old(self).spec_len(), old(self).spec_cap()),
            forall|c: int|
                0 <= c < old(self).spec_type_ids().len() ==> (#[trigger] final(self).spec_column(c)).spec_elem_size()
                    == old(self).spec_column(c).spec_elem_size(),
            forall|c: int, r: int|
                0 <= c < old(self).spec_type_ids().len() && 0 <= r < old(self).spec_len()
                    && old(self).spec_column(c).spec_elem_size() > 0 ==> #[trigger] final(self).spec_column(
                    c,
                ).spec_slots()[r] == old(self).spec_column(c).spec_slots()[r],
            forall|c: int, k: int|
                #![trigger first_index(old(self).spec_type_ids(), wanted@[k], c)]
                0 <= c < old(self).spec_type_ids().len() && 0 <= k < wanted@.len()
                    && old(self).spec_column(c).spec_elem_size() > 0 && first_index(
                    old(self).spec_type_ids(),
                    wanted@[k],
                    c,
                ) && (forall|k2: int|
                    k < k2 < wanted@.len() ==> !first_index(
                        old(self).spec_type_ids(),
                        #[trigger] wanted@[k2],
                        c,
                    )) ==> final(self).spec_column(c).spec_slots()[old(self).spec_len() as int]
                    == values@[k]@,
    {
        let ghost old_cols = self.columns@;
        if self.len >= self.cap {
            let step = if self.len - self.cap + 1 > self.cap {
                self.len - self.cap + 1
            } else {
                self.cap
            };
            let new_cap = self.cap + step;
            let mut i: usize = 0;
            while i < self.columns.len()
                invariant
                    self.columns@.len() == old_cols.len(),
                    self.columns@.len() == self.type_ids@.len(),
                    self.type_ids@ == old(self).type_ids@,
                    old_cols == old(self).columns@,
                    self.len == old(self).len,
                    self.cap == old(self).cap,
                    new_cap == pushed_capacity(self.len as nat, self.cap as nat),
                    new_cap == self.cap + step,
                    old(self).wf(),
                    old(self).push_fits(),
                    i <= self.columns@.len(),
                    forall|c: int|
                        0 <= c < self.columns@.len() ==> (#[trigger] self.columns@[c]).wf()
                            && self.columns@[c].spec_elem_size() == old_cols[c].spec_elem_size()
                            && (old_cols[c].spec_elem_size() > 0 ==> forall|r: int|
                            0 <= r < old_cols[c].spec_slots().len() ==> self.columns@[c].spec_slots()[r]
                                == old_cols[c].spec_slots()[r]),
                    forall|c: int| 0 <= c < i ==> (#[trigger] self.columns@[c]).spec_capacity() >= new_cap,
                    forall|c: int|
                        0 <= c < i ==> (#[trigger] self.columns@[c]).spec_capacity() == grown_capacity(
                            old_cols[c].spec_capacity(),
                            self.len as nat,
                            self.cap as nat,
                        ),
                    forall|c: int| i <= c < self.columns@.len() ==> #[trigger] self.columns@[c] == old_cols[c],
                decreases self.columns.len() - i,
            {
                proof {
                    self.columns@[i as int].lemma_wf();
                }
                if self.columns[i].capacity() < new_cap {
                    assert(old(self).spec_column(i as int) == old_cols[i as int]);
                    self.columns[i].grow_exact(step);
                }
                i = i + 1;
            }
            self.cap = new_cap;
        }
        let ptrs = self.as_mut_ptr(wanted);
        let row = self.len;
        let ghost grown = self.columns@;
        assert forall|c: int| 0 <= c < grown.len() implies (#[trigger] grown[c]).spec_capacity() == grown_capacity(
            old(self).columns@[c].spec_capacity(),
            old(self).len as nat,
            old(self).cap as nat,
        ) by {
            assert(old(self).columns@[c].spec_capacity() >= old(self).cap);
        }
        let mut k: usize = 0;
        while k < wanted.len()
            invariant
                k <= wanted@.len(),
                ptrs@.len() == wanted@.len(),
                values@.len() == wanted@.len(),
                row == old(self).len,
                row < self.cap,
                self.len == old(self).len,
                self.cap == pushed_capacity(old(self).len as nat, old(self).cap as nat),
                self.type_ids@ == old(self).type_ids@,
                self.columns@.len() == self.type_ids@.len(),
                grown.len() == self.columns@.len(),
                forall|i: int| 0 <= i < wanted@.len() ==> first_index(self.type_ids@, wanted@[i], #[trigger] ptrs@[i] as int),
                forall|i: int, c: int|
                    0 <= i < wanted@.len() && #[trigger] first_index(old(self).type_ids@, wanted@[i], c)
                        ==> values@[i]@.len() == old(self).columns@[c].spec_elem_size(),
                forall|c: int|
                    0 <= c < grown.len() ==> (#[trigger] grown[c]).wf() && grown[c].spec_capacity() >= self.cap
                        && grown[c].spec_elem_size() == old(self).columns@[c].spec_elem_size(),
                forall|c: int|
                    0 <= c < self.columns@.len() ==> (#[trigger] self.columns@[c]).wf()
                        && self.columns@[c].spec_capacity() == grown[c].spec_capacity()
                        && self.columns@[c].spec_elem_size() == grown[c].spec_elem_size(),
                forall|c: int, r: int|
                    0 <= c < self.columns@.len() && 0 <= r < self.cap && r != row
                        ==> #[trigger] self.columns@[c].spec_slots()[r] == grown[c].spec_slots()[r],
                forall|c: int|
                    0 <= c < self.columns@.len() && grown[c].spec_elem_size() > 0 ==> match last_target(
                        ptrs@,
                        c,
                        k as nat,
                    ) {
                        Some(t) => (#[trigger] self.columns@[c]).spec_slots()[row as int] == values@[t as int]@,
                        None => self.columns@[c].spec_slots()[row as int] == grown[c].spec_slots()[row as int],
                    },
            decreases wanted.len() - k,
        {
            let c = ptrs[k];
            let v = values[k].clone();
            assert(v@ == values@[k as int]@);
            let ghost before = self.columns@;
            assert(first_index(self.type_ids@, wanted@[k as int], c as int));
            self.columns[c].write(row, v);
            assert(forall|c2: int| 0 <= c2 < before.len() && c2 != c ==> self.columns@[c2] == before[c2]);
            proof {
                before[c as int].lemma_wf();
                if before[c as int].spec_elem_size() > 0 {
                    assert(self.columns@[c as int].spec_slots() == before[c as int].spec_slots().update(row as int, v@));
                }
                assert forall|c2: int| 0 <= c2 < self.columns@.len() implies last_target(ptrs@, c2, (k + 1) as nat)
                    == if c2 == c { Some(k as nat) } else { last_target(ptrs@, c2, k as nat) } by {
                }
            }
            k = k + 1;
        }
        self.len = self.len + 1;
        proof {
            assert forall|c: int| 0 <= c < old_cols.len() implies (#[trigger] old_cols[c]).spec_elem_size() > 0
                ==> old_cols[c].spec_slots().len() >= old(self).cap by {
                old_cols[c].lemma_wf();
            }
            assert forall|c: int, k0: int|
                #![trigger first_index(old(self).spec_type_ids(), wanted@[k0], c)]
                0 <= c < old(self).spec_type_ids().len() && 0 <= k0 < wanted@.len()
                    && old(self).spec_column(c).spec_elem_size() > 0 && first_index(
                    old(self).spec_type_ids(),
                    wanted@[k0],
                    c,
                ) && (forall|k2: int|
                    k0 < k2 < wanted@.len() ==> !first_index(
                        old(self).spec_type_ids(),
                        #[trigger] wanted@[k2],
                        c,
                    )) implies self.spec_column(c).spec_slots()[old(self).spec_len() as int]
                    == values@[k0]@ by {
                lemma_last_target(ptrs@, c, wanted@.len(), k0, wanted@, old(self).type_ids@);
            }
        }
    }

    /// Moves the last row into row `index` in every column, and the row that
    /// was there to the end, where it is dropped: the table has one row less.
    pub fn swap_remove(&mut self, index: usize)
        requires
            old(self).wf(),
            index < old(self).spec_len(),
        ensures
            final(self).wf(),
            final(self).spec_len() == old(self).spec_len() - 1,
            final(self).spec_cap() == old(self).spec_cap(),
            final(self).spec_type_ids() == old(self).spec_type_ids(),
            forall|c: int|
                0 <= c < old(self).spec_type_ids().len() && old(self).spec_column(c).spec_elem_size() > 0
                    ==> (#[trigger] final(self).spec_column(c)).spec_slots() == crate::ecs::sort::swapped(
                    old(self).spec_column(c).spec_slots(),
                    index as int,
                    old(self).spec_len() - 1,
                ),
            forall|c: int|
                0 <= c < old(self).spec_type_ids().len() ==> (#[trigger] final(self).spec_column(c)).spec_elem_size()
                    == old(self).spec_column(c).spec_elem_size(),
    {
        let mut i: usize = 0;
        while i < self.columns.len()
            invariant
                self.columns@.len() == old(self).columns@.len(),
                self.type_ids@ == old(self).type_ids@,
                self.len == old(self).len,
                self.cap == old(self).cap,
                old(self).wf(),
                index < self.len,
                i <= self.columns@.len(),
                forall|c: int|
                    0 <= c < self.columns@.len() ==> (#[trigger] self.columns@[c]).wf()
                        && self.columns@[c].spec_capacity() == old(self).columns@[c].spec_capacity()
                        && self.columns@[c].spec_elem_size() == old(self).columns@[c].spec_elem_size(),
                forall|c: int|
                    0 <= c < i && old(self).columns@[c].spec_elem_size() > 0 ==> (#[trigger] self.columns@[c]).spec_slots()
                        == crate::ecs::sort::swapped(old(self).columns@[c].spec_slots(), index as int, self.len - 1),
                forall|c: int| i <= c < self.columns@.len() ==> #[trigger] self.columns@[c] == old(self).columns@[c],
            decreases self.columns.len() - i,
        {
            let len = self.len;
            self.columns[i].swap_remove(index, len);
            i = i + 1;
        }
        self.len = self.len - 1;
    }

    /// The table's rows in consecutive partitions of `partition_size` rows,
    /// read through the columns of the requested types.
    pub fn partitions(&self, wanted: &[u64], partition_size: usize) -> (r: TablePartitions)
        requires
            forall|i: int| 0 <= i < wanted@.len() ==> self.spec_type_ids().contains(#[trigger] wanted@[i]),
        ensures
            r.spec_size() == partition_size,
            r.spec_curr() == 0,
            r.spec_end() == self.spec_len(),
            columns_of(self.spec_type_ids(), wanted@, r.spec_columns()),
    {
        TablePartitions { ptr: self.as_mut_ptr(wanted), size: partition_size, curr: 0, end: self.len }
    }

    /// The same partitions, for writing.
    pub fn partitions_mut(&self, wanted: &[u64], partition_size: usize) -> (r: TablePartitionsMut)
        requires
            forall|i: int| 0 <= i < wanted@.len() ==> self.spec_type_ids().contains(#[trigger] wanted@[i]),
        ensures
            r.spec_size() == partition_size,
            r.spec_curr() == 0,
            r.spec_end() == self.spec_len(),
            columns_of(self.spec_type_ids(), wanted@, r.spec_columns()),
    {
        TablePartitionsMut { ptr: self.as_mut_ptr(wanted), size: partition_size, curr: 0, end: self.len }
    }

    /// The rows of the table, read through the columns of the requested types.
    pub fn iter(&self, wanted: &[u64]) -> (r: TableIter)
        requires
            forall|i: int| 0 <= i < wanted@.len() ==> self.spec_type_ids().contains(#[trigger] wanted@[i]),
        ensures
            r.spec_curr() == 0,
            r.spec_end() == self.spec_len(),
            columns_of(self.spec_type_ids(), wanted@, r.spec_columns()),
    {
        TableIter { ptr: self.as_mut_ptr(wanted), curr: 0, end: self.len }
    }

    /// The rows of `start..end` that the table has.
    pub fn iter_range(&self, wanted: &[u64], start: usize, end: usize) -> (r: TableIter)
        requires
            forall|i: int| 0 <= i < wanted@.len() ==> self.spec_type_ids().contains(#[trigger] wanted@[i]),
        ensures
            r.spec_curr() == if start < self.spec_len() { start as nat } else { self.spec_len() },
            r.spec_end() == if end < self.spec_len() { end as nat } else { self.spec_len() },
            columns_of(self.spec_type_ids(), wanted@, r.spec_columns()),
    {
        let curr = if start < self.len { start } else { self.len };
        let stop = if end < self.len { end } else { self.len };
        TableIter { ptr: self.as_mut_ptr(wanted), curr, end: stop }
    }

    /// The rows of the table, for writing.
    pub fn iter_mut(&self, wanted: &[u64]) -> (r: TableIterMut)
        requires
            forall|i: int| 0 <= i < wanted@.len() ==> self.spec_type_ids().contains(#[trigger] wanted@[i]),
        ensures
            r.spec_curr() == 0,
            r.spec_end() == self.spec_len(),
            columns_of(self.spec_type_ids(), wanted@, r.spec_columns()),
    {
        TableIterMut { ptr: self.as_mut_ptr(wanted), curr: 0, end: self.len }
    }

    /// The rows of `start..end` that the table has, for writing.
    pub fn iter_range_mut(&self, wanted: &[u64], start: usize, end: usize) -> (r: TableIterMut)
        requires
            forall|i: int| 0 <= i < wanted@.len() ==> self.spec_type_ids().contains(#[trigger] wanted@[i]),
        ensures
            r.spec_curr() == if start < self.spec_len() { start as nat } else { self.spec_len() },
            r.spec_end() == if end < self.spec_len() { end as nat } else { self.spec_len() },
            columns_of(self.spec_type_ids(), wanted@, r.spec_columns()),
    {
        let curr = if start < self.len { start } else { self.len };
        let stop = if end < self.len { end } else { self.len };
        TableIterMut { ptr: self.as_mut_ptr(wanted), curr, end: stop }
    }
}

/// Consecutive partitions of the rows of a table.
pub struct TablePartitions {
    ptr: Vec<usize>,
    size: usize,
    curr: usize,
    end: usize,
}

impl TablePartitions {
    /// The columns, one per requested type.
    pub closed spec fn spec_columns(&self) -> Seq<usize> {
        self.ptr@
    }

    pub closed spec fn spec_size(&self) -> nat {
        self.size as nat
    }

    pub closed spec fn spec_curr(&self) -> nat {
        self.curr as nat
    }

    pub closed spec fn spec_end(&self) -> nat {
        self.end as nat
    }

    /// The next partition: from the current row, `size` rows or up to the
    /// end, whichever is fewer; none once the end is reached.
    pub fn next(&mut self) -> (r: Option<TablePartition>)
        requires
            old(self).spec_curr() + old(self).spec_size() <= usize::MAX,
        ensures
            final(self).spec_size() == old(self).spec_size(),
            final(self).spec_end() == old(self).spec_end(),
            final(self).spec_curr() == old(self).spec_curr() + old(self).spec_size(),
            final(self).spec_columns() == old(self).spec_columns(),
            old(self).spec_curr() < old(self).spec_end() ==> (r matches Some(p) && p.spec_columns()
                == old(self).spec_columns() && p.spec_start() == old(self).spec_curr() && p.spec_end() == partition_end(
                old(self).spec_curr(),
                old(self).spec_size(),
                old(self).spec_end(),
            )),
            old(self).spec_curr() >= old(self).spec_end() ==> r is None,
    {
        let result = if self.curr < self.end {
            let stop = if self.curr + self.size < self.end {
                self.curr + self.size
            } else {
                self.end
            };
            Some(TablePartition { ptr: self.ptr.clone(), start: self.curr, end: stop })
        } else {
            None
        };
        self.curr = self.curr + self.size;
        result
    }
}

/// A range of rows of a table.
pub struct TablePartition {
    ptr: Vec<usize>,
    start: usize,
    end: usize,
}

impl TablePartition {
    /// The columns, one per requested type.
    pub closed spec fn spec_columns(&self) -> Seq<usize> {
        self.ptr@
    }

    pub closed spec fn spec_start(&self) -> nat {
        self.start as nat
    }

    pub closed spec fn spec_end(&self) -> nat {
        self.end as nat
    }

    /// The first row of the range.
    pub fn start(&self) -> (r: usize)
        ensures
            r == self.spec_start(),
    {
        self.start
    }

    /// The row after the last one of the range.
    pub fn end(&self) -> (r: usize)
        ensures
            r == self.spec_end(),
    {
        self.end
    }

    /// The rows of the range.
    pub fn iter(&self) -> (r: TableIter)
        ensures
            r.spec_columns() == self.spec_columns(),
            r.spec_curr() == self.spec_start(),
            r.spec_end() == self.spec_end(),
    {
        TableIter { ptr: self.ptr.clone(), curr: self.start, end: self.end }
    }
}

/// Consecutive partitions of the rows of a table, for writing.
pub struct TablePartitionsMut {
    ptr: Vec<usize>,
    size: usize,
    curr: usize,
    end: usize,
}

impl TablePartitionsMut {
    /// The columns, one per requested type.
    pub closed spec fn spec_columns(&self) -> Seq<usize> {
        self.ptr@
    }

    pub closed spec fn spec_size(&self) -> nat {
        self.size as nat
    }

    pub closed spec fn spec_curr(&self) -> nat {
        self.curr as nat
    }

    pub closed spec fn spec_end(&self) -> nat {
        self.end as nat
    }

    /// The next partition: from the current row, `size` rows or up to the
    /// end, whichever is fewer; none once the end is reached.
    pub fn next(&mut self) -> (r: Option<TablePartitionMut>)
        requires
            old(self).spec_curr() + old(self).spec_size() <= usize::MAX,
        ensures
            final(self).spec_size() == old(self).spec_size(),
            final(self).spec_end() == old(self).spec_end(),
            final(self).spec_curr() == old(self).spec_curr() + old(self).spec_size(),
            final(self).spec_columns() == old(self).spec_columns(),
            old(self).spec_curr() < old(self).spec_end() ==> (r matches Some(p) && p.spec_columns()
                == old(self).spec_columns() && p.spec_start() == old(self).spec_curr() && p.spec_end() == partition_end(
                old(self).spec_curr(),
                old(self).spec_size(),
                old(self).spec_end(),
            )),
            old(self).spec_curr() >= old(self).spec_end() ==> r is None,
    {
        let result = if self.curr < self.end {
            let stop = if self.curr + self.size < self.end {
                self.curr + self.size
            } else {
                self.end
            };
            Some(TablePartitionMut { ptr: self.ptr.clone(), start: self.curr, end: stop })
        } else {
            None
        };
        self.curr = self.curr + self.size;
        result
    }
}

/// A range of rows of a table, for writing.
pub struct TablePartitionMut {
    ptr: Vec<usize>,
    start: usize,
    end: usize,
}

impl TablePartitionMut {
    /// The columns, one per requested type.
    pub closed spec fn spec_columns(&self) -> Seq<usize> {
        self.ptr@
    }

    pub closed spec fn spec_start(&self) -> nat {
        self.start as nat
    }

    pub closed spec fn spec_end(&self) -> nat {
        self.end as nat
    }

    /// The first row of the range.
    pub fn start(&self) -> (r: usize)
        ensures
            r == self.spec_start(),
    {
        self.start
    }

    /// The row after the last one of the range.
    pub fn end(&self) -> (r: usize)
        ensures
            r == self.spec_end(),
    {
        self.end
    }

    /// The rows of the range.
    pub fn iter(&self) -> (r: TableIterMut)
        ensures
            r.spec_columns() == self.spec_columns(),
            r.spec_curr() == self.spec_start(),
            r.spec_end() == self.spec_end(),
    {
        TableIterMut { ptr: self.ptr.clone(), curr: self.start, end: self.end }
    }
}

/// The end of a partition that starts at `curr`: `size` rows on, or `end`,
/// whichever comes first.
pub open spec fn partition_end(curr: nat, size: nat, end: nat) -> nat {
    if curr + size < end {
        curr + size
    } else {
        end
    }
}

impl TablePartitionsMut {
    /// Partitions of no rows.
    pub fn empty() -> (r: Self)
        ensures
            r.spec_size() == 0,
            r.spec_curr() == 0,
            r.spec_end() == 0,
    {
        TablePartitionsMut { ptr: Vec::new(), size: 0, curr: 0, end: 0 }
    }
}

/// The rows of a range, one at a time.
pub struct TableIter {
    ptr: Vec<usize>,
    curr: usize,
    end: usize,
}

impl TableIter {
    /// The columns, one per requested type.
    pub closed spec fn spec_columns(&self) -> Seq<usize> {
        self.ptr@
    }

    pub closed spec fn spec_curr(&self) -> nat {
        self.curr as nat
    }

    pub closed spec fn spec_end(&self) -> nat {
        self.end as nat
    }

    /// The columns through which the rows are read.
    pub fn columns(&self) -> (r: &[usize])
        ensures
            r@ == self.spec_columns(),
    {
        self.ptr.as_slice()
    }

    /// The next row, or none once the end is reached.
    pub fn next(&mut self) -> (r: Option<usize>)
        requires
            old(self).spec_curr() < usize::MAX,
        ensures
            final(self).spec_columns() == old(self).spec_columns(),
            final(self).spec_end() == old(self).spec_end(),
            final(self).spec_curr() == old(self).spec_curr() + 1,
            old(self).spec_curr() < old(self).spec_end() ==> r == Some(old(self).spec_curr() as usize),
            old(self).spec_curr() >= old(self).spec_end() ==> r is None,
    {
        let result = if self.curr < self.end {
            Some(self.curr)
        } else {
            None
        };
        self.curr = self.curr + 1;
        result
    }
}

/// The rows of a range, one at a time, for writing.
pub struct TableIterMut {
    ptr: Vec<usize>,
    curr: usize,
    end: usize,
}

impl TableIterMut {
    /// The columns, one per requested type.
    pub closed spec fn spec_columns(&self) -> Seq<usize> {
        self.ptr@
    }

    pub closed spec fn spec_curr(&self) -> nat {
        self.curr as nat
    }

    pub closed spec fn spec_end(&self) -> nat {
        self.end as nat
    }

    /// The columns through which the rows are read.
    pub fn columns(&self) -> (r: &[usize])
        ensures
            r@ == self.spec_columns(),
    {
        self.ptr.as_slice()
    }

    /// The next row, or none once the end is reached.
    pub fn next(&mut self) -> (r: Option<usize>)
        requires
            old(self).spec_curr() < usize::MAX,
        ensures
            final(self).spec_columns() == old(self).spec_columns(),
            final(self).spec_end() == old(self).spec_end(),
            final(self).spec_curr() == old(self).spec_curr() + 1,
            old(self).spec_curr() < old(self).spec_end() ==> r == Some(old(self).spec_curr() as usize),
            old(self).spec_curr() >= old(self).spec_end() ==> r is None,
    {
        let result = if self.curr < self.end {
            Some(self.curr)
        } else {
            None
        };
        self.curr = self.curr + 1;
        result
    }
}

/// Partitions of `size` rows cover every row below `len` exactly once: a row
/// lies in the partition that starts at the multiple of `size` at or below it,
/// and in no other.
pub proof fn lemma_partitions_cover(len: nat, size: nat, row: nat, k: nat)
    requires
        size > 0,
        row < len,
    ensures
        (row / size) * size <= row < partition_end((row / size) * size, size, len),
        k * size <= row < partition_end(k * size, size, len) ==> k == row / size,
{
    let q = row / size;
    assert(q * size <= row < q * size + size) by (nonlinear_arith)
        requires
            size > 0,
            q == row / size,
    ;
    if k * size <= row && row < partition_end(k * size, size, len) {
        assert(row < k * size + size);
        assert(k == q) by (nonlinear_arith)
            requires
                size > 0,
                q * size <= row < q * size + size,
                k * size <= row < k * size + size,
        ;
    }
}

/// The walk of `TablePartitionsMut::next` from the first row: where each call
/// moves the start on by `size` rows, as `next` does, the `k`-th call starts
/// at `k * size`. It yields a partition exactly when `k * size < len`, that
/// is for the first `(len + size - 1) / size` calls, and the partition ends
/// at `(k + 1) * size` or at `len`, whichever is less, which is where the
/// next one starts; once a call yields none, every later one does too.
pub proof fn lemma_partition_walk(states: Seq<TablePartitionsMut>, k: int)
    requires
        0 <= k < states.len(),
        states[0].spec_curr() == 0,
        states[0].spec_size() > 0,
        forall|j: int|
            0 < j < states.len() ==> {
                &&& (#[trigger] states[j]).spec_size() == states[j - 1].spec_size()
                &&& states[j].spec_end() == states[j - 1].spec_end()
                &&& states[j].spec_curr() == states[j - 1].spec_curr() + states[j - 1].spec_size()
            },
    ensures
        states[k].spec_size() == states[0].spec_size(),
        states[k].spec_end() == states[0].spec_end(),
        states[k].spec_curr() == k * states[0].spec_size(),
        ({
            let size = states[0].spec_size();
            let len = states[0].spec_end();
            &&& (k * size < len <==> k < (len + size - 1) / (size as int))
            &&& partition_end((k * size) as nat, size, len) == if (k + 1) * size < len {
                (k + 1) * size
            } else {
                len as int
            }
            &&& k * size >= len ==> (k + 1) * size >= len
        }),
    decreases k,
{
    if k > 0 {
        lemma_partition_walk(states, k - 1);
        assert(states[k].spec_curr() == states[k - 1].spec_curr() + states[k - 1].spec_size());
        assert(k * states[0].spec_size() == (k - 1) * states[0].spec_size() + states[0].spec_size())
            by (nonlinear_arith);
    }
    let size = states[0].spec_size();
    let len = states[0].spec_end();
    assert((k * size < len) <==> (k < (len + size - 1) / (size as int))) by (nonlinear_arith)
        requires
            size > 0,
            k >= 0,
    {
        let q = (len + size - 1) / (size as int);
        assert(q * size <= len + size - 1 < q * size + size);
        if k < q {
            assert(k * size <= (q - 1) * size);
            assert(k * size < len);
        } else {
            assert(k * size >= q * size);
        }
    }
    assert((k + 1) * size == k * size + size) by (nonlinear_arith);
}

/// The last request for a column is the last one whose type maps to it.
proof fn lemma_last_target(ptrs: Seq<usize>, c: int, n: nat, k: int, wanted: Seq<u64>, ids: Seq<u64>)
    requires
        ptrs.len() == wanted.len(),
        n == wanted.len(),
        0 <= k < n,
        forall|i: int| 0 <= i < wanted.len() ==> first_index(ids, wanted[i], #[trigger] ptrs[i] as int),
        first_index(ids, wanted[k], c),
        forall|k2: int| k < k2 < n ==> !first_index(ids, #[trigger] wanted[k2], c),
    ensures
        last_target(ptrs, c, n) == Some(k as nat),
    decreases n,
{
    assert(ptrs[k] == c) by {
        assert(first_index(ids, wanted[k], ptrs[k] as int));
    }
    if k < n - 1 {
        assert(ptrs[n - 1] != c) by {
            assert(first_index(ids, wanted[n - 1], ptrs[n - 1] as int));
        }
        lemma_last_target(ptrs.take(n - 1), c, (n - 1) as nat, k, wanted.take(n - 1), ids);
        lemma_last_target_prefix(ptrs, c, (n - 1) as nat);
    }
}

proof fn lemma_last_target_prefix(ptrs: Seq<usize>, c: int, m: nat)
    requires
        m <= ptrs.len(),
    ensures
        last_target(ptrs.take(m as int), c, m) == last_target(ptrs, c, m),
    decreases m,
{
    if m > 0 {
        lemma_last_target_prefix(ptrs, c, (m - 1) as nat);
        lemma_last_target_prefix(ptrs.take(m as int), c, (m - 1) as nat);
        assert(ptrs.take(m as int).take(m - 1) =~= ptrs.take(m - 1));
    }
}

} // verus!