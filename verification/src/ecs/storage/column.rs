//! A column: the storage of one component type for the rows of a table.
use vstd::prelude::*;

verus! {

/// The storage of one component type, as slots of `elem_size` bytes each. A
/// column of a zero-sized type never allocates and has every capacity.
pub struct Column {
    elem_size: usize,
    cap: usize,
    slots: Vec<Vec<u8>>,
}

impl Column {
    /// The size of one element, in bytes.
    pub closed spec fn spec_elem_size(&self) -> nat {
        self.elem_size as nat
    }

    /// The number of elements the column has room for.
    pub closed spec fn spec_capacity(&self) -> nat {
        self.cap as nat
    }

    /// The slots: one byte sequence per element the column has room for.
    pub closed spec fn spec_slots(&self) -> Seq<Seq<u8>> {
        Seq::new(self.slots@.len(), |i: int| self.slots@[i]@)
    }

    /// The slots match the element size and the capacity.
    pub closed spec fn wf(&self) -> bool {
        &&& self.elem_size == 0 ==> self.cap == usize::MAX && self.slots@.len() == 0
        &&& self.elem_size > 0 ==> self.slots@.len() == self.cap
        &&& forall|i: int| 0 <= i < self.slots@.len() ==> self.slots@[i]@.len() == self.elem_size
    }

    /// What well-formedness says of the slots.
    pub proof fn lemma_wf(&self)
        requires
            self.wf(),
        ensures
            self.spec_elem_size() == 0 ==> self.spec_capacity() == usize::MAX && self.spec_slots().len() == 0,
            self.spec_elem_size() > 0 ==> self.spec_slots().len() == self.spec_capacity(),
            forall|i: int| 0 <= i < self.spec_slots().len() ==> (#[trigger] self.spec_slots()[i]).len()
                == self.spec_elem_size(),
    {
    }

    /// An empty column for elements of `elem_size` bytes.
    pub fn new(elem_size: usize) -> (r: Self)
        ensures
            r.wf(),
            r.spec_elem_size() == elem_size,
            r.spec_capacity() == if elem_size == 0 {
                usize::MAX as nat
            } else {
                0
            },
            r.spec_slots() == Seq::<Seq<u8>>::empty(),
    {
        let r = Column { elem_size, cap: if elem_size == 0 { usize::MAX } else { 0 }, slots: Vec::new() };
        assert(r.spec_slots() =~= Seq::<Seq<u8>>::empty());
        r
    }

    /// The number of elements the column has room for.
    pub fn capacity(&self) -> (r: usize)
        ensures
            r == self.spec_capacity(),
    {
        self.cap
    }

    /// The size of one element, in bytes.
    pub fn elem_size(&self) -> (r: usize)
        ensures
            r == self.spec_elem_size(),
    {
        self.elem_size
    }

    /// The column's storage, from its first element on.
    pub fn as_ptr(&self) -> (r: &Vec<Vec<u8>>)
        requires
            self.wf(),
        ensures
            r@.len() == self.spec_slots().len(),
            forall|i: int| 0 <= i < r@.len() ==> r@[i]@ == self.spec_slots()[i],
    {
        &self.slots
    }

    /// Makes room for `amount` more elements, which start zeroed. A column of a
    /// zero-sized type cannot grow, and the whole storage must fit in one
    /// allocation.
    pub fn grow_exact(&mut self, amount: usize)
        requires
            old(self).wf(),
            old(self).spec_elem_size() > 0,
            old(self).spec_capacity() + amount <= usize::MAX,
            old(self).spec_elem_size() * (old(self).spec_capacity() + amount) <= isize::MAX,
        ensures
            final(self).wf(),
            final(self).spec_elem_size() == old(self).spec_elem_size(),
            final(self).spec_capacity() == old(self).spec_capacity() + amount,
            final(self).spec_slots().len() == old(self).spec_slots().len() + amount,
            forall|i: int|
                0 <= i < old(self).spec_slots().len() ==> #[trigger] final(self).spec_slots()[i]
                    == old(self).spec_slots()[i],
            forall|i: int|
                old(self).spec_slots().len() <= i < final(self).spec_slots().len()
                    ==> #[trigger] final(self).spec_slots()[i] == Seq::new(
                    old(self).spec_elem_size(),
                    |k: int| 0u8,
                ),
    {
        let ghost old_slots = self.slots@;
        let mut k: usize = 0;
        while k < amount
            invariant
                self.elem_size > 0,
                self.elem_size == old(self).elem_size,
                self.cap == old(self).cap,
                old_slots == old(self).slots@,
                self.slots@.len() == old_slots.len() + k,
                k <= amount,
                forall|i: int| 0 <= i < old_slots.len() ==> self.slots@[i] == old_slots[i],
                forall|i: int|
                    old_slots.len() <= i < self.slots@.len() ==> self.slots@[i]@ == Seq::new(
                        self.elem_size as nat,
                        |j: int| 0u8,
                    ),
                forall|i: int| 0 <= i < self.slots@.len() ==> self.slots@[i]@.len() == self.elem_size,
            decreases amount - k,
        {
            let mut slot: Vec<u8> = Vec::new();
            let mut b: usize = 0;
            while b < self.elem_size
                invariant
                    b <= self.elem_size,
                    slot@ == Seq::new(b as nat, |j: int| 0u8),
                decreases self.elem_size - b,
            {
                slot.push(0u8);
                b = b + 1;
                assert(slot@ =~= Seq::new(b as nat, |j: int| 0u8));
            }
            assert(slot@ =~= Seq::new(self.elem_size as nat, |j: int| 0u8));
            self.slots.push(slot);
            k = k + 1;
        }
        self.cap = self.cap + amount;
    }

    /// Doubles the capacity, or makes room for one element when there is none.
    pub fn grow(&mut self)
        requires
            old(self).wf(),
            old(self).spec_elem_size() > 0,
            old(self).spec_capacity() + grow_step(old(self).spec_capacity()) <= usize::MAX,
            old(self).spec_elem_size() * (old(self).spec_capacity() + grow_step(
                old(self).spec_capacity(),
            )) <= isize::MAX,
        ensures
            final(self).wf(),
            final(self).spec_elem_size() == old(self).spec_elem_size(),
            final(self).spec_capacity() == old(self).spec_capacity() + grow_step(
                old(self).spec_capacity(),
            ),
            forall|i: int|
                0 <= i < old(self).spec_slots().len() ==> #[trigger] final(self).spec_slots()[i]
                    == old(self).spec_slots()[i],
    {
        let amount = if self.cap > 1 {
            self.cap
        } else {
            1
        };
        self.grow_exact(amount);
    }

    /// Makes room for at least `amount` more elements, and for at least as many
    /// as it already has.
    pub fn grow_amortized(&mut self, amount: usize)
        requires
            old(self).wf(),
            old(self).spec_elem_size() > 0,
            old(self).spec_capacity() + max_nat(amount as nat, old(self).spec_capacity()) <= usize::MAX,
            old(self).spec_elem_size() * (old(self).spec_capacity() + max_nat(
                amount as nat,
                old(self).spec_capacity(),
            )) <= isize::MAX,
        ensures
            final(self).wf(),
            final(self).spec_elem_size() == old(self).spec_elem_size(),
            final(self).spec_capacity() == old(self).spec_capacity() + max_nat(
                amount as nat,
                old(self).spec_capacity(),
            ),
            forall|i: int|
                0 <= i < old(self).spec_slots().len() ==> #[trigger] final(self).spec_slots()[i]
                    == old(self).spec_slots()[i],
    {
        let n = if amount > self.cap {
            amount
        } else {
            self.cap
        };
        self.grow_exact(n);
    }

    /// The element in slot `index`; an element of a zero-sized type has no bytes.
    pub fn read(&self, index: usize) -> (r: Vec<u8>)
        requires
            self.wf(),
            index < self.spec_capacity(),
        ensures
            self.spec_elem_size() == 0 ==> r@ == Seq::<u8>::empty(),
            self.spec_elem_size() > 0 ==> r@ == self.spec_slots()[index as int],
    {
        if self.elem_size == 0 {
            Vec::new()
        } else {
            self.slots[index].clone()
        }
    }

    /// Writes an element into slot `index`.
    pub fn write(&mut self, index: usize, value: Vec<u8>)
        requires
            old(self).wf(),
            index < old(self).spec_capacity(),
            value@.len() == old(self).spec_elem_size(),
        ensures
            final(self).wf(),
            final(self).spec_elem_size() == old(self).spec_elem_size(),
            final(self).spec_capacity() == old(self).spec_capacity(),
            old(self).spec_elem_size() == 0 ==> final(self).spec_slots() == old(self).spec_slots(),
            old(self).spec_elem_size() > 0 ==> final(self).spec_slots() == old(self).spec_slots().update(
                index as int,
                value@,
            ),
    {
        if self.elem_size > 0 {
            self.slots.set(index, value);
            assert(self.spec_slots() =~= old(self).spec_slots().update(index as int, value@));
        }
    }

    /// Exchanges the elements in slots `i` and `j`.
    pub fn swap(&mut self, i: usize, j: usize)
        requires
            old(self).wf(),
            i < old(self).spec_capacity(),
            j < old(self).spec_capacity(),
        ensures
            final(self).wf(),
            final(self).spec_elem_size() == old(self).spec_elem_size(),
            final(self).spec_capacity() == old(self).spec_capacity(),
            old(self).spec_elem_size() == 0 ==> final(self).spec_slots() == old(self).spec_slots(),
            old(self).spec_elem_size() > 0 ==> final(self).spec_slots() == crate::ecs::sort::swapped(
                old(self).spec_slots(),
                i as int,
                j as int,
            ),
    {
        if self.elem_size > 0 {
            let a = self.slots[i].clone();
            let b = self.slots[j].clone();
            self.slots.set(i, b);
            self.slots.set(j, a);
            assert(self.spec_slots() =~= crate::ecs::sort::swapped(old(self).spec_slots(), i as int, j as int));
        }
    }

    /// Moves the last of `len` elements into slot `index`; the element that was
    /// there is dropped, and the last slot is left to be reused.
    pub fn swap_remove(&mut self, index: usize, len: usize)
        requires
            old(self).wf(),
            index < len,
            len <= old(self).spec_capacity(),
        ensures
            final(self).wf(),
            final(self).spec_elem_size() == old(self).spec_elem_size(),
            final(self).spec_capacity() == old(self).spec_capacity(),
            old(self).spec_elem_size() == 0 ==> final(self).spec_slots() == old(self).spec_slots(),
            old(self).spec_elem_size() > 0 ==> final(self).spec_slots() == crate::ecs::sort::swapped(
                old(self).spec_slots(),
                index as int,
                len - 1,
            ),
    {
        self.swap(index, len - 1);
    }
}

/// The larger of two numbers.
pub open spec fn max_nat(a: nat, b: nat) -> nat {
    if a >= b {
        a
    } else {
        b
    }
}

/// By how much `grow` enlarges a column of the given capacity.
pub open spec fn grow_step(cap: nat) -> nat {
    max_nat(cap, 1)
}

} // verus!
