//! Event groups: the events of one type, and those that wait to join them.
use vstd::prelude::*;

use std::collections::BTreeMap;

verus! {

broadcast use vstd::laws_cmp::group_laws_cmp, vstd::std_specs::btree::group_btree_axioms;

/// The events of one type: those delivered, and those that wait in the buffer
/// for the next synchronisation. This library keeps one buffer, that of the
/// calling thread.
pub struct EventGroup<T> {
    events: Vec<T>,
    queued: Vec<T>,
}

impl<T> EventGroup<T> {
    pub closed spec fn spec_events(&self) -> Seq<T> {
        self.events@
    }

    pub closed spec fn spec_queued(&self) -> Seq<T> {
        self.queued@
    }

    /// A group with no events.
    pub fn new() -> (r: Self)
        ensures
            r.spec_events() == Seq::<T>::empty(),
            r.spec_queued() == Seq::<T>::empty(),
    {
        EventGroup { events: Vec::new(), queued: Vec::new() }
    }

    /// Delivers the waiting events, after those delivered before.
    pub fn sync(&mut self)
        ensures
            final(self).spec_events() == old(self).spec_events() + old(self).spec_queued(),
            final(self).spec_queued() == Seq::<T>::empty(),
    {
        self.events.append(&mut self.queued);
    }

    /// Drops the delivered events.
    pub fn flush(&mut self)
        ensures
            final(self).spec_events() == Seq::<T>::empty(),
            final(self).spec_queued() == old(self).spec_queued(),
    {
        self.events.clear();
    }

    /// Delivers an event.
    pub fn push(&mut self, e: T)
        ensures
            final(self).spec_events() == old(self).spec_events().push(e),
            final(self).spec_queued() == old(self).spec_queued(),
    {
        self.events.push(e);
    }

    /// Puts an event in the buffer.
    pub fn push_queued(&mut self, e: T)
        ensures
            final(self).spec_events() == old(self).spec_events(),
            final(self).spec_queued() == old(self).spec_queued().push(e),
    {
        self.queued.push(e);
    }

    /// The delivered events, oldest first.
    pub fn events(&self) -> (r: &[T])
        ensures
            r@ == self.spec_events(),
    {
        self.events.as_slice()
    }
}

/// The event groups of all event types, held as values of one type `E` and
/// keyed by type id.
pub struct EventStorage<E> {
    groups: BTreeMap<u64, EventGroup<E>>,
}

/// The delivered and the waiting events of a group.
pub open spec fn group_view<E>(g: EventGroup<E>) -> (Seq<E>, Seq<E>) {
    (g.spec_events(), g.spec_queued())
}

impl<E> EventStorage<E> {
    /// Each registered type id with its delivered and its waiting events.
    pub closed spec fn spec_view(&self) -> Map<u64, (Seq<E>, Seq<E>)> {
        self.groups@.map_values(|g: EventGroup<E>| group_view(g))
    }

    /// No groups.
    pub fn new() -> (r: Self)
        ensures
            r.spec_view() == Map::<u64, (Seq<E>, Seq<E>)>::empty(),
    {
        let r = EventStorage { groups: BTreeMap::new() };
        assert(r.spec_view() =~= Map::<u64, (Seq<E>, Seq<E>)>::empty());
        r
    }

    /// Adds an empty group for `type_id`, unless it has one.
    pub fn register(&mut self, type_id: u64)
        ensures
            final(self).spec_view() == if old(self).spec_view().contains_key(type_id) {
                old(self).spec_view()
            } else {
                old(self).spec_view().insert(type_id, (Seq::<E>::empty(), Seq::<E>::empty()))
            },
    {
        if self.groups.contains_key(&type_id) {
            return;
        }
        self.groups.insert(type_id, EventGroup::new());
        assert(self.spec_view() =~= old(self).spec_view().insert(
            type_id,
            (Seq::<E>::empty(), Seq::<E>::empty()),
        ));
    }

    /// Takes the group of `type_id` out, if there is one.
    fn take_group(&mut self, type_id: u64) -> (r: Option<EventGroup<E>>)
        ensures
            old(self).spec_view().contains_key(type_id) ==> (r matches Some(g) && group_view(g)
                == old(self).spec_view()[type_id]),
            !old(self).spec_view().contains_key(type_id) ==> r is None,
            final(self).spec_view() == old(self).spec_view().remove(type_id),
    {
        let r = self.groups.remove(&type_id);
        assert(self.spec_view() =~= old(self).spec_view().remove(type_id));
        r
    }

    /// Puts a group in as the group of `type_id`.
    fn put_group(&mut self, type_id: u64, g: EventGroup<E>)
        ensures
            final(self).spec_view() == old(self).spec_view().insert(type_id, group_view(g)),
    {
        self.groups.insert(type_id, g);
        assert(self.spec_view() =~= old(self).spec_view().insert(type_id, group_view(g)));
    }

    /// Delivers the waiting events of `type_id`, if it has a group.
    pub fn sync(&mut self, type_id: u64)
        ensures
            final(self).spec_view() == if old(self).spec_view().contains_key(type_id) {
                old(self).spec_view().insert(
                    type_id,
                    (old(self).spec_view()[type_id].0 + old(self).spec_view()[type_id].1, Seq::<E>::empty()),
                )
            } else {
                old(self).spec_view()
            },
    {
        match self.take_group(type_id) {
            Some(mut g) => {
                g.sync();
                self.put_group(type_id, g);
                assert(self.spec_view() =~= old(self).spec_view().insert(
                    type_id,
                    (old(self).spec_view()[type_id].0 + old(self).spec_view()[type_id].1, Seq::<E>::empty()),
                ));
            },
            None => {
                assert(self.spec_view() =~= old(self).spec_view());
            },
        }
    }

    /// Drops the delivered events of `type_id`, if it has a group.
    pub fn flush(&mut self, type_id: u64)
        ensures
            final(self).spec_view() == if old(self).spec_view().contains_key(type_id) {
                old(self).spec_view().insert(type_id, (Seq::<E>::empty(), old(self).spec_view()[type_id].1))
            } else {
                old(self).spec_view()
            },
    {
        match self.take_group(type_id) {
            Some(mut g) => {
                g.flush();
                self.put_group(type_id, g);
                assert(self.spec_view() =~= old(self).spec_view().insert(
                    type_id,
                    (Seq::<E>::empty(), old(self).spec_view()[type_id].1),
                ));
            },
            None => {
                assert(self.spec_view() =~= old(self).spec_view());
            },
        }
    }

    /// Delivers an event to the group of `type_id`; without a group it is dropped.
    pub fn send(&mut self, type_id: u64, e: E)
        ensures
            final(self).spec_view() == if old(self).spec_view().contains_key(type_id) {
                old(self).spec_view().insert(
                    type_id,
                    (old(self).spec_view()[type_id].0.push(e), old(self).spec_view()[type_id].1),
                )
            } else {
                old(self).spec_view()
            },
    {
        match self.take_group(type_id) {
            Some(mut g) => {
                g.push(e);
                self.put_group(type_id, g);
                assert(self.spec_view() =~= old(self).spec_view().insert(
                    type_id,
                    (old(self).spec_view()[type_id].0.push(e), old(self).spec_view()[type_id].1),
                ));
            },
            None => {
                assert(self.spec_view() =~= old(self).spec_view());
            },
        }
    }

    /// Puts an event in the buffer of the group of `type_id`; without a group
    /// it is dropped.
    pub fn send_sync(&mut self, type_id: u64, e: E)
        ensures
            final(self).spec_view() == if old(self).spec_view().contains_key(type_id) {
                old(self).spec_view().insert(
                    type_id,
                    (old(self).spec_view()[type_id].0, old(self).spec_view()[type_id].1.push(e)),
                )
            } else {
                old(self).spec_view()
            },
    {
        match self.take_group(type_id) {
            Some(mut g) => {
                g.push_queued(e);
                self.put_group(type_id, g);
                assert(self.spec_view() =~= old(self).spec_view().insert(
                    type_id,
                    (old(self).spec_view()[type_id].0, old(self).spec_view()[type_id].1.push(e)),
                ));
            },
            None => {
                assert(self.spec_view() =~= old(self).spec_view());
            },
        }
    }

    /// The delivered events of `type_id`; none for a type without a group.
    pub fn events(&self, type_id: u64) -> (r: &[E])
        ensures
            r@ == if self.spec_view().contains_key(type_id) {
                self.spec_view()[type_id].0
            } else {
                Seq::<E>::empty()
            },
    {
        match self.groups.get(&type_id) {
            Some(g) => g.events(),
            None => {
                let r: &[E] = &[];
                assert(r@ =~= Seq::<E>::empty());
                r
            },
        }
    }
}

} // verus!
