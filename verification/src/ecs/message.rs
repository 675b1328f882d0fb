//! Messages: one channel per message type, kept in the order of the types.
use vstd::prelude::*;

use crate::ecs::sort::strictly_sorted;
use crate::ecs::storage::channel::{Channel, Sender};

verus! {

/// Where `key` is in the ascending `keys`, or where it would go.
pub open spec fn search_result(keys: Seq<u64>, key: u64, r: Result<usize, usize>) -> bool {
    match r {
        Ok(i) => i < keys.len() && keys[i as int] == key,
        Err(i) => i <= keys.len() && (forall|k: int| 0 <= k < i ==> keys[k] < key) && (forall|k: int|
            i <= k < keys.len() ==> key < keys[k]),
    }
}

/// The channels of all message types, held as values of one type `M`, in
/// ascending order of their type ids.
pub struct Messages<M> {
    channels: Vec<(u64, Channel<M>)>,
}

impl<M> Messages<M> {
    /// The type ids of the channels, in order.
    pub closed spec fn spec_keys(&self) -> Seq<u64> {
        Seq::new(self.channels@.len(), |i: int| self.channels@[i].0)
    }

    /// The channel at position `i`.
    pub closed spec fn spec_channel(&self, i: int) -> Channel<M> {
        self.channels@[i].1
    }

    /// The position of the channel of `type_id`, if there is one.
    pub open spec fn spec_position(&self, type_id: u64) -> Option<int> {
        if exists|i: int| 0 <= i < self.spec_keys().len() && self.spec_keys()[i] == type_id {
            Some(choose|i: int| 0 <= i < self.spec_keys().len() && self.spec_keys()[i] == type_id)
        } else {
            None
        }
    }

    /// The type ids are strictly ascending.
    pub open spec fn wf(&self) -> bool {
        strictly_sorted(self.spec_keys())
    }

    /// Each registered type id with its delivered and its waiting messages.
    pub open spec fn spec_view(&self) -> Map<u64, (Seq<M>, Seq<M>)> {
        Map::new(
            |t: u64| self.spec_keys().contains(t),
            |t: u64| {
                let c = self.spec_channel(self.spec_position(t)->0);
                (c.spec_messages(), c.spec_queued())
            },
        )
    }

    /// In ascending keys, the position of a key is the one that holds it.
    pub proof fn lemma_position(&self, t: u64, i: int)
        requires
            self.wf(),
            0 <= i < self.spec_keys().len(),
            self.spec_keys()[i] == t,
        ensures
            self.spec_position(t) == Some(i),
    {
        let j = choose|j: int| 0 <= j < self.spec_keys().len() && self.spec_keys()[j] == t;
        assert(self.spec_keys()[j] == t);
        if j < i {
            assert(self.spec_keys()[j] < self.spec_keys()[i]);
        } else if i < j {
            assert(self.spec_keys()[i] < self.spec_keys()[j]);
        }
    }

    /// No channels.
    pub fn new() -> (r: Self)
        ensures
            r.wf(),
            r.spec_view() == Map::<u64, (Seq<M>, Seq<M>)>::empty(),
    {
        let r = Messages { channels: Vec::new() };
        assert(r.spec_keys() =~= Seq::<u64>::empty());
        assert(r.spec_view() =~= Map::<u64, (Seq<M>, Seq<M>)>::empty());
        r
    }

    /// Binary search for the channel of `type_id`.
    fn search(&self, type_id: u64) -> (r: Result<usize, usize>)
        requires
            self.wf(),
        ensures
            search_result(self.spec_keys(), type_id, r),
    {
        let mut lo: usize = 0;
        let mut hi: usize = self.channels.len();
        while lo < hi
            invariant
                self.wf(),
                lo <= hi <= self.channels@.len(),
                forall|k: int| 0 <= k < lo ==> self.spec_keys()[k] < type_id,
                forall|k: int| hi <= k < self.channels@.len() ==> type_id < self.spec_keys()[k],
            decreases hi - lo,
        {
            let mid = lo + (hi - lo) / 2;
            let key = self.channels[mid].0;
            assert(key == self.spec_keys()[mid as int]);
            if key == type_id {
                return Ok(mid);
            } else if key < type_id {
                lo = mid + 1;
            } else {
                hi = mid;
            }
        }
        Err(lo)
    }

    /// The position of the channel of `type_id`, adding an empty channel
    /// there when it has none.
    fn position_or_register(&mut self, type_id: u64) -> (r: usize)
        requires
            old(self).wf(),
        ensures
            final(self).wf(),
            r < final(self).spec_keys().len(),
            final(self).spec_keys()[r as int] == type_id,
            final(self).spec_view() == if old(self).spec_view().contains_key(type_id) {
                old(self).spec_view()
            } else {
                old(self).spec_view().insert(type_id, (Seq::<M>::empty(), Seq::<M>::empty()))
            },
    {
        match self.search(type_id) {
            Ok(i) => {
                proof {
                    assert(self.spec_keys().contains(type_id));
                }
                i
            },
            Err(i) => {
                let ghost before = *self;
                let ghost keys = self.spec_keys();
                self.channels.insert(i, (type_id, Channel::new()));
                assert(self.spec_keys() =~= keys.insert(i as int, type_id));
                proof {
                    assert(!keys.contains(type_id));
                    assert forall|t: u64| #[trigger] self.spec_keys().contains(t) == (t == type_id || keys.contains(t)) by {
                        if keys.contains(t) {
                            let k = choose|k: int| 0 <= k < keys.len() && keys[k] == t;
                            if k < i {
                                assert(self.spec_keys()[k] == t);
                            } else {
                                assert(self.spec_keys()[k + 1] == t);
                            }
                        }
                        if t == type_id {
                            assert(self.spec_keys()[i as int] == t);
                        }
                    }
                    assert forall|t: u64| #[trigger] self.spec_keys().contains(t) implies ({
                        let c = self.spec_channel(self.spec_position(t)->0);
                        (c.spec_messages(), c.spec_queued())
                    }) == (if t == type_id {
                        (Seq::<M>::empty(), Seq::<M>::empty())
                    } else {
                        let c = before.spec_channel(before.spec_position(t)->0);
                        (c.spec_messages(), c.spec_queued())
                    }) by {
                        let k = choose|k: int| 0 <= k < self.spec_keys().len() && self.spec_keys()[k] == t;
                        self.lemma_position(t, k);
                        if t != type_id {
                            if k < i {
                                before.lemma_position(t, k);
                            } else {
                                before.lemma_position(t, k - 1);
                            }
                        }
                    }
                    assert(self.spec_view() =~= before.spec_view().insert(
                        type_id,
                        (Seq::<M>::empty(), Seq::<M>::empty()),
                    ));
                }
                i
            },
        }
    }

    /// Adds an empty channel for `type_id`, unless it has one.
    pub fn register(&mut self, type_id: u64)
        requires
            old(self).wf(),
        ensures
            final(self).wf(),
            final(self).spec_view() == if old(self).spec_view().contains_key(type_id) {
                old(self).spec_view()
            } else {
                old(self).spec_view().insert(type_id, (Seq::<M>::empty(), Seq::<M>::empty()))
            },
    {
        self.position_or_register(type_id);
    }

    /// Changing one channel changes the view at its type id only.
    /// `lemma_view_update` for every value that differs in channel `p` only.
    proof fn lemma_view_update_any(before: Self, p: int)
        requires
            before.wf(),
            0 <= p < before.spec_keys().len(),
        ensures
            forall|after: Self|
                #![trigger after.spec_view()]
                #![trigger after.wf()]
                after.channels@ == before.channels@.update(p, (before.channels@[p].0, after.channels@[p].1))
                    ==> after.wf() && after.spec_view() == before.spec_view().insert(
                    before.spec_keys()[p],
                    (after.spec_channel(p).spec_messages(), after.spec_channel(p).spec_queued()),
                ),
    {
        assert forall|after: Self|
            after.channels@ == before.channels@.update(p, (before.channels@[p].0, after.channels@[p].1))
                implies after.wf() && after.spec_view() == before.spec_view().insert(
                before.spec_keys()[p],
                (after.spec_channel(p).spec_messages(), after.spec_channel(p).spec_queued()),
            ) by {
            assert(after.spec_keys() =~= before.spec_keys());
            Self::lemma_view_update(before, after, p);
        }
    }

    proof fn lemma_view_update(before: Self, after: Self, p: int)
        requires
            before.wf(),
            after.spec_keys() == before.spec_keys(),
            0 <= p < before.spec_keys().len(),
            forall|i: int| 0 <= i < before.spec_keys().len() && i != p ==> after.spec_channel(i) == before.spec_channel(i),
        ensures
            after.wf(),
            after.spec_view() == before.spec_view().insert(
                before.spec_keys()[p],
                (after.spec_channel(p).spec_messages(), after.spec_channel(p).spec_queued()),
            ),
    {
        let t0 = before.spec_keys()[p];
        assert forall|t: u64| #[trigger] after.spec_keys().contains(t) implies ({
            let c = after.spec_channel(after.spec_position(t)->0);
            (c.spec_messages(), c.spec_queued())
        }) == (if t == t0 {
            (after.spec_channel(p).spec_messages(), after.spec_channel(p).spec_queued())
        } else {
            let c = before.spec_channel(before.spec_position(t)->0);
            (c.spec_messages(), c.spec_queued())
        }) by {
            let k = choose|k: int| 0 <= k < after.spec_keys().len() && after.spec_keys()[k] == t;
            after.lemma_position(t, k);
            before.lemma_position(t, k);
            if t == t0 {
                before.lemma_position(t, p);
            }
        }
        assert(after.spec_view() =~= before.spec_view().insert(
            t0,
            (after.spec_channel(p).spec_messages(), after.spec_channel(p).spec_queued()),
        ));
    }

    /// The channel of `type_id`, added empty when there is none.
    pub fn get_or_register(&mut self, type_id: u64) -> (r: &Channel<M>)
        requires
            old(self).wf(),
        ensures
            final(self).wf(),
            final(self).spec_view() == if old(self).spec_view().contains_key(type_id) {
                old(self).spec_view()
            } else {
                old(self).spec_view().insert(type_id, (Seq::<M>::empty(), Seq::<M>::empty()))
            },
            (r.spec_messages(), r.spec_queued()) == final(self).spec_view()[type_id],
    {
        let p = self.position_or_register(type_id);
        proof {
            self.lemma_position(type_id, p as int);
        }
        &self.channels[p].1
    }

    /// The channel of a registered `type_id`.
    pub fn get(&self, type_id: u64) -> (r: &Channel<M>)
        requires
            self.wf(),
            self.spec_view().contains_key(type_id),
        ensures
            (r.spec_messages(), r.spec_queued()) == self.spec_view()[type_id],
    {
        match self.search(type_id) {
            Ok(p) => {
                proof {
                    self.lemma_position(type_id, p as int);
                }
                &self.channels[p].1
            },
            Err(_) => {
                assert(false);
                &self.channels[0].1
            },
        }
    }

    /// Delivers a message on the channel of `type_id`, which is added when
    /// there is none.
    pub fn send(&mut self, type_id: u64, message: M)
        requires
            old(self).wf(),
        ensures
            final(self).wf(),
            final(self).spec_view() == if old(self).spec_view().contains_key(type_id) {
                old(self).spec_view().insert(
                    type_id,
                    (old(self).spec_view()[type_id].0.push(message), old(self).spec_view()[type_id].1),
                )
            } else {
                old(self).spec_view().insert(type_id, (seq![message], Seq::<M>::empty()))
            },
    {
        let p = self.position_or_register(type_id);
        let ghost before = *self;
        proof {
            before.lemma_position(type_id, p as int);
        }
        self.channels[p].1.send(message);
        proof {
            assert(self.spec_keys() =~= before.spec_keys());
            Self::lemma_view_update(before, *self, p as int);
            if old(self).spec_view().contains_key(type_id) {
                assert(self.spec_view() =~= old(self).spec_view().insert(
                    type_id,
                    (old(self).spec_view()[type_id].0.push(message), old(self).spec_view()[type_id].1),
                ));
            } else {
                assert(before.spec_view().contains_key(type_id));
                assert(before.spec_view()[type_id] == (
                    before.spec_channel(p as int).spec_messages(),
                    before.spec_channel(p as int).spec_queued(),
                ));
                assert(before.spec_channel(p as int).spec_messages() == Seq::<M>::empty());
                assert(Seq::<M>::empty().push(message) =~= seq![message]);
                assert(self.spec_view() =~= old(self).spec_view().insert(
                    type_id,
                    (seq![message], Seq::<M>::empty()),
                ));
            }
        }
    }

    /// Puts a message in the buffer of the channel of a registered `type_id`.
    pub fn send_tl(&mut self, type_id: u64, message: M)
        requires
            old(self).wf(),
            old(self).spec_view().contains_key(type_id),
        ensures
            final(self).wf(),
            final(self).spec_view() == old(self).spec_view().insert(
                type_id,
                (old(self).spec_view()[type_id].0, old(self).spec_view()[type_id].1.push(message)),
            ),
    {
        let p = self.position_or_register(type_id);
        let ghost before = *self;
        proof {
            before.lemma_position(type_id, p as int);
        }
        self.channels[p].1.send_tl(message);
        proof {
            assert(self.spec_keys() =~= before.spec_keys());
            Self::lemma_view_update(before, *self, p as int);
        }
    }

    /// A sender that delivers messages on the channel of a registered
    /// `type_id`; what it sends is delivered there.
    pub fn sender(&mut self, type_id: u64) -> (r: Sender<'_, M>)
        requires
            old(self).wf(),
            old(self).spec_view().contains_key(type_id),
        ensures
            r.spec_sent() == old(self).spec_view()[type_id].0,
            final(self).wf(),
            final(self).spec_view() == old(self).spec_view().insert(
                type_id,
                (final(r.vec_cell).spec_items(), old(self).spec_view()[type_id].1),
            ),
    {
        let p = match self.search(type_id) {
            Ok(p) => p,
            Err(_) => {
                assert(!self.spec_keys().contains(type_id));
                0
            },
        };
        proof {
            old(self).lemma_position(type_id, p as int);
            Self::lemma_view_update_any(*old(self), p as int);
        }
        self.channels[p].1.sender()
    }

    /// A sender that puts messages in the buffer of the channel of a
    /// registered `type_id`; what it sends waits there for `sync`.
    pub fn sender_tl(&mut self, type_id: u64) -> (r: Sender<'_, M>)
        requires
            old(self).wf(),
            old(self).spec_view().contains_key(type_id),
        ensures
            r.spec_sent() == old(self).spec_view()[type_id].1,
            final(self).wf(),
            final(self).spec_view() == old(self).spec_view().insert(
                type_id,
                (old(self).spec_view()[type_id].0, final(r.vec_cell).spec_items()),
            ),
    {
        let p = match self.search(type_id) {
            Ok(p) => p,
            Err(_) => {
                assert(!self.spec_keys().contains(type_id));
                0
            },
        };
        proof {
            old(self).lemma_position(type_id, p as int);
            Self::lemma_view_update_any(*old(self), p as int);
        }
        self.channels[p].1.sender_tl()
    }

    /// The delivered messages of `type_id`; none for a type without a channel.
    pub fn messages(&self, type_id: u64) -> (r: &[M])
        requires
            self.wf(),
        ensures
            r@ == if self.spec_view().contains_key(type_id) {
                self.spec_view()[type_id].0
            } else {
                Seq::<M>::empty()
            },
    {
        match self.search(type_id) {
            Ok(p) => {
                proof {
                    self.lemma_position(type_id, p as int);
                }
                self.channels[p].1.messages()
            },
            Err(_) => {
                proof {
                    assert(!self.spec_keys().contains(type_id));
                }
                let r: &[M] = &[];
                assert(r@ =~= Seq::<M>::empty());
                r
            },
        }
    }

    /// Drops the delivered messages of `type_id`, if it has a channel.
    pub fn flush(&mut self, type_id: u64)
        requires
            old(self).wf(),
        ensures
            final(self).wf(),
            final(self).spec_view() == if old(self).spec_view().contains_key(type_id) {
                old(self).spec_view().insert(type_id, (Seq::<M>::empty(), old(self).spec_view()[type_id].1))
            } else {
                old(self).spec_view()
            },
    {
        match self.search(type_id) {
            Ok(p) => {
                let ghost before = *self;
                proof {
                    before.lemma_position(type_id, p as int);
                }
                self.channels[p].1.flush();
                proof {
                    assert(self.spec_keys() =~= before.spec_keys());
                    Self::lemma_view_update(before, *self, p as int);
                }
            },
            Err(_) => {
                proof {
                    assert(!self.spec_keys().contains(type_id));
                }
            },
        }
    }

    /// Delivers the waiting messages of `type_id`, if it has a channel.
    pub fn sync(&mut self, type_id: u64)
        requires
            old(self).wf(),
        ensures
            final(self).wf(),
            final(self).spec_view() == if old(self).spec_view().contains_key(type_id) {
                old(self).spec_view().insert(
                    type_id,
                    (old(self).spec_view()[type_id].0 + old(self).spec_view()[type_id].1, Seq::<M>::empty()),
                )
            } else {
                old(self).spec_view()
            },
    {
        match self.search(type_id) {
            Ok(p) => {
                let ghost before = *self;
                proof {
                    before.lemma_position(type_id, p as int);
                }
                self.channels[p].1.sync();
                proof {
                    assert(self.spec_keys() =~= before.spec_keys());
                    Self::lemma_view_update(before, *self, p as int);
                }
            },
            Err(_) => {
                proof {
                    assert(!self.spec_keys().contains(type_id));
                }
            },
        }
    }

    /// A shared handle to the messages.
    pub fn unsafe_cell(&self) -> (r: UnsafeMessagesCell<'_, M>)
        ensures
            *r.spec_messages() == *self,
    {
        UnsafeMessagesCell(self)
    }
}

/// A shared handle to the messages, for systems that read them while others run.
pub struct UnsafeMessagesCell<'a, M>(&'a Messages<M>);

impl<'a, M> UnsafeMessagesCell<'a, M> {
    pub closed spec fn spec_messages(&self) -> &'a Messages<M> {
        self.0
    }

    /// A handle to `messages`.
    pub fn new(messages: &'a Messages<M>) -> (r: Self)
        ensures
            *r.spec_messages() == *messages,
    {
        UnsafeMessagesCell(messages)
    }

    /// The channel of a registered `type_id`.
    pub fn get(&self, type_id: u64) -> (r: &'a Channel<M>)
        requires
            self.spec_messages().wf(),
            self.spec_messages().spec_view().contains_key(type_id),
        ensures
            (r.spec_messages(), r.spec_queued()) == self.spec_messages().spec_view()[type_id],
    {
        self.0.get(type_id)
    }

    /// The delivered messages of `type_id`; none for a type without a channel.
    pub fn messages(&self, type_id: u64) -> (r: &'a [M])
        requires
            self.spec_messages().wf(),
        ensures
            r@ == if self.spec_messages().spec_view().contains_key(type_id) {
                self.spec_messages().spec_view()[type_id].0
            } else {
                Seq::<M>::empty()
            },
    {
        self.0.messages(type_id)
    }
}

} // verus!
