//! Message channels: a list of delivered messages and a buffer of messages
//! that wait for the next synchronisation.
use vstd::prelude::*;

verus! {

/// A vector that readers and writers share.
pub struct UnsafeVecCell<T>(Vec<T>);

impl<T> UnsafeVecCell<T> {
    pub closed spec fn spec_items(&self) -> Seq<T> {
        self.0@
    }

    /// An empty vector.
    pub fn new() -> (r: Self)
        ensures
            r.spec_items() == Seq::<T>::empty(),
    {
        UnsafeVecCell(Vec::new())
    }

    /// The vector, to read.
    pub fn get(&self) -> (r: &Vec<T>)
        ensures
            r@ == self.spec_items(),
    {
        &self.0
    }

    /// The vector, to change.
    pub fn get_mut(&mut self) -> (r: &mut Vec<T>)
        ensures
            r@ == old(self).spec_items(),
            final(self).spec_items() == final(r)@,
    {
        &mut self.0
    }
}

/// The messages of one type. Messages sent directly are delivered at once;
/// messages sent to the buffer wait until the channel is synchronised. This
/// library keeps one buffer, that of the calling thread.
pub struct Channel<T> {
    messages: UnsafeVecCell<T>,
    tl_messages: UnsafeVecCell<T>,
}

impl<T> Channel<T> {
    /// The delivered messages, oldest first.
    pub closed spec fn spec_messages(&self) -> Seq<T> {
        self.messages.spec_items()
    }

    /// The messages that wait in the buffer, oldest first.
    pub closed spec fn spec_queued(&self) -> Seq<T> {
        self.tl_messages.spec_items()
    }

    /// A channel with no messages.
    pub fn new() -> (r: Self)
        ensures
            r.spec_messages() == Seq::<T>::empty(),
            r.spec_queued() == Seq::<T>::empty(),
    {
        Channel { messages: UnsafeVecCell::new(), tl_messages: UnsafeVecCell::new() }
    }

    /// Delivers a message.
    pub fn send(&mut self, message: T)
        ensures
            final(self).spec_messages() == old(self).spec_messages().push(message),
            final(self).spec_queued() == old(self).spec_queued(),
    {
        self.messages.get_mut().push(message);
    }

    /// Puts a message in the buffer.
    pub fn send_tl(&mut self, message: T)
        ensures
            final(self).spec_messages() == old(self).spec_messages(),
            final(self).spec_queued() == old(self).spec_queued().push(message),
    {
        self.tl_messages.get_mut().push(message);
    }

    /// A sender that delivers messages.
    pub fn sender(&mut self) -> (r: Sender<'_, T>)
        ensures
            r.spec_sent() == old(self).spec_messages(),
            final(self).spec_messages() == final(r.vec_cell).spec_items(),
            final(self).spec_queued() == old(self).spec_queued(),
    {
        Sender { vec_cell: &mut self.messages }
    }

    /// A sender that puts messages in the buffer.
    pub fn sender_tl(&mut self) -> (r: Sender<'_, T>)
        ensures
            r.spec_sent() == old(self).spec_queued(),
            final(self).spec_queued() == final(r.vec_cell).spec_items(),
            final(self).spec_messages() == old(self).spec_messages(),
    {
        Sender { vec_cell: &mut self.tl_messages }
    }

    /// The delivered messages, oldest first.
    pub fn messages(&self) -> (r: &[T])
        ensures
            r@ == self.spec_messages(),
    {
        self.messages.get().as_slice()
    }

    /// Drops the delivered messages.
    pub fn flush(&mut self)
        ensures
            final(self).spec_messages() == Seq::<T>::empty(),
            final(self).spec_queued() == old(self).spec_queued(),
    {
        self.messages.get_mut().clear();
    }

    /// Delivers the messages of the buffer, after those delivered before.
    pub fn sync(&mut self)
        ensures
            final(self).spec_messages() == old(self).spec_messages() + old(self).spec_queued(),
            final(self).spec_queued() == Seq::<T>::empty(),
    {
        let queued = self.tl_messages.get_mut();
        let mut moved: Vec<T> = Vec::new();
        std::mem::swap(queued, &mut moved);
        self.messages.get_mut().append(&mut moved);
    }
}

/// Sends messages into a channel's list or buffer.
pub struct Sender<'a, T> {
    pub vec_cell: &'a mut UnsafeVecCell<T>,
}

impl<'a, T> Sender<'a, T> {
    /// What the list holds, with the messages sent so far.
    pub open spec fn spec_sent(&self) -> Seq<T> {
        self.vec_cell.spec_items()
    }

    /// Adds a message at the end.
    pub fn send(&mut self, event: T)
        ensures
            final(self).spec_sent() == old(self).spec_sent().push(event),
            *final(final(self).vec_cell) == *final(old(self).vec_cell),
    {
        self.vec_cell.get_mut().push(event);
    }
}

} // verus!
