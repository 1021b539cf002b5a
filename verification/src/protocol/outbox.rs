//! Where things wait for whoever takes them.
use vstd::prelude::*;

verus! {

/// What waits in an outbox, and whether more can be put there.
pub struct OutboxView<V> {
    pub items: Seq<V>,
    pub closed: bool,
}

impl<V> OutboxView<V> {
    /// The outbox after something was put there, if it was still open.
    pub open spec fn pushed(self, item: V) -> Self {
        if self.closed {
            self
        } else {
            Self { items: self.items.push(item), ..self }
        }
    }

    /// The outbox after it was closed.
    pub open spec fn shut(self) -> Self {
        Self { closed: true, ..self }
    }
}

/// Things that wait to be taken, in the order in which they were put there. There is no
/// limit to how many there are.
pub struct Outbox<T> {
    items: Vec<T>,
    closed: bool,
}

impl<T: View> View for Outbox<T> {
    type V = OutboxView<T::V>;

    closed spec fn view(&self) -> OutboxView<T::V> {
        OutboxView { items: self.items@.map_values(|item: T| item@), closed: self.closed }
    }
}

impl<T: View> Default for Outbox<T> {
    fn default() -> (r: Self)
        ensures
            r@ == (OutboxView::<T::V> { items: Seq::empty(), closed: false }),
    {
        let r = Self { items: Vec::new(), closed: false };
        assert(r@.items =~= Seq::<T::V>::empty());
        r
    }
}

impl<T: View> Outbox<T> {
    /// Puts something behind what waits, and tells whether that could be done.
    pub fn push(&mut self, item: T) -> (r: bool)
        ensures
            r == !old(self)@.closed,
            final(self)@ == old(self)@.pushed(item@),
    {
        if self.closed {
            false
        } else {
            self.items.push(item);
            assert(self@.items =~= old(self)@.pushed(item@).items);
            true
        }
    }

    /// Lets nothing more in. What waits can still be taken.
    pub fn close(&mut self)
        ensures
            final(self)@ == old(self)@.shut(),
    {
        self.closed = true;
    }

    /// Tells whether nothing more is let in.
    pub fn is_closed(&self) -> (r: bool)
        ensures
            r == self@.closed,
    {
        self.closed
    }

    /// Takes all that waits.
    pub fn take(&mut self) -> (r: Vec<T>)
        ensures
            r@.map_values(|item: T| item@) == old(self)@.items,
            final(self)@ == (OutboxView::<T::V> { items: Seq::empty(), ..old(self)@ }),
    {
        let mut taken: Vec<T> = Vec::new();
        core::mem::swap(&mut taken, &mut self.items);
        assert(self@.items =~= Seq::<T::V>::empty());
        taken
    }
}

/// What is put into an outbox waits behind what was put there before, and nothing is lost
/// when it is closed. What is put there afterwards is not kept.
pub proof fn law_outboxes_keep_what_is_put_there<V>(outbox: OutboxView<V>, item: V)
    ensures
        !outbox.closed ==> outbox.pushed(item).items == outbox.items.push(item),
        outbox.closed ==> outbox.pushed(item).items == outbox.items,
        outbox.pushed(item).closed == outbox.closed,
        outbox.shut().closed,
        outbox.shut().items == outbox.items,
{
}

} // verus!
