//! A one-slot mailbox where the newest item wins.
//!
//! The producer overwrites whatever is waiting, so the consumer always takes
//! the most recent item, however long it has been away. That is what a camera
//! hand-off needs: a channel with room for one frame keeps the frame that was
//! already waiting and refuses newer ones, so a consumer that idles between
//! takes gets a frame as old as its idle time.
//!
//! This is the mailbox itself. A program shares it behind a lock, and has its
//! consumer wait while [`Latest::is_waiting`] says so, before it takes.

use vstd::prelude::*;

verus! {

pub struct Latest<T> {
    value: Option<T>,
    closed: bool,
}

/// The outcome of [`Latest::take`].
pub enum Take<T> {
    Item(T),
    /// Nothing came in the time the consumer was ready to wait.
    Timeout,
    /// The producer has closed the mailbox and nothing is waiting.
    Closed,
}

/// What a mailbox holds: the item nobody has taken yet, and whether no more
/// will come.
pub ghost struct Slot<T> {
    pub waiting: Option<T>,
    pub closed: bool,
}

impl<T> Slot<T> {
    pub open spec fn empty() -> Self {
        Slot { waiting: None, closed: false }
    }

    pub open spec fn put(self, item: T) -> Self {
        Slot { waiting: Some(item), ..self }
    }

    pub open spec fn close(self) -> Self {
        Slot { closed: true, ..self }
    }

    /// What is left once the waiting item is taken.
    pub open spec fn taken(self) -> Self {
        Slot { waiting: None, ..self }
    }

    /// What a consumer takes.
    pub open spec fn given(self) -> Take<T> {
        match self.waiting {
            Some(item) => Take::Item(item),
            None => if self.closed {
                Take::Closed
            } else {
                Take::Timeout
            },
        }
    }
}

impl<T> View for Latest<T> {
    type V = Slot<T>;

    closed spec fn view(&self) -> Slot<T> {
        Slot { waiting: self.value, closed: self.closed }
    }
}

impl<T> Latest<T> {
    pub fn new() -> (m: Self)
        ensures
            m@ == Slot::<T>::empty(),
    {
        Latest { value: None, closed: false }
    }

    /// Puts `item` in the slot. Returns true if it replaced one nobody took.
    pub fn put(&mut self, item: T) -> (replaced: bool)
        ensures
            final(self)@ == old(self)@.put(item),
            replaced <==> old(self)@.waiting is Some,
    {
        let replaced: bool = self.value.is_some();
        self.value = Some(item);
        replaced
    }

    /// Whether there is something to wait for: nothing has come, and something
    /// still may.
    pub fn is_waiting(&self) -> (b: bool)
        ensures
            b <==> self@.given() is Timeout,
    {
        self.value.is_none() && !self.closed
    }

    /// Takes the waiting item, at the end of the consumer's wait.
    pub fn take(&mut self) -> (t: Take<T>)
        ensures
            final(self)@ == old(self)@.taken(),
            t == old(self)@.given(),
    {
        match self.value.take() {
            Some(item) => Take::Item(item),
            None => if self.closed {
                Take::Closed
            } else {
                Take::Timeout
            },
        }
    }

    /// Tells the consumer no more items will come. One still waiting is
    /// delivered first.
    pub fn close(&mut self)
        ensures
            final(self)@ == old(self)@.close(),
    {
        self.closed = true;
    }
}

impl<T> Default for Latest<T> {
    fn default() -> (m: Self)
        ensures
            m@ == Slot::<T>::empty(),
    {
        Self::new()
    }
}

/// What the producer and the consumer do to a mailbox.
pub ghost enum Turn<T> {
    Put(T),
    Take,
    Close,
}

/// A mailbox after these turns.
pub open spec fn after<T>(slot: Slot<T>, turns: Seq<Turn<T>>) -> Slot<T>
    decreases turns.len(),
{
    if turns.len() == 0 {
        slot
    } else {
        let before = after(slot, turns.drop_last());
        match turns.last() {
            Turn::Put(item) => before.put(item),
            Turn::Take => before.taken(),
            Turn::Close => before.close(),
        }
    }
}

/// The newest item wins: whatever was put, taken or closed before, the
/// consumer gets the last item put, if it has not taken since, and then
/// nothing.
pub proof fn law_the_newest_item_wins<T>(slot: Slot<T>, turns: Seq<Turn<T>>, n: int, item: T)
    requires
        0 <= n < turns.len(),
        turns[n] == Turn::Put(item),
        forall|i: int| n < i < turns.len() ==> #[trigger] turns[i] is Close,
    ensures
        after(slot, turns).given() == Take::Item(item),
        after(slot, turns).taken().given() !is Item,
    decreases turns.len(),
{
    if n < turns.len() - 1 {
        law_the_newest_item_wins(slot, turns.drop_last(), n, item);
    }
}

/// Closing delivers what is waiting, then reports closed.
pub proof fn law_closing_delivers_what_is_waiting_then_reports_closed<T>(slot: Slot<T>)
    ensures
        slot.waiting is Some ==> slot.close().given() == Take::Item(slot.waiting->0),
        slot.waiting is None ==> slot.close().given() is Closed,
        slot.close().taken().given() is Closed,
{
}

} // verus!
