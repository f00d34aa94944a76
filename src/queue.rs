use std::collections::VecDeque;
use vstd::prelude::*;

verus! {

/// A bounded first-in first-out hand-off of spectral columns from the
/// capture side to the rendering side.
///
/// When it is full, a new column is dropped and the queue is left as it was:
/// the producer never waits for the consumer. Neither operation loops, so each
/// takes a bounded time whatever the fill state.
pub struct ColumnQueue<C> {
    items: VecDeque<C>,
    capacity: usize,
    dropped: u64,
}

impl<C> ColumnQueue<C> {
    /// The queued columns, oldest first.
    pub closed spec fn items(&self) -> Seq<C> {
        self.items@
    }

    /// The most columns the queue holds at once.
    pub closed spec fn bound(&self) -> nat {
        self.capacity as nat
    }

    /// How many offered columns were dropped (saturating at `u64::MAX`).
    pub closed spec fn drops(&self) -> nat {
        self.dropped as nat
    }

    pub closed spec fn wf(&self) -> bool {
        self.items@.len() <= self.capacity
    }

    /// An empty queue that holds at most `capacity` columns.
    pub fn new(capacity: usize) -> (r: Self)
        ensures
            r.wf(),
            r.items() == Seq::<C>::empty(),
            r.bound() == capacity,
            r.drops() == 0,
    {
        ColumnQueue { items: VecDeque::new(), capacity, dropped: 0 }
    }

    /// Number of queued columns.
    pub fn len(&self) -> (r: usize)
        ensures
            r == self.items().len(),
    {
        self.items.len()
    }

    /// The most columns the queue holds at once.
    pub fn capacity(&self) -> (r: usize)
        ensures
            r == self.bound(),
    {
        self.capacity
    }

    /// How many offered columns were dropped so far.
    pub fn dropped(&self) -> (r: u64)
        ensures
            r == self.drops(),
    {
        self.dropped
    }

    /// Whether the next offered column would be dropped.
    pub fn is_full(&self) -> (r: bool)
        requires
            self.wf(),
        ensures
            r == (self.items().len() >= self.bound()),
    {
        self.items.len() >= self.capacity
    }

    /// Queues `column` behind the others if there is room and reports whether
    /// it did; a full queue drops `column` and is otherwise left as it was.
    pub fn offer(&mut self, column: C) -> (r: bool)
        requires
            old(self).wf(),
        ensures
            final(self).wf(),
            final(self).bound() == old(self).bound(),
            r == (old(self).items().len() < old(self).bound()),
            r ==> final(self).items() == old(self).items().push(column),
            r ==> final(self).drops() == old(self).drops(),
            !r ==> final(self).items() == old(self).items(),
            !r ==> final(self).drops() == if old(self).drops() < u64::MAX {
                old(self).drops() + 1
            } else {
                old(self).drops()
            },
    {
        if self.items.len() < self.capacity {
            self.items.push_back(column);
            true
        } else {
            self.dropped = self.dropped.saturating_add(1);
            false
        }
    }

    /// Takes the oldest queued column, if any.
    pub fn poll(&mut self) -> (r: Option<C>)
        requires
            old(self).wf(),
        ensures
            final(self).wf(),
            final(self).bound() == old(self).bound(),
            final(self).drops() == old(self).drops(),
            old(self).items().len() == 0 ==> r is None && final(self).items() == old(self).items(),
            old(self).items().len() > 0 ==> r == Some(old(self).items()[0]) && final(self).items()
                == old(self).items().drop_first(),
    {
        self.items.pop_front()
    }
}

} // verus!
