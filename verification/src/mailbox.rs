use vstd::prelude::*;

verus! {

/// A FIFO queue of pending items that hands them out in batches of at most
/// `throughput` items at a time.
pub struct Mailbox<T> {
    throughput: usize,
    queue: Vec<T>,
}

impl<T> Mailbox<T> {
    /// The items waiting in the mailbox, oldest first.
    pub closed spec fn items(&self) -> Seq<T> {
        self.queue@
    }

    /// The largest number of items handed out by one call of `get`.
    pub closed spec fn batch(&self) -> nat {
        self.throughput as nat
    }

    /// The number of items that the next call of `get` hands out.
    pub open spec fn next_batch_len(&self) -> nat {
        if self.items().len() < self.batch() {
            self.items().len()
        } else {
            self.batch()
        }
    }

    /// Creates an empty mailbox; `capacity` is only an allocation hint.
    pub fn new(throughput: usize, capacity: usize) -> (m: Self)
        ensures
            m.items() == Seq::<T>::empty(),
            m.batch() == throughput,
    {
        Mailbox { throughput, queue: Vec::with_capacity(capacity) }
    }

    /// Takes the oldest items out of the mailbox: all of them when fewer than
    /// `throughput` are waiting, else exactly `throughput`.
    pub fn get(&mut self) -> (taken: Vec<T>)
        ensures
            taken@ == old(self).items().take(old(self).next_batch_len() as int),
            final(self).items() == old(self).items().skip(old(self).next_batch_len() as int),
            final(self).batch() == old(self).batch(),
    {
        let n = if self.queue.len() < self.throughput {
            self.queue.len()
        } else {
            self.throughput
        };
        let mut taken = self.queue.split_off(n);
        std::mem::swap(&mut taken, &mut self.queue);
        taken
    }

    /// Appends the given items, in order, after those already waiting.
    pub fn put(&mut self, queue: Vec<T>)
        ensures
            final(self).items() == old(self).items() + queue@,
            final(self).batch() == old(self).batch(),
    {
        let mut queue = queue;
        self.queue.append(&mut queue);
    }

    /// The number of items waiting.
    pub fn len(&self) -> (n: usize)
        ensures
            n == self.items().len(),
    {
        self.queue.len()
    }

    /// Whether no item is waiting.
    pub fn is_empty(&self) -> (b: bool)
        ensures
            b == (self.items().len() == 0),
    {
        self.len() == 0
    }
}

} // verus!
