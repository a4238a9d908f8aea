//! The buffer of a file logger: entries wait in memory and are written out
//! in batches once the buffer is full. Writing the file is the caller's
//! part.
use vstd::prelude::*;

verus! {

/// Entries waiting to be written, with the size at which a batch is due.
pub struct LogBuffer<T> {
    buffer: Vec<T>,
    buffer_size: usize,
}

impl<T> LogBuffer<T> {
    /// The entries not yet handed out, oldest first.
    pub closed spec fn pending(&self) -> Seq<T> {
        self.buffer@
    }

    /// The number of entries at which a batch is due.
    pub closed spec fn batch_size(&self) -> nat {
        self.buffer_size as nat
    }

    /// An empty buffer whose batches are `buffer_size` entries.
    pub fn new(buffer_size: usize) -> (r: Self)
        ensures
            r.pending() == Seq::<T>::empty(),
            r.batch_size() == buffer_size,
    {
        LogBuffer { buffer: Vec::new(), buffer_size }
    }

    /// Add an entry; `true` when the buffer has reached its batch size and
    /// should be written out.
    pub fn add(&mut self, data: T) -> (flush_due: bool)
        ensures
            final(self).pending() == old(self).pending().push(data),
            final(self).batch_size() == old(self).batch_size(),
            flush_due == (final(self).pending().len() >= final(self).batch_size()),
    {
        self.buffer.push(data);
        self.buffer.len() >= self.buffer_size
    }

    /// Hand out every pending entry, oldest first, and empty the buffer.
    pub fn drain(&mut self) -> (r: Vec<T>)
        ensures
            r@ == old(self).pending(),
            final(self).pending() == Seq::<T>::empty(),
            final(self).batch_size() == old(self).batch_size(),
    {
        let mut taken: Vec<T> = Vec::new();
        std::mem::swap(&mut taken, &mut self.buffer);
        taken
    }

    /// The number of pending entries.
    pub fn len(&self) -> (r: usize)
        ensures
            r == self.pending().len(),
    {
        self.buffer.len()
    }

    /// Whether nothing is pending.
    pub fn is_empty(&self) -> (r: bool)
        ensures
            r == (self.pending().len() == 0),
    {
        self.buffer.len() == 0
    }
}

} // verus!
