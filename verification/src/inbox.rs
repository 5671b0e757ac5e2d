//! The byte queue between the background reader and the consumer.
//!
//! The reader appends what it has read, the consumer takes everything at
//! once. The queue holds raw bytes, so any binary payload passes through
//! unchanged. Sharing it between threads is the caller's business: put it
//! behind a lock and hold the lock for one `append` or one `drain`.

use vstd::prelude::*;

verus! {

/// An ordered queue of received bytes.
pub struct Inbox {
    bytes: Vec<u8>,
}

impl View for Inbox {
    type V = Seq<u8>;

    /// The queued bytes, oldest first.
    closed spec fn view(&self) -> Seq<u8> {
        self.bytes@
    }
}

/// All chunks of `chunks` one after the other.
pub open spec fn joined(chunks: Seq<Seq<u8>>) -> Seq<u8>
    decreases chunks.len(),
{
    if chunks.len() == 0 {
        Seq::empty()
    } else {
        joined(chunks.drop_last()) + chunks.last()
    }
}

/// Sum of the lengths of `chunks`.
pub open spec fn total_len(chunks: Seq<Seq<u8>>) -> nat
    decreases chunks.len(),
{
    if chunks.len() == 0 {
        0
    } else {
        total_len(chunks.drop_last()) + chunks.last().len()
    }
}

/// The queue after the chunks of `chunks` were appended, one call of
/// `append` each, to a queue that held `queued`.
pub open spec fn after_appends(queued: Seq<u8>, chunks: Seq<Seq<u8>>) -> Seq<u8>
    decreases chunks.len(),
{
    if chunks.len() == 0 {
        queued
    } else {
        after_appends(queued, chunks.drop_last()) + chunks.last()
    }
}

/// Appends neither lose nor repeat a byte: after any number of them the queue
/// holds what it held before, followed by every chunk in the order of its
/// arrival, so a drain of an inbox that started empty hands out exactly as
/// many bytes as were appended.
pub proof fn lemma_appends_lose_nothing(queued: Seq<u8>, chunks: Seq<Seq<u8>>)
    ensures
        after_appends(queued, chunks) == queued + joined(chunks),
        after_appends(queued, chunks).len() == queued.len() + total_len(chunks),
    decreases chunks.len(),
{
    if chunks.len() == 0 {
        assert(queued + joined(chunks) =~= queued);
    } else {
        lemma_appends_lose_nothing(queued, chunks.drop_last());
        assert(after_appends(queued, chunks) =~= queued + joined(chunks));
    }
}

impl Inbox {
    /// An empty inbox.
    pub fn new() -> (inbox: Self)
        ensures
            inbox@ == Seq::<u8>::empty(),
    {
        Inbox { bytes: Vec::new() }
    }

    /// Number of queued bytes.
    pub fn len(&self) -> (n: usize)
        ensures
            n == self@.len(),
    {
        self.bytes.len()
    }

    /// Whether nothing is queued.
    pub fn is_empty(&self) -> (empty: bool)
        ensures
            empty == (self@.len() == 0),
    {
        self.bytes.len() == 0
    }

    /// Queues `data` behind what is already there.
    pub fn append(&mut self, data: &[u8])
        ensures
            final(self)@ == old(self)@ + data@,
    {
        self.bytes.extend_from_slice(data);
        assert(self.bytes@ =~= old(self)@ + data@);
    }

    /// Takes everything out, oldest byte first, and leaves the inbox empty.
    pub fn drain(&mut self) -> (taken: Vec<u8>)
        ensures
            taken@ == old(self)@,
            final(self)@ == Seq::<u8>::empty(),
    {
        let mut taken: Vec<u8> = Vec::new();
        std::mem::swap(&mut taken, &mut self.bytes);
        taken
    }
}

} // verus!
