//! The bounded queue between the side that cuts the stream into chunks
//! and the side that uploads them.

use vstd::prelude::*;

verus! {

/// What became of a chunk that was offered to the queue.
pub enum Push {
    /// The chunk waits in the queue.
    Queued,
    /// The queue is full: the chunk comes back, to be offered again once a
    /// chunk was taken out.
    Full(Vec<u8>),
    /// The queue is closed: the chunk comes back, and nobody will take it.
    Closed(Vec<u8>),
}

/// What the two sides do to the queue.
pub enum QueueOp {
    /// The reading side offers a chunk.
    Offer(Seq<u8>),
    /// The uploading side asks for a chunk.
    Take,
}

/// The chunks that wait after one operation on an open queue.
pub open spec fn after_op(queued: Seq<Seq<u8>>, capacity: nat, op: QueueOp) -> Seq<Seq<u8>> {
    match op {
        QueueOp::Offer(chunk) => if queued.len() < capacity {
            queued.push(chunk)
        } else {
            queued
        },
        QueueOp::Take => if queued.len() > 0 {
            queued.drop_first()
        } else {
            queued
        },
    }
}

/// The chunks that wait after a series of operations on a new queue.
pub open spec fn replay(ops: Seq<QueueOp>, capacity: nat) -> Seq<Seq<u8>>
    decreases ops.len(),
{
    if ops.len() == 0 {
        Seq::empty()
    } else {
        after_op(replay(ops.drop_last(), capacity), capacity, ops.last())
    }
}

/// Finished chunks on their way to the upload, first in, first out, and
/// never more of them than the capacity allows.
pub struct ChunkQueue {
    capacity: usize,
    chunks: Vec<Vec<u8>>,
    closed: bool,
}

impl ChunkQueue {
    /// How many chunks may wait at most.
    pub closed spec fn capacity(&self) -> nat {
        self.capacity as nat
    }

    /// The chunks that wait, the oldest first.
    pub closed spec fn queued(&self) -> Seq<Seq<u8>> {
        Seq::new(self.chunks@.len(), |i: int| self.chunks@[i]@)
    }

    /// One side has gone: nothing more is queued.
    pub closed spec fn closed(&self) -> bool {
        self.closed
    }

    /// The queue holds no more chunks than its capacity.
    pub open spec fn wf(&self) -> bool {
        self.queued().len() <= self.capacity()
    }

    pub fn new(capacity: usize) -> (q: ChunkQueue)
        ensures
            q.wf(),
            q.capacity() == capacity,
            q.queued() == Seq::<Seq<u8>>::empty(),
            !q.closed(),
    {
        let q = ChunkQueue { capacity, chunks: Vec::new(), closed: false };
        assert(q.queued() =~= Seq::<Seq<u8>>::empty());
        q
    }

    pub fn len(&self) -> (n: usize)
        ensures
            n == self.queued().len(),
    {
        self.chunks.len()
    }

    pub fn is_closed(&self) -> (b: bool)
        ensures
            b == self.closed(),
    {
        self.closed
    }

    /// Offers a chunk. It is queued behind the others where the queue is
    /// open and not full; else it comes back and the queue stays as it was.
    pub fn push(&mut self, chunk: Vec<u8>) -> (r: Push)
        requires
            old(self).wf(),
        ensures
            final(self).wf(),
            final(self).capacity() == old(self).capacity(),
            final(self).closed() == old(self).closed(),
            !old(self).closed() ==> final(self).queued() == after_op(
                old(self).queued(),
                old(self).capacity(),
                QueueOp::Offer(chunk@),
            ),
            match r {
                Push::Closed(back) => {
                    &&& old(self).closed()
                    &&& back@ == chunk@
                    &&& final(self).queued() == old(self).queued()
                },
                Push::Full(back) => {
                    &&& !old(self).closed()
                    &&& old(self).queued().len() == old(self).capacity()
                    &&& back@ == chunk@
                    &&& final(self).queued() == old(self).queued()
                },
                Push::Queued => {
                    &&& !old(self).closed()
                    &&& old(self).queued().len() < old(self).capacity()
                    &&& final(self).queued() == old(self).queued().push(chunk@)
                },
            },
    {
        if self.closed {
            Push::Closed(chunk)
        } else if self.chunks.len() >= self.capacity {
            Push::Full(chunk)
        } else {
            let ghost before = self.queued();
            let ghost bytes = chunk@;
            self.chunks.push(chunk);
            assert(self.queued() =~= before.push(bytes));
            Push::Queued
        }
    }

    /// Takes the oldest chunk out, if any waits.
    pub fn pop(&mut self) -> (r: Option<Vec<u8>>)
        requires
            old(self).wf(),
        ensures
            final(self).wf(),
            final(self).capacity() == old(self).capacity(),
            final(self).closed() == old(self).closed(),
            final(self).queued() == after_op(old(self).queued(), old(self).capacity(), QueueOp::Take),
            r.is_some() == (old(self).queued().len() > 0),
            r matches Some(chunk) ==> chunk@ == old(self).queued()[0] && final(self).queued() == old(
                self,
            ).queued().drop_first(),
            r is None ==> final(self).queued() == old(self).queued(),
    {
        if self.chunks.len() == 0 {
            None
        } else {
            let ghost before = self.queued();
            let chunk = self.chunks.remove(0);
            assert(self.queued() =~= before.drop_first());
            assert(chunk@ == before[0]);
            Some(chunk)
        }
    }

    /// Closes the queue: what waits can still be taken out, nothing more
    /// is queued.
    pub fn close(&mut self)
        ensures
            final(self).closed(),
            final(self).capacity() == old(self).capacity(),
            final(self).queued() == old(self).queued(),
    {
        self.closed = true;
    }
}

/// The chunks in memory between the producer and the upload are those in
/// the queue and the one that the reading side fills or offers. Whatever
/// is offered and taken, in whatever order, the queue never holds more
/// chunks than its capacity: with the one on the reading side, never more
/// than the capacity and one are held.
pub proof fn lemma_backpressure_bound(ops: Seq<QueueOp>, capacity: nat)
    ensures
        replay(ops, capacity).len() <= capacity,
        replay(ops, capacity).len() + 1 <= capacity + 1,
    decreases ops.len(),
{
    if ops.len() > 0 {
        lemma_backpressure_bound(ops.drop_last(), capacity);
    }
}

} // verus!
