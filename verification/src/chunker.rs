//! Cuts the byte stream of a snapshot producer into chunks of a fixed
//! size, one read at a time.

use vstd::prelude::*;

verus! {

/// The chunk that a read of `data` completes, given what the current
/// buffer holds: the buffer is handed on when the read fills it or when
/// the stream ends (an empty read).
pub open spec fn emitted(filled: Seq<u8>, data: Seq<u8>, size: nat) -> Option<Seq<u8>> {
    if data.len() == 0 || filled.len() + data.len() == size {
        Some(filled + data)
    } else {
        None
    }
}

/// What the buffer holds after a read of `data`.
pub open spec fn kept(filled: Seq<u8>, data: Seq<u8>, size: nat) -> Seq<u8> {
    if data.len() == 0 || filled.len() + data.len() == size {
        Seq::empty()
    } else {
        filled + data
    }
}

/// The reads of one stream: every read fits into the buffer, and the
/// stream ends with its first empty read.
pub open spec fn reads_fit(reads: Seq<Seq<u8>>, filled: Seq<u8>, size: nat) -> bool
    decreases reads.len(),
{
    if reads.len() == 0 {
        false
    } else if reads[0].len() == 0 {
        reads.len() == 1
    } else {
        &&& filled.len() + reads[0].len() <= size
        &&& reads_fit(reads.drop_first(), kept(filled, reads[0], size), size)
    }
}

/// The chunks handed on over a whole stream, in order.
pub open spec fn chunks_of(reads: Seq<Seq<u8>>, filled: Seq<u8>, size: nat) -> Seq<Seq<u8>>
    decreases reads.len(),
{
    if reads.len() == 0 {
        Seq::empty()
    } else {
        let rest = chunks_of(reads.drop_first(), kept(filled, reads[0], size), size);
        match emitted(filled, reads[0], size) {
            Some(c) => seq![c] + rest,
            None => rest,
        }
    }
}

/// The bytes of a list of byte strings, one after the other.
pub open spec fn concat(parts: Seq<Seq<u8>>) -> Seq<u8>
    decreases parts.len(),
{
    if parts.len() == 0 {
        Seq::empty()
    } else {
        parts[0] + concat(parts.drop_first())
    }
}

/// The chunks of a stream, joined in the order of their numbers, are the
/// stream itself, byte for byte. There is at least one chunk, every chunk
/// but the last is full, and the last is shorter than a full chunk (empty
/// where the stream ends on a chunk boundary, or holds nothing at all).
pub proof fn lemma_chunks_round_trip(reads: Seq<Seq<u8>>, filled: Seq<u8>, size: nat)
    requires
        size > 0,
        filled.len() < size,
        reads_fit(reads, filled, size),
    ensures
        concat(chunks_of(reads, filled, size)) == filled + concat(reads),
        chunks_of(reads, filled, size).len() >= 1,
        forall|i: int|
            0 <= i < chunks_of(reads, filled, size).len() - 1 ==> (#[trigger] chunks_of(
                reads,
                filled,
                size,
            )[i]).len() == size,
        chunks_of(reads, filled, size).last().len() < size,
    decreases reads.len(),
{
    let chunks = chunks_of(reads, filled, size);
    let tail = reads.drop_first();
    let d = reads[0];
    if d.len() == 0 {
        assert(tail.len() == 0);
        assert(chunks_of(tail, kept(filled, d, size), size) =~= Seq::<Seq<u8>>::empty());
        assert(chunks =~= seq![filled + d]);
        assert(chunks.drop_first() =~= Seq::<Seq<u8>>::empty());
        assert(concat(chunks.drop_first()) =~= Seq::<u8>::empty());
        assert(chunks[0] == filled + d);
        assert(concat(chunks) =~= filled + d);
        assert(concat(tail) =~= Seq::<u8>::empty());
        assert(concat(reads) =~= d);
    } else {
        let next = kept(filled, d, size);
        let rest = chunks_of(tail, next, size);
        lemma_chunks_round_trip(tail, next, size);
        assert(concat(reads) == d + concat(tail));
        match emitted(filled, d, size) {
            Some(c) => {
                assert(chunks == seq![c] + rest);
                assert(chunks.drop_first() =~= rest);
                assert(chunks[0] == c);
                assert(concat(chunks) == c + concat(rest));
                assert(concat(chunks) =~= filled + concat(reads));
                assert forall|i: int| 0 <= i < chunks.len() - 1 implies (#[trigger] chunks[i]).len()
                    == size by {
                    if i > 0 {
                        assert(chunks[i] == rest[i - 1]);
                    }
                }
                assert(chunks.last() == rest.last());
            },
            None => {
                assert(chunks == rest);
                assert(concat(chunks) =~= filled + concat(reads));
            },
        }
    }
}

/// The buffer that the reading side fills: at most one chunk under
/// construction, handed on as soon as it is full or the stream has ended.
pub struct Chunker {
    chunk_size: usize,
    buf: Vec<u8>,
    finished: bool,
}

impl Chunker {
    /// The size of a full chunk.
    pub closed spec fn size(&self) -> nat {
        self.chunk_size as nat
    }

    /// The bytes read into the chunk under construction.
    pub closed spec fn filled(&self) -> Seq<u8> {
        self.buf@
    }

    /// The end of the stream was seen.
    pub closed spec fn finished(&self) -> bool {
        self.finished
    }

    /// The chunk under construction is never full: a full one was handed on.
    pub open spec fn wf(&self) -> bool {
        self.filled().len() < self.size()
    }

    pub fn new(chunk_size: usize) -> (c: Chunker)
        requires
            chunk_size > 0,
        ensures
            c.wf(),
            c.size() == chunk_size,
            c.filled() == Seq::<u8>::empty(),
            !c.finished(),
    {
        Chunker { chunk_size, buf: Vec::new(), finished: false }
    }

    /// How many bytes the next read may bring at most.
    pub fn free(&self) -> (n: usize)
        requires
            self.wf(),
        ensures
            n == self.size() - self.filled().len(),
            n > 0,
    {
        self.chunk_size - self.buf.len()
    }

    pub fn is_finished(&self) -> (b: bool)
        ensures
            b == self.finished(),
    {
        self.finished
    }

    /// Takes the bytes of one read; an empty read is the end of the stream.
    /// Returns the chunk to hand on, if this read completed one.
    pub fn accept(&mut self, data: &[u8]) -> (chunk: Option<Vec<u8>>)
        requires
            old(self).wf(),
            !old(self).finished(),
            old(self).filled().len() + data@.len() <= old(self).size(),
        ensures
            final(self).wf(),
            final(self).size() == old(self).size(),
            final(self).filled() == kept(old(self).filled(), data@, old(self).size()),
            final(self).finished() == (data@.len() == 0),
            chunk.is_some() == emitted(old(self).filled(), data@, old(self).size()).is_some(),
            chunk matches Some(c) ==> Some(c@) == emitted(
                old(self).filled(),
                data@,
                old(self).size(),
            ),
    {
        let ghost before = self.buf@;
        let n = data.len();
        let mut i: usize = 0;
        while i < n
            invariant
                i <= n,
                n == data@.len(),
                self.buf@ == before + data@.subrange(0, i as int),
                self.chunk_size == old(self).chunk_size,
                self.finished == old(self).finished,
            decreases n - i,
        {
            self.buf.push(data[i]);
            assert(self.buf@ =~= before + data@.subrange(0, i + 1));
            i += 1;
        }
        assert(data@.subrange(0, n as int) =~= data@);
        if n == 0 || self.buf.len() == self.chunk_size {
            let mut full: Vec<u8> = Vec::new();
            core::mem::swap(&mut self.buf, &mut full);
            self.finished = n == 0;
            Some(full)
        } else {
            None
        }
    }
}

} // verus!
