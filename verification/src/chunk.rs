//! The assembly buffer of one chunked upload.

use vstd::prelude::*;
use crate::error::ManagerError;
use crate::error::ErrorView;

verus! {

/// Mathematical value of a `ChunkProcessor`: the name the upload was begun
/// with and the bytes assembled so far.
pub struct ChunkView {
    pub filename: Seq<char>,
    pub data: Seq<u8>,
}

/// A buffer of `n` zero bytes.
pub open spec fn zeros(n: nat) -> Seq<u8> {
    Seq::new(n, |i: int| 0u8)
}

/// `buffer` with `chunk` copied over the bytes from `offset` on.
pub open spec fn overwrite(buffer: Seq<u8>, offset: int, chunk: Seq<u8>) -> Seq<u8> {
    Seq::new(
        buffer.len(),
        |i: int| if offset <= i < offset + chunk.len() { chunk[i - offset] } else { buffer[i] },
    )
}

/// Whether `chunk`, copied to `offset`, stays inside `buffer`.
pub open spec fn fits(buffer: Seq<u8>, offset: int, chunk: Seq<u8>) -> bool {
    0 <= offset && offset + chunk.len() <= buffer.len()
}

/// One write of a chunked upload: the bytes and where they go.
pub struct ChunkWrite {
    pub offset: int,
    pub data: Seq<u8>,
}

/// Whether each write of `writes` stays inside a buffer of `size` bytes.
pub open spec fn all_fit(size: nat, writes: Seq<ChunkWrite>) -> bool {
    forall|k: int|
        0 <= k < writes.len() ==> 0 <= (#[trigger] writes[k]).offset && writes[k].offset
            + writes[k].data.len() <= size
}

/// `buffer` after the writes of `writes` in order; a write that does not fit
/// changes nothing.
pub open spec fn assemble(buffer: Seq<u8>, writes: Seq<ChunkWrite>) -> Seq<u8>
    decreases writes.len(),
{
    if writes.len() == 0 {
        buffer
    } else {
        let before = assemble(buffer, writes.drop_last());
        let write = writes.last();
        if fits(before, write.offset, write.data) {
            overwrite(before, write.offset, write.data)
        } else {
            before
        }
    }
}

/// The last write of `writes` that covers position `at`, if any does.
pub open spec fn last_cover(writes: Seq<ChunkWrite>, at: int) -> Option<int>
    decreases writes.len(),
{
    if writes.len() == 0 {
        None
    } else if writes.last().offset <= at < writes.last().offset + writes.last().data.len() {
        Some(writes.len() - 1)
    } else {
        last_cover(writes.drop_last(), at)
    }
}

/// The byte at `at` after the writes of `writes`: that of the last write
/// covering `at`, or, where none does, the byte that was there.
pub open spec fn assembled_byte(buffer: Seq<u8>, writes: Seq<ChunkWrite>, at: int) -> u8 {
    match last_cover(writes, at) {
        Some(k) => writes[k].data[at - writes[k].offset],
        None => buffer[at],
    }
}

/// The last write covering a position is one of the writes and covers it.
pub proof fn lemma_last_cover(writes: Seq<ChunkWrite>, at: int)
    ensures
        last_cover(writes, at) matches Some(k) ==> 0 <= k < writes.len() && writes[k].offset <= at
            < writes[k].offset + writes[k].data.len(),
    decreases writes.len(),
{
    if writes.len() > 0 {
        lemma_last_cover(writes.drop_last(), at);
    }
}

/// Writes that all fit leave the length of the buffer as it was, and leave at
/// each position the byte of the last write that covers it: later writes
/// override earlier ones, and a position that no write covers keeps its byte.
pub proof fn law_last_write_wins(buffer: Seq<u8>, writes: Seq<ChunkWrite>)
    requires
        all_fit(buffer.len(), writes),
    ensures
        assemble(buffer, writes).len() == buffer.len(),
        forall|at: int|
            0 <= at < buffer.len() ==> #[trigger] assemble(buffer, writes)[at] == assembled_byte(
                buffer,
                writes,
                at,
            ),
    decreases writes.len(),
{
    if writes.len() > 0 {
        let earlier = writes.drop_last();
        assert(all_fit(buffer.len(), earlier)) by {
            assert forall|k: int| 0 <= k < earlier.len() implies 0 <= (#[trigger] earlier[k]).offset
                && earlier[k].offset + earlier[k].data.len() <= buffer.len() by {
                assert(earlier[k] == writes[k]);
            }
        }
        law_last_write_wins(buffer, earlier);
        let write = writes.last();
        assert(fits(buffer, write.offset, write.data));
        assert forall|at: int| 0 <= at < buffer.len() implies #[trigger] assemble(
            buffer,
            writes,
        )[at] == assembled_byte(buffer, writes, at) by {
            if !(write.offset <= at < write.offset + write.data.len()) {
                lemma_last_cover(earlier, at);
                assert(assemble(buffer, earlier)[at] == assembled_byte(buffer, earlier, at));
                match last_cover(earlier, at) {
                    Some(k) => {
                        assert(earlier[k] == writes[k]);
                    },
                    None => {},
                }
            }
        }
    }
}

/// Writes that fit and together cover every position of the buffer leave
/// nothing of what the buffer held: the result is made of the chunks alone.
pub proof fn law_full_cover_hides_buffer(first: Seq<u8>, second: Seq<u8>, writes: Seq<ChunkWrite>)
    requires
        first.len() == second.len(),
        all_fit(first.len(), writes),
        forall|at: int| 0 <= at < first.len() ==> #[trigger] last_cover(writes, at) is Some,
    ensures
        assemble(first, writes) == assemble(second, writes),
{
    law_last_write_wins(first, writes);
    law_last_write_wins(second, writes);
    assert forall|at: int| 0 <= at < first.len() implies assemble(first, writes)[at] == assemble(
        second,
        writes,
    )[at] by {
        assert(last_cover(writes, at) is Some);
    }
    assert(assemble(first, writes) =~= assemble(second, writes));
}

/// The chunks of `writes` one after the other.
pub open spec fn concatenation(writes: Seq<ChunkWrite>) -> Seq<u8>
    decreases writes.len(),
{
    if writes.len() == 0 {
        Seq::empty()
    } else {
        concatenation(writes.drop_last()) + writes.last().data
    }
}

/// Whether each write of `writes` begins where the one before it ended, the
/// first at position 0.
pub open spec fn consecutive(writes: Seq<ChunkWrite>) -> bool {
    forall|k: int|
        0 <= k < writes.len() ==> (#[trigger] writes[k]).offset == concatenation(
            writes.take(k),
        ).len()
}

/// Consecutive chunks lie at the front of the buffer one after the other, and
/// what is behind them stays.
proof fn lemma_consecutive(buffer: Seq<u8>, writes: Seq<ChunkWrite>)
    requires
        consecutive(writes),
        concatenation(writes).len() <= buffer.len(),
    ensures
        assemble(buffer, writes) == concatenation(writes) + buffer.subrange(
            concatenation(writes).len() as int,
            buffer.len() as int,
        ),
    decreases writes.len(),
{
    if writes.len() == 0 {
        assert(assemble(buffer, writes) =~= concatenation(writes) + buffer.subrange(
            0,
            buffer.len() as int,
        ));
    } else {
        let earlier = writes.drop_last();
        let write = writes.last();
        assert(writes.take(writes.len() - 1) =~= earlier);
        assert(consecutive(earlier)) by {
            assert forall|k: int| 0 <= k < earlier.len() implies (#[trigger] earlier[k]).offset
                == concatenation(earlier.take(k)).len() by {
                assert(earlier[k] == writes[k]);
                assert(earlier.take(k) =~= writes.take(k));
            }
        }
        lemma_consecutive(buffer, earlier);
        assert(write == writes[writes.len() - 1]);
        assert(write.offset == concatenation(earlier).len());
        assert(assemble(buffer, writes) =~= concatenation(writes) + buffer.subrange(
            concatenation(writes).len() as int,
            buffer.len() as int,
        ));
    }
}

/// Chunks written one after the other that together fill the buffer leave in
/// it their concatenation, byte for byte.
pub proof fn law_consecutive_chunks_concatenate(buffer: Seq<u8>, writes: Seq<ChunkWrite>)
    requires
        consecutive(writes),
        concatenation(writes).len() == buffer.len(),
    ensures
        assemble(buffer, writes) == concatenation(writes),
{
    lemma_consecutive(buffer, writes);
    assert(assemble(buffer, writes) =~= concatenation(writes));
}

/// A fixed-size byte region that accepts bounds-checked writes in any order.
#[derive(Debug)]
pub struct ChunkProcessor {
    pub data: Vec<u8>,
    pub filename: String,
}

impl View for ChunkProcessor {
    type V = ChunkView;

    open spec fn view(&self) -> ChunkView {
        ChunkView { filename: self.filename@, data: self.data@ }
    }
}

impl ChunkProcessor {
    /// A buffer of `size` zero bytes for an upload named `filename`.
    pub fn new(size: usize, filename: &str) -> (processor: Self)
        ensures
            processor@ == (ChunkView { filename: filename@, data: zeros(size as nat) }),
    {
        let processor = ChunkProcessor { data: vec![0u8; size], filename: filename.to_owned() };
        assert(processor.data@ =~= zeros(size as nat));
        processor
    }

    /// Copies `data` into the buffer at `start`. A chunk that would reach past
    /// the end of the buffer is refused and the buffer is left as it was.
    pub fn chunk(&mut self, data: &[u8], start: usize) -> (result: Result<(), ManagerError>)
        ensures
            !fits(old(self)@.data, start as int, data@) ==> {
                &&& result matches Err(e)
                &&& e@ == ErrorView::ChunkOutOfBounds
                &&& final(self)@ == old(self)@
            },
            fits(old(self)@.data, start as int, data@) ==> {
                &&& result is Ok
                &&& final(self)@.filename == old(self)@.filename
                &&& final(self)@.data == overwrite(old(self)@.data, start as int, data@)
            },
    {
        let size = self.data.len();
        let len = data.len();
        if len > size || start > size - len {
            return Err(ManagerError::ChunkOutOfBounds);
        }
        let mut i: usize = 0;
        while i < len
            invariant
                len == data@.len(),
                size == old(self).data@.len(),
                self.data@.len() == size,
                start + len <= size,
                i <= len,
                self.filename == old(self).filename,
                forall|j: int|
                    0 <= j < size ==> self.data@[j] == if start <= j < start + i {
                        data@[j - start]
                    } else {
                        old(self).data@[j]
                    },
            decreases len - i,
        {
            self.data.set(start + i, data[i]);
            i = i + 1;
        }
        assert(self.data@ =~= overwrite(old(self)@.data, start as int, data@));
        Ok(())
    }
}

} // verus!
