//! The upload sessions as a mathematical map, and what each operation of the
//! registry does to it.

use vstd::prelude::*;
use crate::chunk::all_fit;
use crate::chunk::assemble;
use crate::chunk::assembled_byte;
use crate::chunk::law_last_write_wins;
use crate::chunk::fits;
use crate::chunk::overwrite;
use crate::chunk::zeros;
use crate::chunk::ChunkView;
use crate::chunk::ChunkWrite;
use crate::error::ErrorView;
use crate::error::SIZE_LIMIT;

verus! {

/// The sessions in progress: for each session id the name and the buffer.
pub type Sessions = Map<Seq<char>, ChunkView>;

/// Beginning a session of `size` bytes named `filename` under `id`: a size
/// above `SIZE_LIMIT` is refused; otherwise `id` names a zero-filled buffer of
/// that size, whatever it named before.
pub open spec fn begun(sessions: Sessions, id: Seq<char>, filename: Seq<char>, size: nat) -> (
    Sessions,
    Result<Seq<char>, ErrorView>,
) {
    if size > SIZE_LIMIT {
        (sessions, Err(ErrorView::FileTooLarge))
    } else {
        (sessions.insert(id, ChunkView { filename, data: zeros(size) }), Ok(id))
    }
}

/// Writing `data` at `start` into session `id`: an unknown session and a
/// chunk that does not fit are refused and change nothing; otherwise the
/// chunk lies over the bytes from `start` on.
pub open spec fn written(sessions: Sessions, id: Seq<char>, data: Seq<u8>, start: int) -> (
    Sessions,
    Result<(), ErrorView>,
) {
    if !sessions.contains_key(id) {
        (sessions, Err(ErrorView::InvalidUploadId))
    } else if !fits(sessions[id].data, start, data) {
        (sessions, Err(ErrorView::ChunkOutOfBounds))
    } else {
        (
            sessions.insert(
                id,
                ChunkView {
                    filename: sessions[id].filename,
                    data: overwrite(sessions[id].data, start, data),
                },
            ),
            Ok(()),
        )
    }
}

/// Ending session `id`: an unknown session is refused; otherwise the session
/// is gone and its name and buffer are handed over.
pub open spec fn taken(sessions: Sessions, id: Seq<char>) -> (
    Sessions,
    Result<ChunkView, ErrorView>,
) {
    if sessions.contains_key(id) {
        (sessions.remove(id), Ok(sessions[id]))
    } else {
        (sessions, Err(ErrorView::InvalidUploadId))
    }
}

/// Discarding session `id`: the session is gone, if there was one.
pub open spec fn discarded(sessions: Sessions, id: Seq<char>) -> Sessions {
    sessions.remove(id)
}

/// The sessions after the writes of `writes` into session `id`, in order.
pub open spec fn written_all(sessions: Sessions, id: Seq<char>, writes: Seq<ChunkWrite>) -> Sessions
    decreases writes.len(),
{
    if writes.len() == 0 {
        sessions
    } else {
        written(
            written_all(sessions, id, writes.drop_last()),
            id,
            writes.last().data,
            writes.last().offset,
        ).0
    }
}

/// A chunk that reaches past the declared size of its session is refused
/// with `ChunkOutOfBounds`, whatever the session, the offset and the length,
/// and no session changes.
pub proof fn law_chunk_out_of_bounds(sessions: Sessions, id: Seq<char>, data: Seq<u8>, start: nat)
    requires
        sessions.contains_key(id),
        start + data.len() > sessions[id].data.len(),
    ensures
        written(sessions, id, data, start as int) == (
            sessions,
            Err::<(), ErrorView>(ErrorView::ChunkOutOfBounds),
        ),
{
}

/// After a discard the session is unknown: a write into it and its end are
/// refused with `InvalidUploadId`. Discarding a session that is not there
/// changes nothing, so a second discard does nothing.
pub proof fn law_discard_ends_session(sessions: Sessions, id: Seq<char>, data: Seq<u8>, start: int)
    ensures
        written(discarded(sessions, id), id, data, start) == (
            discarded(sessions, id),
            Err::<(), ErrorView>(ErrorView::InvalidUploadId),
        ),
        taken(discarded(sessions, id), id) == (
            discarded(sessions, id),
            Err::<ChunkView, ErrorView>(ErrorView::InvalidUploadId),
        ),
        !sessions.contains_key(id) ==> discarded(sessions, id) == sessions,
        discarded(discarded(sessions, id), id) == discarded(sessions, id),
{
    assert(!sessions.contains_key(id) ==> discarded(sessions, id) =~= sessions);
    assert(discarded(discarded(sessions, id), id) =~= discarded(sessions, id));
}

/// After its end the session is unknown: a second end and a write are
/// refused with `InvalidUploadId`.
pub proof fn law_finish_ends_session(sessions: Sessions, id: Seq<char>, data: Seq<u8>, start: int)
    ensures
        taken(taken(sessions, id).0, id).1 == Err::<ChunkView, ErrorView>(
            ErrorView::InvalidUploadId,
        ),
        written(taken(sessions, id).0, id, data, start).1 == Err::<(), ErrorView>(
            ErrorView::InvalidUploadId,
        ),
{
}

/// Writes into one session touch no other session, and leave in that session
/// the name it had and the buffer that `assemble` describes.
pub proof fn lemma_written_all(sessions: Sessions, id: Seq<char>, writes: Seq<ChunkWrite>)
    requires
        sessions.contains_key(id),
    ensures
        written_all(sessions, id, writes) == sessions.insert(
            id,
            ChunkView {
                filename: sessions[id].filename,
                data: assemble(sessions[id].data, writes),
            },
        ),
    decreases writes.len(),
{
    let target = sessions.insert(
        id,
        ChunkView { filename: sessions[id].filename, data: assemble(sessions[id].data, writes) },
    );
    if writes.len() == 0 {
        assert(sessions =~= target);
    } else {
        lemma_written_all(sessions, id, writes.drop_last());
        assert(written_all(sessions, id, writes) =~= target);
    }
}

/// Chunks that fit, written in any order into a session of `size` bytes, and
/// then the end of the session: what is handed over has the session's name
/// and `size` bytes, each the byte of the last chunk that covers its
/// position. Where the chunks cover every position, nothing of the initial
/// zero fill is left.
pub proof fn law_chunks_then_finish(
    sessions: Sessions,
    id: Seq<char>,
    filename: Seq<char>,
    size: nat,
    writes: Seq<ChunkWrite>,
)
    requires
        size <= SIZE_LIMIT,
        all_fit(size, writes),
    ensures
        ({
            let started = begun(sessions, id, filename, size).0;
            let (ended, handed) = taken(written_all(started, id, writes), id);
            &&& ended == sessions.remove(id)
            &&& handed matches Ok(chunk)
            &&& chunk.filename == filename
            &&& chunk.data.len() == size
            &&& forall|at: int|
                0 <= at < size ==> #[trigger] chunk.data[at] == assembled_byte(
                    zeros(size),
                    writes,
                    at,
                )
        }),
{
    let started = begun(sessions, id, filename, size).0;
    lemma_written_all(started, id, writes);
    law_last_write_wins(zeros(size), writes);
    assert(taken(written_all(started, id, writes), id).0 =~= sessions.remove(id));
}

} // verus!
