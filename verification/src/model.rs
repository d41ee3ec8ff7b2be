//! A model of the two collaborators, and what the operations come to when
//! the collaborators answer faithfully.
//!
//! `World` is the content store and the metadata index as mathematical values.
//! `World::answer` says what a faithful collaborator does on a request and what
//! it replies. Running an operation against a world means feeding each of its
//! requests to `answer` and each reply back to the operation, until it ends.

use vstd::prelude::*;
use crate::chunk::all_fit;
use crate::chunk::assembled_byte;
use crate::chunk::zeros;
use crate::chunk::ChunkWrite;
use crate::deletion::deletion_start;
use crate::deletion::deletion_step;
use crate::deletion::DeletionStage;
use crate::deletion::DeletionStepView;
use crate::error::ErrorView;
use crate::ident::candidate_id;
use crate::ident::crc32;
use crate::listing::listing_start;
use crate::listing::listing_step;
use crate::listing::page_offset;
use crate::listing::Listing;
use crate::listing::ListingStepView;
use crate::protocol::FileView;
use crate::protocol::RecordView;
use crate::protocol::ReplyView;
use crate::protocol::RequestView;
use crate::protocol::PAGE_SIZE;
use crate::error::SIZE_LIMIT;
use crate::sessions::begun;
use crate::sessions::law_chunks_then_finish;
use crate::sessions::taken;
use crate::sessions::written_all;
use crate::sessions::Sessions;
use crate::upload::upload_start;
use crate::upload::upload_step;
use crate::upload::UploadStage;
use crate::upload::UploadStepView;
use crate::upload::UploadView;
use crate::upload::MAX_ATTEMPTS;

verus! {

/// The metadata index, in insertion order, and the content store.
pub struct World {
    pub index: Seq<RecordView>,
    pub store: Map<Seq<char>, Seq<u8>>,
}

/// A record as a listing shows it.
pub open spec fn listed(record: RecordView) -> FileView {
    FileView { id: record.id, filename: record.filename, bytes: record.bytes }
}

/// Whether a record of `index` has the id `id`.
pub open spec fn knows_id(index: Seq<RecordView>, id: Seq<char>) -> bool {
    exists|i: int| 0 <= i < index.len() && #[trigger] index[i].id == id
}

/// The id of the earliest record of `index` with the given length and
/// checksum.
pub open spec fn find_by_content(index: Seq<RecordView>, bytes: i64, crc: u32) -> Option<
    Seq<char>,
>
    decreases index.len(),
{
    if index.len() == 0 {
        None
    } else {
        match find_by_content(index.drop_last(), bytes, crc) {
            Some(id) => Some(id),
            None => if index.last().bytes == bytes && index.last().crc == crc {
                Some(index.last().id)
            } else {
                None
            },
        }
    }
}

/// The records of `index` whose id is not `id`, in their order.
pub open spec fn without_id(index: Seq<RecordView>, id: Seq<char>) -> Seq<RecordView>
    decreases index.len(),
{
    if index.len() == 0 {
        index
    } else if index.last().id == id {
        without_id(index.drop_last(), id)
    } else {
        without_id(index.drop_last(), id).push(index.last())
    }
}

/// The records of `index` from `offset` on, `limit` at most, as a listing
/// shows them.
pub open spec fn page_of(index: Seq<RecordView>, limit: int, offset: int) -> Seq<FileView> {
    let rest = index.len() - offset;
    let count = if rest <= 0 {
        0
    } else if rest < limit {
        rest
    } else {
        limit
    };
    Seq::new(count as nat, |i: int| listed(index[offset + i]))
}

impl World {
    /// What a faithful index and store do on `request`: the world afterwards
    /// and the reply.
    pub open spec fn answer(self, request: RequestView) -> (World, ReplyView) {
        match request {
            RequestView::IndexCount => (self, ReplyView::Count(self.index.len() as i64)),
            RequestView::IndexList { limit, offset } => (
                self,
                ReplyView::Files(page_of(self.index, limit as int, offset as int)),
            ),
            RequestView::IndexFindByContent { bytes, crc } => (
                self,
                ReplyView::Match(find_by_content(self.index, bytes, crc)),
            ),
            RequestView::IndexFindById(id) => (self, ReplyView::Flag(knows_id(self.index, id))),
            RequestView::IndexInsert(record) => (
                World { index: self.index.push(record), ..self },
                ReplyView::Done,
            ),
            RequestView::IndexDeleteById(id) => (
                World { index: without_id(self.index, id), ..self },
                ReplyView::Done,
            ),
            RequestView::StoreExists(id) => (self, ReplyView::Flag(self.store.contains_key(id))),
            RequestView::StoreWrite { id, data } => (
                World { store: self.store.insert(id, data), ..self },
                ReplyView::Done,
            ),
            RequestView::StoreDelete(id) => (
                World { store: self.store.remove(id), ..self },
                ReplyView::Done,
            ),
        }
    }
}

/// A bound on the number of requests that a commit has yet to make.
pub open spec fn upload_rank(step: UploadStepView) -> nat {
    match step {
        UploadStepView::Done(_) => 0,
        UploadStepView::Ask(state, _) => match state.stage {
            UploadStage::ProbeId => if state.attempt < MAX_ATTEMPTS {
                (10 - state.attempt) as nat
            } else {
                5
            },
            UploadStage::ProbePath => 4,
            UploadStage::ProbeContent => 3,
            UploadStage::Store => 2,
            UploadStage::Record => 1,
        },
    }
}

/// Runs a commit from `step` against `world` to its end. The token for the
/// candidate after `k` tried ones is `tokens(k)`.
pub open spec fn run_upload(
    world: World,
    step: UploadStepView,
    tokens: spec_fn(int) -> Seq<char>,
) -> (World, Result<Seq<char>, ErrorView>)
    decreases upload_rank(step),
{
    match step {
        UploadStepView::Done(outcome) => (world, outcome),
        UploadStepView::Ask(state, request) => {
            let (next, reply) = world.answer(request);
            run_upload(next, upload_step(state, reply, tokens(state.attempt as int)), tokens)
        },
    }
}

/// The whole commit of `data` under `filename` against `world`.
pub open spec fn commit(
    world: World,
    filename: Seq<char>,
    extension: Option<Seq<char>>,
    data: Seq<u8>,
    tokens: spec_fn(int) -> Seq<char>,
) -> (World, Result<Seq<char>, ErrorView>) {
    run_upload(world, upload_start(filename, extension, data, tokens(0), crc32(data)), tokens)
}

/// The first of the candidates `from`, `from + 1`, .. (the fifth is the last)
/// whose id the index does not know.
pub open spec fn free_candidate(
    index: Seq<RecordView>,
    extension: Option<Seq<char>>,
    tokens: spec_fn(int) -> Seq<char>,
    from: int,
) -> Option<int>
    decreases MAX_ATTEMPTS - from,
{
    if from < 0 || from >= MAX_ATTEMPTS {
        None
    } else if !knows_id(index, candidate_id(tokens(from), extension)) {
        Some(from)
    } else {
        free_candidate(index, extension, tokens, from + 1)
    }
}

/// What a commit comes to once the candidates before `from` were found in
/// use: the world afterwards and the outcome.
///
/// With no free candidate, or with an entry in the store under the free
/// candidate, it fails and changes nothing. With a record of the same length
/// and checksum it reports that record's id and changes nothing. Otherwise
/// the bytes are stored and recorded under the free candidate.
pub open spec fn commit_outcome_from(
    world: World,
    filename: Seq<char>,
    extension: Option<Seq<char>>,
    data: Seq<u8>,
    bytes: i64,
    crc: u32,
    tokens: spec_fn(int) -> Seq<char>,
    from: int,
) -> (World, Result<Seq<char>, ErrorView>) {
    match free_candidate(world.index, extension, tokens, from) {
        None => (world, Err(ErrorView::UnableToGenerateId)),
        Some(k) => {
            let id = candidate_id(tokens(k), extension);
            if world.store.contains_key(id) {
                (world, Err(ErrorView::UnableToGenerateId))
            } else {
                match find_by_content(world.index, bytes, crc) {
                    Some(existing) => (world, Err(ErrorView::FileExists(existing))),
                    None => (
                        World {
                            index: world.index.push(RecordView { id, filename, bytes, crc }),
                            store: world.store.insert(id, data),
                        },
                        Ok(id),
                    ),
                }
            }
        },
    }
}

/// What a commit of `data` under `filename` comes to.
pub open spec fn commit_outcome(
    world: World,
    filename: Seq<char>,
    extension: Option<Seq<char>>,
    data: Seq<u8>,
    tokens: spec_fn(int) -> Seq<char>,
) -> (World, Result<Seq<char>, ErrorView>) {
    commit_outcome_from(
        world,
        filename,
        extension,
        data,
        data.len() as i64,
        crc32(data),
        tokens,
        0,
    )
}

/// A commit that waits for the answer on its candidate comes to
/// `commit_outcome_from`.
proof fn lemma_run_from_probe(world: World, state: UploadView, tokens: spec_fn(int) -> Seq<char>)
    requires
        state.stage == UploadStage::ProbeId,
        1 <= state.attempt <= MAX_ATTEMPTS,
        state.id == candidate_id(tokens(state.attempt - 1), state.extension),
    ensures
        run_upload(
            world,
            UploadStepView::Ask(state, RequestView::IndexFindById(state.id)),
            tokens,
        ) == commit_outcome_from(
            world,
            state.filename,
            state.extension,
            state.data,
            state.bytes,
            state.crc,
            tokens,
            state.attempt - 1,
        ),
    decreases MAX_ATTEMPTS - state.attempt,
{
    let asked = UploadStepView::Ask(state, RequestView::IndexFindById(state.id));
    let reply = ReplyView::Flag(knows_id(world.index, state.id));
    let next = upload_step(state, reply, tokens(state.attempt as int));
    assert(run_upload(world, asked, tokens) == run_upload(world, next, tokens));
    if knows_id(world.index, state.id) {
        if state.attempt < MAX_ATTEMPTS {
            let id = candidate_id(tokens(state.attempt as int), state.extension);
            let retry = UploadView { attempt: (state.attempt + 1) as u8, id, ..state };
            assert(next == UploadStepView::Ask(retry, RequestView::IndexFindById(id)));
            lemma_run_from_probe(world, retry, tokens);
        } else {
            assert(free_candidate(world.index, state.extension, tokens, state.attempt as int)
                is None);
        }
    } else {
        let id = state.id;
        let at_path = UploadView { stage: UploadStage::ProbePath, ..state };
        assert(next == UploadStepView::Ask(at_path, RequestView::StoreExists(id)));
        let path_reply = ReplyView::Flag(world.store.contains_key(id));
        let after_path = upload_step(at_path, path_reply, tokens(state.attempt as int));
        assert(run_upload(world, next, tokens) == run_upload(world, after_path, tokens));
        if !world.store.contains_key(id) {
            let at_content = UploadView { stage: UploadStage::ProbeContent, ..state };
            let found = find_by_content(world.index, state.bytes, state.crc);
            let after_content = upload_step(
                at_content,
                ReplyView::Match(found),
                tokens(state.attempt as int),
            );
            assert(run_upload(world, after_path, tokens) == run_upload(
                world,
                after_content,
                tokens,
            ));
            if found is None {
                let at_store = UploadView {
                    stage: UploadStage::Store,
                    data: Seq::empty(),
                    ..state
                };
                let stored = World { store: world.store.insert(id, state.data), ..world };
                let after_store = upload_step(
                    at_store,
                    ReplyView::Done,
                    tokens(state.attempt as int),
                );
                assert(run_upload(world, after_content, tokens) == run_upload(
                    stored,
                    after_store,
                    tokens,
                ));
                let at_record = UploadView { stage: UploadStage::Record, ..at_store };
                let record = RecordView {
                    id,
                    filename: state.filename,
                    bytes: state.bytes,
                    crc: state.crc,
                };
                let recorded = World { index: world.index.push(record), ..stored };
                let after_record = upload_step(
                    at_record,
                    ReplyView::Done,
                    tokens(state.attempt as int),
                );
                assert(run_upload(stored, after_store, tokens) == run_upload(
                    recorded,
                    after_record,
                    tokens,
                ));
            }
        }
    }
}

/// Against faithful collaborators a commit comes to `commit_outcome`.
pub proof fn lemma_commit(
    world: World,
    filename: Seq<char>,
    extension: Option<Seq<char>>,
    data: Seq<u8>,
    tokens: spec_fn(int) -> Seq<char>,
)
    ensures
        commit(world, filename, extension, data, tokens) == commit_outcome(
            world,
            filename,
            extension,
            data,
            tokens,
        ),
{
    let id = candidate_id(tokens(0), extension);
    let state = UploadView {
        stage: UploadStage::ProbeId,
        attempt: 1,
        id,
        extension,
        filename,
        data,
        bytes: data.len() as i64,
        crc: crc32(data),
    };
    lemma_run_from_probe(world, state, tokens);
}

/// The id that the outcome of a commit carries: that of the new file, or
/// that of the file whose content was found stored.
pub open spec fn carried_id(outcome: Result<Seq<char>, ErrorView>) -> Option<Seq<char>> {
    match outcome {
        Ok(id) => Some(id),
        Err(ErrorView::FileExists(id)) => Some(id),
        _ => None,
    }
}

/// Whether a commit against `world` gets as far as looking for its content:
/// one of its candidates is unknown to the index, and the store holds
/// nothing under the first such candidate.
pub open spec fn reaches_content_check(
    world: World,
    extension: Option<Seq<char>>,
    tokens: spec_fn(int) -> Seq<char>,
) -> bool {
    free_candidate(world.index, extension, tokens, 0) matches Some(k) && !world.store.contains_key(
        candidate_id(tokens(k), extension),
    )
}

/// A free candidate is one of the five, and the index does not know it.
pub proof fn lemma_free_candidate(
    index: Seq<RecordView>,
    extension: Option<Seq<char>>,
    tokens: spec_fn(int) -> Seq<char>,
    from: int,
)
    ensures
        free_candidate(index, extension, tokens, from) matches Some(k) ==> from <= k < MAX_ATTEMPTS
            && !knows_id(index, candidate_id(tokens(k), extension)),
    decreases MAX_ATTEMPTS - from,
{
    if 0 <= from < MAX_ATTEMPTS && knows_id(index, candidate_id(tokens(from), extension)) {
        lemma_free_candidate(index, extension, tokens, from + 1);
    }
}

/// Same content, same id: once a commit of `data` has ended with an id (a
/// new one, or that of content already stored), any later commit of the same
/// bytes that gets as far as looking for its content reports that id as
/// already existing, under whatever name it is made, and leaves the store
/// and the index as they were.
pub proof fn law_same_content_same_id(
    world: World,
    first_name: Seq<char>,
    first_extension: Option<Seq<char>>,
    first_tokens: spec_fn(int) -> Seq<char>,
    second_name: Seq<char>,
    second_extension: Option<Seq<char>>,
    second_tokens: spec_fn(int) -> Seq<char>,
    data: Seq<u8>,
)
    requires
        carried_id(commit(world, first_name, first_extension, data, first_tokens).1) is Some,
        reaches_content_check(
            commit(world, first_name, first_extension, data, first_tokens).0,
            second_extension,
            second_tokens,
        ),
    ensures
        ({
            let (after_first, first) = commit(
                world,
                first_name,
                first_extension,
                data,
                first_tokens,
            );
            let (after_second, second) = commit(
                after_first,
                second_name,
                second_extension,
                data,
                second_tokens,
            );
            &&& second == Err::<Seq<char>, ErrorView>(ErrorView::FileExists(carried_id(first)->0))
            &&& after_second == after_first
        }),
{
    lemma_commit(world, first_name, first_extension, data, first_tokens);
    let (after_first, first) = commit(world, first_name, first_extension, data, first_tokens);
    lemma_commit(after_first, second_name, second_extension, data, second_tokens);
    let bytes = data.len() as i64;
    let crc = crc32(data);
    if first is Ok {
        assert(after_first.index.drop_last() =~= world.index);
    }
    assert(find_by_content(after_first.index, bytes, crc) == Some(carried_id(first)->0));
}

/// New content gets a fresh id. Whenever a commit ends with a new id, the
/// index did not know that id and the store held nothing under it; afterwards
/// the store holds exactly the committed bytes under it and the index ends
/// with its record. And a commit does end so whenever it gets as far as
/// looking for its content and the index has no record of that length and
/// checksum.
pub proof fn law_new_content_gets_fresh_id(
    world: World,
    filename: Seq<char>,
    extension: Option<Seq<char>>,
    data: Seq<u8>,
    tokens: spec_fn(int) -> Seq<char>,
)
    ensures
        ({
            let (after, outcome) = commit(world, filename, extension, data, tokens);
            &&& outcome matches Ok(id) ==> {
                &&& !knows_id(world.index, id)
                &&& !world.store.contains_key(id)
                &&& after.store == world.store.insert(id, data)
                &&& after.index == world.index.push(
                    RecordView { id, filename, bytes: data.len() as i64, crc: crc32(data) },
                )
                &&& knows_id(after.index, id)
            }
            &&& outcome is Ok <==> reaches_content_check(world, extension, tokens)
                && find_by_content(world.index, data.len() as i64, crc32(data)) is None
            &&& outcome is Err ==> after == world
        }),
{
    lemma_commit(world, filename, extension, data, tokens);
    lemma_free_candidate(world.index, extension, tokens, 0);
    let (after, outcome) = commit(world, filename, extension, data, tokens);
    if outcome is Ok {
        assert(after.index[world.index.len() as int].id == outcome->Ok_0);
    }
}

/// A bound on the number of requests that a deletion has yet to make.
pub open spec fn deletion_rank(step: DeletionStepView) -> nat {
    match step {
        DeletionStepView::Done(_) => 0,
        DeletionStepView::Ask(state, _) => match state.stage {
            DeletionStage::ProbeStore => 3,
            DeletionStage::Remove => 2,
            DeletionStage::Forget => 1,
        },
    }
}

/// Runs a deletion from `step` against `world` to its end.
pub open spec fn run_deletion(world: World, step: DeletionStepView) -> (
    World,
    Result<(), ErrorView>,
)
    decreases deletion_rank(step),
{
    match step {
        DeletionStepView::Done(outcome) => (world, outcome),
        DeletionStepView::Ask(state, request) => {
            let (next, reply) = world.answer(request);
            run_deletion(next, deletion_step(state, reply))
        },
    }
}

/// The whole deletion of the file `id` against `world`.
pub open spec fn delete(world: World, id: Seq<char>) -> (World, Result<(), ErrorView>) {
    run_deletion(world, deletion_start(id))
}

/// What a deletion comes to: where the store has an entry under `id`, the
/// entry and every record with that id are gone; where it has none, the file
/// is not found and nothing changes.
pub open spec fn delete_outcome(world: World, id: Seq<char>) -> (World, Result<(), ErrorView>) {
    if world.store.contains_key(id) {
        (
            World {
                index: without_id(world.index, id),
                store: world.store.remove(id),
            },
            Ok(()),
        )
    } else {
        (world, Err(ErrorView::FileNotFound))
    }
}

/// Against faithful collaborators a deletion comes to `delete_outcome`.
pub proof fn lemma_delete(world: World, id: Seq<char>)
    ensures
        delete(world, id) == delete_outcome(world, id),
{
    let start = deletion_start(id);
    let state = start->Ask_0;
    let probed = deletion_step(state, ReplyView::Flag(world.store.contains_key(id)));
    assert(run_deletion(world, start) == run_deletion(world, probed));
    if world.store.contains_key(id) {
        let emptied = World { store: world.store.remove(id), ..world };
        let removed = deletion_step(probed->Ask_0, ReplyView::Done);
        assert(run_deletion(world, probed) == run_deletion(emptied, removed));
        let forgotten = World { index: without_id(world.index, id), ..emptied };
        let ended = deletion_step(removed->Ask_0, ReplyView::Done);
        assert(run_deletion(emptied, removed) == run_deletion(forgotten, ended));
    }
}

/// Deleting a file that the store does not hold fails with `FileNotFound`
/// and leaves the index, with any record of that id, and the store untouched.
pub proof fn law_missing_file_is_not_found(world: World, id: Seq<char>)
    requires
        !world.store.contains_key(id),
    ensures
        delete(world, id) == (world, Err::<(), ErrorView>(ErrorView::FileNotFound)),
{
    lemma_delete(world, id);
}

/// A bound on the number of requests that a listing has yet to make.
pub open spec fn listing_rank(step: ListingStepView) -> nat {
    match step {
        ListingStepView::Done(_) => 0,
        ListingStepView::Ask(Listing::Count { .. }, _) => 2,
        ListingStepView::Ask(Listing::Page { .. }, _) => 1,
    }
}

/// Runs a listing from `step` against `world` to its end.
pub open spec fn run_listing(world: World, step: ListingStepView) -> (
    World,
    Result<(i64, Seq<FileView>), ErrorView>,
)
    decreases listing_rank(step),
{
    match step {
        ListingStepView::Done(outcome) => (world, outcome),
        ListingStepView::Ask(state, request) => {
            let (next, reply) = world.answer(request);
            run_listing(next, listing_step(state, reply))
        },
    }
}

/// The whole listing of page `page` against `world`.
pub open spec fn list(world: World, page: int) -> (World, Result<(i64, Seq<FileView>), ErrorView>) {
    run_listing(world, listing_start(page))
}

/// A listing changes nothing and yields the number of all records together
/// with the records of the page: those from position `PAGE_SIZE * (page - 1)`
/// on, in the order of the index, `PAGE_SIZE` at most.
pub proof fn law_listing_is_one_page(world: World, page: int)
    requires
        1 <= page,
        page_offset(page) <= u64::MAX,
        world.index.len() <= i64::MAX,
    ensures
        list(world, page) == (
            world,
            Ok::<(i64, Seq<FileView>), ErrorView>(
                (
                    world.index.len() as i64,
                    page_of(world.index, PAGE_SIZE as int, page_offset(page)),
                ),
            ),
        ),
        page_of(world.index, PAGE_SIZE as int, page_offset(page)).len() <= PAGE_SIZE,
        forall|i: int|
            0 <= i < page_of(world.index, PAGE_SIZE as int, page_offset(page)).len() ==> page_of(
                world.index,
                PAGE_SIZE as int,
                page_offset(page),
            )[i] == listed(#[trigger] world.index[page_offset(page) + i]),
{
    let start = listing_start(page);
    let counted = listing_step(start->Ask_0, ReplyView::Count(world.index.len() as i64));
    assert(run_listing(world, start) == run_listing(world, counted));
    let files = page_of(world.index, PAGE_SIZE as int, page_offset(page));
    let ended = listing_step(counted->Ask_0, ReplyView::Files(files));
    assert(run_listing(world, counted) == run_listing(world, ended));
}

/// A listing changes neither the index nor the store, whatever page is asked
/// for.
pub proof fn law_listing_changes_nothing(world: World, page: int)
    ensures
        list(world, page).0 == world,
{
    let start = listing_start(page);
    let counted = listing_step(start->Ask_0, ReplyView::Count(world.index.len() as i64));
    assert(run_listing(world, start) == run_listing(world, counted));
    match counted {
        ListingStepView::Ask(state, request) => {
            let reply = world.answer(request).1;
            assert(run_listing(world, counted) == run_listing(world, listing_step(state, reply)));
        },
        ListingStepView::Done(_) => {},
    }
}

/// A chunked upload from its beginning to the stored file. A session of
/// `size` bytes is begun, chunks that fit are written in any order, the
/// session is ended and its buffer committed. If the commit ends with a new
/// id, the store holds under it `size` bytes, each the byte of the last chunk
/// that covers its position (a zero where no chunk does); and the index ends
/// with a record of the session's name and that size.
pub proof fn law_chunked_upload_is_stored(
    world: World,
    sessions: Sessions,
    session: Seq<char>,
    filename: Seq<char>,
    size: nat,
    writes: Seq<ChunkWrite>,
    extension: Option<Seq<char>>,
    tokens: spec_fn(int) -> Seq<char>,
)
    requires
        size <= SIZE_LIMIT,
        all_fit(size, writes),
    ensures
        ({
            let started = begun(sessions, session, filename, size).0;
            let handed = taken(written_all(started, session, writes), session).1;
            &&& handed matches Ok(chunk)
            &&& ({
                let (after, outcome) = commit(world, chunk.filename, extension, chunk.data, tokens);
                outcome matches Ok(id) ==> {
                    &&& after.store.contains_key(id)
                    &&& after.store[id].len() == size
                    &&& forall|at: int|
                        0 <= at < size ==> #[trigger] after.store[id][at] == assembled_byte(
                            zeros(size),
                            writes,
                            at,
                        )
                    &&& after.index.last().id == id
                    &&& after.index.last().filename == filename
                    &&& after.index.last().bytes == size
                }
            })
        }),
{
    law_chunks_then_finish(sessions, session, filename, size, writes);
    let started = begun(sessions, session, filename, size).0;
    let chunk = taken(written_all(started, session, writes), session).1->Ok_0;
    law_new_content_gets_fresh_id(world, chunk.filename, extension, chunk.data, tokens);
}

} // verus!
