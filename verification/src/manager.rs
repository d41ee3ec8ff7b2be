//! The registry of chunked uploads in progress, and the entry points of the
//! operations on stored files.

use vstd::prelude::*;
use vstd::slice::slice_to_vec;
use crate::chunk::ChunkProcessor;
use crate::chunk::ChunkView;
use crate::deletion::deletion_start;
use crate::deletion::Deletion;
use crate::deletion::DeletionStep;
use crate::error::id_outcome;
use crate::error::unit_outcome;
use crate::error::ErrorView;
use crate::error::ManagerError;
use crate::error::SIZE_LIMIT;
use crate::ident::generate_random_id;
use crate::ident::is_token;
use crate::listing::listing_start;
use crate::listing::page_offset;
use crate::listing::Listing;
use crate::listing::ListingStep;
use crate::sessions::begun;
use crate::sessions::discarded;
use crate::sessions::taken;
use crate::sessions::written;
use crate::sessions::Sessions;
use crate::upload::begins_upload;
use crate::upload::Upload;
use crate::upload::UploadStep;

verus! {

/// One upload in progress: the id it was registered under and its buffer.
struct Session {
    id: String,
    processor: ChunkProcessor,
}

/// No two sessions share an id.
spec fn distinct(sessions: Seq<Session>) -> bool {
    forall|i: int, j: int|
        0 <= i < sessions.len() && 0 <= j < sessions.len() && i != j ==> sessions[i].id@
            != sessions[j].id@
}

/// Whether the session at `i` is registered under `id`.
spec fn held_at(sessions: Seq<Session>, id: Seq<char>, i: int) -> bool {
    0 <= i < sessions.len() && sessions[i].id@ == id
}

/// The sessions as a map from id to buffer.
spec fn as_map(sessions: Seq<Session>) -> Map<Seq<char>, ChunkView> {
    Map::new(
        |id: Seq<char>| exists|i: int| held_at(sessions, id, i),
        |id: Seq<char>| sessions[choose|i: int| held_at(sessions, id, i)].processor@,
    )
}

/// The map holds each session under its id.
proof fn lemma_entry(sessions: Seq<Session>, i: int)
    requires
        distinct(sessions),
        0 <= i < sessions.len(),
    ensures
        as_map(sessions).contains_key(sessions[i].id@),
        as_map(sessions)[sessions[i].id@] == sessions[i].processor@,
{
    let id = sessions[i].id@;
    assert(held_at(sessions, id, i));
    let k = choose|k: int| held_at(sessions, id, k);
    assert(k == i);
}

/// The map holds nothing under an id that no session has.
proof fn lemma_absent(sessions: Seq<Session>, id: Seq<char>)
    requires
        forall|i: int| 0 <= i < sessions.len() ==> sessions[i].id@ != id,
    ensures
        !as_map(sessions).contains_key(id),
{
    assert forall|i: int| !held_at(sessions, id, i) by {}
}

/// Replacing the session at `at` by one of the same id rewrites the entry of
/// that id.
proof fn lemma_replace(before: Seq<Session>, at: int, session: Session)
    requires
        distinct(before),
        0 <= at < before.len(),
        session.id@ == before[at].id@,
    ensures
        distinct(before.update(at, session)),
        as_map(before.update(at, session)) == as_map(before).insert(
            session.id@,
            session.processor@,
        ),
{
    let after = before.update(at, session);
    let target = as_map(before).insert(session.id@, session.processor@);
    assert(distinct(after));
    assert forall|key: Seq<char>| as_map(after).contains_key(key) == target.contains_key(key) by {
        if as_map(after).contains_key(key) {
            let i = choose|i: int| held_at(after, key, i);
            assert(held_at(before, key, i));
        }
        if as_map(before).contains_key(key) {
            let i = choose|i: int| held_at(before, key, i);
            assert(held_at(after, key, i));
        }
        assert(held_at(after, session.id@, at));
    }
    assert forall|key: Seq<char>| as_map(after).contains_key(key) implies as_map(after)[key]
        == target[key] by {
        let i = choose|i: int| held_at(after, key, i);
        lemma_entry(after, i);
        lemma_entry(before, i);
    }
    assert(as_map(after) =~= target);
}

/// Appending a session whose id no session has adds the entry of that id.
proof fn lemma_append(before: Seq<Session>, session: Session)
    requires
        distinct(before),
        forall|i: int| 0 <= i < before.len() ==> before[i].id@ != session.id@,
    ensures
        distinct(before.push(session)),
        as_map(before.push(session)) == as_map(before).insert(session.id@, session.processor@),
{
    let after = before.push(session);
    let target = as_map(before).insert(session.id@, session.processor@);
    assert(distinct(after));
    assert forall|key: Seq<char>| as_map(after).contains_key(key) == target.contains_key(key) by {
        if as_map(after).contains_key(key) && key != session.id@ {
            let i = choose|i: int| held_at(after, key, i);
            assert(held_at(before, key, i));
        }
        if as_map(before).contains_key(key) {
            let i = choose|i: int| held_at(before, key, i);
            assert(held_at(after, key, i));
        }
        assert(held_at(after, session.id@, before.len() as int));
    }
    assert forall|key: Seq<char>| as_map(after).contains_key(key) implies as_map(after)[key]
        == target[key] by {
        let i = choose|i: int| held_at(after, key, i);
        lemma_entry(after, i);
        if i < before.len() {
            lemma_entry(before, i);
        }
    }
    assert(as_map(after) =~= target);
}

/// Taking the session at `at` out of the sequence removes its id from the map.
proof fn lemma_take(before: Seq<Session>, at: int)
    requires
        distinct(before),
        0 <= at < before.len(),
    ensures
        distinct(before.remove(at)),
        as_map(before.remove(at)) == as_map(before).remove(before[at].id@),
{
    let after = before.remove(at);
    let id = before[at].id@;
    assert(distinct(after));
    assert forall|key: Seq<char>|
        as_map(after).contains_key(key) == as_map(before).remove(id).contains_key(key) by {
        if as_map(after).contains_key(key) {
            let i = choose|i: int| held_at(after, key, i);
            let k = if i < at { i } else { i + 1 };
            assert(held_at(before, key, k));
        }
        if as_map(before).contains_key(key) && key != id {
            let k = choose|k: int| held_at(before, key, k);
            let i = if k < at { k } else { k - 1 };
            assert(held_at(after, key, i));
        }
    }
    assert forall|key: Seq<char>| as_map(after).contains_key(key) implies as_map(after)[key]
        == as_map(before).remove(id)[key] by {
        let i = choose|i: int| held_at(after, key, i);
        let k = if i < at { i } else { i + 1 };
        lemma_entry(after, i);
        lemma_entry(before, k);
    }
    assert(as_map(after) =~= as_map(before).remove(id));
}

/// Position of the session registered under `id`.
fn locate(sessions: &Vec<Session>, id: &str) -> (found: Option<usize>)
    ensures
        match found {
            Some(i) => held_at(sessions@, id@, i as int),
            None => forall|i: int| 0 <= i < sessions@.len() ==> sessions@[i].id@ != id@,
        },
{
    let key = id.to_owned();
    let mut i: usize = 0;
    while i < sessions.len()
        invariant
            i <= sessions@.len(),
            key@ == id@,
            forall|j: int| 0 <= j < i ==> sessions@[j].id@ != id@,
        decreases sessions@.len() - i,
    {
        if sessions[i].id == key {
            return Some(i);
        }
        i = i + 1;
    }
    None
}

/// Mathematical value of the outcome of ending a session.
pub open spec fn chunk_outcome(outcome: Result<ChunkProcessor, ManagerError>) -> Result<
    ChunkView,
    ErrorView,
> {
    match outcome {
        Ok(processor) => Ok(processor@),
        Err(e) => Err(e@),
    }
}

/// Whether `after` and `outcome` are what beginning a session of `size` bytes
/// named `filename` leaves of `before`, for some token as the session id.
pub open spec fn begins_session(
    before: Sessions,
    filename: Seq<char>,
    size: nat,
    after: Sessions,
    outcome: Result<Seq<char>, ErrorView>,
) -> bool {
    exists|token: Seq<char>|
        is_token(token) && (after, outcome) == #[trigger] begun(before, token, filename, size)
}

/// The upload sessions of one service, by session id.
pub struct Manager {
    uploads: Vec<Session>,
}

impl View for Manager {
    type V = Map<Seq<char>, ChunkView>;

    closed spec fn view(&self) -> Map<Seq<char>, ChunkView> {
        as_map(self.uploads@)
    }
}

impl Manager {
    #[verifier::type_invariant]
    spec fn well_formed(self) -> bool {
        distinct(self.uploads@)
    }

    /// A manager with no upload in progress.
    pub fn new() -> (manager: Self)
        ensures
            manager@ == Map::<Seq<char>, ChunkView>::empty(),
    {
        let manager = Manager { uploads: Vec::new() };
        assert(manager@ =~= Map::<Seq<char>, ChunkView>::empty()) by {
            assert forall|id: Seq<char>| !as_map(manager.uploads@).contains_key(id) by {
                lemma_absent(manager.uploads@, id);
            }
        }
        manager
    }

    /// Whether an upload is in progress under `id`.
    pub fn has_upload(&self, id: &str) -> (held: bool)
        ensures
            held == self@.contains_key(id@),
    {
        proof {
            use_type_invariant(&*self);
        }
        match locate(&self.uploads, id) {
            Some(i) => {
                proof {
                    lemma_entry(self.uploads@, i as int);
                }
                true
            },
            None => {
                proof {
                    lemma_absent(self.uploads@, id@);
                }
                false
            },
        }
    }

    /// Registers a zero-filled buffer of `size` bytes under `id`, in place of
    /// any session that `id` named before. A size above `SIZE_LIMIT` is
    /// refused.
    pub fn register_upload(&mut self, id: String, filename: &str, size: usize) -> (result: Result<
        String,
        ManagerError,
    >)
        ensures
            (final(self)@, id_outcome(result)) == begun(old(self)@, id@, filename@, size as nat),
    {
        proof {
            use_type_invariant(&*self);
        }
        if size > SIZE_LIMIT {
            return Err(ManagerError::FileTooLarge);
        }
        let session = Session { id: id.clone(), processor: ChunkProcessor::new(size, filename) };
        let mut uploads = Vec::new();
        std::mem::swap(&mut uploads, &mut self.uploads);
        match locate(&uploads, id.as_str()) {
            Some(i) => {
                proof {
                    lemma_replace(uploads@, i as int, session);
                }
                uploads.set(i, session);
            },
            None => {
                proof {
                    lemma_append(uploads@, session);
                }
                uploads.push(session);
            },
        }
        self.uploads = uploads;
        Ok(id)
    }

    /// Begins a chunked upload of `size` bytes named `filename` under a fresh
    /// random id, which is returned. A size above `SIZE_LIMIT` is refused.
    pub fn begin_chunked_upload(&mut self, filename: &str, size: usize) -> (result: Result<
        String,
        ManagerError,
    >)
        ensures
            begins_session(
                old(self)@,
                filename@,
                size as nat,
                final(self)@,
                id_outcome(result),
            ),
    {
        let id = generate_random_id();
        self.register_upload(id, filename, size)
    }

    /// Copies `data` into the buffer of session `id` at `start`. An unknown
    /// id and a chunk that does not fit are refused, and nothing changes.
    pub fn process_chunk(&mut self, id: &str, data: &[u8], start: usize) -> (result: Result<
        (),
        ManagerError,
    >)
        ensures
            (final(self)@, unit_outcome(result)) == written(
                old(self)@,
                id@,
                data@,
                start as int,
            ),
    {
        proof {
            use_type_invariant(&*self);
        }
        let mut uploads = Vec::new();
        std::mem::swap(&mut uploads, &mut self.uploads);
        let ghost before = uploads@;
        let result = match locate(&uploads, id) {
            Some(i) => {
                proof {
                    lemma_entry(before, i as int);
                }
                let outcome = uploads[i].processor.chunk(data, start);
                proof {
                    let after = uploads@;
                    assert(after =~= before.update(i as int, after[i as int]));
                    lemma_replace(before, i as int, after[i as int]);
                    if outcome is Err {
                        assert(as_map(after) =~= as_map(before));
                    }
                }
                outcome
            },
            None => {
                proof {
                    lemma_absent(before, id@);
                }
                Err(ManagerError::InvalidUploadId)
            },
        };
        self.uploads = uploads;
        result
    }

    /// Ends session `id` and hands over its name and buffer. An unknown id is
    /// refused.
    pub fn take_upload(&mut self, id: &str) -> (result: Result<ChunkProcessor, ManagerError>)
        ensures
            (final(self)@, chunk_outcome(result)) == taken(old(self)@, id@),
    {
        proof {
            use_type_invariant(&*self);
        }
        let mut uploads = Vec::new();
        std::mem::swap(&mut uploads, &mut self.uploads);
        let ghost before = uploads@;
        let result = match locate(&uploads, id) {
            Some(i) => {
                proof {
                    lemma_entry(before, i as int);
                    lemma_take(before, i as int);
                }
                let session = uploads.remove(i);
                Ok(session.processor)
            },
            None => {
                proof {
                    lemma_absent(before, id@);
                }
                Err(ManagerError::InvalidUploadId)
            },
        };
        self.uploads = uploads;
        result
    }

    /// Drops session `id` if there is one.
    pub fn discard_upload(&mut self, id: &str)
        ensures
            final(self)@ == discarded(old(self)@, id@),
    {
        proof {
            use_type_invariant(&*self);
        }
        let mut uploads = Vec::new();
        std::mem::swap(&mut uploads, &mut self.uploads);
        let ghost before = uploads@;
        match locate(&uploads, id) {
            Some(i) => {
                proof {
                    lemma_take(before, i as int);
                }
                let _ = uploads.remove(i);
            },
            None => {
                proof {
                    lemma_absent(before, id@);
                    assert(as_map(before) =~= as_map(before).remove(id@));
                }
            },
        }
        self.uploads = uploads;
    }

    /// Ends session `id` and begins the commit of its buffer under the name
    /// the session was begun with. An unknown id is refused.
    pub fn finish_chunked_upload(&mut self, id: &str) -> (result: Result<UploadStep, ManagerError>)
        ensures
            final(self)@ == taken(old(self)@, id@).0,
            match taken(old(self)@, id@).1 {
                Ok(chunk) => result matches Ok(step) && begins_upload(
                    step@,
                    chunk.filename,
                    chunk.data,
                ),
                Err(refusal) => result matches Err(e) && e@ == refusal,
            },
    {
        match self.take_upload(id) {
            Ok(processor) => {
                let ChunkProcessor { data, filename } = processor;
                Ok(Upload::start(filename, data))
            },
            Err(e) => Err(e),
        }
    }

    /// Begins the commit of `data` under `filename`.
    pub fn upload_file(&self, filename: &str, data: &[u8]) -> (step: UploadStep)
        ensures
            begins_upload(step@, filename@, data@),
    {
        Upload::start(filename.to_owned(), slice_to_vec(data))
    }

    /// Begins the listing of page `page`; pages are numbered from 1.
    pub fn get_files(&self, page: usize) -> (step: ListingStep)
        requires
            1 <= page,
            page_offset(page as int) <= u64::MAX,
        ensures
            step@ == listing_start(page as int),
    {
        Listing::start(page)
    }

    /// Begins the deletion of the file `id`.
    pub fn delete_file(&self, id: &str) -> (step: DeletionStep)
        ensures
            step@ == deletion_start(id@),
    {
        Deletion::start(id)
    }
}

} // verus!
