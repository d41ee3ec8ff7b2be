//! Committing a whole file: from a name and its bytes to a stored, recorded
//! file, or to the id under which the same content is already kept.
//!
//! The commit picks an id that the index does not know (five candidates at
//! most), makes sure that the store holds nothing under it, looks for a record
//! of the same length and checksum, and only if there is none writes the bytes
//! and then the record.

use vstd::prelude::*;
use crate::error::id_outcome;
use crate::error::ErrorView;
use crate::error::ManagerError;
use crate::ident::candidate_id;
use crate::ident::compose_id;
use crate::ident::crc32;
use crate::ident::crc32_hash;
use crate::ident::generate_random_id;
use crate::ident::hex_text;
use crate::ident::is_extension_of;
use crate::ident::is_token;
use crate::ident::path_extension;
use crate::protocol::FileRecord;
use crate::protocol::RecordView;
use crate::protocol::Reply;
use crate::protocol::ReplyView;
use crate::protocol::Request;
use crate::protocol::RequestView;

verus! {

/// Number of candidate ids that one commit may try.
pub const MAX_ATTEMPTS: u8 = 5;

/// What a commit is waiting for.
#[derive(Clone, Copy, Debug, PartialEq, Eq, Structural)]
pub enum UploadStage {
    /// Whether the index knows the candidate id.
    ProbeId,
    /// Whether the store holds an entry under the chosen id.
    ProbePath,
    /// Whether the index knows content of this length and checksum.
    ProbeContent,
    /// The write of the bytes.
    Store,
    /// The insertion of the record.
    Record,
}

/// A commit under way.
#[derive(Debug)]
pub struct Upload {
    stage: UploadStage,
    attempt: u8,
    id: String,
    extension: Option<String>,
    filename: String,
    data: Vec<u8>,
    bytes: i64,
    crc: u32,
}

/// Mathematical value of an `Upload`. `attempt` counts the candidates tried,
/// the current one included; `data` is empty once the bytes were handed over
/// for writing.
pub struct UploadView {
    pub stage: UploadStage,
    pub attempt: u8,
    pub id: Seq<char>,
    pub extension: Option<Seq<char>>,
    pub filename: Seq<char>,
    pub data: Seq<u8>,
    pub bytes: i64,
    pub crc: u32,
}

impl View for Upload {
    type V = UploadView;

    closed spec fn view(&self) -> UploadView {
        UploadView {
            stage: self.stage,
            attempt: self.attempt,
            id: self.id@,
            extension: self.extension.deep_view(),
            filename: self.filename@,
            data: self.data@,
            bytes: self.bytes,
            crc: self.crc,
        }
    }
}

/// Where a commit stands after a step: it asks for one more request, or it
/// has ended.
#[derive(Debug)]
pub enum UploadStep {
    Ask(Upload, Request),
    Done(Result<String, ManagerError>),
}

/// Mathematical value of an `UploadStep`.
pub enum UploadStepView {
    Ask(UploadView, RequestView),
    Done(Result<Seq<char>, ErrorView>),
}

impl View for UploadStep {
    type V = UploadStepView;

    open spec fn view(&self) -> UploadStepView {
        match self {
            UploadStep::Ask(upload, request) => UploadStepView::Ask(upload@, request@),
            UploadStep::Done(outcome) => UploadStepView::Done(id_outcome(*outcome)),
        }
    }
}

/// The first step of a commit of `data` under `filename`, given the
/// extension found in the name, the token drawn for the first candidate and
/// the checksum of the data: it asks the index about the first candidate.
pub open spec fn upload_start(
    filename: Seq<char>,
    extension: Option<Seq<char>>,
    data: Seq<u8>,
    token: Seq<char>,
    crc: u32,
) -> UploadStepView {
    let id = candidate_id(token, extension);
    UploadStepView::Ask(
        UploadView {
            stage: UploadStage::ProbeId,
            attempt: 1,
            id,
            extension,
            filename,
            data,
            bytes: data.len() as i64,
            crc,
        },
        RequestView::IndexFindById(id),
    )
}

/// Whether the step needs a new token: the index knows the candidate and
/// another one may be tried.
pub open spec fn wants_token(state: UploadView, reply: ReplyView) -> bool {
    state.stage == UploadStage::ProbeId && reply == ReplyView::Flag(true) && state.attempt
        < MAX_ATTEMPTS
}

/// The step that a commit in `state` takes on `reply`. `token` is used only
/// where `wants_token` holds. A reply that does not answer the pending
/// request counts as that request's failure.
pub open spec fn upload_step(
    state: UploadView,
    reply: ReplyView,
    token: Seq<char>,
) -> UploadStepView {
    match state.stage {
        UploadStage::ProbeId => match reply {
            ReplyView::Flag(true) => if state.attempt < MAX_ATTEMPTS {
                let id = candidate_id(token, state.extension);
                UploadStepView::Ask(
                    UploadView { attempt: (state.attempt + 1) as u8, id, ..state },
                    RequestView::IndexFindById(id),
                )
            } else {
                UploadStepView::Done(Err(ErrorView::UnableToGenerateId))
            },
            ReplyView::Flag(false) => UploadStepView::Ask(
                UploadView { stage: UploadStage::ProbePath, ..state },
                RequestView::StoreExists(state.id),
            ),
            _ => UploadStepView::Done(Err(ErrorView::QueryFailed)),
        },
        UploadStage::ProbePath => match reply {
            ReplyView::Flag(false) => UploadStepView::Ask(
                UploadView { stage: UploadStage::ProbeContent, ..state },
                RequestView::IndexFindByContent { bytes: state.bytes, crc: state.crc },
            ),
            _ => UploadStepView::Done(Err(ErrorView::UnableToGenerateId)),
        },
        UploadStage::ProbeContent => match reply {
            ReplyView::Match(Some(existing)) => UploadStepView::Done(
                Err(ErrorView::FileExists(existing)),
            ),
            ReplyView::Match(None) => UploadStepView::Ask(
                UploadView { stage: UploadStage::Store, data: Seq::empty(), ..state },
                RequestView::StoreWrite { id: state.id, data: state.data },
            ),
            _ => UploadStepView::Done(Err(ErrorView::QueryFailed)),
        },
        UploadStage::Store => match reply {
            ReplyView::Done => UploadStepView::Ask(
                UploadView { stage: UploadStage::Record, ..state },
                RequestView::IndexInsert(
                    RecordView {
                        id: state.id,
                        filename: state.filename,
                        bytes: state.bytes,
                        crc: state.crc,
                    },
                ),
            ),
            _ => UploadStepView::Done(Err(ErrorView::StorageWriteFailed)),
        },
        UploadStage::Record => match reply {
            ReplyView::Done => UploadStepView::Done(Ok(state.id)),
            _ => UploadStepView::Done(Err(ErrorView::MetadataWriteFailed)),
        },
    }
}

/// Whether `extension` is what a look at `filename` may have found.
pub open spec fn extension_fits(extension: Option<Seq<char>>, filename: Seq<char>) -> bool {
    extension matches Some(ext) ==> is_extension_of(ext, filename)
}

/// Whether `step` begins a commit of `data` under `filename`, for some token
/// and some extension that fits the name.
pub open spec fn begins_upload(step: UploadStepView, filename: Seq<char>, data: Seq<u8>) -> bool {
    exists|token: Seq<char>, extension: Option<Seq<char>>|
        is_token(token) && extension_fits(extension, filename) && step == #[trigger] upload_start(
            filename,
            extension,
            data,
            token,
            crc32(data),
        )
}

/// Whether `step` is what a commit in `state` does on `reply`, for some token.
pub open spec fn follows_upload(step: UploadStepView, state: UploadView, reply: ReplyView) -> bool {
    exists|token: Seq<char>| is_token(token) && step == #[trigger] upload_step(state, reply, token)
}

impl Upload {
    /// Begins a commit with the given extension, token and checksum.
    pub fn start_with(
        filename: String,
        data: Vec<u8>,
        extension: Option<String>,
        token: String,
        crc: u32,
    ) -> (step: UploadStep)
        ensures
            step@ == upload_start(filename@, extension.deep_view(), data@, token@, crc),
    {
        let id = compose_id(token, &extension);
        let request = Request::IndexFindById(id.clone());
        let bytes = data.len() as i64;
        UploadStep::Ask(
            Upload {
                stage: UploadStage::ProbeId,
                attempt: 1,
                id,
                extension,
                filename,
                data,
                bytes,
                crc,
            },
            request,
        )
    }

    /// Begins a commit of `data` under `filename`: finds the extension,
    /// draws a token and computes the checksum.
    pub fn start(filename: String, data: Vec<u8>) -> (step: UploadStep)
        ensures
            begins_upload(step@, filename@, data@),
    {
        let extension = path_extension(filename.as_str());
        let token = generate_random_id();
        let crc = crc32_hash(data.as_slice());
        Upload::start_with(filename, data, extension, token, crc)
    }

    /// Whether the step on `reply` needs a new token.
    pub fn needs_token(&self, reply: &Reply) -> (needed: bool)
        ensures
            needed == wants_token(self@, reply@),
    {
        match (self.stage, reply) {
            (UploadStage::ProbeId, Reply::Flag(true)) => self.attempt < MAX_ATTEMPTS,
            _ => false,
        }
    }

    /// Takes the step on `reply`, with `token` at hand for a new candidate.
    pub fn advance_with(self, reply: Reply, token: String) -> (step: UploadStep)
        ensures
            step@ == upload_step(self@, reply@, token@),
    {
        let Upload { stage, attempt, id, extension, filename, data, bytes, crc } = self;
        match stage {
            UploadStage::ProbeId => match reply {
                Reply::Flag(true) => {
                    if attempt < MAX_ATTEMPTS {
                        let id = compose_id(token, &extension);
                        let request = Request::IndexFindById(id.clone());
                        UploadStep::Ask(
                            Upload {
                                stage,
                                attempt: attempt + 1,
                                id,
                                extension,
                                filename,
                                data,
                                bytes,
                                crc,
                            },
                            request,
                        )
                    } else {
                        UploadStep::Done(Err(ManagerError::UnableToGenerateId))
                    }
                },
                Reply::Flag(false) => {
                    let request = Request::StoreExists(id.clone());
                    UploadStep::Ask(
                        Upload {
                            stage: UploadStage::ProbePath,
                            attempt,
                            id,
                            extension,
                            filename,
                            data,
                            bytes,
                            crc,
                        },
                        request,
                    )
                },
                _ => UploadStep::Done(Err(ManagerError::QueryFailed)),
            },
            UploadStage::ProbePath => match reply {
                Reply::Flag(false) => UploadStep::Ask(
                    Upload {
                        stage: UploadStage::ProbeContent,
                        attempt,
                        id,
                        extension,
                        filename,
                        data,
                        bytes,
                        crc,
                    },
                    Request::IndexFindByContent { bytes, crc },
                ),
                _ => UploadStep::Done(Err(ManagerError::UnableToGenerateId)),
            },
            UploadStage::ProbeContent => match reply {
                Reply::Match(Some(existing)) => UploadStep::Done(
                    Err(ManagerError::FileExists(existing)),
                ),
                Reply::Match(None) => {
                    let request = Request::StoreWrite { id: id.clone(), data };
                    UploadStep::Ask(
                        Upload {
                            stage: UploadStage::Store,
                            attempt,
                            id,
                            extension,
                            filename,
                            data: Vec::new(),
                            bytes,
                            crc,
                        },
                        request,
                    )
                },
                _ => UploadStep::Done(Err(ManagerError::QueryFailed)),
            },
            UploadStage::Store => match reply {
                Reply::Done => {
                    let record = FileRecord {
                        id: id.clone(),
                        filename: filename.clone(),
                        bytes,
                        crc,
                    };
                    UploadStep::Ask(
                        Upload {
                            stage: UploadStage::Record,
                            attempt,
                            id,
                            extension,
                            filename,
                            data,
                            bytes,
                            crc,
                        },
                        Request::IndexInsert(record),
                    )
                },
                _ => UploadStep::Done(Err(ManagerError::StorageWriteFailed)),
            },
            UploadStage::Record => match reply {
                Reply::Done => UploadStep::Done(Ok(id)),
                _ => UploadStep::Done(Err(ManagerError::MetadataWriteFailed)),
            },
        }
    }

    /// Takes the step on `reply`, drawing a token where one is needed.
    pub fn advance(self, reply: Reply) -> (step: UploadStep)
        ensures
            follows_upload(step@, self@, reply@),
    {
        let token = if self.needs_token(&reply) {
            generate_random_id()
        } else {
            String::new()
        };
        let ghost state = self@;
        let ghost answer = reply@;
        let step = self.advance_with(reply, token);
        proof {
            if !wants_token(state, answer) {
                let zero = hex_text(Seq::new(8, |i: int| 0u8));
                assert(is_token(zero));
                assert(step@ == upload_step(state, answer, zero));
            }
        }
        step
    }
}

} // verus!
