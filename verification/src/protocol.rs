//! What the manager asks of its two collaborators, and what they answer.
//!
//! The metadata index keeps one record for each stored file; the content store
//! keeps the bytes of each file under its id. The manager never reaches either
//! one itself: an operation hands its host a `Request`, the host performs it
//! and hands back a `Reply`.

use vstd::prelude::*;

verus! {

/// Number of files on one page of a listing.
pub const PAGE_SIZE: u32 = 10;

/// A stored file as a listing shows it.
#[derive(Debug, PartialEq, Eq)]
pub struct DatabaseFile {
    pub id: String,
    pub filename: String,
    pub bytes: i64,
}

/// Mathematical value of a `DatabaseFile`.
pub struct FileView {
    pub id: Seq<char>,
    pub filename: Seq<char>,
    pub bytes: i64,
}

impl View for DatabaseFile {
    type V = FileView;

    open spec fn view(&self) -> FileView {
        FileView { id: self.id@, filename: self.filename@, bytes: self.bytes }
    }
}

impl DeepView for DatabaseFile {
    type V = FileView;

    open spec fn deep_view(&self) -> FileView {
        self@
    }
}

/// The record that the metadata index keeps of a stored file. The length and
/// the checksum together are the key by which equal content is recognised.
#[derive(Debug, PartialEq, Eq)]
pub struct FileRecord {
    pub id: String,
    pub filename: String,
    pub bytes: i64,
    pub crc: u32,
}

/// Mathematical value of a `FileRecord`.
pub struct RecordView {
    pub id: Seq<char>,
    pub filename: Seq<char>,
    pub bytes: i64,
    pub crc: u32,
}

impl View for FileRecord {
    type V = RecordView;

    open spec fn view(&self) -> RecordView {
        RecordView { id: self.id@, filename: self.filename@, bytes: self.bytes, crc: self.crc }
    }
}

/// One request to a collaborator.
#[derive(Debug, PartialEq, Eq)]
pub enum Request {
    /// Index: how many records are there?
    IndexCount,
    /// Index: the records from position `offset` on, `limit` at most.
    IndexList { limit: u32, offset: u64 },
    /// Index: the id of a record with this length and checksum, if any.
    IndexFindByContent { bytes: i64, crc: u32 },
    /// Index: is there a record with this id?
    IndexFindById(String),
    /// Index: add this record.
    IndexInsert(FileRecord),
    /// Index: drop the record with this id.
    IndexDeleteById(String),
    /// Store: is there an entry under this id?
    StoreExists(String),
    /// Store: keep these bytes under this id.
    StoreWrite { id: String, data: Vec<u8> },
    /// Store: drop the entry under this id.
    StoreDelete(String),
}

/// Mathematical value of a `Request`.
pub enum RequestView {
    IndexCount,
    IndexList { limit: u32, offset: u64 },
    IndexFindByContent { bytes: i64, crc: u32 },
    IndexFindById(Seq<char>),
    IndexInsert(RecordView),
    IndexDeleteById(Seq<char>),
    StoreExists(Seq<char>),
    StoreWrite { id: Seq<char>, data: Seq<u8> },
    StoreDelete(Seq<char>),
}

impl View for Request {
    type V = RequestView;

    open spec fn view(&self) -> RequestView {
        match self {
            Request::IndexCount => RequestView::IndexCount,
            Request::IndexList { limit, offset } => RequestView::IndexList {
                limit: *limit,
                offset: *offset,
            },
            Request::IndexFindByContent { bytes, crc } => RequestView::IndexFindByContent {
                bytes: *bytes,
                crc: *crc,
            },
            Request::IndexFindById(id) => RequestView::IndexFindById(id@),
            Request::IndexInsert(record) => RequestView::IndexInsert(record@),
            Request::IndexDeleteById(id) => RequestView::IndexDeleteById(id@),
            Request::StoreExists(id) => RequestView::StoreExists(id@),
            Request::StoreWrite { id, data } => RequestView::StoreWrite { id: id@, data: data@ },
            Request::StoreDelete(id) => RequestView::StoreDelete(id@),
        }
    }
}

/// What a collaborator answered.
#[derive(Debug, PartialEq, Eq)]
pub enum Reply {
    /// The answer to `IndexFindById` and to `StoreExists`.
    Flag(bool),
    /// The answer to `IndexFindByContent`.
    Match(Option<String>),
    /// The answer to `IndexCount`.
    Count(i64),
    /// The answer to `IndexList`.
    Files(Vec<DatabaseFile>),
    /// A write, an insertion or a deletion was carried out.
    Done,
    /// The collaborator reported an error.
    Failed,
}

/// Mathematical value of a `Reply`.
pub enum ReplyView {
    Flag(bool),
    Match(Option<Seq<char>>),
    Count(i64),
    Files(Seq<FileView>),
    Done,
    Failed,
}

impl View for Reply {
    type V = ReplyView;

    open spec fn view(&self) -> ReplyView {
        match self {
            Reply::Flag(flag) => ReplyView::Flag(*flag),
            Reply::Match(found) => ReplyView::Match(found.deep_view()),
            Reply::Count(total) => ReplyView::Count(*total),
            Reply::Files(files) => ReplyView::Files(files.deep_view()),
            Reply::Done => ReplyView::Done,
            Reply::Failed => ReplyView::Failed,
        }
    }
}

} // verus!
