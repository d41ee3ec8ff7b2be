use std::collections::HashMap;

use upload_manager::deletion::DeletionStep;
use upload_manager::error::ManagerError;
use upload_manager::listing::ListingStep;
use upload_manager::manager::Manager;
use upload_manager::protocol::DatabaseFile;
use upload_manager::protocol::FileRecord;
use upload_manager::protocol::Reply;
use upload_manager::protocol::Request;
use upload_manager::upload::Upload;
use upload_manager::upload::UploadStep;

struct World {
    index: Vec<FileRecord>,
    store: HashMap<String, Vec<u8>>,
    log: Vec<String>,
}

fn empty_world() -> World {
    World { index: Vec::new(), store: HashMap::new(), log: Vec::new() }
}

fn name_of(request: &Request) -> &'static str {
    match request {
        Request::IndexCount => "count",
        Request::IndexList { .. } => "list",
        Request::IndexFindByContent { .. } => "find_by_content",
        Request::IndexFindById(_) => "find_by_id",
        Request::IndexInsert(_) => "insert",
        Request::IndexDeleteById(_) => "delete_by_id",
        Request::StoreExists(_) => "exists",
        Request::StoreWrite { .. } => "write",
        Request::StoreDelete(_) => "delete",
    }
}

fn answer(world: &mut World, request: Request) -> Reply {
    world.log.push(name_of(&request).to_string());
    match request {
        Request::IndexCount => Reply::Count(world.index.len() as i64),
        Request::IndexList { limit, offset } => Reply::Files(
            world
                .index
                .iter()
                .skip(offset as usize)
                .take(limit as usize)
                .map(|r| DatabaseFile {
                    id: r.id.clone(),
                    filename: r.filename.clone(),
                    bytes: r.bytes,
                })
                .collect(),
        ),
        Request::IndexFindByContent { bytes, crc } => Reply::Match(
            world
                .index
                .iter()
                .find(|r| r.bytes == bytes && r.crc == crc)
                .map(|r| r.id.clone()),
        ),
        Request::IndexFindById(id) => Reply::Flag(world.index.iter().any(|r| r.id == id)),
        Request::IndexInsert(record) => {
            world.index.push(record);
            Reply::Done
        }
        Request::IndexDeleteById(id) => {
            world.index.retain(|r| r.id != id);
            Reply::Done
        }
        Request::StoreExists(id) => Reply::Flag(world.store.contains_key(&id)),
        Request::StoreWrite { id, data } => {
            world.store.insert(id, data);
            Reply::Done
        }
        Request::StoreDelete(id) => {
            world.store.remove(&id);
            Reply::Done
        }
    }
}

fn run_upload(world: &mut World, first: UploadStep) -> Result<String, ManagerError> {
    let mut step = first;
    loop {
        match step {
            UploadStep::Ask(upload, request) => {
                let reply = answer(world, request);
                step = upload.advance(reply);
            }
            UploadStep::Done(outcome) => return outcome,
        }
    }
}

fn run_deletion(world: &mut World, first: DeletionStep) -> Result<(), ManagerError> {
    let mut step = first;
    loop {
        match step {
            DeletionStep::Ask(deletion, request) => {
                let reply = answer(world, request);
                step = deletion.advance(reply);
            }
            DeletionStep::Done(outcome) => return outcome,
        }
    }
}

fn run_listing(
    world: &mut World,
    first: ListingStep,
) -> Result<(i64, Vec<DatabaseFile>), ManagerError> {
    let mut step = first;
    loop {
        match step {
            ListingStep::Ask(listing, request) => {
                let reply = answer(world, request);
                step = listing.advance(reply);
            }
            ListingStep::Done(outcome) => return outcome,
        }
    }
}

fn expect_ask(step: UploadStep) -> (Upload, Request) {
    match step {
        UploadStep::Ask(upload, request) => (upload, request),
        UploadStep::Done(outcome) => panic!("ended early with {:?}", outcome),
    }
}

fn expect_done(step: UploadStep) -> Result<String, ManagerError> {
    match step {
        UploadStep::Done(outcome) => outcome,
        UploadStep::Ask(_, request) => panic!("asked for {:?}", request),
    }
}

fn start(
    filename: &str,
    data: &[u8],
    extension: Option<&str>,
    token: &str,
    crc: u32,
) -> UploadStep {
    Upload::start_with(
        filename.to_string(),
        data.to_vec(),
        extension.map(|e| e.to_string()),
        token.to_string(),
        crc,
    )
}

#[test]
fn upload_stores_bytes_and_record_under_a_new_id() {
    let manager = Manager::new();
    let mut world = empty_world();
    let id = run_upload(&mut world, manager.upload_file("notes.txt", b"hello")).unwrap();
    assert_eq!(id.len(), 20);
    assert!(id.ends_with(".txt"));
    assert_eq!(world.store.get(&id), Some(&b"hello".to_vec()));
    assert_eq!(world.store.len(), 1);
    assert_eq!(
        world.index,
        vec![FileRecord {
            id: id.clone(),
            filename: "notes.txt".to_string(),
            bytes: 5,
            crc: crc32fast::hash(b"hello"),
        }]
    );
    assert_eq!(
        world.log,
        vec!["find_by_id", "exists", "find_by_content", "write", "insert"]
    );
}

#[test]
fn upload_without_extension_gets_a_bare_token() {
    let manager = Manager::new();
    let mut world = empty_world();
    let id = run_upload(&mut world, manager.upload_file("README", b"x")).unwrap();
    assert_eq!(id.len(), 16);
    assert!(id.chars().all(|c| "0123456789abcdef".contains(c)));
}

#[test]
fn same_content_twice_yields_the_first_id() {
    let manager = Manager::new();
    let mut world = empty_world();
    let first = run_upload(&mut world, manager.upload_file("one.txt", b"same bytes")).unwrap();
    world.log.clear();
    let second = run_upload(&mut world, manager.upload_file("two.bin", b"same bytes"));
    assert_eq!(second, Err(ManagerError::FileExists(first.clone())));
    assert_eq!(world.index.len(), 1);
    assert_eq!(world.store.len(), 1);
    assert_eq!(world.index[0].filename, "one.txt");
    assert_eq!(world.log, vec!["find_by_id", "exists", "find_by_content"]);
    let third = run_upload(&mut world, manager.upload_file("three", b"same bytes"));
    assert_eq!(third, Err(ManagerError::FileExists(first)));
    assert_eq!(world.index.len(), 1);
    assert_eq!(world.store.len(), 1);
}

#[test]
fn distinct_content_yields_fresh_ids() {
    let manager = Manager::new();
    let mut world = empty_world();
    let mut seen: Vec<String> = Vec::new();
    for n in 0u8..12 {
        let data = vec![n; (n as usize) + 1];
        let known: Vec<String> = world.index.iter().map(|r| r.id.clone()).collect();
        let id = run_upload(&mut world, manager.upload_file("f.dat", &data)).unwrap();
        assert!(!known.contains(&id));
        assert!(!seen.contains(&id));
        assert_eq!(world.store.get(&id), Some(&data));
        seen.push(id);
    }
    assert_eq!(world.index.len(), 12);
    assert_eq!(world.store.len(), 12);
}

#[test]
fn same_length_and_checksum_counts_as_same_content() {
    let mut world = empty_world();
    let first = run_upload(&mut world, start("a", b"abc", None, "1111111111111111", 7)).unwrap();
    let second = run_upload(&mut world, start("b", b"xyz", None, "2222222222222222", 7));
    assert_eq!(second, Err(ManagerError::FileExists(first)));
    let third = run_upload(&mut world, start("c", b"xyzw", None, "3333333333333333", 7));
    assert_eq!(third, Ok("3333333333333333".to_string()));
    let fourth = run_upload(&mut world, start("d", b"abc", None, "4444444444444444", 8));
    assert_eq!(fourth, Ok("4444444444444444".to_string()));
}

#[test]
fn first_request_asks_the_index_about_the_candidate() {
    let (_, request) = expect_ask(start("movie.mp4", b"abc", Some("mp4"), "00aa00aa00aa00aa", 9));
    assert_eq!(request, Request::IndexFindById("00aa00aa00aa00aa.mp4".to_string()));
}

#[test]
fn commit_walks_through_its_requests_in_order() {
    let (upload, _) = expect_ask(start("movie.mp4", b"abc", Some("mp4"), "00aa00aa00aa00aa", 9));
    let (upload, request) =
        expect_ask(upload.advance_with(Reply::Flag(false), "ffffffffffffffff".to_string()));
    assert_eq!(request, Request::StoreExists("00aa00aa00aa00aa.mp4".to_string()));
    let (upload, request) = expect_ask(upload.advance(Reply::Flag(false)));
    assert_eq!(request, Request::IndexFindByContent { bytes: 3, crc: 9 });
    let (upload, request) = expect_ask(upload.advance(Reply::Match(None)));
    assert_eq!(
        request,
        Request::StoreWrite { id: "00aa00aa00aa00aa.mp4".to_string(), data: b"abc".to_vec() }
    );
    let (upload, request) = expect_ask(upload.advance(Reply::Done));
    assert_eq!(
        request,
        Request::IndexInsert(FileRecord {
            id: "00aa00aa00aa00aa.mp4".to_string(),
            filename: "movie.mp4".to_string(),
            bytes: 3,
            crc: 9,
        })
    );
    assert_eq!(
        expect_done(upload.advance(Reply::Done)),
        Ok("00aa00aa00aa00aa.mp4".to_string())
    );
}

#[test]
fn checksum_in_the_request_is_that_of_the_bytes() {
    let manager = Manager::new();
    let (upload, _) = expect_ask(manager.upload_file("nine", b"123456789"));
    let (upload, _) = expect_ask(upload.advance(Reply::Flag(false)));
    let (_, request) = expect_ask(upload.advance(Reply::Flag(false)));
    assert_eq!(request, Request::IndexFindByContent { bytes: 9, crc: 0xcbf43926 });
}

#[test]
fn candidate_in_use_is_replaced_by_the_next_token() {
    let (upload, _) = expect_ask(start("a.txt", b"abc", Some("txt"), "0000000000000001", 9));
    let (upload, request) =
        expect_ask(upload.advance_with(Reply::Flag(true), "0000000000000002".to_string()));
    assert_eq!(request, Request::IndexFindById("0000000000000002.txt".to_string()));
    let (_, request) =
        expect_ask(upload.advance_with(Reply::Flag(false), "0000000000000003".to_string()));
    assert_eq!(request, Request::StoreExists("0000000000000002.txt".to_string()));
}

#[test]
fn five_candidates_in_use_exhaust_the_commit() {
    let (mut upload, _) = expect_ask(start("a", b"abc", None, "0000000000000001", 9));
    for n in 2..=5 {
        assert!(upload.needs_token(&Reply::Flag(true)));
        let token = format!("000000000000000{}", n);
        let (next, request) = expect_ask(upload.advance_with(Reply::Flag(true), token.clone()));
        assert_eq!(request, Request::IndexFindById(token));
        upload = next;
    }
    assert!(!upload.needs_token(&Reply::Flag(true)));
    assert_eq!(
        expect_done(upload.advance_with(Reply::Flag(true), "0000000000000006".to_string())),
        Err(ManagerError::UnableToGenerateId)
    );
}

#[test]
fn index_that_knows_every_id_exhausts_the_commit_after_five_probes() {
    let manager = Manager::new();
    let mut probes = 0;
    let mut step = manager.upload_file("a.txt", b"abc");
    let outcome = loop {
        match step {
            UploadStep::Ask(upload, request) => {
                assert!(matches!(request, Request::IndexFindById(_)));
                probes += 1;
                step = upload.advance(Reply::Flag(true));
            }
            UploadStep::Done(outcome) => break outcome,
        }
    };
    assert_eq!(probes, 5);
    assert_eq!(outcome, Err(ManagerError::UnableToGenerateId));
}

#[test]
fn fifth_candidate_may_still_be_taken() {
    let (mut upload, _) = expect_ask(start("a", b"abc", None, "0000000000000001", 9));
    for n in 2..=5 {
        let token = format!("000000000000000{}", n);
        upload = expect_ask(upload.advance_with(Reply::Flag(true), token)).0;
    }
    let (_, request) = expect_ask(upload.advance(Reply::Flag(false)));
    assert_eq!(request, Request::StoreExists("0000000000000005".to_string()));
}

#[test]
fn entry_in_the_store_under_the_new_id_fails_the_commit() {
    let mut world = empty_world();
    world.store.insert("00aa00aa00aa00aa".to_string(), vec![1]);
    let outcome = run_upload(&mut world, start("a", b"abc", None, "00aa00aa00aa00aa", 9));
    assert_eq!(outcome, Err(ManagerError::UnableToGenerateId));
    assert_eq!(world.store.get("00aa00aa00aa00aa"), Some(&vec![1u8]));
    assert!(world.index.is_empty());
    assert_eq!(world.log, vec!["find_by_id", "exists"]);
}

#[test]
fn failing_id_probe_is_a_query_failure() {
    let (upload, _) = expect_ask(start("a", b"abc", None, "00aa00aa00aa00aa", 9));
    assert_eq!(expect_done(upload.advance(Reply::Failed)), Err(ManagerError::QueryFailed));
}

#[test]
fn failing_content_probe_is_a_query_failure() {
    let (upload, _) = expect_ask(start("a", b"abc", None, "00aa00aa00aa00aa", 9));
    let (upload, _) = expect_ask(upload.advance(Reply::Flag(false)));
    let (upload, _) = expect_ask(upload.advance(Reply::Flag(false)));
    assert_eq!(expect_done(upload.advance(Reply::Failed)), Err(ManagerError::QueryFailed));
}

#[test]
fn failing_write_is_a_storage_failure_and_nothing_is_recorded() {
    let (upload, _) = expect_ask(start("a", b"abc", None, "00aa00aa00aa00aa", 9));
    let (upload, _) = expect_ask(upload.advance(Reply::Flag(false)));
    let (upload, _) = expect_ask(upload.advance(Reply::Flag(false)));
    let (upload, request) = expect_ask(upload.advance(Reply::Match(None)));
    assert!(matches!(request, Request::StoreWrite { .. }));
    assert_eq!(
        expect_done(upload.advance(Reply::Failed)),
        Err(ManagerError::StorageWriteFailed)
    );
}

#[test]
fn failing_insert_is_a_metadata_failure() {
    let (upload, _) = expect_ask(start("a", b"abc", None, "00aa00aa00aa00aa", 9));
    let (upload, _) = expect_ask(upload.advance(Reply::Flag(false)));
    let (upload, _) = expect_ask(upload.advance(Reply::Flag(false)));
    let (upload, _) = expect_ask(upload.advance(Reply::Match(None)));
    let (upload, request) = expect_ask(upload.advance(Reply::Done));
    assert!(matches!(request, Request::IndexInsert(_)));
    assert_eq!(
        expect_done(upload.advance(Reply::Failed)),
        Err(ManagerError::MetadataWriteFailed)
    );
}

#[test]
fn reply_of_the_wrong_kind_counts_as_failure() {
    let (upload, _) = expect_ask(start("a", b"abc", None, "00aa00aa00aa00aa", 9));
    assert_eq!(expect_done(upload.advance(Reply::Count(3))), Err(ManagerError::QueryFailed));
    let (upload, _) = expect_ask(start("a", b"abc", None, "00aa00aa00aa00aa", 9));
    let (upload, _) = expect_ask(upload.advance(Reply::Flag(false)));
    assert_eq!(
        expect_done(upload.advance(Reply::Done)),
        Err(ManagerError::UnableToGenerateId)
    );
    let (upload, _) = expect_ask(start("a", b"abc", None, "00aa00aa00aa00aa", 9));
    let (upload, _) = expect_ask(upload.advance(Reply::Flag(false)));
    let (upload, _) = expect_ask(upload.advance(Reply::Flag(false)));
    let (upload, _) = expect_ask(upload.advance(Reply::Match(None)));
    assert_eq!(
        expect_done(upload.advance(Reply::Flag(true))),
        Err(ManagerError::StorageWriteFailed)
    );
}

#[test]
fn chunked_upload_ends_in_a_stored_and_listed_file() {
    let mut manager = Manager::new();
    let mut world = empty_world();
    let bytes: Vec<u8> = (100u8..120).collect();
    let session = manager.begin_chunked_upload("movie.mp4", 20).unwrap();
    manager.process_chunk(&session, &bytes[0..10], 0).unwrap();
    manager.process_chunk(&session, &bytes[10..20], 10).unwrap();
    let step = manager.finish_chunked_upload(&session).unwrap();
    let id = run_upload(&mut world, step).unwrap();
    assert!(id.ends_with(".mp4"));
    assert_eq!(world.store.get(&id), Some(&bytes));
    let (total, files) = run_listing(&mut world, manager.get_files(1)).unwrap();
    assert_eq!(total, 1);
    assert_eq!(
        files,
        vec![DatabaseFile { id: id.clone(), filename: "movie.mp4".to_string(), bytes: 20 }]
    );
    assert!(!manager.has_upload(&session));
}

#[test]
fn overlapping_chunks_are_stored_with_the_last_write_on_top() {
    let mut manager = Manager::new();
    let mut world = empty_world();
    let session = manager.begin_chunked_upload("o.bin", 6).unwrap();
    manager.process_chunk(&session, &[1, 1, 1, 1], 0).unwrap();
    manager.process_chunk(&session, &[2, 2, 2, 2], 2).unwrap();
    manager.process_chunk(&session, &[3], 3).unwrap();
    let id = run_upload(&mut world, manager.finish_chunked_upload(&session).unwrap()).unwrap();
    assert_eq!(world.store.get(&id), Some(&vec![1u8, 1, 2, 3, 2, 2]));
    assert_eq!(world.index[0].bytes, 6);
    assert_eq!(world.index[0].crc, crc32fast::hash(&[1, 1, 2, 3, 2, 2]));
}

#[test]
fn finish_before_all_bytes_are_written_stores_zeros_in_the_gaps() {
    let mut manager = Manager::new();
    let mut world = empty_world();
    let session = manager.begin_chunked_upload("gap.bin", 4).unwrap();
    manager.process_chunk(&session, &[9], 3).unwrap();
    let id = run_upload(&mut world, manager.finish_chunked_upload(&session).unwrap()).unwrap();
    assert_eq!(world.store.get(&id), Some(&vec![0u8, 0, 0, 9]));
}

#[test]
fn chunked_upload_of_known_content_reports_the_existing_id() {
    let mut manager = Manager::new();
    let mut world = empty_world();
    let first = run_upload(&mut world, manager.upload_file("whole.bin", &[4, 5, 6])).unwrap();
    let session = manager.begin_chunked_upload("parts.bin", 3).unwrap();
    manager.process_chunk(&session, &[5, 6], 1).unwrap();
    manager.process_chunk(&session, &[4], 0).unwrap();
    let outcome = run_upload(&mut world, manager.finish_chunked_upload(&session).unwrap());
    assert_eq!(outcome, Err(ManagerError::FileExists(first)));
    assert_eq!(world.index.len(), 1);
    assert_eq!(world.store.len(), 1);
}

#[test]
fn delete_of_a_file_without_store_entry_is_not_found() {
    let manager = Manager::new();
    let mut world = empty_world();
    world.index.push(FileRecord {
        id: "lost".to_string(),
        filename: "lost.txt".to_string(),
        bytes: 1,
        crc: 2,
    });
    let outcome = run_deletion(&mut world, manager.delete_file("lost"));
    assert_eq!(outcome, Err(ManagerError::FileNotFound));
    assert_eq!(world.index.len(), 1);
    assert_eq!(world.index[0].id, "lost");
    assert_eq!(world.log, vec!["exists"]);
}

#[test]
fn delete_removes_entry_and_record() {
    let manager = Manager::new();
    let mut world = empty_world();
    let kept = run_upload(&mut world, manager.upload_file("kept.txt", b"kept")).unwrap();
    let gone = run_upload(&mut world, manager.upload_file("gone.txt", b"gone")).unwrap();
    world.log.clear();
    assert_eq!(run_deletion(&mut world, manager.delete_file(&gone)), Ok(()));
    assert_eq!(world.log, vec!["exists", "delete", "delete_by_id"]);
    assert!(!world.store.contains_key(&gone));
    assert!(world.store.contains_key(&kept));
    assert_eq!(world.index.len(), 1);
    assert_eq!(world.index[0].id, kept);
    assert_eq!(
        run_deletion(&mut world, manager.delete_file(&gone)),
        Err(ManagerError::FileNotFound)
    );
}

#[test]
fn deleted_content_can_be_uploaded_again() {
    let manager = Manager::new();
    let mut world = empty_world();
    let first = run_upload(&mut world, manager.upload_file("a.txt", b"again")).unwrap();
    run_deletion(&mut world, manager.delete_file(&first)).unwrap();
    let second = run_upload(&mut world, manager.upload_file("a.txt", b"again"));
    assert!(second.is_ok());
    assert_eq!(world.index.len(), 1);
}

#[test]
fn failing_store_deletion_leaves_the_record_alone() {
    let manager = Manager::new();
    let (deletion, request) = match manager.delete_file("f") {
        DeletionStep::Ask(deletion, request) => (deletion, request),
        DeletionStep::Done(_) => panic!("ended early"),
    };
    assert_eq!(request, Request::StoreExists("f".to_string()));
    let (deletion, request) = match deletion.advance(Reply::Flag(true)) {
        DeletionStep::Ask(deletion, request) => (deletion, request),
        DeletionStep::Done(_) => panic!("ended early"),
    };
    assert_eq!(request, Request::StoreDelete("f".to_string()));
    match deletion.advance(Reply::Failed) {
        DeletionStep::Done(outcome) => assert_eq!(outcome, Err(ManagerError::FailedToDelete)),
        DeletionStep::Ask(_, request) => panic!("asked for {:?}", request),
    }
}

#[test]
fn failing_record_deletion_is_a_query_failure() {
    let manager = Manager::new();
    let mut step = manager.delete_file("f");
    let mut replies = vec![Reply::Failed, Reply::Done, Reply::Flag(true)];
    let mut asked = Vec::new();
    let outcome = loop {
        match step {
            DeletionStep::Ask(deletion, request) => {
                asked.push(request);
                step = deletion.advance(replies.pop().unwrap());
            }
            DeletionStep::Done(outcome) => break outcome,
        }
    };
    assert_eq!(outcome, Err(ManagerError::QueryFailed));
    assert_eq!(
        asked,
        vec![
            Request::StoreExists("f".to_string()),
            Request::StoreDelete("f".to_string()),
            Request::IndexDeleteById("f".to_string()),
        ]
    );
}

#[test]
fn listing_shows_ten_files_a_page_and_the_full_count() {
    let manager = Manager::new();
    let mut world = empty_world();
    let mut ids = Vec::new();
    for n in 0u8..23 {
        ids.push(run_upload(&mut world, manager.upload_file("f", &[n])).unwrap());
    }
    let (total, files) = run_listing(&mut world, manager.get_files(1)).unwrap();
    assert_eq!(total, 23);
    assert_eq!(files.len(), 10);
    assert_eq!(files.iter().map(|f| f.id.clone()).collect::<Vec<_>>(), ids[0..10].to_vec());
    let (total, files) = run_listing(&mut world, manager.get_files(2)).unwrap();
    assert_eq!(total, 23);
    assert_eq!(files.iter().map(|f| f.id.clone()).collect::<Vec<_>>(), ids[10..20].to_vec());
    let (total, files) = run_listing(&mut world, manager.get_files(3)).unwrap();
    assert_eq!(total, 23);
    assert_eq!(files.iter().map(|f| f.id.clone()).collect::<Vec<_>>(), ids[20..23].to_vec());
    let (total, files) = run_listing(&mut world, manager.get_files(4)).unwrap();
    assert_eq!(total, 23);
    assert!(files.is_empty());
}

#[test]
fn listing_of_an_empty_index_is_empty() {
    let manager = Manager::new();
    let mut world = empty_world();
    assert_eq!(run_listing(&mut world, manager.get_files(1)), Ok((0, Vec::new())));
    assert_eq!(world.log, vec!["count", "list"]);
}

#[test]
fn listing_asks_for_the_page_offset() {
    let manager = Manager::new();
    for (page, offset) in [(1usize, 0u64), (2, 10), (3, 20), (101, 1000)] {
        let listing = match manager.get_files(page) {
            ListingStep::Ask(listing, request) => {
                assert_eq!(request, Request::IndexCount);
                listing
            }
            ListingStep::Done(_) => panic!("ended early"),
        };
        match listing.advance(Reply::Count(5)) {
            ListingStep::Ask(_, request) => {
                assert_eq!(request, Request::IndexList { limit: 10, offset })
            }
            ListingStep::Done(_) => panic!("ended early"),
        }
    }
}

#[test]
fn failing_count_or_list_is_a_query_failure() {
    let manager = Manager::new();
    let listing = match manager.get_files(1) {
        ListingStep::Ask(listing, _) => listing,
        ListingStep::Done(_) => panic!("ended early"),
    };
    match listing.advance(Reply::Failed) {
        ListingStep::Done(outcome) => assert_eq!(outcome, Err(ManagerError::QueryFailed)),
        ListingStep::Ask(_, request) => panic!("asked for {:?}", request),
    }
    let listing = match manager.get_files(1) {
        ListingStep::Ask(listing, _) => listing,
        ListingStep::Done(_) => panic!("ended early"),
    };
    let listing = match listing.advance(Reply::Count(3)) {
        ListingStep::Ask(listing, _) => listing,
        ListingStep::Done(_) => panic!("ended early"),
    };
    match listing.advance(Reply::Failed) {
        ListingStep::Done(outcome) => assert_eq!(outcome, Err(ManagerError::QueryFailed)),
        ListingStep::Ask(_, request) => panic!("asked for {:?}", request),
    }
}

fn first_probe(filename: &str, data: &[u8]) -> String {
    match expect_ask(Manager::new().upload_file(filename, data)).1 {
        Request::IndexFindById(id) => id,
        request => panic!("asked for {:?}", request),
    }
}

fn checksum_asked(data: &[u8]) -> (i64, u32) {
    let (upload, _) = expect_ask(Manager::new().upload_file("f", data));
    let (upload, _) = expect_ask(upload.advance(Reply::Flag(false)));
    match expect_ask(upload.advance(Reply::Flag(false))).1 {
        Request::IndexFindByContent { bytes, crc } => (bytes, crc),
        request => panic!("asked for {:?}", request),
    }
}

#[test]
fn id_ends_with_what_follows_the_last_dot_of_the_name() {
    assert!(first_probe("movie.mp4", b"x").ends_with(".mp4"));
    assert_eq!(first_probe("movie.mp4", b"x").len(), 20);
    assert!(first_probe("archive.tar.gz", b"x").ends_with(".gz"));
    assert_eq!(first_probe("archive.tar.gz", b"x").len(), 19);
    assert!(first_probe("dir/photo.JPG", b"x").ends_with(".JPG"));
}

#[test]
fn name_without_extension_gives_an_id_without_dot() {
    for name in ["README", "", ".bashrc"] {
        let id = first_probe(name, b"x");
        assert_eq!(id.len(), 16);
        assert!(!id.contains('.'));
    }
}

#[test]
fn length_and_checksum_asked_are_those_of_the_bytes() {
    assert_eq!(checksum_asked(b"123456789"), (9, 0xcbf43926));
    assert_eq!(checksum_asked(b""), (0, 0));
    assert_eq!(checksum_asked(b"a"), (1, 0xe8b7be43));
    assert_eq!(checksum_asked(b"hello world"), (11, crc32fast::hash(b"hello world")));
}

#[test]
fn checksum_tells_content_of_one_length_apart() {
    assert_ne!(checksum_asked(&[0u8; 20]), checksum_asked(&[1u8; 20]));
    assert_ne!(checksum_asked(&[0u8; 20]).0, checksum_asked(&[0u8; 21]).0);
}
