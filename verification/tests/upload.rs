use lite_server::upload::{
    begin_chunk, begin_completion, check_owner, chunk_file, chunks_dir, declare_files,
    default_chunk_size, destination, expected_chunks, file_complete, may_open_session, meta_path,
    new_session_id, open_session, received_chunks, revert_completion, sanitize_upload_name, staging_dir, Assembly,
    ErrorKind, InitFile, SessionFile, SessionMeta, SessionState, UploadError, CHUNK_SIZE,
    MAX_ACTIVE_SESSIONS, MAX_SESSION_FILES,
};

fn init(name: &str, size: u64) -> InitFile {
    InitFile { name: name.to_string(), size, sha256: None }
}

fn session(files: &[(&str, u64)]) -> SessionMeta {
    let declared: Vec<InitFile> = files.iter().map(|(n, s)| init(n, *s)).collect();
    let files = match declare_files(&declared, None) {
        Ok(f) => f,
        Err(e) => panic!("{e:?}"),
    };
    let mut meta = open_session("mymodel", "1", files);
    meta.chunk_size = 64;
    meta
}

fn file(name: &str, size: u64, sha256: Option<String>) -> SessionFile {
    SessionFile { name: name.to_string(), size, sha256, is_lma: false }
}

fn refusal<T>(r: Result<T, UploadError>) -> UploadError {
    match r {
        Err(e) => e,
        Ok(_) => panic!("must be refused"),
    }
}

#[test]
fn test_init_returns_session_id_and_chunk_size() {
    let meta = open_session("mymodel", "1", vec![file("model.py", 100, None)]);
    assert_eq!(meta.chunk_size, default_chunk_size());
    assert_eq!(default_chunk_size(), 16 * 1024 * 1024);
    assert_eq!(CHUNK_SIZE, default_chunk_size());
    assert_eq!(meta.model, "mymodel");
    assert_eq!(meta.version, "1");
    assert_eq!(meta.state, SessionState::Uploading);
    assert_eq!(meta.files.len(), 1);
}

#[test]
fn test_init_rejects_bad_file_sets() {
    let none = refusal(declare_files(&vec![], None));
    assert!(matches!(none, UploadError::FileCount));
    let hidden = refusal(declare_files(&vec![init(".hidden", 1)], None));
    assert!(matches!(hidden, UploadError::InvalidName(_)));
    let two = refusal(declare_files(&vec![init("a.lma", 1), init("b.lma", 1)], None));
    assert!(matches!(two, UploadError::SecondArtifact));
    let many: Vec<InitFile> = (0..=MAX_SESSION_FILES).map(|i| init(&format!("f{i}"), 1)).collect();
    assert!(matches!(refusal(declare_files(&many, None)), UploadError::FileCount));
}

#[test]
fn test_init_rejects_declared_size_over_cap() {
    let e = refusal(declare_files(&vec![init("weights.bin", 101)], Some(100)));
    assert!(matches!(e, UploadError::TotalTooLarge { max: 100, actual: 101 }));
    assert_eq!(e.kind(), ErrorKind::TooLarge);
    assert!(declare_files(&vec![init("weights.bin", 100)], Some(100)).is_ok());
    let huge = vec![init("a", u64::MAX), init("b", 5)];
    let e = refusal(declare_files(&huge, Some(10)));
    assert!(matches!(e, UploadError::TotalTooLarge { actual: u64::MAX, .. }));
}

#[test]
fn test_chunk_bitmap_tracks_out_of_order_puts() {
    let names = |n: &[&str]| -> Vec<String> { n.iter().map(|s| s.to_string()).collect() };
    assert_eq!(received_chunks(&names(&["2", "0"])), vec![0, 2]);
    assert!(!file_complete(2, 192, 64));
    assert_eq!(received_chunks(&names(&["2", "0", "1"])), vec![0, 1, 2]);
    assert!(file_complete(3, 192, 64));
    // Chunks that are being written do not count.
    assert_eq!(received_chunks(&names(&["10.part", "10", "9", "x"])), vec![9, 10]);
    assert_eq!(chunk_file(10, true), "10.part");
    assert_eq!(chunk_file(10, false), "10");
}

#[test]
fn test_chunk_put_enforces_exact_length_and_bounds() {
    let meta = session(&[("w.bin", 192)]);
    let mut short = begin_chunk(&meta, 0, 0).ok().unwrap();
    assert!(short.accept(10).is_ok());
    let e = refusal(short.finish());
    assert!(matches!(e, UploadError::ChunkLength { chunk: 0, want: 64, got: Some(10) }));
    assert_eq!(e.message("mymodel", "1"), "chunk 0 expects exactly 64 bytes (got 10)");
    let beyond = refusal(begin_chunk(&meta, 0, 3));
    assert!(matches!(beyond, UploadError::ChunkOutOfRange { chunk: 3, file: 0, expected: 3 }));
    let other = refusal(begin_chunk(&meta, 9, 0));
    assert!(matches!(other, UploadError::FileOutOfRange { index: 9 }));
    let mut long = begin_chunk(&meta, 0, 0).ok().unwrap();
    assert!(long.accept(64).is_ok());
    assert!(long.finish().is_ok());
    assert!(matches!(
        refusal(long.accept(1)),
        UploadError::ChunkTooLarge { max: 64, actual: 65 }
    ));
}

#[test]
fn the_last_chunk_is_what_is_left() {
    let meta = session(&[("w.bin", 200)]);
    let mut tail = begin_chunk(&meta, 0, 3).ok().unwrap();
    assert_eq!(tail.want, 8);
    let e = refusal(tail.accept(9));
    assert!(matches!(e, UploadError::ChunkLength { chunk: 3, want: 8, got: None }));
    assert_eq!(expected_chunks(200, 64), 4);
    assert_eq!(expected_chunks(192, 64), 3);
    assert_eq!(expected_chunks(1, 64), 1);
    // An empty file has no chunks.
    assert_eq!(expected_chunks(0, 64), 0);
    assert!(file_complete(0, 0, 64));
}

#[test]
fn test_complete_assembles_chunks_and_commits() {
    let payload: Vec<u8> = (0..200u32).map(|i| (i % 251) as u8).collect();
    let sha = "0".repeat(64);
    let f = file("weights.bin", 200, Some(sha));
    let mut a = Assembly::new(&f);
    for part in payload.chunks(64) {
        a.append_chunk(part);
    }
    // Whatever way the bytes are cut, their digest is the same.
    let computed = match refusal(a.finish(&f)) {
        UploadError::DigestMismatch { computed, .. } => computed,
        e => panic!("{e:?}"),
    };
    let f = file("weights.bin", 200, Some(computed));
    let mut whole = Assembly::new(&f);
    whole.append_chunk(&payload);
    assert!(whole.finish(&f).is_ok());
}

#[test]
fn digests_are_those_of_sha256() {
    let abc = "ba7816bf8f01cfea414140de5dae2223b00361a396177a9cb410ff61f20015ad";
    let f = file("abc", 3, Some(abc.to_string()));
    let mut a = Assembly::new(&f);
    a.append_chunk(b"a");
    a.append_chunk(b"bc");
    assert!(a.finish(&f).is_ok());
    let empty = "e3b0c44298fc1c149afbf4c8996fb92427ae41e4649b934ca495991b7852b855";
    let f = file("nothing", 0, Some(empty.to_string()));
    assert!(Assembly::new(&f).finish(&f).is_ok());
}

#[test]
fn test_complete_with_missing_chunks_is_409() {
    let mut meta = session(&[("w.bin", 128)]);
    let e = refusal(begin_completion(&mut meta, &vec![1]));
    assert_eq!(e.kind(), ErrorKind::Conflict);
    assert_eq!(e.message("mymodel", "1"), "file 'w.bin' is missing 1 chunks");
    assert_eq!(meta.state, SessionState::Uploading);
    assert!(begin_completion(&mut meta, &vec![2]).is_ok());
    assert_eq!(meta.state, SessionState::Completing);
    assert!(matches!(
        refusal(begin_completion(&mut meta, &vec![2])),
        UploadError::AlreadyCompleting
    ));
    assert!(matches!(refusal(begin_chunk(&meta, 0, 0)), UploadError::NoMoreChunks));
}

#[test]
fn test_complete_hash_mismatch_keeps_session_retryable() {
    let bogus = "0".repeat(64);
    let f = file("w.bin", 64, Some(bogus));
    let mut a = Assembly::new(&f);
    a.append_chunk(&[b'a'; 64]);
    let e = refusal(a.finish(&f));
    assert_eq!(e.kind(), ErrorKind::InvalidBody);
    let mut meta = session(&[("w.bin", 64)]);
    begin_completion(&mut meta, &vec![1]).ok().unwrap();
    revert_completion(&mut meta);
    assert_eq!(meta.state, SessionState::Uploading);
    assert!(begin_chunk(&meta, 0, 0).is_ok());
}

#[test]
fn a_short_file_is_refused() {
    let f = file("w.bin", 65, None);
    let mut a = Assembly::new(&f);
    a.append_chunk(&[0; 64]);
    let e = refusal(a.finish(&f));
    assert_eq!(
        e.message("m", "1"),
        "assembled size mismatch for 'w.bin': declared 65 bytes, got 64"
    );
}

#[test]
fn test_session_bound_to_model_and_version() {
    let meta = session(&[("w.bin", 64)]);
    assert!(check_owner(&meta, "mymodel", "1").is_ok());
    for (m, v) in [("mymodel", "2"), ("other", "1")] {
        let e = refusal(check_owner(&meta, m, v));
        assert_eq!(e.kind(), ErrorKind::NotFound);
    }
}

#[test]
fn test_active_session_cap() {
    for n in 0..MAX_ACTIVE_SESSIONS {
        assert!(may_open_session(n).is_ok());
    }
    let e = refusal(may_open_session(MAX_ACTIVE_SESSIONS));
    assert_eq!(e.kind(), ErrorKind::Conflict);
    assert_eq!(
        e.message("m", "1"),
        "too many active upload sessions for m/1 (max 8); resume or delete one first"
    );
}

#[test]
fn names_stay_below_their_directory() {
    let ok = |n: &str| sanitize_upload_name(n).ok().unwrap();
    assert_eq!(ok("w.bin"), "w.bin");
    assert_eq!(ok("a/b/w.bin"), "w.bin");
    assert_eq!(ok("../../etc/passwd"), "passwd");
    assert_eq!(ok("dir/w.bin/"), "w.bin");
    assert_eq!(ok("w.bin/."), "w.bin");
    for bad in ["", ".", "..", "/", ".hidden", "a/.hidden", "a/.."] {
        let e = refusal(sanitize_upload_name(bad));
        assert_eq!(e.kind(), ErrorKind::Validation, "{bad:?}");
    }
}

#[test]
fn sessions_have_their_places() {
    let sid = "67e55044-10b1-426f-9247-bb680e5fe0c8";
    assert_eq!(staging_dir(sid).ok().unwrap(), format!(".tmp-upload-{sid}"));
    for bad in ["", "..", "../x", "67e55044-10b1-426f-9247-bb680e5fe0c", "x7e55044-10b1-426f-9247-bb680e5fe0c8"] {
        assert!(matches!(refusal(staging_dir(bad)), UploadError::InvalidSessionId), "{bad:?}");
    }
    assert_eq!(chunks_dir(3), ".chunks/3");
    assert_eq!(meta_path(), "session.json");
    assert_eq!(destination(&file("w.bin", 1, None), "7"), "7/w.bin");
    let mut lma = file("w.lma", 1, None);
    lma.is_lma = true;
    assert_eq!(destination(&lma, "7"), "w.lma");
}

#[test]
fn refusals_are_worded() {
    let say = |e: UploadError| e.message("m", "1");
    assert_eq!(say(UploadError::InvalidSessionId), "invalid session id");
    assert_eq!(say(UploadError::SessionNotFound), "upload session not found");
    assert_eq!(say(UploadError::FileCount), "a session declares 1..=1024 files");
    assert_eq!(say(UploadError::FileOutOfRange { index: 12 }), "file index 12 out of range");
    assert_eq!(
        say(UploadError::ChunkOutOfRange { chunk: 5, file: 1, expected: 2 }),
        "chunk index 5 out of range (file 1 expects 2 chunks)"
    );
    assert_eq!(say(UploadError::InvalidName("x".to_string())), "invalid upload file name: x");
}

#[test]
fn new_sessions_have_names_of_their_own() {
    let (a, b) = (new_session_id(), new_session_id());
    assert_ne!(a, b);
    assert_eq!(staging_dir(&a).ok().unwrap(), format!(".tmp-upload-{a}"));
}

#[test]
fn a_failed_completion_leaves_the_session_as_it_was() {
    let mut m = session(&[("w.bin", 3)]);
    assert!(begin_completion(&mut m, &vec![1]).is_ok());
    assert!(matches!(refusal(begin_chunk(&m, 0, 0)), UploadError::NoMoreChunks));
    assert!(matches!(refusal(begin_completion(&mut m, &vec![1])), UploadError::AlreadyCompleting));
    revert_completion(&mut m);
    assert!(begin_chunk(&m, 0, 0).is_ok());
    assert!(begin_completion(&mut m, &vec![1]).is_ok());
}
