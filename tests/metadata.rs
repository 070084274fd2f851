use manga_viewer::metadata::{recent_documents, thumbnail_from_blob, ComicMetadata, MAX_RECENT_DOCUMENTS};

fn record(path: &str, time: u64) -> ComicMetadata {
    ComicMetadata::for_new_document(path, time)
}

#[test]
fn new_document_record_defaults() {
    let r = record("/a/b", 42);
    assert_eq!(r.path, "/a/b");
    assert_eq!(r.title, "/a/b");
    assert_eq!((r.chunk_count, r.last_seen_chunk, r.last_time_opened), (0, 0, 42));
    assert!(r.thumbnail.is_none());
}

#[test]
fn closing_record_clamps_position() {
    let r = record("/a", 1).on_close(4, 9, 5);
    assert_eq!(r.last_seen_chunk, 3);
    let r = record("/a", 1).on_close(0, 9, 5);
    assert_eq!(r.last_seen_chunk, 0);
    assert_eq!(r.path, "/a");
}

#[test]
fn recents_are_newest_first_and_capped() {
    let mut all = Vec::new();
    for i in 0..11u64 {
        all.push(record(&format!("/doc{i}"), (i * 7) % 11));
    }
    let recent = recent_documents(all);
    assert_eq!(recent.len(), MAX_RECENT_DOCUMENTS);
    let times: Vec<u64> = recent.iter().map(|r| r.last_time_opened).collect();
    assert_eq!(times, vec![10, 9, 8, 7, 6, 5, 4, 3]);
    assert_eq!(recent[0].path, "/doc3");
}

#[test]
fn short_recents_keep_everything() {
    let recent = recent_documents(vec![record("/x", 1), record("/y", 3), record("/z", 2)]);
    let paths: Vec<&str> = recent.iter().map(|r| r.path.as_str()).collect();
    assert_eq!(paths, vec!["/y", "/z", "/x"]);
    assert!(recent_documents(Vec::new()).is_empty());
}

#[test]
fn empty_thumbnail_blob_is_none() {
    assert_eq!(thumbnail_from_blob(Vec::new()), None);
    assert_eq!(thumbnail_from_blob(vec![1, 2]), Some(vec![1, 2]));
}
