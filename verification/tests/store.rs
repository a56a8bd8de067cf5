use wispee::store::{FilePersistentStore, InMemoryPersistentStore, PersistentStore, RecordingWriter};

#[test]
fn file_store_reads_back_what_it_saved() {
    let mut s = FilePersistentStore::new(Vec::new(), RecordingWriter::new());
    assert_eq!(s.load("k"), None);
    s.save("k", "v1");
    s.save("other", "x");
    s.save("k", "v2");
    assert_eq!(s.load("k"), Some("v2".to_string()));
    assert_eq!(s.load("other"), Some("x".to_string()));
    s.delete("k");
    assert_eq!(s.load("k"), None);
    assert_eq!(s.entries(), &vec![("other".to_string(), "x".to_string())]);
    assert_eq!(s.writer().writes().len(), 4);
    assert_eq!(s.writer().writes()[2], vec![("other".to_string(), "x".to_string()), ("k".to_string(), "v2".to_string())]);
    assert_eq!(s.writer().writes()[3], vec![("other".to_string(), "x".to_string())]);
}

#[test]
fn file_store_starts_from_earlier_entries() {
    let earlier = vec![("a".to_string(), "1".to_string()), ("b".to_string(), "2".to_string())];
    let s = FilePersistentStore::new(earlier, RecordingWriter::new());
    assert_eq!(s.load("a"), Some("1".to_string()));
    assert_eq!(s.load("b"), Some("2".to_string()));
    assert_eq!(s.load("c"), None);
}

#[test]
fn in_memory_store_save_load_delete() {
    let mut s = InMemoryPersistentStore::new();
    s.save("k", "v");
    assert_eq!(s.load("k"), Some("v".to_string()));
    s.delete("k");
    assert_eq!(s.load("k"), None);
    s.save("a", "1");
    s.save("b", "2");
    s.save("a", "3");
    s.delete("b");
    assert_eq!(s.data(), &vec![("a".to_string(), "3".to_string())]);
}

#[test]
fn file_store_reads_its_file_text() {
    let s = FilePersistentStore::from_file_text(Some("{\"a\": \"1\", \"b\": \"2\"}"), RecordingWriter::new()).unwrap();
    assert_eq!(s.load("a"), Some("1".to_string()));
    assert_eq!(s.load("b"), Some("2".to_string()));
    assert_eq!(s.load("c"), None);
    let empty = FilePersistentStore::from_file_text(None, RecordingWriter::new()).unwrap();
    assert_eq!(empty.load("a"), None);
    assert!(FilePersistentStore::from_file_text(Some("not json"), RecordingWriter::new()).is_none());
    assert!(FilePersistentStore::from_file_text(Some("[1, 2]"), RecordingWriter::new()).is_none());
}
