use clipvault::entry::{EntryDraft, EntryType};
use clipvault::store::HistoryStore;
use clipvault::StorageError;

fn text_draft(content: &str, title: &str, exe: &str) -> EntryDraft {
    EntryDraft {
        content: content.to_string(),
        window_title: title.to_string(),
        window_exe: exe.to_string(),
        type_: EntryType::Text,
        html: None,
        image: None,
    }
}

fn image_draft(payload: &str, title: &str, exe: &str) -> EntryDraft {
    EntryDraft {
        content: String::new(),
        window_title: title.to_string(),
        window_exe: exe.to_string(),
        type_: EntryType::Image,
        html: None,
        image: Some(payload.to_string()),
    }
}

#[test]
fn dedup_counts_repeat_captures() {
    let mut store = HistoryStore::new();
    let id1 = store.upsert(text_draft("hello world", "Editor", "edit.exe"), 10).unwrap();
    let id2 = store.upsert(text_draft("hello world", "Browser", "web.exe"), 20).unwrap();
    let id3 = store.upsert(text_draft("hello world", "Shell", "sh.exe"), 30).unwrap();
    assert_eq!(id1, id2);
    assert_eq!(id2, id3);
    assert_eq!(store.len(), 1);
    let row = store.get_entry(id1).unwrap();
    assert_eq!(row.count, 3);
    assert_eq!(row.first_copied_date, 10);
    assert_eq!(row.last_copied_date, 30);
    // Provenance of the first capture is kept, not overwritten.
    assert_eq!(row.window_title, "Editor");
}

#[test]
fn distinct_content_makes_distinct_rows() {
    let mut store = HistoryStore::new();
    let a = store.upsert(text_draft("alpha", "T", "x.exe"), 1).unwrap();
    let b = store.upsert(text_draft("beta", "T", "x.exe"), 2).unwrap();
    assert_ne!(a, b);
    assert_eq!(store.len(), 2);
}

#[test]
fn text_and_html_are_distinct_rows() {
    let mut store = HistoryStore::new();
    let a = store.upsert(text_draft("same words", "T", "x.exe"), 1).unwrap();
    let html = EntryDraft {
        content: "same words".to_string(),
        window_title: "T".to_string(),
        window_exe: "x.exe".to_string(),
        type_: EntryType::Html,
        html: Some("<p>same words</p>".to_string()),
        image: None,
    };
    let b = store.upsert(html, 2).unwrap();
    assert_ne!(a, b);
    assert_eq!(store.len(), 2);
    assert_eq!(store.get_entry(a).unwrap().count, 1);
    assert_eq!(store.get_entry(b).unwrap().count, 1);
}

#[test]
fn two_upserts_of_one_identity_yield_one_row_count_two() {
    let mut store = HistoryStore::new();
    let d1 = image_draft("aGVsbG8=", "Paint", "paint.exe");
    let d2 = image_draft("aGVsbG8=", "Paint", "paint.exe");
    let a = store.upsert(d1, 100).unwrap();
    let b = store.upsert(d2, 101).unwrap();
    assert_eq!(a, b);
    assert_eq!(store.len(), 1);
    assert_eq!(store.get_entry(a).unwrap().count, 2);
}

#[test]
fn image_identity_is_the_payload_not_the_content() {
    let mut store = HistoryStore::new();
    let a = store.upsert(image_draft("QUFB", "P", "p.exe"), 1).unwrap();
    let b = store.upsert(image_draft("QkJC", "P", "p.exe"), 2).unwrap();
    assert_ne!(a, b);
    assert_eq!(store.len(), 2);
}

#[test]
fn update_content_overwrites_and_reports_missing_rows() {
    let mut store = HistoryStore::new();
    let id = store.upsert(image_draft("QUFB", "P", "p.exe"), 1).unwrap();
    assert_eq!(store.update_content(id, "scanned text".to_string()), Ok(()));
    let row = store.get_entry(id).unwrap();
    assert_eq!(row.content, "scanned text");
    assert_eq!(row.image, "QUFB");
    assert_eq!(
        store.update_content(id + 1, "nope".to_string()),
        Err(StorageError::NotFound)
    );
}

#[test]
fn delete_is_idempotent() {
    let mut store = HistoryStore::new();
    let id = store.upsert(text_draft("bye", "T", "x.exe"), 1).unwrap();
    store.delete(id);
    assert!(store.get_entry(id).is_none());
    assert_eq!(store.len(), 0);
    store.delete(id);
    assert_eq!(store.len(), 0);
}

#[test]
fn ids_are_never_reused() {
    let mut store = HistoryStore::new();
    let a = store.upsert(text_draft("one", "T", "x.exe"), 1).unwrap();
    store.delete(a);
    let b = store.upsert(text_draft("one", "T", "x.exe"), 2).unwrap();
    assert_ne!(a, b);
    assert!(b > a);
}
