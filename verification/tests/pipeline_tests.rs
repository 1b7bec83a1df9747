use clipvault::classify::{classify, RawPayload};
use clipvault::entry::EntryType;
use clipvault::ocr::decode_image_payload;
use clipvault::orchestrate::{on_clipboard_captured, on_ocr_complete, save_capture, CaptureError};
use clipvault::query::FilterOptions;
use clipvault::store::HistoryStore;
use clipvault::text::matches_text;
use clipvault::{ClassificationError, OcrError};

#[test]
fn classify_text_keeps_the_text() {
    let d = classify(
        RawPayload::Text("hello".to_string()),
        "Term".to_string(),
        "term.exe".to_string(),
    )
    .unwrap();
    assert_eq!(d.type_, EntryType::Text);
    assert_eq!(d.content, "hello");
    assert!(d.html.is_none());
    assert!(d.image.is_none());
}

#[test]
fn classify_html_keeps_markup_and_fallback() {
    let d = classify(
        RawPayload::Html {
            markup: "<b>hi</b>".to_string(),
            fallback: "hi".to_string(),
        },
        "Web".to_string(),
        "web.exe".to_string(),
    )
    .unwrap();
    assert_eq!(d.type_, EntryType::Html);
    assert_eq!(d.content, "hi");
    assert_eq!(d.html.as_deref(), Some("<b>hi</b>"));
}

#[test]
fn classify_image_encodes_the_bytes() {
    let d = classify(
        RawPayload::Image(vec![97, 98, 99]),
        "Paint".to_string(),
        "paint.exe".to_string(),
    )
    .unwrap();
    assert_eq!(d.type_, EntryType::Image);
    assert_eq!(d.content, "");
    // Standard base64 of the bytes `abc`.
    assert_eq!(d.image.as_deref(), Some("YWJj"));
}

#[test]
fn classify_rejects_empty_payloads() {
    let r = classify(RawPayload::Text(String::new()), String::new(), String::new());
    assert_eq!(r.unwrap_err(), ClassificationError::EmptyPayload);
    let r = classify(RawPayload::Image(Vec::new()), String::new(), String::new());
    assert_eq!(r.unwrap_err(), ClassificationError::EmptyPayload);
    let r = classify(
        RawPayload::Html { markup: String::new(), fallback: "x".to_string() },
        String::new(),
        String::new(),
    );
    assert_eq!(r.unwrap_err(), ClassificationError::EmptyPayload);
}

#[test]
fn decode_image_payload_round_trips() {
    assert_eq!(decode_image_payload("YWJj").unwrap(), vec![97, 98, 99]);
    assert_eq!(decode_image_payload("").unwrap(), Vec::<u8>::new());
    assert_eq!(decode_image_payload("not base64!").unwrap_err(), OcrError::DecodeError);
}

#[test]
fn stored_image_payload_decodes_to_the_captured_bytes() {
    let bytes = vec![0u8, 1, 2, 254, 255, 100];
    let d = classify(
        RawPayload::Image(bytes.clone()),
        "Paint".to_string(),
        "paint.exe".to_string(),
    )
    .unwrap();
    let stored = d.image.unwrap();
    assert_eq!(decode_image_payload(&stored).unwrap(), bytes);
}

#[test]
fn capture_dispatches_ocr_only_for_new_images() {
    let mut store = HistoryStore::new();
    let bytes = vec![1, 2, 3, 4];
    let o1 = on_clipboard_captured(
        &mut store,
        RawPayload::Image(bytes.clone()),
        "Paint".to_string(),
        "paint.exe".to_string(),
        10,
    )
    .unwrap();
    assert!(o1.dispatch_ocr);
    let o2 = on_clipboard_captured(
        &mut store,
        RawPayload::Image(bytes),
        "Paint".to_string(),
        "paint.exe".to_string(),
        20,
    )
    .unwrap();
    assert_eq!(o1.id, o2.id);
    assert!(!o2.dispatch_ocr, "a repeat capture must not re-run OCR");
    let o3 = on_clipboard_captured(
        &mut store,
        RawPayload::Text("plain".to_string()),
        "T".to_string(),
        "t.exe".to_string(),
        30,
    )
    .unwrap();
    assert!(!o3.dispatch_ocr, "text never runs OCR");
}

#[test]
fn malformed_captures_never_reach_the_store() {
    let mut store = HistoryStore::new();
    let r = on_clipboard_captured(
        &mut store,
        RawPayload::Text(String::new()),
        "T".to_string(),
        "t.exe".to_string(),
        1,
    );
    assert_eq!(
        r.unwrap_err(),
        CaptureError::Classification(ClassificationError::EmptyPayload)
    );
    assert_eq!(store.len(), 0);
}

#[test]
fn ocr_completion_fills_the_content() {
    let mut store = HistoryStore::new();
    let o = on_clipboard_captured(
        &mut store,
        RawPayload::Image(vec![9, 9, 9]),
        "Scan".to_string(),
        "scan.exe".to_string(),
        5,
    )
    .unwrap();
    on_ocr_complete(&mut store, o.id, Ok("recognized words".to_string()));
    let row = store.get_entry(o.id).unwrap();
    assert_eq!(row.content, "recognized words");
    // The extracted text is searchable now.
    let f = FilterOptions {
        type_: None,
        window_title: None,
        window_exe: None,
        content: Some("recognized".to_string()),
    };
    let page = store.get_history(Some(&f), None, None, None).unwrap();
    assert_eq!(page.len(), 1);
    assert_eq!(page[0].id, o.id);
}

#[test]
fn failed_ocr_leaves_the_entry_untouched() {
    let mut store = HistoryStore::new();
    let o = on_clipboard_captured(
        &mut store,
        RawPayload::Image(vec![7]),
        "Scan".to_string(),
        "scan.exe".to_string(),
        5,
    )
    .unwrap();
    on_ocr_complete(&mut store, o.id, Err(OcrError::OcrEngineError));
    let row = store.get_entry(o.id).unwrap();
    assert_eq!(row.content, "");
    assert_eq!(row.image, "Bw==");
}

#[test]
fn ocr_after_delete_is_a_benign_noop() {
    let mut store = HistoryStore::new();
    let o = on_clipboard_captured(
        &mut store,
        RawPayload::Image(vec![5, 6]),
        "Scan".to_string(),
        "scan.exe".to_string(),
        5,
    )
    .unwrap();
    store.delete(o.id);
    on_ocr_complete(&mut store, o.id, Ok("late text".to_string()));
    assert_eq!(store.len(), 0);
    assert!(store.get_entry(o.id).is_none());
    // The index stayed consistent: a content query still works and
    // returns nothing.
    let f = FilterOptions {
        type_: None,
        window_title: None,
        window_exe: None,
        content: Some("late".to_string()),
    };
    let page = store.get_history(Some(&f), None, None, None).unwrap();
    assert!(page.is_empty());
}

#[test]
fn save_capture_uses_the_wall_clock() {
    let mut store = HistoryStore::new();
    let a = save_capture(
        &mut store,
        "clocked".to_string(),
        "T".to_string(),
        "t.exe".to_string(),
        EntryType::Text,
        None,
        None,
    )
    .unwrap();
    let b = save_capture(
        &mut store,
        "clocked".to_string(),
        "T".to_string(),
        "t.exe".to_string(),
        EntryType::Text,
        None,
        None,
    )
    .unwrap();
    assert_eq!(a, b);
    let row = store.get_entry(a).unwrap();
    assert_eq!(row.count, 2);
    assert!(row.first_copied_date <= row.last_copied_date);
    assert!(row.first_copied_date > 0, "the clock reads a real time");
}

#[test]
fn text_matching_is_case_insensitive_token_prefix() {
    assert!(matches_text("Invoices due tomorrow", "invoice", true));
    assert!(!matches_text("Invoices due tomorrow", "nvoice", true));
    assert!(matches_text("Google Chrome", "chrome", false));
    assert!(!matches_text("Chromium", "chrome", false));
    assert!(matches_text("x", "", true));
    assert!(!matches_text("", "x", true));
    assert!(matches_text("due 2026-10-12", "2026", true));
}
