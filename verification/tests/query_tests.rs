use clipvault::entry::{EntryDraft, EntryType};
use clipvault::query::{FilterOptions, SortOptions};
use clipvault::store::HistoryStore;
use clipvault::QueryError;

fn draft(content: &str, title: &str, exe: &str) -> EntryDraft {
    EntryDraft {
        content: content.to_string(),
        window_title: title.to_string(),
        window_exe: exe.to_string(),
        type_: EntryType::Text,
        html: None,
        image: None,
    }
}

fn no_filter() -> FilterOptions {
    FilterOptions { type_: None, window_title: None, window_exe: None, content: None }
}

#[test]
fn default_order_is_most_recently_copied_first() {
    let mut store = HistoryStore::new();
    store.upsert(draft("oldest", "T", "x.exe"), 100).unwrap();
    store.upsert(draft("newest", "T", "x.exe"), 300).unwrap();
    store.upsert(draft("middle", "T", "x.exe"), 200).unwrap();
    let page = store.get_history(None, None, None, None).unwrap();
    let contents: Vec<&str> = page.iter().map(|r| r.content.as_str()).collect();
    assert_eq!(contents, vec!["newest", "middle", "oldest"]);
}

#[test]
fn pagination_returns_each_entry_once() {
    let mut store = HistoryStore::new();
    for i in 0..25i64 {
        store.upsert(draft(&format!("entry {}", i), "T", "x.exe"), 1000 + i).unwrap();
    }
    let page1 = store.get_history(None, None, Some(0), Some(20)).unwrap();
    let page2 = store.get_history(None, None, Some(20), Some(20)).unwrap();
    assert_eq!(page1.len(), 20);
    assert_eq!(page2.len(), 5);
    let mut seen: Vec<i64> = Vec::new();
    for row in page1.iter().chain(page2.iter()) {
        assert!(!seen.contains(&row.id));
        seen.push(row.id);
    }
    assert_eq!(seen.len(), 25);
    let all: Vec<i64> = page1.iter().chain(page2.iter()).map(|r| r.last_copied_date).collect();
    for w in all.windows(2) {
        assert!(w[0] > w[1], "descending last_copied_date expected");
    }
}

#[test]
fn offset_beyond_the_end_gives_an_empty_page() {
    let mut store = HistoryStore::new();
    store.upsert(draft("only", "T", "x.exe"), 1).unwrap();
    let page = store.get_history(None, None, Some(5), Some(20)).unwrap();
    assert!(page.is_empty());
}

#[test]
fn content_filter_matches_token_prefixes() {
    let mut store = HistoryStore::new();
    store.upsert(draft("Invoices due tomorrow", "Mail", "mail.exe"), 1).unwrap();
    store.upsert(draft("groceries list", "Notes", "notes.exe"), 2).unwrap();
    let f = FilterOptions { content: Some("invoice".to_string()), ..no_filter() };
    let page = store.get_history(Some(&f), None, None, None).unwrap();
    assert_eq!(page.len(), 1);
    assert_eq!(page[0].content, "Invoices due tomorrow");
    // A fragment that starts mid-token is not a match.
    let f = FilterOptions { content: Some("nvoice".to_string()), ..no_filter() };
    let page = store.get_history(Some(&f), None, None, None).unwrap();
    assert!(page.is_empty());
}

#[test]
fn window_title_filter_is_a_term_match() {
    let mut store = HistoryStore::new();
    store.upsert(draft("a", "Google Chrome", "chrome.exe"), 1).unwrap();
    store.upsert(draft("b", "Chromium", "chromium.exe"), 2).unwrap();
    let f = FilterOptions { window_title: Some("chrome".to_string()), ..no_filter() };
    let page = store.get_history(Some(&f), None, None, None).unwrap();
    assert_eq!(page.len(), 1);
    assert_eq!(page[0].window_title, "Google Chrome");
}

#[test]
fn filters_combine_with_and() {
    let mut store = HistoryStore::new();
    store.upsert(draft("invoice text entry", "Mail", "mail.exe"), 1).unwrap();
    store
        .upsert(
            EntryDraft {
                content: String::new(),
                window_title: "Scanner".to_string(),
                window_exe: "scan.exe".to_string(),
                type_: EntryType::Image,
                html: None,
                image: Some("QUFB".to_string()),
            },
            2,
        )
        .unwrap();
    let id = store
        .upsert(
            EntryDraft {
                content: String::new(),
                window_title: "Scanner".to_string(),
                window_exe: "scan.exe".to_string(),
                type_: EntryType::Image,
                html: None,
                image: Some("QkJC".to_string()),
            },
            3,
        )
        .unwrap();
    store.update_content(id, "Invoice 2026-10 total 40".to_string()).unwrap();
    let f = FilterOptions {
        type_: Some(EntryType::Image),
        content: Some("invoice".to_string()),
        ..no_filter()
    };
    let page = store.get_history(Some(&f), None, None, None).unwrap();
    assert_eq!(page.len(), 1);
    assert_eq!(page[0].id, id);
    assert_eq!(page[0].type_, EntryType::Image);
}

#[test]
fn content_query_follows_the_index_through_delete() {
    let mut store = HistoryStore::new();
    let id = store.upsert(draft("unique sentinel phrase", "T", "x.exe"), 1).unwrap();
    let f = FilterOptions { content: Some("sentinel".to_string()), ..no_filter() };
    let page = store.get_history(Some(&f), None, None, None).unwrap();
    assert_eq!(page.len(), 1);
    assert_eq!(page[0].id, id);
    store.delete(id);
    let page = store.get_history(Some(&f), None, None, None).unwrap();
    assert!(page.is_empty());
}

#[test]
fn sort_by_count_ascending_breaks_ties_by_id() {
    let mut store = HistoryStore::new();
    let a = store.upsert(draft("twice", "T", "x.exe"), 1).unwrap();
    store.upsert(draft("twice", "T", "x.exe"), 2).unwrap();
    let b = store.upsert(draft("once", "T", "x.exe"), 3).unwrap();
    let c = store.upsert(draft("also once", "T", "x.exe"), 4).unwrap();
    let sort = SortOptions { column: "count".to_string(), order: "asc".to_string() };
    let page = store.get_history(None, Some(&sort), None, None).unwrap();
    let ids: Vec<i64> = page.iter().map(|r| r.id).collect();
    assert_eq!(ids, vec![b, c, a]);
}

#[test]
fn sort_by_first_copied_date_descending() {
    let mut store = HistoryStore::new();
    let a = store.upsert(draft("early", "T", "x.exe"), 10).unwrap();
    let b = store.upsert(draft("late", "T", "x.exe"), 20).unwrap();
    // A repeat capture moves last_copied_date but not first_copied_date.
    store.upsert(draft("early", "T", "x.exe"), 30).unwrap();
    let sort = SortOptions { column: "first_copied_date".to_string(), order: "desc".to_string() };
    let page = store.get_history(None, Some(&sort), None, None).unwrap();
    let ids: Vec<i64> = page.iter().map(|r| r.id).collect();
    assert_eq!(ids, vec![b, a]);
}

#[test]
fn unknown_sort_column_is_rejected() {
    let mut store = HistoryStore::new();
    store.upsert(draft("x", "T", "x.exe"), 1).unwrap();
    let sort = SortOptions { column: "content".to_string(), order: "asc".to_string() };
    assert_eq!(
        store.get_history(None, Some(&sort), None, None).unwrap_err(),
        QueryError::UnknownSortColumn
    );
    let sort = SortOptions { column: "id; DROP TABLE clipboard".to_string(), order: "asc".to_string() };
    assert_eq!(
        store.get_history(None, Some(&sort), None, None).unwrap_err(),
        QueryError::UnknownSortColumn
    );
}

#[test]
fn unknown_sort_order_is_rejected() {
    let mut store = HistoryStore::new();
    let sort = SortOptions { column: "id".to_string(), order: "upward".to_string() };
    assert_eq!(
        store.get_history(None, Some(&sort), None, None).unwrap_err(),
        QueryError::UnknownSortOrder
    );
}

#[test]
fn negative_pagination_is_rejected() {
    let store = HistoryStore::new();
    assert_eq!(
        store.get_history(None, None, Some(-1), None).unwrap_err(),
        QueryError::InvalidPagination
    );
    assert_eq!(
        store.get_history(None, None, None, Some(-5)).unwrap_err(),
        QueryError::InvalidPagination
    );
}

#[test]
fn limit_is_capped_server_side() {
    let mut store = HistoryStore::new();
    for i in 0..250i64 {
        store.upsert(draft(&format!("row {}", i), "T", "x.exe"), i).unwrap();
    }
    let page = store.get_history(None, None, Some(0), Some(100000)).unwrap();
    assert_eq!(page.len(), 200);
}
