use superkbd::models::{ClipboardSearchParams, NewClipboardEntry};
use superkbd::store::{ContentStore, StoreError};

fn all_params() -> ClipboardSearchParams {
    ClipboardSearchParams::default()
}

#[test]
fn test_insert_and_retrieve_entry() {
    let mut store = ContentStore::new();

    let new_entry = NewClipboardEntry::new_text("Hello, World!".to_string());
    let id = store.insert_entry_at(new_entry, 1000).unwrap();

    assert!(id > 0, "Should return valid ID");

    let retrieved = store.get_entry(id);
    assert!(retrieved.is_some(), "Should retrieve entry");

    let entry = retrieved.unwrap();
    assert_eq!(entry.text_content, Some("Hello, World!".to_string()));
    assert_eq!(entry.content_type, "text");
    assert!(!entry.favorite);
}

#[test]
fn test_search_entries() {
    let mut store = ContentStore::new();

    store.insert_entry_at(NewClipboardEntry::new_text("Hello World".to_string()), 10).unwrap();
    store.insert_entry_at(NewClipboardEntry::new_text("Rust Programming".to_string()), 20).unwrap();
    store.insert_entry_at(NewClipboardEntry::new_text("Hello Rust".to_string()), 30).unwrap();

    // Search for "Hello"
    let params = ClipboardSearchParams { query: Some("Hello".to_string()), ..all_params() };
    let results = store.search_entries(params);
    assert_eq!(results.len(), 2, "Should find 2 entries with 'Hello'");

    // Search for "Rust"
    let params = ClipboardSearchParams { query: Some("Rust".to_string()), ..all_params() };
    let results = store.search_entries(params);
    assert_eq!(results.len(), 2, "Should find 2 entries with 'Rust'");
}

#[test]
fn test_favorite_toggle() {
    let mut store = ContentStore::new();

    let id = store.insert_entry_at(NewClipboardEntry::new_text("Test".to_string()), 1).unwrap();

    // Toggle to favorite
    let is_favorite = store.toggle_favorite(id).unwrap();
    assert!(is_favorite, "Should be favorited");

    let entry = store.get_entry(id).unwrap();
    assert!(entry.favorite);

    // Toggle back
    let is_favorite = store.toggle_favorite(id).unwrap();
    assert!(!is_favorite, "Should not be favorited");
}

#[test]
fn test_favorites_show_first() {
    let mut store = ContentStore::new();

    let id1 = store.insert_entry_at(NewClipboardEntry::new_text("First".to_string()), 100).unwrap();
    let id2 = store.insert_entry_at(NewClipboardEntry::new_text("Second".to_string()), 110).unwrap();

    // Make the first (older) entry a favorite
    store.toggle_favorite(id1).unwrap();

    let results = store.search_entries(all_params());

    assert_eq!(results.len(), 2);
    assert_eq!(results[0].id, id1, "Favorite should be first");
    assert_eq!(results[1].id, id2, "Non-favorite should be second");
}

#[test]
fn test_auto_cleanup_old_entries() {
    let mut store = ContentStore::new();
    let now: i64 = 1_700_000_000;
    let old_timestamp = now - (31 * 24 * 60 * 60); // 31 days ago

    let id1 = store.insert_entry_at(NewClipboardEntry::new_text("Old entry".to_string()), old_timestamp).unwrap();
    let id2 = store.insert_entry_at(NewClipboardEntry::new_text("Recent entry".to_string()), now).unwrap();

    // Delete entries older than 30 days
    let deleted_count = store.delete_old_entries_at(30, now);

    assert_eq!(deleted_count, 1, "Should delete 1 old entry");

    assert!(store.get_entry(id1).is_none());
    assert!(store.get_entry(id2).is_some());
}

#[test]
fn test_favorites_not_deleted_by_cleanup() {
    let mut store = ContentStore::new();
    let now: i64 = 1_700_000_000;
    let old_timestamp = now - (31 * 24 * 60 * 60);

    let id = store.insert_entry_at(NewClipboardEntry::new_text("Old favorite".to_string()), old_timestamp).unwrap();
    store.toggle_favorite(id).unwrap();

    let deleted_count = store.delete_old_entries_at(30, now);

    assert_eq!(deleted_count, 0, "Should not delete favorites");
    assert!(store.get_entry(id).is_some(), "Favorite should still exist");
}

#[test]
fn test_upsert_creates_new_entry() {
    let mut store = ContentStore::new();

    let entry = NewClipboardEntry::new_text("New content".to_string());
    let id = store.upsert_entry_at(entry, 1000).unwrap();

    assert!(id > 0, "Should return valid ID");

    let retrieved = store.get_entry(id);
    assert!(retrieved.is_some(), "Should retrieve entry");
    assert_eq!(retrieved.unwrap().text_content, Some("New content".to_string()));
}

#[test]
fn test_upsert_updates_existing_entry() {
    let mut store = ContentStore::new();

    let entry1 = NewClipboardEntry::new_text("Duplicate content".to_string());
    let id1 = store.upsert_entry_at(entry1, 1000).unwrap();

    let first_timestamp = store.get_entry(id1).unwrap().created_at;

    let entry2 = NewClipboardEntry::new_text("Duplicate content".to_string());
    let id2 = store.upsert_entry_at(entry2, 1001).unwrap();

    assert_eq!(id1, id2, "Should return same ID for duplicate content");

    let all_entries = store.search_entries(all_params());
    assert_eq!(all_entries.len(), 1, "Should only have one entry");

    let updated_entry = store.get_entry(id1).unwrap();
    assert!(updated_entry.created_at > first_timestamp, "Timestamp should be updated");
}

#[test]
fn test_upsert_preserves_favorite_status() {
    let mut store = ContentStore::new();

    let entry1 = NewClipboardEntry::new_text("Important content".to_string());
    let id1 = store.upsert_entry_at(entry1, 1000).unwrap();
    store.toggle_favorite(id1).unwrap();

    let favorited_entry = store.get_entry(id1).unwrap();
    assert!(favorited_entry.favorite, "Entry should be favorited");

    let entry2 = NewClipboardEntry::new_text("Important content".to_string());
    let id2 = store.upsert_entry_at(entry2, 2000).unwrap();

    assert_eq!(id1, id2, "Should be same entry");
    let still_favorited = store.get_entry(id2).unwrap();
    assert!(still_favorited.favorite, "Favorite status should be preserved");
}

#[test]
fn test_upsert_refreshes_source_app() {
    let mut store = ContentStore::new();

    let id1 = store
        .upsert_entry_at(
            NewClipboardEntry::new_text_with_source("snippet".to_string(), Some("Editor".to_string())),
            100,
        )
        .unwrap();
    assert_eq!(store.get_entry(id1).unwrap().source_app, Some("Editor".to_string()));

    let id2 = store
        .upsert_entry_at(
            NewClipboardEntry::new_text_with_source("snippet".to_string(), Some("Browser".to_string())),
            200,
        )
        .unwrap();
    assert_eq!(id1, id2);
    assert_eq!(store.get_entry(id1).unwrap().source_app, Some("Browser".to_string()));
}

#[test]
fn test_toggle_favorite_missing_id_is_not_found() {
    let mut store = ContentStore::new();
    assert_eq!(store.toggle_favorite(42), Err(StoreError::NotFound));
}

#[test]
fn test_delete_entry() {
    let mut store = ContentStore::new();
    let id = store.insert_entry_at(NewClipboardEntry::new_text("gone soon".to_string()), 5).unwrap();
    assert!(store.delete_entry(id));
    assert!(store.get_entry(id).is_none());
    assert!(!store.delete_entry(id), "Second delete should find nothing");
}

#[test]
fn test_search_orders_by_recency_with_stable_ties() {
    let mut store = ContentStore::new();
    let a = store.insert_entry_at(NewClipboardEntry::new_text("a".to_string()), 10).unwrap();
    let b = store.insert_entry_at(NewClipboardEntry::new_text("b".to_string()), 30).unwrap();
    let c = store.insert_entry_at(NewClipboardEntry::new_text("c".to_string()), 30).unwrap();
    let d = store.insert_entry_at(NewClipboardEntry::new_text("d".to_string()), 20).unwrap();

    let results = store.search_entries(all_params());
    let ids: Vec<i64> = results.iter().map(|e| e.id).collect();
    // Youngest first; the two rows stamped 30 keep insertion order.
    assert_eq!(ids, vec![b, c, d, a]);
}

#[test]
fn test_search_pagination() {
    let mut store = ContentStore::new();
    store.insert_entry_at(NewClipboardEntry::new_text("a".to_string()), 1).unwrap();
    store.insert_entry_at(NewClipboardEntry::new_text("b".to_string()), 2).unwrap();
    store.insert_entry_at(NewClipboardEntry::new_text("c".to_string()), 3).unwrap();

    // Order is c, b, a; skip one, take one.
    let params = ClipboardSearchParams { limit: 1, offset: 1, ..all_params() };
    let results = store.search_entries(params);
    assert_eq!(results.len(), 1);
    assert_eq!(results[0].text_content, Some("b".to_string()));

    // An offset past the end yields nothing.
    let params = ClipboardSearchParams { offset: 10, ..all_params() };
    assert_eq!(store.search_entries(params).len(), 0);

    // A zero limit yields nothing.
    let params = ClipboardSearchParams { limit: 0, ..all_params() };
    assert_eq!(store.search_entries(params).len(), 0);
}

#[test]
fn test_search_is_case_sensitive() {
    let mut store = ContentStore::new();
    store.insert_entry_at(NewClipboardEntry::new_text("Hello World".to_string()), 1).unwrap();

    let params = ClipboardSearchParams { query: Some("hello".to_string()), ..all_params() };
    assert_eq!(store.search_entries(params).len(), 0, "Substring match is case-sensitive");

    let params = ClipboardSearchParams { query: Some("Hello".to_string()), ..all_params() };
    assert_eq!(store.search_entries(params).len(), 1);
}

#[test]
fn test_search_favorites_only_and_content_type() {
    let mut store = ContentStore::new();
    let id1 = store.insert_entry_at(NewClipboardEntry::new_text("one".to_string()), 1).unwrap();
    store.insert_entry_at(NewClipboardEntry::new_text("two".to_string()), 2).unwrap();
    store.toggle_favorite(id1).unwrap();

    let params = ClipboardSearchParams { favorites_only: true, ..all_params() };
    let results = store.search_entries(params);
    assert_eq!(results.len(), 1);
    assert_eq!(results[0].id, id1);

    let params = ClipboardSearchParams { content_type: Some("text".to_string()), ..all_params() };
    assert_eq!(store.search_entries(params).len(), 2);

    let params = ClipboardSearchParams { content_type: Some("image".to_string()), ..all_params() };
    assert_eq!(store.search_entries(params).len(), 0);
}

#[test]
fn test_eviction_keeps_row_exactly_at_cutoff() {
    let mut store = ContentStore::new();
    let now: i64 = 1_700_000_000;
    let at_cutoff = now - 30 * 86400;

    let id = store.insert_entry_at(NewClipboardEntry::new_text("boundary".to_string()), at_cutoff).unwrap();
    let removed = store.delete_old_entries_at(30, now);

    assert_eq!(removed, 0, "Only rows strictly older than the cutoff go");
    assert!(store.get_entry(id).is_some());
}

#[test]
fn test_get_last_entry() {
    let mut store = ContentStore::new();
    assert!(store.get_last_entry().is_none());

    store.insert_entry_at(NewClipboardEntry::new_text("early".to_string()), 5).unwrap();
    let late = store.insert_entry_at(NewClipboardEntry::new_text("late".to_string()), 9).unwrap();
    store.insert_entry_at(NewClipboardEntry::new_text("middle".to_string()), 7).unwrap();

    assert_eq!(store.get_last_entry().unwrap().id, late);
}

#[test]
fn test_wall_clock_upsert_and_eviction() {
    let mut store = ContentStore::new();
    let id = store.upsert_entry(NewClipboardEntry::new_text("clocked".to_string())).unwrap();
    assert!(store.get_entry(id).is_some());

    // A fresh row is younger than any positive age, so nothing is evicted.
    let removed = store.delete_old_entries(365);
    assert_eq!(removed, 0);
    assert!(store.get_entry(id).is_some());
}
