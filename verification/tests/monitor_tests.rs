use superkbd::monitor::{accept_frontmost_name, should_save_content, ClipboardMonitor, TickOutcome};
use superkbd::store::ContentStore;

#[test]
fn test_should_save_content() {
    // Empty content should not be saved
    assert!(!should_save_content("", None));
    assert!(!should_save_content("  ", None));

    // New content should be saved
    assert!(should_save_content("Hello", None));

    // Different content should be saved
    assert!(should_save_content("Hello", Some("World")));

    // Same content should not be saved
    assert!(!should_save_content("Hello", Some("Hello")));
}

#[test]
fn test_clipboard_content_deduplication() {
    let content1 = "Hello World";
    let content2 = "Hello World";
    let content3 = "Different";

    assert!(!should_save_content(content2, Some(content1)));
    assert!(should_save_content(content3, Some(content1)));
}

#[test]
fn test_poll_tick_captures_new_value() {
    let mut monitor = ClipboardMonitor::new();
    let mut store = ContentStore::new();
    assert_eq!(monitor.last_content, None);

    let r = monitor.poll_tick_at(Some("Hello".to_string()), None, &mut store, 100);
    assert_eq!(r, TickOutcome::Captured(1));
    assert_eq!(monitor.last_content, Some("Hello".to_string()));

    let entry = store.get_entry(1).expect("row should exist");
    assert_eq!(entry.text_content, Some("Hello".to_string()));
    assert_eq!(entry.created_at, 100);
}

#[test]
fn test_poll_tick_skips_failed_reading() {
    let mut monitor = ClipboardMonitor::new();
    let mut store = ContentStore::new();
    let r = monitor.poll_tick_at(None, None, &mut store, 100);
    assert_eq!(r, TickOutcome::Skipped);
    assert_eq!(monitor.last_content, None);
    assert_eq!(store.len(), 0);
}

#[test]
fn test_poll_tick_skips_repeat_and_blank() {
    let mut monitor = ClipboardMonitor::new();
    let mut store = ContentStore::new();

    let r1 = monitor.poll_tick_at(Some("Hello".to_string()), None, &mut store, 100);
    assert_eq!(r1, TickOutcome::Captured(1));

    // The same value again: skipped at the detector, no new row.
    let r2 = monitor.poll_tick_at(Some("Hello".to_string()), None, &mut store, 101);
    assert_eq!(r2, TickOutcome::Skipped);
    assert_eq!(store.len(), 1);
    assert_eq!(store.get_entry(1).unwrap().created_at, 100);

    // A whitespace-only value: no row appears, the row for "Hello" is intact.
    let r3 = monitor.poll_tick_at(Some("   \t".to_string()), None, &mut store, 102);
    assert_eq!(r3, TickOutcome::Skipped);
    assert_eq!(monitor.last_content, Some("Hello".to_string()));
    assert_eq!(store.len(), 1);
    assert_eq!(store.get_entry(1).unwrap().text_content, Some("Hello".to_string()));
}

#[test]
fn test_poll_tick_store_collapses_reappearing_value() {
    let mut monitor = ClipboardMonitor::new();
    let mut store = ContentStore::new();

    assert_eq!(monitor.poll_tick_at(Some("A".to_string()), None, &mut store, 10), TickOutcome::Captured(1));
    assert_eq!(monitor.poll_tick_at(Some("B".to_string()), None, &mut store, 20), TickOutcome::Captured(2));

    // "A" reappears: the detector sees a change, but the store collapses it
    // into the original row.
    assert_eq!(monitor.poll_tick_at(Some("A".to_string()), None, &mut store, 30), TickOutcome::Captured(1));
    assert_eq!(store.len(), 2);
    assert_eq!(store.get_entry(1).unwrap().created_at, 30);
}

#[test]
fn test_poll_tick_records_source_app() {
    let mut monitor = ClipboardMonitor::new();
    let mut store = ContentStore::new();
    let r = monitor.poll_tick_at(
        Some("snippet".to_string()),
        Some("Terminal".to_string()),
        &mut store,
        7,
    );
    assert_eq!(r, TickOutcome::Captured(1));
    assert_eq!(store.get_entry(1).unwrap().source_app, Some("Terminal".to_string()));
}

#[test]
fn test_accept_frontmost_name() {
    let own = vec!["SuperKBD".to_string(), "superkbd".to_string()];
    assert_eq!(
        accept_frontmost_name("Safari".to_string(), &own),
        Some("Safari".to_string())
    );
    assert_eq!(accept_frontmost_name("SuperKBD".to_string(), &own), None);
    assert_eq!(accept_frontmost_name("superkbd".to_string(), &own), None);
    assert_eq!(accept_frontmost_name("".to_string(), &own), None);
}
