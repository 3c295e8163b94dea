use std::time::{SystemTime, UNIX_EPOCH};
use yoinker::config::test_config;
use yoinker::entry::EntryContent;
use yoinker::history::ClipboardHistory;

fn make_history(max: usize) -> ClipboardHistory {
    let mut config = test_config("/tmp/yoinker-history-test");
    config.max_history = max;
    ClipboardHistory::load(&config, None)
}

fn text(s: &str) -> EntryContent {
    EntryContent::Text { text: s.to_string() }
}

fn now() -> u64 {
    SystemTime::now().duration_since(UNIX_EPOCH).unwrap_or_default().as_secs()
}

// --- Basic add/get ---

#[test]
fn add_single_entry() {
    let mut h = make_history(10);
    assert!(h.add(text("hello")));
    assert_eq!(h.entries.len(), 1);
    match &h.entries[0].content {
        EntryContent::Text { text } => assert_eq!(text, "hello"),
        _ => panic!("expected text"),
    }
}

#[test]
fn add_multiple_entries_newest_first() {
    let mut h = make_history(10);
    h.add(text("first"));
    h.add(text("second"));
    h.add(text("third"));
    assert_eq!(h.entries.len(), 3);
    match &h.entries[0].content {
        EntryContent::Text { text } => assert_eq!(text, "third"),
        _ => panic!("expected text"),
    }
    match &h.entries[2].content {
        EntryContent::Text { text } => assert_eq!(text, "first"),
        _ => panic!("expected text"),
    }
}

#[test]
fn ids_are_sequential() {
    let mut h = make_history(10);
    h.add(text("a"));
    h.add(text("b"));
    h.add(text("c"));
    // newest first, so c=3, b=2, a=1
    assert_eq!(h.entries[0].id, 3);
    assert_eq!(h.entries[1].id, 2);
    assert_eq!(h.entries[2].id, 1);
}

// --- Deduplication ---

#[test]
fn consecutive_duplicate_rejected() {
    let mut h = make_history(10);
    assert!(h.add(text("same")));
    assert!(!h.add(text("same"))); // consecutive dup
    assert_eq!(h.entries.len(), 1);
}

#[test]
fn non_consecutive_duplicate_moves_to_front() {
    let mut h = make_history(10);
    h.add(text("first"));
    h.add(text("second"));
    h.add(text("first")); // should move "first" to front, not add new
    assert_eq!(h.entries.len(), 2);
    match &h.entries[0].content {
        EntryContent::Text { text } => assert_eq!(text, "first"),
        _ => panic!("expected text"),
    }
}

#[test]
fn duplicate_after_different_entry_is_not_consecutive() {
    let mut h = make_history(10);
    h.add(text("a"));
    h.add(text("b"));
    // "a" again — not consecutive (last was "b"), so it should be moved to front
    assert!(h.add(text("a")));
    assert_eq!(h.entries.len(), 2);
    match &h.entries[0].content {
        EntryContent::Text { text } => assert_eq!(text, "a"),
        _ => panic!("expected text"),
    }
}

// --- Trimming ---

#[test]
fn trim_removes_oldest_unpinned() {
    let mut h = make_history(3);
    h.add(text("1"));
    h.add(text("2"));
    h.add(text("3"));
    h.add(text("4")); // should trim "1" (oldest)
    assert_eq!(h.entries.len(), 3);
    // Should have 4, 3, 2
    let texts: Vec<_> = h
        .entries
        .iter()
        .map(|e| match &e.content {
            EntryContent::Text { text } => text.clone(),
            _ => panic!(),
        })
        .collect();
    assert_eq!(texts, vec!["4", "3", "2"]);
}

#[test]
fn trim_preserves_pinned() {
    let mut h = make_history(2);
    h.add(text("1"));
    h.pin(0);
    h.add(text("2"));
    h.add(text("3"));
    h.add(text("4")); // trim, but "1" is pinned
                      // Pinned "1" must survive, plus 2 newest unpinned
    let pinned_count = h.entries.iter().filter(|e| e.pinned).count();
    assert_eq!(pinned_count, 1);
    // Total: pinned "1" + 2 unpinned = 3
    assert_eq!(h.entries.len(), 3);
    assert!(h.entries.iter().any(|e| match &e.content {
        EntryContent::Text { text } => text == "1",
        _ => false,
    }));
}

#[test]
fn trim_at_exact_limit() {
    let mut h = make_history(3);
    h.add(text("1"));
    h.add(text("2"));
    h.add(text("3"));
    assert_eq!(h.entries.len(), 3); // exactly at limit, no trim
}

// --- Pinning ---

#[test]
fn pin_entry() {
    let mut h = make_history(10);
    h.add(text("a"));
    assert!(!h.entries[0].pinned);
    assert!(h.pin(0));
    assert!(h.entries[0].pinned);
}

#[test]
fn pin_out_of_range() {
    let mut h = make_history(10);
    h.add(text("a"));
    assert!(!h.pin(5));
}

#[test]
fn unpin_entry() {
    let mut h = make_history(10);
    h.add(text("a"));
    h.pin(0);
    assert!(h.entries[0].pinned);
    assert!(h.unpin(0));
    assert!(!h.entries[0].pinned);
}

#[test]
fn unpin_out_of_range() {
    let mut h = make_history(10);
    assert!(!h.unpin(0));
}

#[test]
fn pin_multiple_entries() {
    let mut h = make_history(10);
    h.add(text("a"));
    h.add(text("b"));
    h.add(text("c"));
    h.pin(0);
    h.pin(2);
    assert!(h.entries[0].pinned);
    assert!(!h.entries[1].pinned);
    assert!(h.entries[2].pinned);
}

// --- Clear ---

#[test]
fn clear_removes_unpinned() {
    let mut h = make_history(10);
    h.add(text("a"));
    h.add(text("b"));
    h.add(text("c"));
    h.pin(1); // pin "b"
    h.clear_unpinned();
    assert_eq!(h.entries.len(), 1);
    match &h.entries[0].content {
        EntryContent::Text { text } => assert_eq!(text, "b"),
        _ => panic!("expected text"),
    }
}

#[test]
fn clear_with_no_pinned_empties_all() {
    let mut h = make_history(10);
    h.add(text("a"));
    h.add(text("b"));
    h.clear_unpinned();
    assert!(h.entries.is_empty());
}

#[test]
fn clear_with_all_pinned_keeps_all() {
    let mut h = make_history(10);
    h.add(text("a"));
    h.add(text("b"));
    h.pin(0);
    h.pin(1);
    h.clear_unpinned();
    assert_eq!(h.entries.len(), 2);
}

#[test]
fn clear_empty_history() {
    let mut h = make_history(10);
    h.clear_unpinned(); // should not panic
    assert!(h.entries.is_empty());
}

// --- Persistence (the entries written out are what a later load reads back) ---

#[test]
fn save_and_load_roundtrip() {
    let config = test_config("/tmp/yoinker-history-roundtrip");
    let saved = {
        let mut h = ClipboardHistory::load(&config, None);
        h.add(text("persisted1"));
        h.add(text("persisted2"));
        h.pin(0);
        assert!(h.save_if_dirty());
        h.entries.clone()
    };

    let h = ClipboardHistory::load(&config, Some(saved));
    assert_eq!(h.entries.len(), 2);
    assert!(h.entries[0].pinned);
    match &h.entries[0].content {
        EntryContent::Text { text } => assert_eq!(text, "persisted2"),
        _ => panic!("expected text"),
    }
}

#[test]
fn load_nonexistent_history_file() {
    let config = test_config("/tmp/yoinker-history-missing");
    let h = ClipboardHistory::load(&config, None);
    assert!(h.entries.is_empty());
}

#[test]
fn load_corrupted_history_file() {
    // Reading and parsing the history file is done by the daemon program,
    // which hands the library `None` when the file does not parse; tests
    // here do not touch the file system, so this checks the parse failure
    // on the file's text and then what the library makes of it.
    let config = test_config("/tmp/yoinker-history-corrupted");
    let parsed: Option<Vec<serde_json::Value>> = serde_json::from_str("not valid json {{{").ok();
    assert!(parsed.is_none());
    let h = ClipboardHistory::load(&config, None);
    assert!(h.entries.is_empty()); // graceful fallback
}

#[test]
fn next_id_continues_after_reload() {
    let config = test_config("/tmp/yoinker-history-reload");

    let saved = {
        let mut h = ClipboardHistory::load(&config, None);
        h.add(text("a"));
        h.add(text("b"));
        h.entries.clone()
    };

    let mut h = ClipboardHistory::load(&config, Some(saved));
    h.add(text("c"));
    // id should be 3, not 1
    assert_eq!(h.entries[0].id, 3);
}

// --- Image entries ---

#[test]
fn add_image_entry() {
    let mut h = make_history(10);
    let img = EntryContent::Image { width: 2, height: 2, bytes: vec![0, 1, 2, 3] };
    assert!(h.add(img));
    assert_eq!(h.entries.len(), 1);
    match &h.entries[0].content {
        EntryContent::Image { width, height, bytes } => {
            assert_eq!(*width, 2);
            assert_eq!(*height, 2);
            assert_eq!(bytes, &vec![0, 1, 2, 3]);
        }
        _ => panic!("expected image"),
    }
}

#[test]
fn duplicate_image_rejected() {
    let mut h = make_history(10);
    let img1 = EntryContent::Image { width: 1, height: 1, bytes: vec![42] };
    let img2 = EntryContent::Image { width: 1, height: 1, bytes: vec![42] };
    assert!(h.add(img1));
    assert!(!h.add(img2));
    assert_eq!(h.entries.len(), 1);
}

#[test]
fn mixed_text_and_image() {
    let mut h = make_history(10);
    h.add(text("hello"));
    h.add(EntryContent::Image { width: 1, height: 1, bytes: vec![1] });
    h.add(text("world"));
    assert_eq!(h.entries.len(), 3);
}

// --- Edge cases ---

#[test]
fn max_history_of_one() {
    let mut h = make_history(1);
    h.add(text("a"));
    h.add(text("b"));
    assert_eq!(h.entries.len(), 1);
    match &h.entries[0].content {
        EntryContent::Text { text } => assert_eq!(text, "b"),
        _ => panic!("expected text"),
    }
}

#[test]
fn rapid_alternating_copies() {
    let mut h = make_history(10);
    for i in 0..20 {
        if i % 2 == 0 {
            h.add(text("even"));
        } else {
            h.add(text("odd"));
        }
    }
    // Should only have 2 unique entries (dedup moves to front)
    assert_eq!(h.entries.len(), 2);
}

#[test]
fn pin_survives_clear_and_new_adds() {
    let mut h = make_history(3);
    h.add(text("keep me"));
    h.pin(0);
    h.add(text("x1"));
    h.add(text("x2"));
    h.add(text("x3"));
    h.clear_unpinned();
    assert_eq!(h.entries.len(), 1);
    h.add(text("new1"));
    h.add(text("new2"));
    assert_eq!(h.entries.len(), 3);
    // pinned entry still exists
    assert!(h.entries.iter().any(|e| e.pinned));
}

#[test]
fn timestamps_are_recent() {
    let mut h = make_history(10);
    let before = now();
    h.add(text("timed"));
    let after = now();
    assert!(h.entries[0].timestamp >= before);
    assert!(h.entries[0].timestamp <= after);
}

// --- further cases ---

#[test]
fn add_at_stamps_given_time_and_moves_keep_id() {
    let mut h = make_history(10);
    h.add_at(text("x"), 100);
    h.add_at(text("y"), 200);
    assert!(h.add_at(text("x"), 300));
    assert_eq!(h.entries[0].id, 1);
    assert_eq!(h.entries[0].timestamp, 300);
    assert_eq!(h.entries[1].timestamp, 200);
    assert_eq!(h.next_id(), 3);
}

#[test]
fn max_history_zero_keeps_only_pinned() {
    let mut h = make_history(0);
    assert!(h.add(text("gone")));
    assert!(h.entries.is_empty());
}

#[test]
fn dirty_flag_follows_changes() {
    let mut h = make_history(10);
    assert!(!h.is_dirty());
    h.add(text("a"));
    assert!(h.is_dirty());
    assert!(h.save_if_dirty());
    assert!(!h.is_dirty());
    assert!(!h.save_if_dirty());
    assert!(!h.pin(7));
    assert!(!h.is_dirty());
    h.clear_unpinned();
    assert!(h.is_dirty());
    h.mark_saved();
    assert!(!h.is_dirty());
}

#[test]
fn set_tag_and_delete() {
    let mut h = make_history(10);
    h.add(text("a"));
    h.add(text("b"));
    assert!(h.set_tag(1, Some("email".into())));
    assert_eq!(h.entries[1].tag.as_deref(), Some("email"));
    assert!(h.set_tag(1, None));
    assert_eq!(h.entries[1].tag, None);
    assert!(!h.set_tag(2, Some("x".into())));
    assert!(h.delete(0));
    assert_eq!(h.entries.len(), 1);
    assert!(!h.delete(1));
}

#[test]
fn load_sets_next_id_after_largest_and_remembers_newest() {
    let config = test_config("/tmp/yoinker-history-load");
    let stored = vec![
        yoinker::entry::ClipboardEntry { id: 4, content: text("new"), timestamp: 2, pinned: false, tag: None },
        yoinker::entry::ClipboardEntry { id: 9, content: text("old"), timestamp: 1, pinned: true, tag: None },
    ];
    let mut h = ClipboardHistory::load(&config, Some(stored));
    assert_eq!(h.next_id(), 10);
    assert!(!h.add(text("new"))); // same as the newest stored entry
    assert!(h.add(text("fresh")));
    assert_eq!(h.entries[0].id, 10);
}

#[test]
fn fresh_id_needed_only_for_new_content() {
    let mut h = make_history(10);
    assert!(h.add_needs_fresh_id(&text("a")));
    h.add(text("a"));
    assert!(!h.add_needs_fresh_id(&text("a")));
    h.add(text("b"));
    assert!(!h.add_needs_fresh_id(&text("a")));
    assert!(h.add_needs_fresh_id(&text("c")));
}

#[test]
fn save_due_exactly_after_a_change() {
    let mut h = make_history(10);
    assert!(!h.save_if_dirty());
    assert!(!h.pin(5));
    assert!(!h.delete(5));
    assert!(!h.set_tag(5, Some("t".into())));
    assert!(!h.save_if_dirty());
    h.add(text("x"));
    assert!(h.save_if_dirty());
    assert!(!h.save_if_dirty());
    assert!(!h.add(text("x")));
    assert!(!h.save_if_dirty());
    assert!(h.pin(0));
    assert!(h.save_if_dirty());
    h.clear_unpinned();
    assert!(h.save_if_dirty());
}

#[test]
fn add_refused_exactly_on_last_hash() {
    let mut h = make_history(10);
    assert!(h.add(text("a")));
    assert!(h.add(text("b")));
    assert!(!h.add(text("b")));
    assert!(h.add(text("a")));
    assert_eq!(h.entries.len(), 2);
    assert!(h.delete(0));
    // Deleting keeps the last accepted content, so it is still refused.
    assert!(!h.add(text("a")));
    assert_eq!(h.entries.len(), 1);
}

#[test]
fn contents_stay_distinct_and_trim_within_limit_keeps_all() {
    let mut h = make_history(3);
    for s in ["a", "b", "a", "c", "b", "a"] {
        h.add(text(s));
    }
    let hashes: Vec<u64> = h.entries.iter().map(|e| e.content.content_hash()).collect();
    for i in 0..hashes.len() {
        for j in i + 1..hashes.len() {
            assert_ne!(hashes[i], hashes[j]);
        }
    }
    assert_eq!(h.entries.len(), 3);
}
