use yoinker::entry::{ClipboardEntry, EntryContent};
use yoinker::picker::{Picker, PickerAction, PickerKey};

fn entry(id: u64, s: &str, pinned: bool) -> ClipboardEntry {
    ClipboardEntry { id, content: EntryContent::Text { text: s.into() }, timestamp: 0, pinned, tag: None }
}

fn sample() -> Vec<ClipboardEntry> {
    vec![entry(3, "apple pie", false), entry(2, "banana", true), entry(1, "apricot", false)]
}

#[test]
fn empty_query_lists_pinned_first_then_history_order() {
    let p = Picker::new(sample());
    let rows: Vec<usize> = p.rows().iter().map(|r| r.index).collect();
    assert_eq!(rows, vec![1, 0, 2]);
}

#[test]
fn query_filters_and_orders_by_score() {
    let mut p = Picker::new(sample());
    for c in "ap".chars() {
        let rows = p.rows();
        p.key(PickerKey::Char(c), false, &rows, 20);
    }
    let rows = p.rows();
    let idx: Vec<usize> = rows.iter().map(|r| r.index).collect();
    assert!(idx.contains(&0));
    assert!(idx.contains(&2));
    assert!(!idx.contains(&1));
    for w in rows.windows(2) {
        assert!(w[0].score >= w[1].score);
    }
}

#[test]
fn keys_navigate_and_select() {
    let mut p = Picker::new(sample());
    let rows = p.rows();
    p.clamp(rows.len());
    assert_eq!(p.key(PickerKey::Down, false, &rows, 20), PickerAction::Continue);
    assert_eq!(p.selected, Some(1));
    assert_eq!(p.key(PickerKey::Down, false, &rows, 20), PickerAction::Continue);
    assert_eq!(p.key(PickerKey::Down, false, &rows, 20), PickerAction::Continue);
    assert_eq!(p.selected, Some(2));
    assert_eq!(p.key(PickerKey::Char('u'), true, &rows, 20), PickerAction::Continue);
    assert_eq!(p.selected, Some(0));
    assert_eq!(p.key(PickerKey::Char('d'), true, &rows, 20), PickerAction::Continue);
    assert_eq!(p.selected, Some(2));
    assert_eq!(p.key(PickerKey::Up, false, &rows, 20), PickerAction::Continue);
    assert_eq!(p.key(PickerKey::Enter, false, &rows, 20), PickerAction::Select(0));
}

#[test]
fn quit_keys_and_typing() {
    let mut p = Picker::new(sample());
    let rows = p.rows();
    assert_eq!(p.key(PickerKey::Esc, false, &rows, 20), PickerAction::Cancel);
    assert_eq!(p.key(PickerKey::Char('q'), false, &rows, 20), PickerAction::Cancel);
    assert_eq!(p.key(PickerKey::Char('b'), false, &rows, 20), PickerAction::Continue);
    assert_eq!(p.query, "b");
    assert_eq!(p.key(PickerKey::Char('q'), false, &rows, 20), PickerAction::Continue);
    assert_eq!(p.query, "bq");
    assert_eq!(p.key(PickerKey::Backspace, false, &rows, 20), PickerAction::Continue);
    assert_eq!(p.query, "b");
    assert_eq!(p.selected, Some(0));
}

#[test]
fn pin_and_delete_round_trips() {
    let mut p = Picker::new(sample());
    let rows = p.rows();
    // first row is the pinned "banana" (index 1)
    assert_eq!(p.key(PickerKey::Char('p'), true, &rows, 20), PickerAction::TogglePin { index: 1, pin: false });
    p.pin_reply(1, false, true);
    assert!(!p.entries[1].pinned);
    assert_eq!(p.key(PickerKey::Char('x'), true, &rows, 20), PickerAction::Delete { index: 1 });
    assert!(!p.delete_reply(1, true));
    assert_eq!(p.entries.len(), 2);
    p.delete_reply(0, false);
    assert_eq!(p.entries.len(), 2);
    assert!(!p.delete_reply(0, true));
    assert!(p.delete_reply(0, true));
}

#[test]
fn clamp_keeps_selection_on_rows() {
    let mut p = Picker::new(sample());
    p.selected = Some(9);
    p.clamp(3);
    assert_eq!(p.selected, Some(2));
    p.clamp(0);
    assert_eq!(p.selected, None);
    p.clamp(2);
    assert_eq!(p.selected, Some(0));
}

#[test]
fn enter_on_empty_query_selects_newest_pinned() {
    let mut p = Picker::new(sample());
    let rows = p.rows();
    assert_eq!(p.key(PickerKey::Enter, false, &rows, 10), PickerAction::Select(1));
    let mut q = Picker::new(vec![entry(2, "x", false), entry(1, "y", false)]);
    let rows = q.rows();
    assert_eq!(q.key(PickerKey::Enter, false, &rows, 10), PickerAction::Select(0));
}
