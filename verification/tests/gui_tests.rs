use yoinker::entry::{ClipboardEntry, EntryContent};
use yoinker::gui::{filtered_indices, gui_keys, GuiAction, GuiKey, GuiKeys, GuiModel};

fn entry(id: u64, s: &str, pinned: bool, tag: Option<&str>) -> ClipboardEntry {
    ClipboardEntry {
        id,
        content: EntryContent::Text { text: s.into() },
        timestamp: 0,
        pinned,
        tag: tag.map(|t| t.to_string()),
    }
}

fn keys() -> GuiKeys {
    GuiKeys {
        escape: false,
        move_down: false,
        move_up: false,
        page_down: false,
        page_up: false,
        enter: false,
        delete: false,
        toggle_pin: false,
        tag: false,
    }
}

fn sample() -> Vec<ClipboardEntry> {
    vec![
        entry(4, "Hello World", false, None),
        entry(3, "my address", true, None),
        entry(2, "secret", false, Some("Email")),
        entry(1, "email body", true, None),
    ]
}

#[test]
fn empty_search_shows_pinned_first() {
    assert_eq!(filtered_indices(&sample(), ""), vec![1, 3, 0, 2]);
}

#[test]
fn search_matches_preview_or_tag_ignoring_case() {
    assert_eq!(filtered_indices(&sample(), "WORLD"), vec![0]);
    // pinned matches first, then the unpinned entry whose tag is the search
    assert_eq!(filtered_indices(&sample(), "email"), vec![3, 2]);
    assert_eq!(filtered_indices(&sample(), "zzz"), Vec::<usize>::new());
}

#[test]
fn frame_navigation_and_actions() {
    let mut m = GuiModel::new(sample());
    let rows = m.rows();
    let mut k = keys();
    k.move_down = true;
    assert_eq!(m.frame(k, &rows), GuiAction::Continue);
    assert_eq!(m.selected, 1);
    let mut k = keys();
    k.page_down = true;
    m.frame(k, &rows);
    assert_eq!(m.selected, 3);
    let mut k = keys();
    k.page_up = true;
    m.frame(k, &rows);
    assert_eq!(m.selected, 0);
    let mut k = keys();
    k.toggle_pin = true;
    assert_eq!(m.frame(k, &rows), GuiAction::TogglePin { index: 1, pin: false });
    let mut k = keys();
    k.delete = true;
    assert_eq!(m.frame(k, &rows), GuiAction::Delete(1));
    let mut k = keys();
    k.enter = true;
    assert_eq!(m.frame(k, &rows), GuiAction::Copy(1));
    assert!(m.should_close);
    let mut k = keys();
    k.escape = true;
    assert_eq!(m.frame(k, &rows), GuiAction::Close);
}

#[test]
fn tag_editing() {
    let mut m = GuiModel::new(sample());
    let rows = m.rows();
    let mut k = keys();
    k.move_down = true;
    m.frame(k, &rows);
    m.frame(k, &rows);
    m.frame(k, &rows);
    let mut k = keys();
    k.tag = true;
    m.frame(k, &rows);
    assert_eq!(m.tagging, Some(2));
    assert_eq!(m.tag_input, "Email");
    m.tag_input = String::new();
    assert_eq!(m.submit_tag(), Some((2, None)));
    assert_eq!(m.tagging, None);
    m.tag_reply(2, None, true);
    assert_eq!(m.entries[2].tag, None);
    assert_eq!(m.submit_tag(), None);
}

#[test]
fn replies_update_entries() {
    let mut m = GuiModel::new(sample());
    m.pin_reply(0, true, true);
    assert!(m.entries[0].pinned);
    m.pin_reply(0, false, false);
    assert!(m.entries[0].pinned);
    m.delete_reply(0, true);
    assert_eq!(m.entries.len(), 3);
    assert_eq!(m.select_entry(2), GuiAction::Copy(2));
    assert!(m.should_close);
}

#[test]
fn ctrl_p_toggles_pin_and_keeps_selection() {
    let keys = gui_keys(&vec![GuiKey::Ctrl('p')]);
    assert!(keys.toggle_pin);
    assert!(!keys.move_up && !keys.move_down);
    let mut m = GuiModel::new(vec![entry(3, "a", false, None), entry(2, "b", true, None), entry(1, "c", false, None)]);
    m.selected = 1;
    let rows = vec![0usize, 1, 2];
    assert_eq!(m.frame(keys, &rows), GuiAction::TogglePin { index: 1, pin: false });
    assert_eq!(m.selected, 1);
}

#[test]
fn gui_key_mapping() {
    let k = gui_keys(&vec![GuiKey::Tab]);
    assert!(k.move_down && !k.move_up);
    let k = gui_keys(&vec![GuiKey::ShiftTab]);
    assert!(k.move_up && !k.move_down);
    let k = gui_keys(&vec![GuiKey::Ctrl('n'), GuiKey::Enter]);
    assert!(k.move_down && k.enter);
    let k = gui_keys(&vec![GuiKey::Ctrl('d'), GuiKey::Ctrl('u'), GuiKey::Ctrl('x'), GuiKey::Ctrl('t'), GuiKey::Escape]);
    assert!(k.page_down && k.page_up && k.delete && k.tag && k.escape && !k.toggle_pin);
    let k = gui_keys(&vec![GuiKey::Other, GuiKey::ArrowUp]);
    assert!(k.move_up);
    let k = gui_keys(&vec![]);
    assert_eq!(k, GuiKeys {
        escape: false, move_down: false, move_up: false, page_down: false, page_up: false,
        enter: false, delete: false, toggle_pin: false, tag: false,
    });
}

#[test]
fn exact_tag_first_within_pinned() {
    let es = vec![
        entry(5, "work notes", false, None),
        entry(4, "more work", true, None),
        entry(3, "x", false, Some("Work")),
        entry(2, "y", true, Some("work")),
        entry(1, "z", false, None),
    ];
    assert_eq!(filtered_indices(&es, "work"), vec![3, 1, 2, 0]);
}
