use yoinker::config::test_config;
use yoinker::entry::EntryContent;
use yoinker::history::ClipboardHistory;
use yoinker::protocol::{copy_reply, handle_request_at, invalid_request_reply, request_is_defined, Handled, Request, Response};

fn history() -> ClipboardHistory {
    let mut config = test_config("/tmp/yoinker-protocol-test");
    config.max_history = 50;
    ClipboardHistory::load(&config, None)
}

fn reply(h: &mut ClipboardHistory, req: Request) -> Response {
    match handle_request_at(req, h, 1000) {
        Handled::Reply(r) => r,
        Handled::CopyToClipboard(_) => Response::Success,
    }
}

fn store(h: &mut ClipboardHistory, s: &str, pin: bool) -> Response {
    reply(h, Request::Store { content: s.into(), pin })
}

#[test]
fn ipc_store_and_list() {
    let mut h = history();
    assert_eq!(store(&mut h, "first", false), Response::Success);
    assert_eq!(store(&mut h, "second", false), Response::Success);
    match reply(&mut h, Request::List) {
        Response::Entries(entries) => {
            assert_eq!(entries.len(), 2);
            match &entries[0].content {
                EntryContent::Text { text } => assert_eq!(text, "second"),
                _ => panic!("expected text"),
            }
            match &entries[1].content {
                EntryContent::Text { text } => assert_eq!(text, "first"),
                _ => panic!("expected text"),
            }
        }
        _ => panic!("expected Entries"),
    }
}

#[test]
fn ipc_get_valid_index() {
    let mut h = history();
    store(&mut h, "item0", false);
    match reply(&mut h, Request::Get { index: 0 }) {
        Response::Entry(e) => match e.content {
            EntryContent::Text { text } => assert_eq!(text, "item0"),
            _ => panic!("expected text"),
        },
        _ => panic!("expected Entry"),
    }
}

#[test]
fn ipc_get_out_of_range() {
    let mut h = history();
    match reply(&mut h, Request::Get { index: 99 }) {
        Response::Error(msg) => assert!(msg.contains("out of range")),
        _ => panic!("expected Error"),
    }
}

#[test]
fn ipc_pin_and_clear() {
    let mut h = history();
    store(&mut h, "delete", false);
    store(&mut h, "keep", false);
    assert_eq!(reply(&mut h, Request::Pin { index: 0 }), Response::Success);
    assert_eq!(reply(&mut h, Request::Clear), Response::Success);
    match reply(&mut h, Request::List) {
        Response::Entries(entries) => {
            assert_eq!(entries.len(), 1);
            match &entries[0].content {
                EntryContent::Text { text } => assert_eq!(text, "keep"),
                _ => panic!("expected text"),
            }
        }
        _ => panic!("expected Entries"),
    }
}

#[test]
fn ipc_unpin() {
    let mut h = history();
    store(&mut h, "x", true);
    match reply(&mut h, Request::List) {
        Response::Entries(entries) => assert!(entries[0].pinned),
        _ => panic!("expected Entries"),
    }
    assert_eq!(reply(&mut h, Request::Unpin { index: 0 }), Response::Success);
    match reply(&mut h, Request::List) {
        Response::Entries(entries) => assert!(!entries[0].pinned),
        _ => panic!("expected Entries"),
    }
}

#[test]
fn ipc_copy_valid_index() {
    let mut h = history();
    store(&mut h, "copy me", false);
    match handle_request_at(Request::Copy { index: 0 }, &mut h, 1000) {
        Handled::CopyToClipboard(EntryContent::Text { text }) => assert_eq!(text, "copy me"),
        _ => panic!("expected a copy"),
    }
}

#[test]
fn ipc_copy_out_of_range() {
    let mut h = history();
    match reply(&mut h, Request::Copy { index: 3 }) {
        Response::Error(msg) => assert!(msg.contains("out of range")),
        _ => panic!("expected Error"),
    }
}

#[test]
fn ipc_store_with_pin() {
    let mut h = history();
    store(&mut h, "pinned!", true);
    match reply(&mut h, Request::List) {
        Response::Entries(entries) => {
            assert_eq!(entries.len(), 1);
            assert!(entries[0].pinned);
        }
        _ => panic!("expected Entries"),
    }
}

#[test]
fn ipc_empty_list() {
    let mut h = history();
    match reply(&mut h, Request::List) {
        Response::Entries(entries) => assert!(entries.is_empty()),
        _ => panic!("expected empty Entries"),
    }
}

#[test]
fn ipc_pin_out_of_range() {
    let mut h = history();
    match reply(&mut h, Request::Pin { index: 4 }) {
        Response::Error(msg) => assert!(msg.contains("out of range")),
        _ => panic!("expected Error"),
    }
}

#[test]
fn ipc_clear_empty_history() {
    let mut h = history();
    assert_eq!(reply(&mut h, Request::Clear), Response::Success);
}

#[test]
fn ipc_unicode_content() {
    let mut h = history();
    store(&mut h, "日本語テスト 🎉 emojis → ← ñ", false);
    match reply(&mut h, Request::Get { index: 0 }) {
        Response::Entry(e) => match e.content {
            EntryContent::Text { text } => assert_eq!(text, "日本語テスト 🎉 emojis → ← ñ"),
            _ => panic!("expected text"),
        },
        _ => panic!("expected Entry"),
    }
}

#[test]
fn ipc_multiline_content() {
    let mut h = history();
    store(&mut h, "line1\nline2\nline3\n\ttabbed", false);
    match reply(&mut h, Request::Get { index: 0 }) {
        Response::Entry(e) => match e.content {
            EntryContent::Text { text } => assert_eq!(text, "line1\nline2\nline3\n\ttabbed"),
            _ => panic!("expected text"),
        },
        _ => panic!("expected Entry"),
    }
}

#[test]
fn ipc_large_content() {
    let mut h = history();
    let big = "x".repeat(100000);
    store(&mut h, &big, false);
    match reply(&mut h, Request::Get { index: 0 }) {
        Response::Entry(e) => match e.content {
            EntryContent::Text { text } => assert_eq!(text.len(), 100000),
            _ => panic!("expected text"),
        },
        _ => panic!("expected Entry"),
    }
}

// --- further cases ---

#[test]
fn out_of_range_message_is_exact() {
    let mut h = history();
    assert_eq!(reply(&mut h, Request::Delete { index: 7 }), Response::Error("index 7 out of range".into()));
    assert_eq!(
        reply(&mut h, Request::Tag { index: 12, tag: None }),
        Response::Error("index 12 out of range".into())
    );
}

#[test]
fn tag_and_delete_requests() {
    let mut h = history();
    store(&mut h, "a", false);
    store(&mut h, "b", false);
    assert_eq!(reply(&mut h, Request::Tag { index: 1, tag: Some("email".into()) }), Response::Success);
    assert_eq!(h.entries[1].tag.as_deref(), Some("email"));
    assert_eq!(reply(&mut h, Request::Delete { index: 0 }), Response::Success);
    assert_eq!(h.entries.len(), 1);
}

#[test]
fn store_stamps_given_time() {
    let mut h = history();
    store(&mut h, "t", false);
    assert_eq!(h.entries[0].timestamp, 1000);
}

#[test]
fn copy_and_invalid_request_replies() {
    assert_eq!(copy_reply(Ok(())), Response::Success);
    assert_eq!(copy_reply(Err("no display".into())), Response::Error("clipboard error: no display".into()));
    assert_eq!(invalid_request_reply("expected value"), Response::Error("parse error: expected value".into()));
}

#[test]
fn ipc_invalid_json() {
    let mut h = history();
    let err = serde_json::from_str::<serde_json::Value>("not json at all").unwrap_err();
    match invalid_request_reply(&err.to_string()) {
        Response::Error(msg) => assert!(msg.contains("parse error")),
        _ => panic!("expected Error for invalid JSON"),
    }
    match reply(&mut h, Request::List) {
        Response::Entries(entries) => assert!(entries.is_empty()),
        _ => panic!("expected Entries"),
    }
}

#[test]
fn requests_are_defined_on_a_fresh_history() {
    let mut h = history();
    assert!(request_is_defined(&h, &Request::Store { content: "a".into(), pin: false }));
    assert!(request_is_defined(&h, &Request::List));
    store(&mut h, "a", false);
    assert!(request_is_defined(&h, &Request::Store { content: "a".into(), pin: false }));
}
