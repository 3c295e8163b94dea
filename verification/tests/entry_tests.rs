use yoinker::entry::{ClipboardEntry, EntryContent};

#[test]
fn text_preview_short() {
    let c = EntryContent::Text { text: "hello".into() };
    assert_eq!(c.preview(10), "hello");
}

#[test]
fn text_preview_truncated() {
    let c = EntryContent::Text { text: "hello world this is long".into() };
    let p = c.preview(10);
    assert!(p.ends_with("..."));
    assert!(p.len() <= 13); // 10 + "..."
}

#[test]
fn text_preview_newlines_escaped() {
    let c = EntryContent::Text { text: "line1\nline2\nline3".into() };
    let p = c.preview(100);
    assert!(!p.contains('\n'));
    assert!(p.contains("\\n"));
}

#[test]
fn image_preview() {
    let c = EntryContent::Image { width: 100, height: 200, bytes: vec![0; 5000] };
    let p = c.preview(100);
    assert!(p.contains("100x200"));
    assert!(p.contains("5000"));
}

#[test]
fn text_content_hash_deterministic() {
    let a = EntryContent::Text { text: "same".into() };
    let b = EntryContent::Text { text: "same".into() };
    assert_eq!(a.content_hash(), b.content_hash());
}

#[test]
fn text_content_hash_differs() {
    let a = EntryContent::Text { text: "hello".into() };
    let b = EntryContent::Text { text: "world".into() };
    assert_ne!(a.content_hash(), b.content_hash());
}

#[test]
fn text_vs_image_hash_differs() {
    let t = EntryContent::Text { text: "".into() };
    let i = EntryContent::Image { width: 0, height: 0, bytes: vec![] };
    assert_ne!(t.content_hash(), i.content_hash());
}

#[test]
fn image_content_hash_deterministic() {
    let a = EntryContent::Image { width: 10, height: 10, bytes: vec![1, 2, 3] };
    let b = EntryContent::Image { width: 10, height: 10, bytes: vec![1, 2, 3] };
    assert_eq!(a.content_hash(), b.content_hash());
}

#[test]
fn image_content_hash_differs_on_bytes() {
    let a = EntryContent::Image { width: 10, height: 10, bytes: vec![1, 2, 3] };
    let b = EntryContent::Image { width: 10, height: 10, bytes: vec![4, 5, 6] };
    assert_ne!(a.content_hash(), b.content_hash());
}

#[test]
fn byte_len_text() {
    let c = EntryContent::Text { text: "hello".into() };
    assert_eq!(c.byte_len(), 5);
}

#[test]
fn byte_len_image() {
    let c = EntryContent::Image { width: 1, height: 1, bytes: vec![0; 100] };
    assert_eq!(c.byte_len(), 100);
}

#[test]
fn empty_text_hash_and_preview() {
    let c = EntryContent::Text { text: "".into() };
    assert_eq!(c.preview(10), "");
    assert_eq!(c.byte_len(), 0);
    // hash should still be deterministic
    let c2 = EntryContent::Text { text: "".into() };
    assert_eq!(c.content_hash(), c2.content_hash());
}

#[test]
fn large_text_preview() {
    let text = "a".repeat(10000);
    let c = EntryContent::Text { text };
    let p = c.preview(50);
    assert_eq!(p.len(), 53); // 50 + "..."
}

#[test]
fn multiline_text_preview() {
    let c = EntryContent::Text { text: "fn main() {\n    println!(\"hello\");\n}".into() };
    let p = c.preview(100);
    assert!(p.contains("\\n"));
    assert!(p.contains("fn main()"));
}

// --- further cases ---

#[test]
fn preview_exact_values() {
    let c = EntryContent::Text { text: "a\nb".into() };
    assert_eq!(c.preview(100), "a\\nb");
    assert_eq!(c.preview(2), "a\\...");
    let img = EntryContent::Image { width: 64, height: 32, bytes: vec![1, 2, 3] };
    assert_eq!(img.preview(0), "[image: 64x32, 3 bytes]");
}

#[test]
fn preview_at_exact_limit_is_not_cut() {
    let c = EntryContent::Text { text: "abcde".into() };
    assert_eq!(c.preview(5), "abcde");
    assert_eq!(c.preview(4), "abcd...");
}

#[test]
fn preview_of_multibyte_text_cut_on_boundary() {
    let c = EntryContent::Text { text: "日本語".into() };
    assert!(c.preview_is_defined(3));
    assert_eq!(c.preview(3), "日...");
    assert!(!c.preview_is_defined(4));
    assert!(c.preview_is_defined(9));
    assert_eq!(c.preview(9), "日本語");
}

#[test]
fn byte_len_counts_utf8_bytes() {
    let c = EntryContent::Text { text: "ñ→".into() };
    assert_eq!(c.byte_len(), 5);
}

#[test]
fn duplicate_copies_entry() {
    let e = ClipboardEntry {
        id: 9,
        content: EntryContent::Image { width: 2, height: 3, bytes: vec![7, 8] },
        timestamp: 11,
        pinned: true,
        tag: Some("t".into()),
    };
    assert_eq!(e.duplicate(), e);
}
