//! Clipboard entries: their content, its one-line preview, its hash and size.

use std::collections::hash_map::DefaultHasher;
use std::hash::Hasher;
use vstd::prelude::*;
use vstd::utf8::*;
use vstd::std_specs::hash::DefaultHasherAdditionalSpecFns;
use crate::text::{decimal, escape_newlines, escape_newlines_string, push_decimal, push_str};

verus! {

/// What an entry holds: text, or an image with its raw pixel bytes.
#[derive(Debug, Clone, PartialEq, Eq)]
pub enum EntryContent {
    Text { text: String },
    Image { width: usize, height: usize, bytes: Vec<u8> },
}

/// The mathematical value of an [`EntryContent`].
pub enum ContentView {
    Text { text: Seq<char> },
    Image { width: usize, height: usize, bytes: Seq<u8> },
}

impl View for EntryContent {
    type V = ContentView;

    open spec fn view(&self) -> ContentView {
        match self {
            EntryContent::Text { text } => ContentView::Text { text: text@ },
            EntryContent::Image { width, height, bytes } => ContentView::Image {
                width: *width,
                height: *height,
                bytes: bytes@,
            },
        }
    }
}

/// One item of the clipboard history.
#[derive(Debug, Clone, PartialEq, Eq)]
pub struct ClipboardEntry {
    pub id: u64,
    pub content: EntryContent,
    pub timestamp: u64,
    pub pinned: bool,
    pub tag: Option<String>,
}

/// The mathematical value of a [`ClipboardEntry`].
pub struct EntryView {
    pub id: u64,
    pub content: ContentView,
    pub timestamp: u64,
    pub pinned: bool,
    pub tag: Option<Seq<char>>,
}

/// The view of an optional string.
pub open spec fn opt_view(s: Option<String>) -> Option<Seq<char>> {
    match s {
        Some(t) => Some(t@),
        None => None,
    }
}

impl View for ClipboardEntry {
    type V = EntryView;

    open spec fn view(&self) -> EntryView {
        EntryView {
            id: self.id,
            content: self.content@,
            timestamp: self.timestamp,
            pinned: self.pinned,
            tag: opt_view(self.tag),
        }
    }
}

/// The views of a sequence of entries.
pub open spec fn entries_view(v: Seq<ClipboardEntry>) -> Seq<EntryView> {
    v.map_values(|e: ClipboardEntry| e@)
}

/// Copies an optional string.
pub fn copy_opt_string(s: &Option<String>) -> (r: Option<String>)
    ensures
        opt_view(r) == opt_view(*s),
{
    match s {
        Some(t) => Some(t.clone()),
        None => None,
    }
}

/// Copies a byte vector.
pub fn copy_bytes(v: &Vec<u8>) -> (r: Vec<u8>)
    ensures
        r@ == v@,
{
    let mut r: Vec<u8> = Vec::new();
    let mut i: usize = 0;
    while i < v.len()
        invariant
            0 <= i <= v.len(),
            r@ == v@.take(i as int),
        decreases v.len() - i,
    {
        r.push(v[i]);
        assert(v@.take(i + 1) =~= v@.take(i as int).push(v@[i as int]));
        i = i + 1;
    }
    assert(v@.take(v@.len() as int) =~= v@);
    r
}

/// `"[image: "`
pub open spec fn image_prefix() -> Seq<char> {
    seq!['[', 'i', 'm', 'a', 'g', 'e', ':', ' ']
}

/// `", "`
pub open spec fn comma_space() -> Seq<char> {
    seq![',', ' ']
}

/// `" bytes]"`
pub open spec fn bytes_suffix() -> Seq<char> {
    seq![' ', 'b', 'y', 't', 'e', 's', ']']
}

/// `"..."`
pub open spec fn ellipsis() -> Seq<char> {
    seq!['.', '.', '.']
}

/// The number of bytes in the UTF-8 encoding of `s`.
pub open spec fn utf8_len(s: Seq<char>) -> nat {
    encode_utf8(s).len()
}

/// Whether a preview of `c` cut at `max_len` bytes is defined: a text whose
/// escaped form is longer than `max_len` bytes must have a character
/// boundary at byte `max_len`.
pub open spec fn preview_defined(c: ContentView, max_len: usize) -> bool {
    match c {
        ContentView::Text { text } => {
            let bytes = encode_utf8(escape_newlines(text));
            bytes.len() > max_len ==> is_char_boundary(bytes, max_len as int)
        },
        ContentView::Image { .. } => true,
    }
}

/// The one-line preview of `c`: a text with its line feeds escaped, cut to
/// `max_len` bytes and marked with `...` when longer; for an image, its
/// dimensions and byte count.
pub open spec fn spec_preview(c: ContentView, max_len: usize) -> Seq<char> {
    match c {
        ContentView::Text { text } => {
            let escaped = escape_newlines(text);
            let bytes = encode_utf8(escaped);
            if bytes.len() <= max_len {
                escaped
            } else {
                decode_utf8(bytes.take(max_len as int)) + ellipsis()
            }
        },
        ContentView::Image { width, height, bytes } => image_prefix() + decimal(width as nat)
            + seq!['x'] + decimal(height as nat) + comma_space() + decimal(bytes.len())
            + bytes_suffix(),
    }
}

/// The little-endian bytes of `n`.
pub open spec fn le_bytes(n: u64) -> Seq<u8> {
    seq![
        (n & 0xff) as u8,
        ((n >> 8) & 0xff) as u8,
        ((n >> 16) & 0xff) as u8,
        ((n >> 24) & 0xff) as u8,
        ((n >> 32) & 0xff) as u8,
        ((n >> 40) & 0xff) as u8,
        ((n >> 48) & 0xff) as u8,
        ((n >> 56) & 0xff) as u8,
    ]
}

/// The writes that the content hash feeds to a fresh `DefaultHasher`: a
/// kind byte, then the text and its `0xff` terminator, or the image's byte
/// count and bytes.
pub open spec fn hash_input(c: ContentView) -> Seq<Seq<u8>> {
    match c {
        ContentView::Text { text } => seq![seq![0u8], encode_utf8(text), seq![0xffu8]],
        ContentView::Image { bytes, .. } => seq![seq![1u8], le_bytes(bytes.len() as u64), bytes],
    }
}

/// The content hash of `c`, by which equal contents are recognised.
pub open spec fn spec_content_hash(c: ContentView) -> u64 {
    DefaultHasher::spec_finish(hash_input(c))
}

/// The size in bytes of `c`: the UTF-8 length of a text, the byte count of
/// an image.
pub open spec fn spec_byte_len(c: ContentView) -> nat {
    match c {
        ContentView::Text { text } => utf8_len(text),
        ContentView::Image { bytes, .. } => bytes.len(),
    }
}

impl EntryContent {
    /// A one-line preview of the content, at most `max_len` bytes of text
    /// followed by `...` when it had to be cut.
    pub fn preview(&self, max_len: usize) -> (r: String)
        requires
            preview_defined(self@, max_len),
        ensures
            r@ == spec_preview(self@, max_len),
    {
        broadcast use vstd::utf8::encode_utf8_decode_utf8, vstd::slice::group_slice_axioms;
        match self {
            EntryContent::Text { text } => {
                let s = escape_newlines_string(text.as_str());
                if s.as_str().as_bytes().len() <= max_len {
                    s
                } else {
                    let (head, _) = s.as_str().split_at(max_len);
                    let mut r = String::new();
                    push_str(&mut r, head);
                    let dots = "...";
                    proof {
                        reveal_strlit("...");
                        assert(decode_utf8(encode_utf8(head@)) == head@);
                    }
                    push_str(&mut r, dots);
                    r
                }
            },
            EntryContent::Image { width, height, bytes } => {
                let mut r = String::new();
                let a = "[image: ";
                let x = "x";
                let b = ", ";
                let c = " bytes]";
                proof {
                    reveal_strlit("[image: ");
                    reveal_strlit("x");
                    reveal_strlit(", ");
                    reveal_strlit(" bytes]");
                }
                push_str(&mut r, a);
                push_decimal(&mut r, *width as u64);
                push_str(&mut r, x);
                push_decimal(&mut r, *height as u64);
                push_str(&mut r, b);
                push_decimal(&mut r, bytes.len() as u64);
                push_str(&mut r, c);
                r
            },
        }
    }

    /// Whether [`EntryContent::preview`] is defined for `max_len`.
    pub fn preview_is_defined(&self, max_len: usize) -> (r: bool)
        ensures
            r == preview_defined(self@, max_len),
    {
        broadcast use vstd::slice::group_slice_axioms;
        match self {
            EntryContent::Text { text } => {
                let s = escape_newlines_string(text.as_str());
                if s.as_str().as_bytes().len() <= max_len {
                    true
                } else {
                    s.as_str().is_char_boundary(max_len)
                }
            },
            EntryContent::Image { .. } => true,
        }
    }

    /// A hash of the content that tells texts from images; equal contents
    /// hash alike.
    pub fn content_hash(&self) -> (r: u64)
        ensures
            r == spec_content_hash(self@),
    {
        let mut hasher = DefaultHasher::new();
        match self {
            EntryContent::Text { text } => {
                let kind: [u8; 1] = [0u8];
                assert(kind@ =~= seq![0u8]);
                hasher.write(kind.as_slice());
                hasher.write(text.as_str().as_bytes());
                let end: [u8; 1] = [0xffu8];
                assert(end@ =~= seq![0xffu8]);
                hasher.write(end.as_slice());
                assert(hasher@ =~= hash_input(self@));
            },
            EntryContent::Image { bytes, .. } => {
                let kind: [u8; 1] = [1u8];
                assert(kind@ =~= seq![1u8]);
                hasher.write(kind.as_slice());
                let n = bytes.len() as u64;
                let len_bytes: [u8; 8] = [
                    (n & 0xff) as u8,
                    ((n >> 8) & 0xff) as u8,
                    ((n >> 16) & 0xff) as u8,
                    ((n >> 24) & 0xff) as u8,
                    ((n >> 32) & 0xff) as u8,
                    ((n >> 40) & 0xff) as u8,
                    ((n >> 48) & 0xff) as u8,
                    ((n >> 56) & 0xff) as u8,
                ];
                assert(len_bytes@ =~= le_bytes(n));
                hasher.write(len_bytes.as_slice());
                hasher.write(bytes.as_slice());
                assert(hasher@ =~= hash_input(self@));
            },
        }
        hasher.finish()
    }

    /// The size of the content in bytes.
    pub fn byte_len(&self) -> (r: usize)
        ensures
            r == spec_byte_len(self@),
    {
        broadcast use vstd::slice::group_slice_axioms;
        match self {
            EntryContent::Text { text } => text.as_str().as_bytes().len(),
            EntryContent::Image { bytes, .. } => bytes.len(),
        }
    }

    /// A copy of the content.
    pub fn duplicate(&self) -> (r: EntryContent)
        ensures
            r@ == self@,
    {
        match self {
            EntryContent::Text { text } => EntryContent::Text { text: text.clone() },
            EntryContent::Image { width, height, bytes } => EntryContent::Image {
                width: *width,
                height: *height,
                bytes: copy_bytes(bytes),
            },
        }
    }
}

impl ClipboardEntry {
    /// A copy of the entry.
    pub fn duplicate(&self) -> (r: ClipboardEntry)
        ensures
            r@ == self@,
    {
        ClipboardEntry {
            id: self.id,
            content: self.content.duplicate(),
            timestamp: self.timestamp,
            pinned: self.pinned,
            tag: copy_opt_string(&self.tag),
        }
    }
}

/// A copy of a list of entries.
pub fn copy_entries(v: &Vec<ClipboardEntry>) -> (r: Vec<ClipboardEntry>)
    ensures
        entries_view(r@) == entries_view(v@),
{
    let mut r: Vec<ClipboardEntry> = Vec::new();
    let mut i: usize = 0;
    while i < v.len()
        invariant
            0 <= i <= v.len(),
            r@.len() == i,
            forall|k: int| 0 <= k < i ==> (#[trigger] r@[k])@ == v@[k]@,
        decreases v.len() - i,
    {
        let e = v[i].duplicate();
        r.push(e);
        i = i + 1;
    }
    assert(entries_view(r@) =~= entries_view(v@));
    r
}

/// The encoding of a concatenation is the concatenation of the encodings.
proof fn lemma_encode_concat(a: Seq<char>, b: Seq<char>)
    ensures
        encode_utf8(a + b) == encode_utf8(a) + encode_utf8(b),
    decreases a.len(),
{
    if a.len() == 0 {
        assert(a + b =~= b);
    } else {
        lemma_encode_concat(a.drop_first(), b);
        assert((a + b).drop_first() =~= a.drop_first() + b);
        assert((a + b)[0] == a[0]);
    }
}

/// Escaping leaves no line feed.
proof fn lemma_escaped_has_no_line_feed(s: Seq<char>)
    ensures
        !escape_newlines(s).contains('\n'),
    decreases s.len(),
{
    if s.len() > 0 {
        lemma_escaped_has_no_line_feed(s.drop_last());
        let head = escape_newlines(s.drop_last());
        let tail = if s.last() == '\n' { seq!['\\', 'n'] } else { seq![s.last()] };
        assert forall|i: int| 0 <= i < (head + tail).len() implies (head + tail)[i] != '\n' by {
            if i < head.len() {
                assert((head + tail)[i] == head[i]);
                assert(!head.contains('\n'));
            } else {
                assert((head + tail)[i] == tail[i - head.len()]);
            }
        }
    }
}

/// A cut at a character boundary of an encoding decodes to a prefix of the
/// encoded characters, and encodes back to the cut bytes.
proof fn lemma_cut_is_prefix(chars: Seq<char>, cut: int)
    requires
        is_char_boundary(encode_utf8(chars), cut),
    ensures
        exists|k: int| 0 <= k <= chars.len() && decode_utf8(encode_utf8(chars).take(cut)) == chars.take(k),
        encode_utf8(decode_utf8(encode_utf8(chars).take(cut))) == encode_utf8(chars).take(cut),
        0 <= cut <= encode_utf8(chars).len(),
{
    broadcast use encode_utf8_valid_utf8, encode_utf8_decode_utf8, decode_utf8_encode_utf8,
        valid_utf8_split, decode_utf8_split;

    let bytes = encode_utf8(chars);
    reveal_with_fuel(is_char_boundary, 1);
    if cut < 0 || cut > bytes.len() {
        assert(!is_char_boundary(bytes, cut));
    }
    let first = bytes.subrange(0, cut);
    let second = bytes.subrange(cut, bytes.len() as int);
    assert(valid_utf8(first));
    assert(decode_utf8(bytes) == decode_utf8(first) + decode_utf8(second));
    assert(first == bytes.take(cut));
    let k = decode_utf8(first).len() as int;
    assert(chars == decode_utf8(first) + decode_utf8(second));
    assert(chars.take(k) =~= decode_utf8(first));
}

/// A text's preview never holds a line feed: line feeds are shown as `\n`.
pub proof fn law_preview_has_no_line_feed(text: Seq<char>, max_len: usize)
    requires
        preview_defined(ContentView::Text { text }, max_len),
    ensures
        !spec_preview(ContentView::Text { text }, max_len).contains('\n'),
{
    let escaped = escape_newlines(text);
    lemma_escaped_has_no_line_feed(text);
    let bytes = encode_utf8(escaped);
    if bytes.len() > max_len {
        lemma_cut_is_prefix(escaped, max_len as int);
        let k = choose|k: int| 0 <= k <= escaped.len() && decode_utf8(bytes.take(max_len as int)) == escaped.take(k);
        let p = spec_preview(ContentView::Text { text }, max_len);
        assert(p == escaped.take(k) + ellipsis());
        assert forall|i: int| 0 <= i < p.len() implies p[i] != '\n' by {
            if i < k {
                assert(p[i] == escaped[i]);
                assert(!escaped.contains('\n'));
            } else {
                assert(p[i] == ellipsis()[i - k]);
            }
        }
    }
}

/// A text's preview takes at most `max_len` bytes of the text, plus the
/// three bytes of `...` when it was cut.
pub proof fn law_preview_length_is_bounded(text: Seq<char>, max_len: usize)
    requires
        preview_defined(ContentView::Text { text }, max_len),
    ensures
        utf8_len(spec_preview(ContentView::Text { text }, max_len)) <= max_len + 3,
        utf8_len(escape_newlines(text)) > max_len ==> utf8_len(
            spec_preview(ContentView::Text { text }, max_len),
        ) == max_len + 3,
{
    let escaped = escape_newlines(text);
    let bytes = encode_utf8(escaped);
    if bytes.len() > max_len {
        lemma_cut_is_prefix(escaped, max_len as int);
        let cut = decode_utf8(bytes.take(max_len as int));
        lemma_encode_concat(cut, ellipsis());
        assert(encode_utf8(ellipsis()).len() == 3) by {
            reveal_with_fuel(encode_utf8, 4);
        }
    }
}

/// A text without line feeds that fits in `max_len` bytes is its own
/// preview.
pub proof fn law_short_text_is_its_own_preview(text: Seq<char>, max_len: usize)
    requires
        !text.contains('\n'),
        utf8_len(text) <= max_len,
    ensures
        spec_preview(ContentView::Text { text }, max_len) == text,
{
    lemma_escape_without_line_feed(text);
}

/// Escaping a text without line feeds changes nothing.
proof fn lemma_escape_without_line_feed(s: Seq<char>)
    requires
        !s.contains('\n'),
    ensures
        escape_newlines(s) == s,
    decreases s.len(),
{
    if s.len() > 0 {
        let d = s.drop_last();
        assert(!d.contains('\n')) by {
            if d.contains('\n') {
                let i = choose|i: int| 0 <= i < d.len() && d[i] == '\n';
                assert(s[i] == '\n');
            }
        }
        lemma_escape_without_line_feed(d);
        assert(s.last() != '\n') by {
            assert(s[s.len() - 1] == s.last());
        }
        assert(d + seq![s.last()] =~= s);
    }
}

/// The content hash is taken over an input that determines the content's
/// kind and exact data: a text's own UTF-8 bytes (so texts differing in any
/// character, case included, are hashed from different inputs), an image's
/// exact bytes, and a text never from the same input as an image.
pub proof fn law_hash_input_determines_content(c1: ContentView, c2: ContentView)
    ensures
        spec_content_hash(c1) == DefaultHasher::spec_finish(hash_input(c1)),
        hash_input(c1) == hash_input(c2) ==> match (c1, c2) {
            (ContentView::Text { text: t1 }, ContentView::Text { text: t2 }) => t1 == t2,
            (ContentView::Image { bytes: b1, .. }, ContentView::Image { bytes: b2, .. }) => b1 == b2,
            _ => false,
        },
{
    broadcast use encode_utf8_decode_utf8;
    if hash_input(c1) == hash_input(c2) {
        assert(hash_input(c1)[0] == hash_input(c2)[0]);
        match (c1, c2) {
            (ContentView::Text { text: t1 }, ContentView::Text { text: t2 }) => {
                assert(hash_input(c1)[1] == hash_input(c2)[1]);
                assert(decode_utf8(encode_utf8(t1)) == t1);
                assert(decode_utf8(encode_utf8(t2)) == t2);
            },
            (ContentView::Image { bytes: b1, .. }, ContentView::Image { bytes: b2, .. }) => {
                assert(hash_input(c1)[2] == hash_input(c2)[2]);
            },
            (ContentView::Text { .. }, ContentView::Image { .. }) => {
                assert(hash_input(c1)[0][0] == 0u8);
                assert(hash_input(c2)[0][0] == 1u8);
            },
            (ContentView::Image { .. }, ContentView::Text { .. }) => {
                assert(hash_input(c1)[0][0] == 1u8);
                assert(hash_input(c2)[0][0] == 0u8);
            },
        }
    }
}

} // verus!
