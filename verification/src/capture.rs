//! What the clipboard watcher takes into the history.

use vstd::prelude::*;
use crate::entry::{ContentView, EntryContent};
use crate::entry::utf8_len;

verus! {

/// Whether a size of `n` bytes is within `max_bytes` (0 means unlimited).
pub open spec fn within_limit(n: nat, max_bytes: usize) -> bool {
    max_bytes == 0 || n <= max_bytes
}

/// The entry content for a clipboard text: non-empty text within the size
/// limit is taken, anything else is not.
pub fn capture_text(text: String, max_bytes: usize) -> (r: Option<EntryContent>)
    ensures
        r is Some <==> text@.len() > 0 && within_limit(utf8_len(text@), max_bytes),
        r is Some ==> r->0@ == (ContentView::Text { text: text@ }),
{
    broadcast use vstd::slice::group_slice_axioms;
    let n = text.as_str().as_bytes().len();
    if !text.as_str().is_empty() && (max_bytes == 0 || n <= max_bytes) {
        Some(EntryContent::Text { text })
    } else {
        None
    }
}

/// The entry content for a clipboard image: an image with some bytes within
/// the size limit is taken, anything else is not.
pub fn capture_image(width: usize, height: usize, bytes: Vec<u8>, max_bytes: usize) -> (r: Option<EntryContent>)
    ensures
        r is Some <==> bytes@.len() > 0 && within_limit(bytes@.len(), max_bytes),
        r is Some ==> r->0@ == (ContentView::Image { width, height, bytes: bytes@ }),
{
    let n = bytes.len();
    if n > 0 && (max_bytes == 0 || n <= max_bytes) {
        Some(EntryContent::Image { width, height, bytes })
    } else {
        None
    }
}

/// The wait before the next attempt to reach the clipboard: double the last
/// one, but at most a minute.
pub fn next_backoff(secs: u64) -> (r: u64)
    requires
        secs <= u64::MAX / 2,
    ensures
        r == if 2 * secs < 60 { 2 * secs } else { 60 },
{
    let d = secs * 2;
    if d < 60 { d } else { 60 }
}

/// What the clipboard watcher reports after doing what it was asked.
pub enum WatchEvent {
    /// The connection to the clipboard was made.
    Connected,
    /// The connection could not be made.
    ConnectFailed,
    /// The text was read (`None` when reading it failed).
    Text(Option<String>),
    /// The image was read, as its width, height and bytes (`None` when
    /// reading it failed).
    Image(Option<(usize, usize, Vec<u8>)>),
    /// Whether the text, and else the image, can still be read (the image
    /// needs no reading when the text can be read).
    Probe { text_ok: bool, image_ok: bool },
    /// The content was handed to the history.
    Stored,
}

/// What the clipboard watcher is asked to do next.
pub enum WatchAction {
    /// Connect to the clipboard.
    Connect,
    /// Wait this many seconds, then connect.
    RetryAfter(u64),
    /// Wait the poll interval, then read the text.
    Poll,
    /// Read the image.
    ReadImage,
    /// Add this content to the history.
    Store(EntryContent),
    /// Check whether the clipboard can still be read.
    Probe,
}

/// The mathematical value of a [`WatchEvent`].
pub enum WatchEventView {
    Connected,
    ConnectFailed,
    Text(Option<Seq<char>>),
    Image(Option<(usize, usize, Seq<u8>)>),
    Probe { text_ok: bool, image_ok: bool },
    Stored,
}

/// The mathematical value of a [`WatchAction`].
pub enum WatchActionView {
    Connect,
    RetryAfter(u64),
    Poll,
    ReadImage,
    Store(ContentView),
    Probe,
}

impl View for WatchEvent {
    type V = WatchEventView;

    open spec fn view(&self) -> WatchEventView {
        match self {
            WatchEvent::Connected => WatchEventView::Connected,
            WatchEvent::ConnectFailed => WatchEventView::ConnectFailed,
            WatchEvent::Text(t) => WatchEventView::Text(
                match t {
                    Some(t) => Some(t@),
                    None => None,
                },
            ),
            WatchEvent::Image(i) => WatchEventView::Image(
                match i {
                    Some((w, h, b)) => Some((*w, *h, b@)),
                    None => None,
                },
            ),
            WatchEvent::Probe { text_ok, image_ok } => WatchEventView::Probe {
                text_ok: *text_ok,
                image_ok: *image_ok,
            },
            WatchEvent::Stored => WatchEventView::Stored,
        }
    }
}

impl View for WatchAction {
    type V = WatchActionView;

    open spec fn view(&self) -> WatchActionView {
        match self {
            WatchAction::Connect => WatchActionView::Connect,
            WatchAction::RetryAfter(s) => WatchActionView::RetryAfter(*s),
            WatchAction::Poll => WatchActionView::Poll,
            WatchAction::ReadImage => WatchActionView::ReadImage,
            WatchAction::Store(c) => WatchActionView::Store(c@),
            WatchAction::Probe => WatchActionView::Probe,
        }
    }
}

/// The watcher's next wait before reconnecting, and what it does next,
/// after `event`, with `backoff` the current wait: connecting resets the
/// wait to a second and starts polling; a failed connection waits the
/// current wait, doubled for next time up to a minute, and tries again;
/// a text that is taken is stored, otherwise the image is read; an image
/// that is taken is stored, otherwise the clipboard is probed; when neither
/// text nor image can be read the watcher reconnects, otherwise (and after
/// storing) it polls again.
pub open spec fn spec_watch_step(backoff: u64, event: WatchEventView, max_bytes: usize) -> (u64, WatchActionView) {
    match event {
        WatchEventView::Connected => (1, WatchActionView::Poll),
        WatchEventView::ConnectFailed => (
            if 2 * backoff < 60 { (2 * backoff) as u64 } else { 60 },
            WatchActionView::RetryAfter(backoff),
        ),
        WatchEventView::Text(t) => match t {
            Some(t) => if t.len() > 0 && within_limit(utf8_len(t), max_bytes) {
                (backoff, WatchActionView::Store(ContentView::Text { text: t }))
            } else {
                (backoff, WatchActionView::ReadImage)
            },
            None => (backoff, WatchActionView::ReadImage),
        },
        WatchEventView::Image(i) => match i {
            Some((w, h, b)) => if b.len() > 0 && within_limit(b.len(), max_bytes) {
                (backoff, WatchActionView::Store(ContentView::Image { width: w, height: h, bytes: b }))
            } else {
                (backoff, WatchActionView::Probe)
            },
            None => (backoff, WatchActionView::Probe),
        },
        WatchEventView::Probe { text_ok, image_ok } => if !text_ok && !image_ok {
            (backoff, WatchActionView::Connect)
        } else {
            (backoff, WatchActionView::Poll)
        },
        WatchEventView::Stored => (backoff, WatchActionView::Poll),
    }
}

/// The watcher's first wait and action: a second, and connecting.
pub fn watch_start() -> (r: (u64, WatchAction))
    ensures
        r.0 == 1,
        r.1@ == WatchActionView::Connect,
{
    (1, WatchAction::Connect)
}

/// The watcher's next wait and action after `event` (see
/// [`spec_watch_step`]).
pub fn watch_step(backoff: u64, event: WatchEvent, max_bytes: usize) -> (r: (u64, WatchAction))
    requires
        backoff <= 60,
    ensures
        (r.0, r.1@) == spec_watch_step(backoff, event@, max_bytes),
        r.0 <= 60,
{
    match event {
        WatchEvent::Connected => (1, WatchAction::Poll),
        WatchEvent::ConnectFailed => (next_backoff(backoff), WatchAction::RetryAfter(backoff)),
        WatchEvent::Text(t) => match t {
            Some(t) => match capture_text(t, max_bytes) {
                Some(c) => (backoff, WatchAction::Store(c)),
                None => (backoff, WatchAction::ReadImage),
            },
            None => (backoff, WatchAction::ReadImage),
        },
        WatchEvent::Image(i) => match i {
            Some((w, h, b)) => match capture_image(w, h, b, max_bytes) {
                Some(c) => (backoff, WatchAction::Store(c)),
                None => (backoff, WatchAction::Probe),
            },
            None => (backoff, WatchAction::Probe),
        },
        WatchEvent::Probe { text_ok, image_ok } => if !text_ok && !image_ok {
            (backoff, WatchAction::Connect)
        } else {
            (backoff, WatchAction::Poll)
        },
        WatchEvent::Stored => (backoff, WatchAction::Poll),
    }
}

/// The wait before reconnecting stays between a second and a minute;
/// connecting resets it to a second, a failed connection doubles it (up to
/// a minute), and nothing else changes it.
pub proof fn law_backoff_stays_within_a_minute(b: u64, e: WatchEventView, max_bytes: usize)
    requires
        1 <= b <= 60,
    ensures
        1 <= spec_watch_step(b, e, max_bytes).0 <= 60,
        e is Connected ==> spec_watch_step(b, e, max_bytes).0 == 1,
        e is ConnectFailed ==> spec_watch_step(b, e, max_bytes).0 >= b,
        !(e is Connected || e is ConnectFailed) ==> spec_watch_step(b, e, max_bytes).0 == b,
{
}

} // verus!
