//! The request protocol of the daemon: what each request does to the
//! history and what it is answered.

use vstd::prelude::*;
use crate::entry::{entries_view, copy_entries, spec_content_hash, opt_view, ClipboardEntry, ContentView, EntryContent, EntryView};
use crate::history::{
    add_allocates, law_added_content_comes_first, now, spec_add, spec_clear, spec_delete, spec_set_pinned, spec_set_tag,
    ClipboardHistory, HistoryState,
};
use crate::text::{decimal, push_decimal, push_str};

verus! {

/// A request to the daemon.
#[derive(Debug, Clone, PartialEq, Eq)]
pub enum Request {
    List,
    Get { index: usize },
    Pin { index: usize },
    Unpin { index: usize },
    Clear,
    Store { content: String, pin: bool },
    /// Copy entry at index to the system clipboard (daemon holds it alive)
    Copy { index: usize },
    /// Delete entry at index
    Delete { index: usize },
    /// Set or clear a tag on an entry (None to remove tag)
    Tag { index: usize, tag: Option<String> },
}

/// The mathematical value of a [`Request`].
pub enum RequestView {
    List,
    Get { index: usize },
    Pin { index: usize },
    Unpin { index: usize },
    Clear,
    Store { content: Seq<char>, pin: bool },
    Copy { index: usize },
    Delete { index: usize },
    Tag { index: usize, tag: Option<Seq<char>> },
}

impl View for Request {
    type V = RequestView;

    open spec fn view(&self) -> RequestView {
        match self {
            Request::List => RequestView::List,
            Request::Get { index } => RequestView::Get { index: *index },
            Request::Pin { index } => RequestView::Pin { index: *index },
            Request::Unpin { index } => RequestView::Unpin { index: *index },
            Request::Clear => RequestView::Clear,
            Request::Store { content, pin } => RequestView::Store { content: content@, pin: *pin },
            Request::Copy { index } => RequestView::Copy { index: *index },
            Request::Delete { index } => RequestView::Delete { index: *index },
            Request::Tag { index, tag } => RequestView::Tag { index: *index, tag: opt_view(*tag) },
        }
    }
}

/// The daemon's answer to a request.
#[derive(Debug, Clone, PartialEq, Eq)]
pub enum Response {
    Entries(Vec<ClipboardEntry>),
    Entry(ClipboardEntry),
    Success,
    Error(String),
}

/// The mathematical value of a [`Response`].
pub enum ResponseView {
    Entries(Seq<EntryView>),
    Entry(EntryView),
    Success,
    Error(Seq<char>),
}

impl View for Response {
    type V = ResponseView;

    open spec fn view(&self) -> ResponseView {
        match self {
            Response::Entries(v) => ResponseView::Entries(entries_view(v@)),
            Response::Entry(e) => ResponseView::Entry(e@),
            Response::Success => ResponseView::Success,
            Response::Error(m) => ResponseView::Error(m@),
        }
    }
}

/// What handling a request leaves to do: send a reply, or first put the
/// given content on the system clipboard and reply with the outcome.
#[derive(Debug)]
pub enum Handled {
    Reply(Response),
    CopyToClipboard(EntryContent),
}

/// The mathematical value of a [`Handled`].
pub enum HandledView {
    Reply(ResponseView),
    CopyToClipboard(ContentView),
}

impl View for Handled {
    type V = HandledView;

    open spec fn view(&self) -> HandledView {
        match self {
            Handled::Reply(r) => HandledView::Reply(r@),
            Handled::CopyToClipboard(c) => HandledView::CopyToClipboard(c@),
        }
    }
}

/// `"index {index} out of range"`
pub open spec fn out_of_range_message(index: usize) -> Seq<char> {
    seq!['i', 'n', 'd', 'e', 'x', ' '] + decimal(index as nat) + seq![
        ' ',
        'o',
        'u',
        't',
        ' ',
        'o',
        'f',
        ' ',
        'r',
        'a',
        'n',
        'g',
        'e',
    ]
}

/// `"clipboard error: {detail}"`
pub open spec fn clipboard_error_message(detail: Seq<char>) -> Seq<char> {
    "clipboard error: "@ + detail
}

/// `"parse error: {detail}"`
pub open spec fn invalid_request_message(detail: Seq<char>) -> Seq<char> {
    "parse error: "@ + detail
}

/// `Ok` when an index-taking operation found its entry, otherwise the
/// out-of-range error.
pub open spec fn ok_or_out_of_range(found: bool, index: usize) -> ResponseView {
    if found {
        ResponseView::Success
    } else {
        ResponseView::Error(out_of_range_message(index))
    }
}

/// Whether `r` can be handled on `s`: a store that creates a new entry
/// needs an id below the largest.
pub open spec fn request_defined(s: HistoryState, r: RequestView) -> bool {
    match r {
        RequestView::Store { content, .. } => add_allocates(
            s,
            ContentView::Text { text: content },
        ) ==> s.next_id < u64::MAX,
        _ => true,
    }
}

/// The state after handling `r` on `s` at time `now`, and what is left to
/// do.
pub open spec fn spec_handle(s: HistoryState, r: RequestView, now: u64) -> (HistoryState, HandledView) {
    match r {
        RequestView::List => (s, HandledView::Reply(ResponseView::Entries(s.entries))),
        RequestView::Get { index } => (
            s,
            HandledView::Reply(
                if index < s.entries.len() {
                    ResponseView::Entry(s.entries[index as int])
                } else {
                    ResponseView::Error(out_of_range_message(index))
                },
            ),
        ),
        RequestView::Pin { index } => {
            let (t, found) = spec_set_pinned(s, index, true);
            (t, HandledView::Reply(ok_or_out_of_range(found, index)))
        },
        RequestView::Unpin { index } => {
            let (t, found) = spec_set_pinned(s, index, false);
            (t, HandledView::Reply(ok_or_out_of_range(found, index)))
        },
        RequestView::Clear => (spec_clear(s), HandledView::Reply(ResponseView::Success)),
        RequestView::Store { content, pin } => {
            let t = spec_add(s, ContentView::Text { text: content }, now).0;
            let u = if pin { spec_set_pinned(t, 0, true).0 } else { t };
            (u, HandledView::Reply(ResponseView::Success))
        },
        RequestView::Tag { index, tag } => {
            let (t, found) = spec_set_tag(s, index, tag);
            (t, HandledView::Reply(ok_or_out_of_range(found, index)))
        },
        RequestView::Delete { index } => {
            let (t, found) = spec_delete(s, index);
            (t, HandledView::Reply(ok_or_out_of_range(found, index)))
        },
        RequestView::Copy { index } => (
            s,
            if index < s.entries.len() {
                HandledView::CopyToClipboard(s.entries[index as int].content)
            } else {
                HandledView::Reply(ResponseView::Error(out_of_range_message(index)))
            },
        ),
    }
}

/// The out-of-range error for `index`.
pub fn out_of_range(index: usize) -> (r: Response)
    ensures
        r@ == ResponseView::Error(out_of_range_message(index)),
{
    let mut m = String::new();
    let a = "index ";
    let b = " out of range";
    proof {
        reveal_strlit("index ");
        reveal_strlit(" out of range");
    }
    push_str(&mut m, a);
    push_decimal(&mut m, index as u64);
    push_str(&mut m, b);
    proof {
        assert(m@ =~= out_of_range_message(index));
    }
    Response::Error(m)
}

fn ok_or_error(found: bool, index: usize) -> (r: Response)
    ensures
        r@ == ok_or_out_of_range(found, index),
{
    if found {
        Response::Success
    } else {
        out_of_range(index)
    }
}

/// Handles `req` on `history` at time `now`.
pub fn handle_request_at(req: Request, history: &mut ClipboardHistory, now: u64) -> (r: Handled)
    requires
        request_defined(old(history).state(), req@),
    ensures
        (final(history).state(), r@) == spec_handle(old(history).state(), req@, now),
        final(history).config == old(history).config,
{
    match req {
        Request::List => Handled::Reply(Response::Entries(copy_entries(&history.entries))),
        Request::Get { index } => {
            if index < history.entries.len() {
                Handled::Reply(Response::Entry(history.entries[index].duplicate()))
            } else {
                Handled::Reply(out_of_range(index))
            }
        },
        Request::Pin { index } => {
            let found = history.pin(index);
            Handled::Reply(ok_or_error(found, index))
        },
        Request::Unpin { index } => {
            let found = history.unpin(index);
            Handled::Reply(ok_or_error(found, index))
        },
        Request::Clear => {
            history.clear_unpinned();
            Handled::Reply(Response::Success)
        },
        Request::Store { content, pin } => {
            history.add_at(EntryContent::Text { text: content }, now);
            if pin {
                history.pin(0);
            }
            Handled::Reply(Response::Success)
        },
        Request::Tag { index, tag } => {
            let found = history.set_tag(index, tag);
            Handled::Reply(ok_or_error(found, index))
        },
        Request::Delete { index } => {
            let found = history.delete(index);
            Handled::Reply(ok_or_error(found, index))
        },
        Request::Copy { index } => {
            if index < history.entries.len() {
                Handled::CopyToClipboard(history.entries[index].content.duplicate())
            } else {
                Handled::Reply(out_of_range(index))
            }
        },
    }
}

/// Handles `req` on `history`, stamping a stored text with the current
/// time.
pub fn handle_request(req: Request, history: &mut ClipboardHistory) -> (r: Handled)
    requires
        request_defined(old(history).state(), req@),
    ensures
        exists|t: u64| (final(history).state(), r@) == spec_handle(old(history).state(), req@, t),
        final(history).config == old(history).config,
{
    let t = now();
    handle_request_at(req, history, t)
}

/// The reply to a copy request, given the outcome of putting the content on
/// the system clipboard.
pub fn copy_reply(outcome: Result<(), String>) -> (r: Response)
    ensures
        r@ == match outcome {
            Ok(()) => ResponseView::Success,
            Err(e) => ResponseView::Error(clipboard_error_message(e@)),
        },
{
    match outcome {
        Ok(()) => Response::Success,
        Err(e) => {
            let mut m = String::new();
            push_str(&mut m, "clipboard error: ");
            push_str(&mut m, e.as_str());
            Response::Error(m)
        },
    }
}

/// The reply to a line that is not a request, given the parser's account of
/// what is wrong with it.
pub fn invalid_request_reply(detail: &str) -> (r: Response)
    ensures
        r@ == ResponseView::Error(invalid_request_message(detail@)),
{
    let mut m = String::new();
    push_str(&mut m, "parse error: ");
    push_str(&mut m, detail);
    Response::Error(m)
}

/// Whether `req` can be handled on `history` (see [`request_defined`]);
/// the daemon tests this before [`handle_request`].
pub fn request_is_defined(history: &ClipboardHistory, req: &Request) -> (r: bool)
    ensures
        r == request_defined(history.state(), req@),
{
    match req {
        Request::Store { content, .. } => {
            let c = EntryContent::Text { text: content.clone() };
            !history.add_needs_fresh_id(&c) || history.next_id() < u64::MAX
        },
        _ => true,
    }
}

/// The index a request names, if it names one.
pub open spec fn request_index(r: RequestView) -> Option<usize> {
    match r {
        RequestView::Get { index } => Some(index),
        RequestView::Pin { index } => Some(index),
        RequestView::Unpin { index } => Some(index),
        RequestView::Copy { index } => Some(index),
        RequestView::Delete { index } => Some(index),
        RequestView::Tag { index, .. } => Some(index),
        _ => None,
    }
}

/// A request naming an entry that does not exist changes nothing and is
/// answered with the out-of-range error.
pub proof fn law_out_of_range_is_refused(s: HistoryState, r: RequestView, t: u64)
    requires
        request_index(r) matches Some(i) && i >= s.entries.len(),
    ensures
        spec_handle(s, r, t).0 == s,
        spec_handle(s, r, t).1 == HandledView::Reply(
            ResponseView::Error(out_of_range_message(request_index(r)->0)),
        ),
{
}

/// Listing answers with the whole history and changes nothing.
pub proof fn law_list_answers_history(s: HistoryState, t: u64)
    ensures
        spec_handle(s, RequestView::List, t) == (s, HandledView::Reply(ResponseView::Entries(s.entries))),
{
}

/// After storing a text that differs from the last accepted content (with
/// room for an unpinned entry), getting entry 0 answers an entry with that
/// text's hash, stamped with the time of the store and pinned when asked; a
/// text new to the history comes back exactly, under the next id.
pub proof fn law_store_then_get_first(s: HistoryState, text: Seq<char>, pin: bool, t: u64, t2: u64)
    requires
        s.max_history > 0,
        spec_content_hash(ContentView::Text { text }) != s.last_hash,
        request_defined(s, RequestView::Store { content: text, pin }),
    ensures
        ({
            let s1 = spec_handle(s, RequestView::Store { content: text, pin }, t).0;
            let (s2, h) = spec_handle(s1, RequestView::Get { index: 0 }, t2);
            &&& s2 == s1
            &&& h matches HandledView::Reply(ResponseView::Entry(e)) && {
                &&& spec_content_hash(e.content) == spec_content_hash(ContentView::Text { text })
                &&& e.timestamp == t
                &&& pin ==> e.pinned
                &&& add_allocates(s, ContentView::Text { text }) ==> e.content == (ContentView::Text {
                    text,
                }) && e.id == s.next_id
            }
        }),
{
    law_added_content_comes_first(s, ContentView::Text { text }, t);
}

/// A request naming an entry in range acts on that entry and on no other:
/// getting answers it, copying hands its content to the clipboard, pinning
/// and unpinning set its flag, tagging sets its tag, deleting removes it
/// (pinned or not); each leaves the other entries as they were.
pub proof fn law_index_requests_act_on_that_entry(s: HistoryState, i: usize, tag: Option<Seq<char>>, t: u64)
    requires
        i < s.entries.len(),
    ensures
        spec_handle(s, RequestView::Get { index: i }, t) == (s, HandledView::Reply(ResponseView::Entry(s.entries[i as int]))),
        spec_handle(s, RequestView::Copy { index: i }, t) == (s, HandledView::CopyToClipboard(s.entries[i as int].content)),
        ({
            let (u, h) = spec_handle(s, RequestView::Pin { index: i }, t);
            &&& h == HandledView::Reply(ResponseView::Success)
            &&& u.entries.len() == s.entries.len()
            &&& u.entries[i as int].pinned
            &&& u.entries[i as int].id == s.entries[i as int].id
            &&& u.entries[i as int].content == s.entries[i as int].content
            &&& u.entries[i as int].tag == s.entries[i as int].tag
            &&& forall|j: int| 0 <= j < s.entries.len() && j != i ==> #[trigger] u.entries[j] == s.entries[j]
        }),
        ({
            let (u, h) = spec_handle(s, RequestView::Unpin { index: i }, t);
            &&& h == HandledView::Reply(ResponseView::Success)
            &&& u.entries.len() == s.entries.len()
            &&& !u.entries[i as int].pinned
            &&& u.entries[i as int].id == s.entries[i as int].id
            &&& u.entries[i as int].content == s.entries[i as int].content
            &&& forall|j: int| 0 <= j < s.entries.len() && j != i ==> #[trigger] u.entries[j] == s.entries[j]
        }),
        ({
            let (u, h) = spec_handle(s, RequestView::Tag { index: i, tag }, t);
            &&& h == HandledView::Reply(ResponseView::Success)
            &&& u.entries.len() == s.entries.len()
            &&& u.entries[i as int].tag == tag
            &&& u.entries[i as int].id == s.entries[i as int].id
            &&& u.entries[i as int].pinned == s.entries[i as int].pinned
            &&& forall|j: int| 0 <= j < s.entries.len() && j != i ==> #[trigger] u.entries[j] == s.entries[j]
        }),
        ({
            let (u, h) = spec_handle(s, RequestView::Delete { index: i }, t);
            &&& h == HandledView::Reply(ResponseView::Success)
            &&& u.entries.len() + 1 == s.entries.len()
            &&& forall|j: int| 0 <= j < i ==> #[trigger] u.entries[j] == s.entries[j]
            &&& forall|j: int| i <= j < u.entries.len() ==> #[trigger] u.entries[j] == s.entries[j + 1]
        }),
{
}

} // verus!
