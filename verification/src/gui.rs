//! The graphical picker: which entries match the search and in what order,
//! and what its keys and buttons do to its state.

use vstd::prelude::*;
use crate::entry::{copy_opt_string, entries_view, opt_view, preview_defined, spec_preview, ClipboardEntry, EntryView};
use crate::text::{chars_of, contains_chars, occurs_in, spec_lowercase, to_lowercase};

verus! {

/// Whether an entry is shown, and its group, given its lower-cased preview
/// `preview`, lower-cased tag `tag`, the lower-cased search `query`, whether
/// the search is empty, and whether the entry is pinned: every entry is
/// shown for an empty search, otherwise those whose preview or tag contains
/// the search. Pinned entries come first: group 0 holds the pinned entries
/// whose tag is the search, group 1 the other pinned entries, group 2 the
/// unpinned entries whose tag is the search, group 3 the rest.
pub open spec fn class_of(
    preview: Seq<char>,
    tag: Option<Seq<char>>,
    query: Seq<char>,
    empty: bool,
    pinned: bool,
) -> (bool, u8) {
    let shown = empty || occurs_in(preview, query) || (tag matches Some(t) && occurs_in(t, query));
    let exact = !empty && (tag matches Some(t) && t == query);
    let group: u8 = if pinned {
        if exact { 0 } else { 1 }
    } else {
        if exact { 2 } else { 3 }
    };
    (shown, group)
}

/// The lower-cased form of an optional tag.
pub open spec fn lower_tag(tag: Option<Seq<char>>) -> Option<Seq<char>> {
    match tag {
        Some(t) => Some(spec_lowercase(t)),
        None => None,
    }
}

/// Whether entry `e` is shown for the search `q`, and its group (see
/// [`class_of`]); the preview is the entry's 200-byte preview.
pub open spec fn gui_class(e: EntryView, q: Seq<char>) -> (bool, u8) {
    class_of(
        spec_lowercase(spec_preview(e.content, 200)),
        lower_tag(e.tag),
        spec_lowercase(q),
        q.len() == 0,
        e.pinned,
    )
}

/// The positions among the first `n` of `c` that are shown and in group
/// `g`, in order.
pub open spec fn class_positions(c: Seq<(bool, u8)>, g: u8, n: nat) -> Seq<usize>
    decreases n,
{
    if n == 0 {
        seq![]
    } else {
        let i = (n - 1) as nat;
        let rest = class_positions(c, g, i);
        if c[i as int].0 && c[i as int].1 == g {
            rest.push(i as usize)
        } else {
            rest
        }
    }
}

/// The shown positions of `c`, group 0, then 1, 2 and 3, each in order.
pub open spec fn group_order(c: Seq<(bool, u8)>) -> Seq<usize> {
    class_positions(c, 0, c.len()) + class_positions(c, 1, c.len()) + class_positions(c, 2, c.len())
        + class_positions(c, 3, c.len())
}

/// The class of every entry for the search `q`.
pub open spec fn gui_classes(es: Seq<EntryView>, q: Seq<char>) -> Seq<(bool, u8)> {
    Seq::new(es.len(), |i: int| gui_class(es[i], q))
}

/// The positions of the shown entries, group by group, each group in
/// history order.
pub open spec fn spec_filtered(es: Seq<EntryView>, q: Seq<char>) -> Seq<usize> {
    group_order(gui_classes(es, q))
}

fn vec_chars_eq(a: &Vec<char>, b: &Vec<char>) -> (r: bool)
    ensures
        r == (a@ == b@),
{
    if a.len() != b.len() {
        return false;
    }
    let mut i: usize = 0;
    while i < a.len()
        invariant
            a.len() == b.len(),
            0 <= i <= a.len(),
            forall|k: int| 0 <= k < i ==> a@[k] == b@[k],
        decreases a.len() - i,
    {
        if a[i] != b[i] {
            return false;
        }
        i = i + 1;
    }
    assert(a@ =~= b@);
    true
}

/// Whether an entry is shown and its group, from the lower-cased preview,
/// tag and search (see [`class_of`]).
pub fn classify_lowered(
    preview: &Vec<char>,
    tag: &Option<Vec<char>>,
    query: &Vec<char>,
    empty: bool,
    pinned: bool,
) -> (r: (bool, u8))
    ensures
        r == class_of(
            preview@,
            match tag {
                Some(t) => Some(t@),
                None => None,
            },
            query@,
            empty,
            pinned,
        ),
{
    let (tag_match, exact) = match tag {
        Some(t) => (contains_chars(t, query), vec_chars_eq(t, query)),
        None => (false, false),
    };
    let shown = empty || contains_chars(preview, query) || tag_match;
    let exact = !empty && exact;
    let group: u8 = if pinned {
        if exact { 0 } else { 1 }
    } else {
        if exact { 2 } else { 3 }
    };
    (shown, group)
}

/// Whether the search shows entry `e`, and the group it is listed in.
fn classify(e: &ClipboardEntry, query: &str, query_lower: &Vec<char>) -> (r: (bool, u8))
    requires
        query@.len() > 0 ==> preview_defined(e.content@, 200),
        query_lower@ == spec_lowercase(query@),
    ensures
        r == gui_class(e@, query@),
{
    if query.is_empty() {
        return (true, if e.pinned { 1 } else { 3 });
    }
    let preview = chars_of(to_lowercase(e.content.preview(200).as_str()).as_str());
    let tag = match &e.tag {
        Some(t) => Some(chars_of(to_lowercase(t.as_str()).as_str())),
        None => None,
    };
    classify_lowered(&preview, &tag, query_lower, false, e.pinned)
}

/// The shown positions of `classes`, group 0, then 1, 2 and 3, each in
/// order.
pub fn order_by_group(classes: &Vec<(bool, u8)>) -> (r: Vec<usize>)
    ensures
        r@ == group_order(classes@),
{
    let ghost c = classes@;
    let mut r: Vec<usize> = Vec::new();
    let mut g: u8 = 0;
    while g < 4
        invariant
            c == classes@,
            0 <= g <= 4,
            r@ == (if g == 0 {
                Seq::<usize>::empty()
            } else if g == 1 {
                class_positions(c, 0, c.len())
            } else if g == 2 {
                class_positions(c, 0, c.len()) + class_positions(c, 1, c.len())
            } else if g == 3 {
                class_positions(c, 0, c.len()) + class_positions(c, 1, c.len()) + class_positions(c, 2, c.len())
            } else {
                group_order(c)
            }),
        decreases 4 - g,
    {
        let ghost start = r@;
        let mut j: usize = 0;
        while j < classes.len()
            invariant
                c == classes@,
                0 <= g < 4,
                0 <= j <= classes.len(),
                r@ == start + class_positions(c, g, j as nat),
            decreases classes.len() - j,
        {
            let (shown, group) = classes[j];
            if shown && group == g {
                r.push(j);
            }
            proof {
                assert(class_positions(c, g, (j + 1) as nat) == (if c[j as int].0 && c[j as int].1 == g {
                    class_positions(c, g, j as nat).push(j)
                } else {
                    class_positions(c, g, j as nat)
                }));
                assert(r@ =~= start + class_positions(c, g, (j + 1) as nat));
            }
            j = j + 1;
        }
        g = g + 1;
    }
    r
}

/// The positions of the entries shown for `query`, in listing order.
pub fn filtered_indices(entries: &Vec<ClipboardEntry>, query: &str) -> (r: Vec<usize>)
    requires
        query@.len() > 0 ==> forall|i: int|
            0 <= i < entries@.len() ==> preview_defined(#[trigger] entries@[i].content@, 200),
    ensures
        r@ == spec_filtered(entries_view(entries@), query@),
{
    let ghost es = entries_view(entries@);
    let query_lower = chars_of(to_lowercase(query).as_str());
    let mut classes: Vec<(bool, u8)> = Vec::new();
    let mut i: usize = 0;
    while i < entries.len()
        invariant
            es == entries_view(entries@),
            query_lower@ == spec_lowercase(query@),
            query@.len() > 0 ==> forall|j: int|
                0 <= j < entries@.len() ==> preview_defined(#[trigger] entries@[j].content@, 200),
            0 <= i <= entries.len(),
            classes@.len() == i,
            forall|k: int| 0 <= k < i ==> #[trigger] classes@[k] == gui_class(es[k], query@),
        decreases entries.len() - i,
    {
        let c = classify(&entries[i], query, &query_lower);
        classes.push(c);
        i = i + 1;
    }
    assert(classes@ =~= gui_classes(es, query@));
    order_by_group(&classes)
}

/// The keys of one frame, as the graphical picker reads them.
#[derive(Debug, Clone, Copy, PartialEq, Eq)]
pub struct GuiKeys {
    /// Escape.
    pub escape: bool,
    /// Down arrow, Ctrl+N or Tab.
    pub move_down: bool,
    /// Up arrow or Shift+Tab.
    pub move_up: bool,
    /// Ctrl+D.
    pub page_down: bool,
    /// Ctrl+U.
    pub page_up: bool,
    /// Enter.
    pub enter: bool,
    /// Ctrl+X.
    pub delete: bool,
    /// Ctrl+P.
    pub toggle_pin: bool,
    /// Ctrl+T.
    pub tag: bool,
}

/// A key pressed in a frame of the graphical picker; letters held with
/// Ctrl are given in lower case.
#[derive(Debug, Clone, Copy, PartialEq, Eq, Structural)]
pub enum GuiKey {
    Escape,
    Enter,
    ArrowUp,
    ArrowDown,
    /// Tab without modifiers.
    Tab,
    /// Shift+Tab.
    ShiftTab,
    /// A letter with Ctrl held.
    Ctrl(char),
    /// Any other key.
    Other,
}

/// The key flags of a frame in which `pressed` were pressed, as the legend
/// gives them: Tab, Ctrl+N and the down arrow move down; Shift+Tab and the
/// up arrow move up; Ctrl+D and Ctrl+U page; Enter selects; Escape closes;
/// Ctrl+X deletes; Ctrl+P toggles the pin; Ctrl+T edits the tag.
pub open spec fn spec_gui_keys(pressed: Seq<GuiKey>) -> GuiKeys {
    GuiKeys {
        escape: pressed.contains(GuiKey::Escape),
        move_down: pressed.contains(GuiKey::ArrowDown) || pressed.contains(GuiKey::Ctrl('n'))
            || pressed.contains(GuiKey::Tab),
        move_up: pressed.contains(GuiKey::ArrowUp) || pressed.contains(GuiKey::ShiftTab),
        page_down: pressed.contains(GuiKey::Ctrl('d')),
        page_up: pressed.contains(GuiKey::Ctrl('u')),
        enter: pressed.contains(GuiKey::Enter),
        delete: pressed.contains(GuiKey::Ctrl('x')),
        toggle_pin: pressed.contains(GuiKey::Ctrl('p')),
        tag: pressed.contains(GuiKey::Ctrl('t')),
    }
}

/// Whether `key` is among `pressed`.
fn key_pressed(pressed: &Vec<GuiKey>, key: GuiKey) -> (r: bool)
    ensures
        r == pressed@.contains(key),
{
    let mut i: usize = 0;
    while i < pressed.len()
        invariant
            0 <= i <= pressed.len(),
            forall|k: int| 0 <= k < i ==> pressed@[k] != key,
        decreases pressed.len() - i,
    {
        if pressed[i] == key {
            assert(pressed@[i as int] == key);
            return true;
        }
        i = i + 1;
    }
    false
}

/// The key flags of a frame in which `pressed` were pressed (see
/// [`spec_gui_keys`]).
pub fn gui_keys(pressed: &Vec<GuiKey>) -> (r: GuiKeys)
    ensures
        r == spec_gui_keys(pressed@),
{
    GuiKeys {
        escape: key_pressed(pressed, GuiKey::Escape),
        move_down: key_pressed(pressed, GuiKey::ArrowDown) || key_pressed(pressed, GuiKey::Ctrl('n'))
            || key_pressed(pressed, GuiKey::Tab),
        move_up: key_pressed(pressed, GuiKey::ArrowUp) || key_pressed(pressed, GuiKey::ShiftTab),
        page_down: key_pressed(pressed, GuiKey::Ctrl('d')),
        page_up: key_pressed(pressed, GuiKey::Ctrl('u')),
        enter: key_pressed(pressed, GuiKey::Enter),
        delete: key_pressed(pressed, GuiKey::Ctrl('x')),
        toggle_pin: key_pressed(pressed, GuiKey::Ctrl('p')),
        tag: key_pressed(pressed, GuiKey::Ctrl('t')),
    }
}

/// What the graphical picker asks its caller to do.
#[derive(Debug, Clone, Copy, PartialEq, Eq)]
pub enum GuiAction {
    /// Draw the frame.
    Continue,
    /// Close the window.
    Close,
    /// Ask the daemon to copy this entry to the clipboard; the window closes.
    Copy(usize),
    /// Ask the daemon to delete this entry, then report the reply.
    Delete(usize),
    /// Ask the daemon to pin (or unpin) this entry, then report the reply.
    TogglePin { index: usize, pin: bool },
}

/// The graphical picker's state.
pub struct GuiModel {
    pub entries: Vec<ClipboardEntry>,
    pub query: String,
    pub selected: usize,
    pub should_close: bool,
    /// The entry whose tag is being edited, if any.
    pub tagging: Option<usize>,
    pub tag_input: String,
}

/// The mathematical state of a [`GuiModel`].
pub struct GuiState {
    pub entries: Seq<EntryView>,
    pub query: Seq<char>,
    pub selected: usize,
    pub should_close: bool,
    pub tagging: Option<usize>,
    pub tag_input: Seq<char>,
}

/// The selection kept on a list of `len` rows (zero for an empty list).
pub open spec fn gui_clamp(selected: usize, len: usize) -> usize {
    if len == 0 {
        0
    } else if selected >= len {
        (len - 1) as usize
    } else {
        selected
    }
}

/// The selection after the moves of one frame on `len` rows: one row down,
/// one up, eight down, eight up, in that order, each staying on the list.
pub open spec fn gui_moved(selected: usize, keys: GuiKeys, len: usize) -> usize {
    let s0 = gui_clamp(selected, len) as int;
    let s1 = if keys.move_down && s0 + 1 < len { s0 + 1 } else { s0 };
    let s2 = if keys.move_up && s1 > 0 { s1 - 1 } else { s1 };
    let last: int = if len > 0 { len - 1 } else { 0 };
    let s3 = if keys.page_down { if s2 + 8 < last { s2 + 8 } else { last } } else { s2 };
    let s4 = if keys.page_up { if s3 >= 8 { s3 - 8 } else { 0 } } else { s3 };
    s4 as usize
}

/// The state after one frame's keys with the rows `rows`, and what is asked
/// for: Escape closes; Enter copies the selected entry and closes; Ctrl+X
/// deletes it; Ctrl+P toggles its pin; Ctrl+T starts editing its tag.
pub open spec fn spec_frame(s: GuiState, keys: GuiKeys, rows: Seq<usize>) -> (GuiState, GuiAction) {
    let len = rows.len() as usize;
    let clamped = GuiState { selected: gui_clamp(s.selected, len), ..s };
    if keys.escape {
        (clamped, GuiAction::Close)
    } else {
        let moved = GuiState { selected: gui_moved(s.selected, keys, len), ..s };
        if rows.len() == 0 {
            (moved, GuiAction::Continue)
        } else {
            let idx = rows[moved.selected as int];
            if keys.enter {
                (GuiState { should_close: true, ..moved }, GuiAction::Copy(idx))
            } else if keys.delete {
                (moved, GuiAction::Delete(idx))
            } else if keys.toggle_pin {
                (moved, GuiAction::TogglePin { index: idx, pin: !s.entries[idx as int].pinned })
            } else if keys.tag {
                (
                    GuiState {
                        tagging: Some(idx),
                        tag_input: match s.entries[idx as int].tag {
                            Some(t) => t,
                            None => Seq::empty(),
                        },
                        ..moved
                    },
                    GuiAction::Continue,
                )
            } else {
                (moved, GuiAction::Continue)
            }
        }
    }
}

/// The selection after one frame's moves (see [`gui_moved`]).
fn moved_selection(selected: usize, keys: GuiKeys, len: usize) -> (r: usize)
    requires
        len <= usize::MAX / 2,
    ensures
        r == gui_moved(selected, keys, len),
        len > 0 ==> r < len,
{
    let mut s = if len == 0 {
        0
    } else if selected >= len {
        len - 1
    } else {
        selected
    };
    if keys.move_down && s + 1 < len {
        s = s + 1;
    }
    if keys.move_up && s > 0 {
        s = s - 1;
    }
    let last = if len > 0 { len - 1 } else { 0 };
    if keys.page_down {
        s = if s + 8 < last { s + 8 } else { last };
    }
    if keys.page_up {
        s = if s >= 8 { s - 8 } else { 0 };
    }
    s
}

impl GuiModel {
    /// The mathematical state of the model.
    pub open spec fn state(&self) -> GuiState {
        GuiState {
            entries: entries_view(self.entries@),
            query: self.query@,
            selected: self.selected,
            should_close: self.should_close,
            tagging: self.tagging,
            tag_input: self.tag_input@,
        }
    }

    /// A model over `entries` with an empty search, the first row selected
    /// and no tag being edited.
    pub fn new(entries: Vec<ClipboardEntry>) -> (r: GuiModel)
        ensures
            r.state() == (GuiState {
                entries: entries_view(entries@),
                query: Seq::empty(),
                selected: 0,
                should_close: false,
                tagging: None,
                tag_input: Seq::empty(),
            }),
    {
        GuiModel {
            entries,
            query: String::new(),
            selected: 0,
            should_close: false,
            tagging: None,
            tag_input: String::new(),
        }
    }

    /// The positions of the entries shown for the current search.
    pub fn rows(&self) -> (r: Vec<usize>)
        requires
            self.query@.len() > 0 ==> forall|i: int|
                0 <= i < self.entries@.len() ==> preview_defined(#[trigger] self.entries@[i].content@, 200),
        ensures
            r@ == spec_filtered(self.state().entries, self.query@),
    {
        filtered_indices(&self.entries, self.query.as_str())
    }

    /// Keeps the selection on a list of `len` rows.
    pub fn clamp(&mut self, len: usize)
        ensures
            final(self).state() == (GuiState { selected: gui_clamp(old(self).selected, len), ..old(self).state() }),
    {
        if len == 0 {
            self.selected = 0;
        } else if self.selected >= len {
            self.selected = len - 1;
        }
    }

    /// Applies one frame's keys, given the rows listed.
    pub fn frame(&mut self, keys: GuiKeys, rows: &Vec<usize>) -> (r: GuiAction)
        requires
            forall|k: int| 0 <= k < rows@.len() ==> (#[trigger] rows@[k]) < old(self).entries@.len(),
            rows@.len() <= usize::MAX / 2,
        ensures
            (final(self).state(), r) == spec_frame(old(self).state(), keys, rows@),
    {
        let len = rows.len();
        if keys.escape {
            self.clamp(len);
            return GuiAction::Close;
        }
        self.selected = moved_selection(self.selected, keys, len);
        if len == 0 {
            return GuiAction::Continue;
        }
        let idx = rows[self.selected];
        if keys.enter {
            self.should_close = true;
            GuiAction::Copy(idx)
        } else if keys.delete {
            GuiAction::Delete(idx)
        } else if keys.toggle_pin {
            GuiAction::TogglePin { index: idx, pin: !self.entries[idx].pinned }
        } else if keys.tag {
            let input = match &self.entries[idx].tag {
                Some(t) => t.clone(),
                None => String::new(),
            };
            self.tag_input = input;
            self.tagging = Some(idx);
            GuiAction::Continue
        } else {
            GuiAction::Continue
        }
    }

    /// Chooses entry `index` with a click: the daemon is asked to copy it and
    /// the window closes.
    pub fn select_entry(&mut self, index: usize) -> (r: GuiAction)
        ensures
            final(self).state() == (GuiState { should_close: true, ..old(self).state() }),
            r == GuiAction::Copy(index),
    {
        self.should_close = true;
        GuiAction::Copy(index)
    }

    /// Records the daemon's reply to a pin toggle: on success the entry
    /// shows the new flag.
    pub fn pin_reply(&mut self, index: usize, pin: bool, ok: bool)
        requires
            index < old(self).entries@.len(),
        ensures
            final(self).state() == (if ok {
                GuiState {
                    entries: old(self).state().entries.update(
                        index as int,
                        EntryView { pinned: pin, ..old(self).state().entries[index as int] },
                    ),
                    ..old(self).state()
                }
            } else {
                old(self).state()
            }),
    {
        if ok {
            let ghost before = self.entries@;
            self.entries[index].pinned = pin;
            proof {
                assert(entries_view(self.entries@) =~= entries_view(before).update(
                    index as int,
                    EntryView { pinned: pin, ..entries_view(before)[index as int] },
                ));
            }
        }
    }

    /// Records the daemon's reply to a deletion: on success the entry goes.
    pub fn delete_reply(&mut self, index: usize, ok: bool)
        requires
            index < old(self).entries@.len(),
        ensures
            final(self).state() == (if ok {
                GuiState { entries: old(self).state().entries.remove(index as int), ..old(self).state() }
            } else {
                old(self).state()
            }),
    {
        if ok {
            let ghost before = self.entries@;
            self.entries.remove(index);
            proof {
                assert(entries_view(self.entries@) =~= entries_view(before).remove(index as int));
            }
        }
    }

    /// Finishes editing a tag: returns the entry and the tag to ask the
    /// daemon for (an empty input removes the tag), if a tag was being
    /// edited.
    pub fn submit_tag(&mut self) -> (r: Option<(usize, Option<String>)>)
        ensures
            final(self).state() == (GuiState { tagging: None, ..old(self).state() }),
            match old(self).tagging {
                None => r is None,
                Some(i) => r matches Some((j, t)) && j == i && opt_view(t) == (if old(self).tag_input@.len() == 0 {
                    None
                } else {
                    Some(old(self).tag_input@)
                }),
            },
    {
        match self.tagging {
            None => None,
            Some(i) => {
                self.tagging = None;
                let tag = if self.tag_input.as_str().is_empty() {
                    None
                } else {
                    Some(self.tag_input.clone())
                };
                Some((i, tag))
            },
        }
    }

    /// Records the daemon's reply to a tag change: on success the entry
    /// shows the new tag.
    pub fn tag_reply(&mut self, index: usize, tag: Option<String>, ok: bool)
        requires
            index < old(self).entries@.len(),
        ensures
            final(self).state() == (if ok {
                GuiState {
                    entries: old(self).state().entries.update(
                        index as int,
                        EntryView { tag: opt_view(tag), ..old(self).state().entries[index as int] },
                    ),
                    ..old(self).state()
                }
            } else {
                old(self).state()
            }),
    {
        if ok {
            let ghost before = self.entries@;
            self.entries[index].tag = tag;
            proof {
                assert(entries_view(self.entries@) =~= entries_view(before).update(
                    index as int,
                    EntryView { tag: opt_view(tag), ..entries_view(before)[index as int] },
                ));
            }
        }
    }
}

/// The positions of one group are increasing, shown, in that group, and
/// include every such position below `n`.
proof fn lemma_class_positions(c: Seq<(bool, u8)>, g: u8, n: nat)
    requires
        n <= c.len(),
        c.len() <= usize::MAX,
    ensures
        forall|k: int|
            0 <= k < class_positions(c, g, n).len() ==> {
                let i = #[trigger] class_positions(c, g, n)[k] as int;
                &&& i < n
                &&& c[i].0
                &&& c[i].1 == g
            },
        forall|k: int, l: int|
            0 <= k < l < class_positions(c, g, n).len() ==> #[trigger] class_positions(c, g, n)[k]
                < #[trigger] class_positions(c, g, n)[l],
        forall|i: int|
            0 <= i < n && (#[trigger] c[i]).0 && c[i].1 == g ==> class_positions(c, g, n).contains(
                i as usize,
            ),
    decreases n,
{
    if n > 0 {
        let m = (n - 1) as nat;
        lemma_class_positions(c, g, m);
        let rest = class_positions(c, g, m);
        let gp = class_positions(c, g, n);
        if c[m as int].0 && c[m as int].1 == g {
            assert(gp == rest.push(m as usize));
            assert(gp[gp.len() - 1] == m as usize);
            assert forall|i: int| 0 <= i < n && (#[trigger] c[i]).0 && c[i].1 == g implies gp.contains(i as usize) by {
                if i < m {
                    assert(rest.contains(i as usize));
                    let k = choose|k: int| 0 <= k < rest.len() && rest[k] == i as usize;
                    assert(gp[k] == i as usize);
                } else {
                    assert(gp[gp.len() - 1] == i as usize);
                }
            }
            assert forall|k: int| 0 <= k < gp.len() implies {
                let i = #[trigger] gp[k] as int;
                &&& i < n
                &&& c[i].0
                &&& c[i].1 == g
            } by {
                if k < rest.len() {
                    assert(gp[k] == rest[k]);
                }
            }
            assert forall|k: int, l: int| 0 <= k < l < gp.len() implies #[trigger] gp[k] < #[trigger] gp[l] by {
                assert(gp[k] == rest[k]);
                if l < rest.len() {
                    assert(gp[l] == rest[l]);
                }
            }
        } else {
            assert forall|i: int| 0 <= i < n && (#[trigger] c[i]).0 && c[i].1 == g implies gp.contains(i as usize) by {
                assert(i < m);
            }
        }
    }
}

/// Ordering by group lists exactly the shown positions (of groups 0 to 3),
/// each once, group by group, each group in order.
pub proof fn law_group_order_is_exact(c: Seq<(bool, u8)>)
    requires
        c.len() <= usize::MAX,
        forall|i: int| 0 <= i < c.len() ==> (#[trigger] c[i]).1 < 4,
    ensures
        forall|i: int| 0 <= i < c.len() ==> (group_order(c).contains(i as usize) <==> (#[trigger] c[i]).0),
        forall|k: int| 0 <= k < group_order(c).len() ==> (#[trigger] group_order(c)[k]) < c.len(),
        forall|k: int, l: int|
            0 <= k < l < group_order(c).len() ==> {
                let a = #[trigger] group_order(c)[k] as int;
                let b = #[trigger] group_order(c)[l] as int;
                &&& a != b
                &&& c[a].1 <= c[b].1
                &&& c[a].1 == c[b].1 ==> a < b
            },
{
    let n = c.len();
    lemma_class_positions(c, 0, n);
    lemma_class_positions(c, 1, n);
    lemma_class_positions(c, 2, n);
    lemma_class_positions(c, 3, n);
    let g0 = class_positions(c, 0, n);
    let g1 = class_positions(c, 1, n);
    let g2 = class_positions(c, 2, n);
    let g3 = class_positions(c, 3, n);
    let f = group_order(c);
    assert forall|k: int| 0 <= k < f.len() implies {
        let i = #[trigger] f[k] as int;
        &&& i < n
        &&& c[i].0
        &&& c[i].1 == (if k < g0.len() {
            0u8
        } else if k < g0.len() + g1.len() {
            1u8
        } else if k < g0.len() + g1.len() + g2.len() {
            2u8
        } else {
            3u8
        })
    } by {
        if k < g0.len() {
            assert(f[k] == g0[k]);
        } else if k < g0.len() + g1.len() {
            assert(f[k] == g1[k - g0.len()]);
        } else if k < g0.len() + g1.len() + g2.len() {
            assert(f[k] == g2[k - g0.len() - g1.len()]);
        } else {
            assert(f[k] == g3[k - g0.len() - g1.len() - g2.len()]);
        }
    }
    assert forall|i: int| 0 <= i < c.len() implies (f.contains(i as usize) <==> (#[trigger] c[i]).0) by {
        if c[i].0 {
            let g = c[i].1;
            if g == 0 {
                assert(g0.contains(i as usize));
                let k = choose|k: int| 0 <= k < g0.len() && g0[k] == i as usize;
                assert(f[k] == i as usize);
            } else if g == 1 {
                assert(g1.contains(i as usize));
                let k = choose|k: int| 0 <= k < g1.len() && g1[k] == i as usize;
                assert(f[g0.len() + k] == i as usize);
            } else if g == 2 {
                assert(g2.contains(i as usize));
                let k = choose|k: int| 0 <= k < g2.len() && g2[k] == i as usize;
                assert(f[g0.len() + g1.len() + k] == i as usize);
            } else {
                assert(g3.contains(i as usize));
                let k = choose|k: int| 0 <= k < g3.len() && g3[k] == i as usize;
                assert(f[g0.len() + g1.len() + g2.len() + k] == i as usize);
            }
        } else if f.contains(i as usize) {
            let k = choose|k: int| 0 <= k < f.len() && f[k] == i as usize;
            assert(c[f[k] as int].0);
        }
    }
    assert forall|k: int, l: int| 0 <= k < l < f.len() implies {
        let a = #[trigger] f[k] as int;
        let b = #[trigger] f[l] as int;
        &&& a != b
        &&& c[a].1 <= c[b].1
        &&& c[a].1 == c[b].1 ==> a < b
    } by {
        if k < g0.len() && l < g0.len() {
            assert(f[k] == g0[k] && f[l] == g0[l]);
        } else if g0.len() <= k && l < g0.len() + g1.len() {
            assert(f[k] == g1[k - g0.len()] && f[l] == g1[l - g0.len()]);
        } else if g0.len() + g1.len() <= k && l < g0.len() + g1.len() + g2.len() {
            assert(f[k] == g2[k - g0.len() - g1.len()] && f[l] == g2[l - g0.len() - g1.len()]);
        } else if g0.len() + g1.len() + g2.len() <= k {
            assert(f[k] == g3[k - g0.len() - g1.len() - g2.len()] && f[l] == g3[l - g0.len() - g1.len() - g2.len()]);
        }
    }
}

/// The graphical listing shows exactly the entries the search matches, each
/// once, group by group (pinned entries whose tag is the search, the other
/// pinned entries, unpinned entries whose tag is the search, the rest), each
/// group in history order.
pub proof fn law_filtered_is_exact(es: Seq<EntryView>, q: Seq<char>)
    requires
        es.len() <= usize::MAX,
    ensures
        forall|i: int|
            0 <= i < es.len() ==> (spec_filtered(es, q).contains(i as usize) <==> (#[trigger] gui_class(es[i], q)).0),
        forall|k: int| 0 <= k < spec_filtered(es, q).len() ==> (#[trigger] spec_filtered(es, q)[k]) < es.len(),
        forall|k: int, l: int|
            0 <= k < l < spec_filtered(es, q).len() ==> {
                let a = #[trigger] spec_filtered(es, q)[k] as int;
                let b = #[trigger] spec_filtered(es, q)[l] as int;
                &&& a != b
                &&& gui_class(es[a], q).1 <= gui_class(es[b], q).1
                &&& gui_class(es[a], q).1 == gui_class(es[b], q).1 ==> a < b
            },
{
    let c = gui_classes(es, q);
    law_group_order_is_exact(c);
    assert forall|i: int| 0 <= i < es.len() implies (spec_filtered(es, q).contains(i as usize) <==> (#[trigger] gui_class(es[i], q)).0) by {
        assert(c[i] == gui_class(es[i], q));
    }
    assert forall|k: int, l: int|
        0 <= k < l < spec_filtered(es, q).len() implies {
            let a = #[trigger] spec_filtered(es, q)[k] as int;
            let b = #[trigger] spec_filtered(es, q)[l] as int;
            &&& a != b
            &&& gui_class(es[a], q).1 <= gui_class(es[b], q).1
            &&& gui_class(es[a], q).1 == gui_class(es[b], q).1 ==> a < b
        } by {
        let a = spec_filtered(es, q)[k] as int;
        let b = spec_filtered(es, q)[l] as int;
        assert(c[a] == gui_class(es[a], q));
        assert(c[b] == gui_class(es[b], q));
    }
}

/// In the graphical listing every pinned entry comes before every unpinned
/// one, and among the pinned (and among the unpinned) those whose tag is the
/// search come first.
pub proof fn law_filtered_pinned_first(es: Seq<EntryView>, q: Seq<char>)
    requires
        es.len() <= usize::MAX,
    ensures
        forall|k: int, l: int|
            0 <= k < l < spec_filtered(es, q).len() ==> {
                let a = #[trigger] spec_filtered(es, q)[k] as int;
                let b = #[trigger] spec_filtered(es, q)[l] as int;
                &&& es[b].pinned ==> es[a].pinned
                &&& es[a].pinned == es[b].pinned && exact_tag(es[b], q) ==> exact_tag(es[a], q)
            },
{
    law_filtered_is_exact(es, q);
}

/// Whether the tag of `e`, lower-cased, is the lower-cased search `q` (for a
/// search that is not empty).
pub open spec fn exact_tag(e: EntryView, q: Seq<char>) -> bool {
    q.len() > 0 && (lower_tag(e.tag) matches Some(t) && t == spec_lowercase(q))
}

/// Ctrl+P alone, on a selected row, asks to toggle that row's pin and
/// leaves the selection and everything else where they are.
pub proof fn law_ctrl_p_only_toggles_pin(s: GuiState, rows: Seq<usize>)
    requires
        s.selected < rows.len(),
        rows.len() <= usize::MAX / 2,
        forall|k: int| 0 <= k < rows.len() ==> (#[trigger] rows[k]) < s.entries.len(),
    ensures
        spec_frame(s, spec_gui_keys(seq![GuiKey::Ctrl('p')]), rows) == (
            s,
            GuiAction::TogglePin {
                index: rows[s.selected as int],
                pin: !s.entries[rows[s.selected as int] as int].pinned,
            },
        ),
{
    let p = seq![GuiKey::Ctrl('p')];
    assert(p[0] == GuiKey::Ctrl('p'));
    assert(p.contains(GuiKey::Ctrl('p')));
    assert(!p.contains(GuiKey::Escape));
    assert(!p.contains(GuiKey::Enter));
    assert(!p.contains(GuiKey::ArrowUp));
    assert(!p.contains(GuiKey::ArrowDown));
    assert(!p.contains(GuiKey::Tab));
    assert(!p.contains(GuiKey::ShiftTab));
    assert(!p.contains(GuiKey::Ctrl('n')));
    assert(!p.contains(GuiKey::Ctrl('d')));
    assert(!p.contains(GuiKey::Ctrl('u')));
    assert(!p.contains(GuiKey::Ctrl('x')));
    assert(!p.contains(GuiKey::Ctrl('t')));
    let keys = spec_gui_keys(p);
    assert(keys.toggle_pin && !keys.escape && !keys.enter && !keys.delete);
    assert(!keys.move_down && !keys.move_up && !keys.page_down && !keys.page_up);
    let len = rows.len() as usize;
    assert(gui_clamp(s.selected, len) == s.selected);
    assert(gui_moved(s.selected, keys, len) == s.selected);
    assert((GuiState { selected: s.selected, ..s }) == s);
}

/// For a non-empty search, the graphical picker shows exactly the entries
/// whose lower-cased preview or lower-cased tag contains the lower-cased
/// search (a part of a tag is enough); an empty search shows every entry.
/// Pinned entries are in the first two groups and only they, and an entry
/// whose tag is the search comes first within its group.
pub proof fn law_search_shows_preview_or_tag_matches(e: EntryView, q: Seq<char>)
    ensures
        q.len() == 0 ==> gui_class(e, q).0,
        q.len() > 0 ==> (gui_class(e, q).0 <==> (occurs_in(
            spec_lowercase(spec_preview(e.content, 200)),
            spec_lowercase(q),
        ) || (lower_tag(e.tag) matches Some(t) && occurs_in(t, spec_lowercase(q))))),
        (gui_class(e, q).1 < 2) == e.pinned,
        gui_class(e, q).1 < 4,
        (gui_class(e, q).1 == 0 || gui_class(e, q).1 == 2) == exact_tag(e, q),
{
}

} // verus!
