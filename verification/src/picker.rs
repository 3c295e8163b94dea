//! The terminal picker: which entries match the query and in what order,
//! and what each key does.

use vstd::prelude::*;
use fuzzy_matcher::skim::SkimMatcherV2;
use crate::entry::{entries_view, preview_defined, spec_preview, ClipboardEntry, EntryView};
use crate::text::{string_pop, string_push};

verus! {

#[verifier::external_type_specification]
#[verifier::external_body]
pub struct ExSkimMatcherV2(SkimMatcherV2);

/// The score that `fuzzy_matcher`'s default `SkimMatcherV2` gives `choice`
/// for `pattern` (`None` when it does not match).
pub uninterp spec fn spec_fuzzy_score(choice: Seq<char>, pattern: Seq<char>) -> Option<i64>;

/// A matcher with the default settings.
///
/// Calls `SkimMatcherV2::default` (smart case, no element limit); nothing is
/// stated of the value, which only `fuzzy_score` uses.
#[verifier::external_body]
fn default_matcher() -> SkimMatcherV2 {
    SkimMatcherV2::default()
}

/// Scores `choice` against `pattern`.
///
/// Calls `FuzzyMatcher::fuzzy_match` on a default `SkimMatcherV2`, whose
/// result depends on the two strings alone (its caches only hold scratch
/// space). The contract names the result and states what the source shows
/// for an empty pattern: a match with score zero.
#[verifier::external_body]
fn fuzzy_score(matcher: &SkimMatcherV2, choice: &str, pattern: &str) -> (r: Option<i64>)
    ensures
        r == spec_fuzzy_score(choice@, pattern@),
        pattern@.len() == 0 ==> r == Some(0i64),
{
    fuzzy_matcher::FuzzyMatcher::fuzzy_match(matcher, choice, pattern)
}

/// An entry that matches the query: its position in the history, its score
/// and whether it is pinned.
#[derive(Debug, Clone, Copy, PartialEq, Eq)]
pub struct Ranked {
    pub index: usize,
    pub score: i64,
    pub pinned: bool,
}

/// The score of entry `e` for `query`: zero for the empty query, otherwise
/// the fuzzy score of its 200-byte preview.
pub open spec fn match_score(e: EntryView, query: Seq<char>) -> Option<i64> {
    if query.len() == 0 {
        Some(0)
    } else {
        spec_fuzzy_score(spec_preview(e.content, 200), query)
    }
}

/// Whether `a` is listed before `b`: pinned entries first, then higher
/// scores, then newer entries (lower index in the history) first.
pub open spec fn ranks_before(a: Ranked, b: Ranked) -> bool {
    ||| a.pinned && !b.pinned
    ||| a.pinned == b.pinned && (a.score > b.score || (a.score == b.score && a.index < b.index))
}

/// Whether `r` lists exactly the positions `i` of `entries` that have a
/// score `scores[i]`, each once, with that score and the entry's pin flag,
/// in the order of [`ranks_before`].
pub open spec fn is_ranking_by(entries: Seq<EntryView>, scores: Seq<Option<i64>>, r: Seq<Ranked>) -> bool {
    &&& forall|k: int|
        0 <= k < r.len() ==> {
            &&& (#[trigger] r[k]).index < entries.len()
            &&& (r[k].index as int) < scores.len()
            &&& scores[r[k].index as int] == Some(r[k].score)
            &&& r[k].pinned == entries[r[k].index as int].pinned
        }
    &&& forall|i: int|
        0 <= i < entries.len() && i < scores.len() && (#[trigger] scores[i]) is Some ==> exists|k: int|
            0 <= k < r.len() && r[k].index == i
    &&& sorted_by_rank(r)
}

/// The score of every entry for `query`.
pub open spec fn scores_for(entries: Seq<EntryView>, query: Seq<char>) -> Seq<Option<i64>> {
    Seq::new(entries.len(), |i: int| match_score(entries[i], query))
}

/// Whether `r` lists exactly the entries of `entries` that match `query`,
/// each once, with its score, in the order of [`ranks_before`].
pub open spec fn is_ranking(entries: Seq<EntryView>, query: Seq<char>, r: Seq<Ranked>) -> bool {
    is_ranking_by(entries, scores_for(entries, query), r)
}

/// Whether `r` is strictly in the order of [`ranks_before`].
pub open spec fn sorted_by_rank(r: Seq<Ranked>) -> bool {
    forall|k: int, l: int| 0 <= k < l < r.len() ==> ranks_before(#[trigger] r[k], #[trigger] r[l])
}

proof fn lemma_ranks_before_total(a: Ranked, b: Ranked)
    requires
        a.index != b.index,
    ensures
        ranks_before(a, b) || ranks_before(b, a),
        !(ranks_before(a, b) && ranks_before(b, a)),
{
}

proof fn lemma_ranks_before_transitive(a: Ranked, b: Ranked, c: Ranked)
    requires
        ranks_before(a, b),
        ranks_before(b, c),
    ensures
        ranks_before(a, c),
{
}

fn rank_less(a: Ranked, b: Ranked) -> (r: bool)
    ensures
        r == ranks_before(a, b),
{
    (a.pinned && !b.pinned) || (a.pinned == b.pinned && (a.score > b.score || (a.score == b.score
        && a.index < b.index)))
}

/// Inserts `x` into the ranked list `r` at its place.
fn insert_ranked(r: &mut Vec<Ranked>, x: Ranked)
    requires
        sorted_by_rank(old(r)@),
        forall|k: int| 0 <= k < old(r)@.len() ==> (#[trigger] old(r)@[k]).index < x.index,
    ensures
        sorted_by_rank(final(r)@),
        final(r)@.len() == old(r)@.len() + 1,
        exists|p: int| 0 <= p <= old(r)@.len() && final(r)@ == old(r)@.insert(p, x),
{
    let mut p: usize = 0;
    while p < r.len() && rank_less(r[p], x)
        invariant
            0 <= p <= r.len(),
            forall|k: int| 0 <= k < p ==> ranks_before(#[trigger] r@[k], x),
        decreases r.len() - p,
    {
        p = p + 1;
    }
    let ghost before = r@;
    r.insert(p, x);
    proof {
        if p < before.len() {
            lemma_ranks_before_total(before[p as int], x);
            assert(ranks_before(x, before[p as int]));
        }
        assert forall|k: int, l: int| 0 <= k < l < r@.len() implies ranks_before(
            #[trigger] r@[k],
            #[trigger] r@[l],
        ) by {
            if l < p {
                assert(r@[k] == before[k] && r@[l] == before[l]);
            } else if l == p {
                assert(r@[k] == before[k]);
            } else if k < p {
                assert(r@[k] == before[k] && r@[l] == before[l - 1]);
                assert(ranks_before(before[k], x));
                lemma_ranks_before_total(before[p as int], x);
                if l - 1 > p {
                    lemma_ranks_before_transitive(x, before[p as int], before[l - 1]);
                }
                lemma_ranks_before_transitive(before[k], x, before[l - 1]);
            } else if k == p {
                assert(r@[l] == before[l - 1]);
                if l - 1 > p {
                    lemma_ranks_before_transitive(x, before[p as int], before[l - 1]);
                }
            } else {
                assert(r@[k] == before[k - 1] && r@[l] == before[l - 1]);
            }
        }
    }
}

/// The score of every entry for `query` (see [`match_score`]).
pub fn match_scores(entries: &Vec<ClipboardEntry>, query: &str) -> (r: Vec<Option<i64>>)
    requires
        query@.len() > 0 ==> forall|i: int|
            0 <= i < entries@.len() ==> preview_defined(#[trigger] entries@[i].content@, 200),
    ensures
        r@ == scores_for(entries_view(entries@), query@),
{
    let ghost ev = entries_view(entries@);
    let matcher = default_matcher();
    let empty = query.is_empty();
    let mut r: Vec<Option<i64>> = Vec::new();
    let mut i: usize = 0;
    while i < entries.len()
        invariant
            ev == entries_view(entries@),
            empty == (query@.len() == 0),
            query@.len() > 0 ==> forall|j: int|
                0 <= j < entries@.len() ==> preview_defined(#[trigger] entries@[j].content@, 200),
            0 <= i <= entries.len(),
            r@.len() == i,
            forall|k: int| 0 <= k < i ==> #[trigger] r@[k] == match_score(ev[k], query@),
        decreases entries.len() - i,
    {
        let score = if empty {
            Some(0i64)
        } else {
            let p = entries[i].content.preview(200);
            fuzzy_score(&matcher, p.as_str(), query)
        };
        r.push(score);
        i = i + 1;
    }
    assert(r@ =~= scores_for(ev, query@));
    r
}

/// The positions that have a score, in the order the picker lists them.
pub fn rank_scored(entries: &Vec<ClipboardEntry>, scores: &Vec<Option<i64>>) -> (r: Vec<Ranked>)
    requires
        scores@.len() == entries@.len(),
    ensures
        is_ranking_by(entries_view(entries@), scores@, r@),
{
    let ghost ev = entries_view(entries@);
    let mut r: Vec<Ranked> = Vec::new();
    let mut i: usize = 0;
    while i < entries.len()
        invariant
            ev == entries_view(entries@),
            scores@.len() == entries@.len(),
            0 <= i <= entries.len(),
            forall|k: int|
                0 <= k < r@.len() ==> {
                    &&& (#[trigger] r@[k]).index < i
                    &&& scores@[r@[k].index as int] == Some(r@[k].score)
                    &&& r@[k].pinned == ev[r@[k].index as int].pinned
                },
            forall|j: int|
                0 <= j < i && (#[trigger] scores@[j]) is Some ==> exists|k: int|
                    0 <= k < r@.len() && r@[k].index == j,
            sorted_by_rank(r@),
        decreases entries.len() - i,
    {
        match scores[i] {
            Some(s) => {
                let x = Ranked { index: i, score: s, pinned: entries[i].pinned };
                let ghost before = r@;
                insert_ranked(&mut r, x);
                proof {
                    let p = choose|p: int| 0 <= p <= before.len() && r@ == before.insert(p, x);
                    assert(r@ == before.insert(p, x));
                    assert forall|k: int| 0 <= k < r@.len() implies {
                        &&& (#[trigger] r@[k]).index < i + 1
                        &&& scores@[r@[k].index as int] == Some(r@[k].score)
                        &&& r@[k].pinned == ev[r@[k].index as int].pinned
                    } by {
                        if k < p {
                            assert(r@[k] == before[k]);
                        } else if k > p {
                            assert(r@[k] == before[k - 1]);
                        }
                    }
                    assert forall|j: int|
                        0 <= j < i + 1 && (#[trigger] scores@[j]) is Some implies exists|k: int|
                            0 <= k < r@.len() && r@[k].index == j by {
                        if j == i {
                            assert(r@[p].index == j);
                        } else {
                            let k0 = choose|k0: int| 0 <= k0 < before.len() && before[k0].index == j;
                            if k0 < p {
                                assert(r@[k0] == before[k0]);
                            } else {
                                assert(r@[k0 + 1] == before[k0]);
                            }
                        }
                    }
                }
            },
            None => {},
        }
        i = i + 1;
    }
    r
}

/// The entries that match `query`, in the order the picker lists them.
pub fn rank_entries(entries: &Vec<ClipboardEntry>, query: &str) -> (r: Vec<Ranked>)
    requires
        query@.len() > 0 ==> forall|i: int|
            0 <= i < entries@.len() ==> preview_defined(#[trigger] entries@[i].content@, 200),
    ensures
        is_ranking(entries_view(entries@), query@, r@),
{
    let scores = match_scores(entries, query);
    rank_scored(entries, &scores)
}

/// A key the picker reacts to (modifiers are passed beside it).
#[derive(Debug, Clone, Copy, PartialEq, Eq)]
pub enum PickerKey {
    Esc,
    Enter,
    Up,
    Down,
    Backspace,
    Char(char),
    Other,
}

/// What the picker ends with when an entry is chosen.
#[derive(Debug, Clone, Copy, PartialEq, Eq)]
pub enum TuiAction {
    /// The history entry at this position was chosen.
    Select(usize),
}

/// What the picker asks its caller to do after a key.
#[derive(Debug, Clone, Copy, PartialEq, Eq)]
pub enum PickerAction {
    /// Redraw and wait for the next key.
    Continue,
    /// Close without choosing.
    Cancel,
    /// Close, choosing the history entry at this position.
    Select(usize),
    /// Ask the daemon to pin (or unpin) this entry, then report the reply.
    TogglePin { index: usize, pin: bool },
    /// Ask the daemon to delete this entry, then report the reply.
    Delete { index: usize },
}

/// The terminal picker's state: the entries it shows, the query typed so
/// far and the selected row.
pub struct Picker {
    pub entries: Vec<ClipboardEntry>,
    pub query: String,
    pub selected: Option<usize>,
}

/// The mathematical state of a [`Picker`].
pub struct PickerState {
    pub entries: Seq<EntryView>,
    pub query: Seq<char>,
    pub selected: Option<usize>,
}

/// The selection after the list is rebuilt with `len` rows: none for an
/// empty list, the last row when it was past the end, the first when there
/// was none.
pub open spec fn spec_clamp(selected: Option<usize>, len: usize) -> Option<usize> {
    if len == 0 {
        None
    } else {
        match selected {
            Some(s) => if s >= len { Some((len - 1) as usize) } else { Some(s) },
            None => Some(0),
        }
    }
}

/// The state after a key and the action it asks for, given the listed rows
/// `rows` and the height of the visible list (paging moves half of it).
pub open spec fn spec_key(
    s: PickerState,
    key: PickerKey,
    ctrl: bool,
    rows: Seq<Ranked>,
    height: usize,
) -> (PickerState, PickerAction) {
    let half = height / 2;
    match key {
        PickerKey::Esc => (s, PickerAction::Cancel),
        PickerKey::Enter => match s.selected {
            Some(sel) => if sel < rows.len() {
                (s, PickerAction::Select(rows[sel as int].index))
            } else {
                (s, PickerAction::Cancel)
            },
            None => (s, PickerAction::Cancel),
        },
        PickerKey::Up => match s.selected {
            Some(sel) => if sel > 0 {
                (PickerState { selected: Some((sel - 1) as usize), ..s }, PickerAction::Continue)
            } else {
                (s, PickerAction::Continue)
            },
            None => (s, PickerAction::Continue),
        },
        PickerKey::Down => match s.selected {
            Some(sel) => if sel + 1 < rows.len() {
                (PickerState { selected: Some((sel + 1) as usize), ..s }, PickerAction::Continue)
            } else {
                (s, PickerAction::Continue)
            },
            None => (s, PickerAction::Continue),
        },
        PickerKey::Backspace => (
            PickerState {
                query: if s.query.len() > 0 { s.query.drop_last() } else { s.query },
                selected: Some(0),
                ..s
            },
            PickerAction::Continue,
        ),
        PickerKey::Char(c) => if c == 'q' && s.query.len() == 0 {
            (s, PickerAction::Cancel)
        } else if ctrl && c == 'd' {
            match s.selected {
                Some(sel) => {
                    let last: int = if rows.len() > 0 { rows.len() - 1 } else { 0 };
                    let target: int = if sel + half < last { sel + half } else { last };
                    (PickerState { selected: Some(target as usize), ..s }, PickerAction::Continue)
                },
                None => (s, PickerAction::Continue),
            }
        } else if ctrl && c == 'u' {
            match s.selected {
                Some(sel) => {
                    let target: int = if sel >= half { sel - half } else { 0 };
                    (PickerState { selected: Some(target as usize), ..s }, PickerAction::Continue)
                },
                None => (s, PickerAction::Continue),
            }
        } else if ctrl && c == 'p' {
            match s.selected {
                Some(sel) => if sel < rows.len() {
                    let idx = rows[sel as int].index;
                    (s, PickerAction::TogglePin { index: idx, pin: !s.entries[idx as int].pinned })
                } else {
                    (s, PickerAction::Continue)
                },
                None => (s, PickerAction::Continue),
            }
        } else if ctrl && c == 'x' {
            match s.selected {
                Some(sel) => if sel < rows.len() {
                    (s, PickerAction::Delete { index: rows[sel as int].index })
                } else {
                    (s, PickerAction::Continue)
                },
                None => (s, PickerAction::Continue),
            }
        } else {
            (PickerState { query: s.query.push(c), selected: Some(0), ..s }, PickerAction::Continue)
        },
        PickerKey::Other => (s, PickerAction::Continue),
    }
}

impl Picker {
    /// The mathematical state of the picker.
    pub open spec fn state(&self) -> PickerState {
        PickerState { entries: entries_view(self.entries@), query: self.query@, selected: self.selected }
    }

    /// A picker over `entries` with an empty query and the first row
    /// selected.
    pub fn new(entries: Vec<ClipboardEntry>) -> (r: Picker)
        ensures
            r.state() == (PickerState { entries: entries_view(entries@), query: Seq::empty(), selected: Some(0) }),
    {
        Picker { entries, query: String::new(), selected: Some(0) }
    }

    /// The rows to list: the matching entries in picker order.
    pub fn rows(&self) -> (r: Vec<Ranked>)
        requires
            self.query@.len() > 0 ==> forall|i: int|
                0 <= i < self.entries@.len() ==> preview_defined(#[trigger] self.entries@[i].content@, 200),
        ensures
            is_ranking(self.state().entries, self.query@, r@),
    {
        rank_entries(&self.entries, self.query.as_str())
    }

    /// Keeps the selection on a row of a list of `len` rows.
    pub fn clamp(&mut self, len: usize)
        ensures
            final(self).state() == (PickerState { selected: spec_clamp(old(self).selected, len), ..old(self).state() }),
    {
        if len == 0 {
            self.selected = None;
        } else {
            match self.selected {
                Some(s) => {
                    if s >= len {
                        self.selected = Some(len - 1);
                    }
                },
                None => {
                    self.selected = Some(0);
                },
            }
        }
    }

    /// Reacts to a key, given the listed rows and the visible list height.
    pub fn key(&mut self, key: PickerKey, ctrl: bool, rows: &Vec<Ranked>, height: usize) -> (r: PickerAction)
        requires
            forall|k: int| 0 <= k < rows@.len() ==> (#[trigger] rows@[k]).index < old(self).entries@.len(),
            rows@.len() <= usize::MAX / 2,
            height <= usize::MAX / 2,
            old(self).selected matches Some(sel) ==> sel <= usize::MAX / 2,
        ensures
            (final(self).state(), r) == spec_key(old(self).state(), key, ctrl, rows@, height),
    {
        let half = height / 2;
        match key {
            PickerKey::Esc => PickerAction::Cancel,
            PickerKey::Enter => match self.selected {
                Some(sel) => if sel < rows.len() {
                    PickerAction::Select(rows[sel].index)
                } else {
                    PickerAction::Cancel
                },
                None => PickerAction::Cancel,
            },
            PickerKey::Up => {
                if let Some(sel) = self.selected {
                    if sel > 0 {
                        self.selected = Some(sel - 1);
                    }
                }
                PickerAction::Continue
            },
            PickerKey::Down => {
                if let Some(sel) = self.selected {
                    if sel + 1 < rows.len() {
                        self.selected = Some(sel + 1);
                    }
                }
                PickerAction::Continue
            },
            PickerKey::Backspace => {
                string_pop(&mut self.query);
                self.selected = Some(0);
                PickerAction::Continue
            },
            PickerKey::Char(c) => {
                if c == 'q' && self.query.as_str().is_empty() {
                    PickerAction::Cancel
                } else if ctrl && c == 'd' {
                    if let Some(sel) = self.selected {
                        let last = if rows.len() > 0 { rows.len() - 1 } else { 0 };
                        let target = if sel + half < last { sel + half } else { last };
                        self.selected = Some(target);
                    }
                    PickerAction::Continue
                } else if ctrl && c == 'u' {
                    if let Some(sel) = self.selected {
                        let target = if sel >= half { sel - half } else { 0 };
                        self.selected = Some(target);
                    }
                    PickerAction::Continue
                } else if ctrl && c == 'p' {
                    match self.selected {
                        Some(sel) => if sel < rows.len() {
                            let idx = rows[sel].index;
                            PickerAction::TogglePin { index: idx, pin: !self.entries[idx].pinned }
                        } else {
                            PickerAction::Continue
                        },
                        None => PickerAction::Continue,
                    }
                } else if ctrl && c == 'x' {
                    match self.selected {
                        Some(sel) => if sel < rows.len() {
                            PickerAction::Delete { index: rows[sel].index }
                        } else {
                            PickerAction::Continue
                        },
                        None => PickerAction::Continue,
                    }
                } else {
                    string_push(&mut self.query, c);
                    self.selected = Some(0);
                    PickerAction::Continue
                }
            },
            PickerKey::Other => PickerAction::Continue,
        }
    }

    /// Records the daemon's reply to a pin toggle: on success the entry
    /// shows the new flag.
    pub fn pin_reply(&mut self, index: usize, pin: bool, ok: bool)
        requires
            index < old(self).entries@.len(),
        ensures
            final(self).state() == (if ok {
                PickerState {
                    entries: old(self).state().entries.update(
                        index as int,
                        EntryView { pinned: pin, ..old(self).state().entries[index as int] },
                    ),
                    ..old(self).state()
                }
            } else {
                old(self).state()
            }),
    {
        if ok {
            let ghost before = self.entries@;
            self.entries[index].pinned = pin;
            proof {
                assert(entries_view(self.entries@) =~= entries_view(before).update(
                    index as int,
                    EntryView { pinned: pin, ..entries_view(before)[index as int] },
                ));
            }
        }
    }

    /// Records the daemon's reply to a deletion: on success the entry goes.
    /// Returns whether the picker should close because nothing is left.
    pub fn delete_reply(&mut self, index: usize, ok: bool) -> (close: bool)
        requires
            index < old(self).entries@.len(),
        ensures
            final(self).state() == (if ok {
                PickerState { entries: old(self).state().entries.remove(index as int), ..old(self).state() }
            } else {
                old(self).state()
            }),
            close == (ok && final(self).entries@.len() == 0),
    {
        if ok {
            let ghost before = self.entries@;
            self.entries.remove(index);
            proof {
                assert(entries_view(self.entries@) =~= entries_view(before).remove(index as int));
            }
            self.entries.len() == 0
        } else {
            false
        }
    }
}

/// Two lists strictly in rank order with the same members are equal.
proof fn lemma_sorted_same_members(a: Seq<Ranked>, b: Seq<Ranked>)
    requires
        sorted_by_rank(a),
        sorted_by_rank(b),
        forall|x: Ranked| a.contains(x) <==> b.contains(x),
    ensures
        a == b,
    decreases a.len(),
{
    if a.len() == 0 {
        if b.len() > 0 {
            assert(b.contains(b[0]));
        }
        assert(a =~= b);
    } else {
        assert(a.contains(a[0]));
        let j = choose|j: int| 0 <= j < b.len() && b[j] == a[0];
        assert(b.contains(b[0]));
        let k = choose|k: int| 0 <= k < a.len() && a[k] == b[0];
        if j > 0 && k > 0 {
            assert(ranks_before(b[0], b[j]));
            assert(ranks_before(a[0], a[k]));
            assert(false);
        }
        assert(a[0] == b[0]);
        let a1 = a.drop_first();
        let b1 = b.drop_first();
        assert forall|x: Ranked| a1.contains(x) implies b1.contains(x) by {
            let i = choose|i: int| 0 <= i < a1.len() && a1[i] == x;
            assert(a[i + 1] == x);
            assert(ranks_before(a[0], a[i + 1]));
            assert(b.contains(x));
            let q = choose|q: int| 0 <= q < b.len() && b[q] == x;
            assert(q != 0);
            assert(b1[q - 1] == x);
        }
        assert forall|x: Ranked| b1.contains(x) implies a1.contains(x) by {
            let i = choose|i: int| 0 <= i < b1.len() && b1[i] == x;
            assert(b[i + 1] == x);
            assert(ranks_before(b[0], b[i + 1]));
            assert(a.contains(x));
            let q = choose|q: int| 0 <= q < a.len() && a[q] == x;
            assert(q != 0);
            assert(a1[q - 1] == x);
        }
        assert(sorted_by_rank(a1)) by {
            assert forall|k: int, l: int| 0 <= k < l < a1.len() implies ranks_before(#[trigger] a1[k], #[trigger] a1[l]) by {
                assert(a1[k] == a[k + 1] && a1[l] == a[l + 1]);
            }
        }
        assert(sorted_by_rank(b1)) by {
            assert forall|k: int, l: int| 0 <= k < l < b1.len() implies ranks_before(#[trigger] b1[k], #[trigger] b1[l]) by {
                assert(b1[k] == b[k + 1] && b1[l] == b[l + 1]);
            }
        }
        lemma_sorted_same_members(a1, b1);
        assert(a =~= seq![a[0]] + a1);
        assert(b =~= seq![b[0]] + b1);
    }
}

/// The picker's listing is determined by the entries and their scores: any
/// two rankings of the same entries with the same scores are equal (so
/// [`rank_scored`] and [`rank_entries`] have exactly one possible result).
pub proof fn law_ranking_is_unique(entries: Seq<EntryView>, scores: Seq<Option<i64>>, r1: Seq<Ranked>, r2: Seq<Ranked>)
    requires
        scores.len() == entries.len(),
        is_ranking_by(entries, scores, r1),
        is_ranking_by(entries, scores, r2),
    ensures
        r1 == r2,
{
    assert forall|x: Ranked| r1.contains(x) implies r2.contains(x) by {
        let k = choose|k: int| 0 <= k < r1.len() && r1[k] == x;
        let i = x.index as int;
        assert(r1[k].index < entries.len());
        assert(scores[i] is Some);
        let k2 = choose|k2: int| 0 <= k2 < r2.len() && r2[k2].index == i;
        assert(r2[k2] == x);
    }
    assert forall|x: Ranked| r2.contains(x) implies r1.contains(x) by {
        let k = choose|k: int| 0 <= k < r2.len() && r2[k] == x;
        let i = x.index as int;
        assert(r2[k].index < entries.len());
        assert(scores[i] is Some);
        let k1 = choose|k1: int| 0 <= k1 < r1.len() && r1[k1].index == i;
        assert(r1[k1] == x);
    }
    lemma_sorted_same_members(r1, r2);
}

/// Whether the entry at position `i` of the history is listed in `r`.
pub open spec fn lists(r: Seq<Ranked>, i: int) -> bool {
    exists|k: int| 0 <= k < r.len() && r[k].index == i
}

/// With an empty query every entry is listed, pinned entries first, each
/// group in history order.
pub proof fn law_empty_query_lists_everything(entries: Seq<EntryView>, r: Seq<Ranked>)
    requires
        is_ranking(entries, Seq::empty(), r),
    ensures
        forall|i: int| 0 <= i < entries.len() ==> #[trigger] lists(r, i),
        forall|k: int, l: int| 0 <= k < l < r.len() && r[k].pinned == r[l].pinned ==> r[k].index < r[l].index,
        forall|k: int, l: int| 0 <= k < l < r.len() ==> (r[l].pinned ==> r[k].pinned),
{
    let sc = scores_for(entries, Seq::empty());
    assert forall|i: int| 0 <= i < entries.len() implies #[trigger] lists(r, i) by {
        assert(sc[i] is Some);
    }
    assert forall|k: int, l: int| 0 <= k < l < r.len() && r[k].pinned == r[l].pinned implies r[k].index < r[l].index by {
        assert(ranks_before(r[k], r[l]));
        assert(sc[r[k].index as int] == Some(r[k].score));
        assert(sc[r[l].index as int] == Some(r[l].score));
    }
    assert forall|k: int, l: int| 0 <= k < l < r.len() implies (r[l].pinned ==> r[k].pinned) by {
        assert(ranks_before(r[k], r[l]));
    }
}

/// Typing a character and then deleting it gives back the query, with the
/// first row selected.
pub proof fn law_type_then_backspace(s: PickerState, c: char, ctrl: bool, rows1: Seq<Ranked>, rows2: Seq<Ranked>, h: usize)
    requires
        !(c == 'q' && s.query.len() == 0),
        !(ctrl && (c == 'd' || c == 'u' || c == 'p' || c == 'x')),
    ensures
        spec_key(spec_key(s, PickerKey::Char(c), ctrl, rows1, h).0, PickerKey::Backspace, false, rows2, h).0
            == (PickerState { selected: Some(0), ..s }),
{
    let t = spec_key(s, PickerKey::Char(c), ctrl, rows1, h).0;
    assert(t.query.drop_last() =~= s.query);
}

/// Moving and paging keep a selection that is on a row on a row.
pub proof fn law_navigation_stays_on_rows(s: PickerState, key: PickerKey, ctrl: bool, rows: Seq<Ranked>, h: usize)
    requires
        s.selected matches Some(sel) && sel < rows.len(),
        key == PickerKey::Up || key == PickerKey::Down || (ctrl && (key == PickerKey::Char('d')
            || key == PickerKey::Char('u'))),
        !(key == PickerKey::Char('q') && s.query.len() == 0),
    ensures
        spec_key(s, key, ctrl, rows, h).0.selected matches Some(sel) && sel < rows.len(),
        spec_key(s, key, ctrl, rows, h).1 == PickerAction::Continue,
{
}

/// Enter on a fresh picker over a non-empty history, with nothing typed,
/// selects the newest pinned entry, or the newest entry when none is pinned.
pub proof fn law_enter_on_empty_query_selects_first(entries: Seq<EntryView>, rows: Seq<Ranked>, ctrl: bool, h: usize)
    requires
        entries.len() > 0,
        is_ranking(entries, Seq::empty(), rows),
    ensures
        spec_key(
            PickerState { entries, query: Seq::empty(), selected: Some(0) },
            PickerKey::Enter,
            ctrl,
            rows,
            h,
        ).1 matches PickerAction::Select(i) && {
            &&& 0 <= i < entries.len()
            &&& (exists|j: int| 0 <= j < entries.len() && entries[j].pinned) ==> {
                &&& entries[i as int].pinned
                &&& forall|j: int| 0 <= j < i ==> !(#[trigger] entries[j]).pinned
            }
            &&& (forall|j: int| 0 <= j < entries.len() ==> !(#[trigger] entries[j]).pinned) ==> i == 0
        },
{
    law_empty_query_lists_everything(entries, rows);
    assert(lists(rows, 0));
    assert(rows.len() > 0);
    let i = rows[0].index as int;
    assert(rows[0].pinned == entries[i].pinned);
    if exists|j: int| 0 <= j < entries.len() && entries[j].pinned {
        let j = choose|j: int| 0 <= j < entries.len() && entries[j].pinned;
        assert(lists(rows, j));
        let k = choose|k: int| 0 <= k < rows.len() && rows[k].index == j;
        assert(rows[k].pinned == entries[j].pinned);
        assert(rows[0].pinned);
        assert forall|q: int| 0 <= q < i implies !(#[trigger] entries[q]).pinned by {
            if entries[q].pinned {
                assert(lists(rows, q));
                let kq = choose|kq: int| 0 <= kq < rows.len() && rows[kq].index == q;
                assert(rows[kq].pinned == entries[q].pinned);
                if kq > 0 {
                    assert(rows[0].index < rows[kq].index);
                }
            }
        }
    } else {
        let k = choose|k: int| 0 <= k < rows.len() && rows[k].index == 0;
        assert(rows[k].pinned == entries[0].pinned);
        if k > 0 {
            assert(rows[0].index < rows[k].index);
        }
    }
}

/// Whatever the query, the listing puts every pinned entry above every
/// unpinned one; within each of the two groups higher scores come first, and
/// among equal scores the newer entry (lower index) comes first.
pub proof fn law_ranking_pinned_then_score_then_newest(entries: Seq<EntryView>, q: Seq<char>, r: Seq<Ranked>)
    requires
        is_ranking(entries, q, r),
    ensures
        forall|k: int, l: int|
            0 <= k < l < r.len() ==> {
                let a = #[trigger] r[k];
                let b = #[trigger] r[l];
                &&& b.pinned ==> a.pinned
                &&& a.pinned == b.pinned ==> a.score >= b.score
                &&& a.pinned == b.pinned && a.score == b.score ==> a.index < b.index
                &&& a.pinned == entries[a.index as int].pinned
            },
{
    assert forall|k: int, l: int| 0 <= k < l < r.len() implies {
        let a = #[trigger] r[k];
        let b = #[trigger] r[l];
        &&& b.pinned ==> a.pinned
        &&& a.pinned == b.pinned ==> a.score >= b.score
        &&& a.pinned == b.pinned && a.score == b.score ==> a.index < b.index
        &&& a.pinned == entries[a.index as int].pinned
    } by {
        assert(ranks_before(r[k], r[l]));
    }
}

} // verus!
