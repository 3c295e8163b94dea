//! The clipboard history: newest entry first, duplicates moved to the
//! front, and only the newest `max_history` unpinned entries kept.

use vstd::prelude::*;
use crate::config::Config;
use crate::entry::{entries_view, spec_content_hash, ClipboardEntry, ContentView, EntryContent, EntryView, opt_view};

verus! {

/// The mathematical state of a [`ClipboardHistory`].
pub struct HistoryState {
    /// The entries, newest first.
    pub entries: Seq<EntryView>,
    /// How many unpinned entries are kept.
    pub max_history: usize,
    /// The id the next new entry receives.
    pub next_id: u64,
    /// The content hash of the last content that was accepted.
    pub last_hash: u64,
    /// Whether the entries changed since they were last saved.
    pub dirty: bool,
}

/// Every entry's id is below the id the next new entry receives, so a new
/// entry's id is fresh.
pub open spec fn state_wf(s: HistoryState) -> bool {
    forall|i: int| 0 <= i < s.entries.len() ==> #[trigger] s.entries[i].id < s.next_id
}

/// The number of unpinned entries in `s`.
pub open spec fn unpinned_count(s: Seq<EntryView>) -> nat
    decreases s.len(),
{
    if s.len() == 0 {
        0
    } else {
        unpinned_count(s.drop_last()) + (if s.last().pinned { 0nat } else { 1nat })
    }
}

/// `s` with only its first `m` unpinned entries left among the unpinned
/// ones; every pinned entry stays, and the order is kept.
pub open spec fn keep_first_unpinned(s: Seq<EntryView>, m: nat) -> Seq<EntryView>
    decreases s.len(),
{
    if s.len() == 0 {
        seq![]
    } else {
        let rest = keep_first_unpinned(s.drop_last(), m);
        if s.last().pinned || unpinned_count(s.drop_last()) < m {
            rest.push(s.last())
        } else {
            rest
        }
    }
}

/// Whether the content of entry `i` of `s` hashes to `h`.
pub open spec fn hash_matches(s: Seq<EntryView>, i: int, h: u64) -> bool {
    spec_content_hash(s[i].content) == h
}

/// Whether `p` is the first position of `s` whose content hashes to `h`.
pub open spec fn is_first_match(s: Seq<EntryView>, h: u64, p: int) -> bool {
    &&& 0 <= p < s.len()
    &&& hash_matches(s, p, h)
    &&& forall|k: int| 0 <= k < p ==> !hash_matches(s, k, h)
}

/// Whether some entry of `s` has content hashing to `h`.
pub open spec fn has_match(s: Seq<EntryView>, h: u64) -> bool {
    exists|p: int| 0 <= p < s.len() && hash_matches(s, p, h)
}

/// The first position of `s` whose content hashes to `h` (when there is one).
pub open spec fn first_match(s: Seq<EntryView>, h: u64) -> int {
    choose|p: int| is_first_match(s, h, p)
}

/// Whether adding `c` to `s` creates a new entry, which takes an id.
pub open spec fn add_allocates(s: HistoryState, c: ContentView) -> bool {
    let h = spec_content_hash(c);
    h != s.last_hash && !has_match(s.entries, h)
}

/// The entries after `c` is accepted at time `now`, before trimming: an
/// entry with the same hash moves to the front with the new time, otherwise
/// a new unpinned, untagged entry is put in front.
pub open spec fn entries_with(s: HistoryState, c: ContentView, now: u64) -> Seq<EntryView> {
    let h = spec_content_hash(c);
    if has_match(s.entries, h) {
        let p = first_match(s.entries, h);
        let e = s.entries[p];
        seq![EntryView { timestamp: now, ..e }] + s.entries.remove(p)
    } else {
        seq![EntryView { id: s.next_id, content: c, timestamp: now, pinned: false, tag: None }]
            + s.entries
    }
}

/// The state after adding `c` at time `now`, and whether it was accepted.
/// Content that hashes like the last accepted content is refused and
/// changes nothing.
pub open spec fn spec_add(s: HistoryState, c: ContentView, now: u64) -> (HistoryState, bool) {
    let h = spec_content_hash(c);
    if h == s.last_hash {
        (s, false)
    } else {
        (
            HistoryState {
                entries: keep_first_unpinned(entries_with(s, c, now), s.max_history as nat),
                next_id: if add_allocates(s, c) { (s.next_id + 1) as u64 } else { s.next_id },
                last_hash: h,
                dirty: true,
                ..s
            },
            true,
        )
    }
}

/// The state after setting the tag of entry `i`, and whether `i` was in
/// range; out of range nothing changes.
pub open spec fn spec_set_tag(s: HistoryState, i: usize, tag: Option<Seq<char>>) -> (HistoryState, bool) {
    if i < s.entries.len() {
        (HistoryState { entries: s.entries.update(i as int, EntryView { tag, ..s.entries[i as int] }), dirty: true, ..s }, true)
    } else {
        (s, false)
    }
}

/// The state after setting the pinned flag of entry `i` to `pinned`, and
/// whether `i` was in range; out of range nothing changes.
pub open spec fn spec_set_pinned(s: HistoryState, i: usize, pinned: bool) -> (HistoryState, bool) {
    if i < s.entries.len() {
        (HistoryState { entries: s.entries.update(i as int, EntryView { pinned, ..s.entries[i as int] }), dirty: true, ..s }, true)
    } else {
        (s, false)
    }
}

/// The state after deleting entry `i`, and whether `i` was in range; out of
/// range nothing changes.
pub open spec fn spec_delete(s: HistoryState, i: usize) -> (HistoryState, bool) {
    if i < s.entries.len() {
        (HistoryState { entries: s.entries.remove(i as int), dirty: true, ..s }, true)
    } else {
        (s, false)
    }
}

/// The pinned entries of `s`, in order.
pub open spec fn pinned_only(s: Seq<EntryView>) -> Seq<EntryView>
    decreases s.len(),
{
    if s.len() == 0 {
        seq![]
    } else if s.last().pinned {
        pinned_only(s.drop_last()).push(s.last())
    } else {
        pinned_only(s.drop_last())
    }
}

/// The state after clearing every unpinned entry.
pub open spec fn spec_clear(s: HistoryState) -> HistoryState {
    HistoryState { entries: pinned_only(s.entries), dirty: true, ..s }
}

/// The largest id among `s` (zero for no entries).
pub open spec fn max_id(s: Seq<EntryView>) -> u64
    decreases s.len(),
{
    if s.len() == 0 {
        0
    } else {
        let m = max_id(s.drop_last());
        if s.last().id > m { s.last().id } else { m }
    }
}

/// The state of a history loaded from `entries` (none when nothing could be
/// read): the next id follows the largest stored id, and the last accepted
/// hash is that of the newest entry (zero for an empty history).
pub open spec fn spec_load(entries: Seq<EntryView>, max_history: usize) -> HistoryState {
    HistoryState {
        entries,
        max_history,
        next_id: (max_id(entries) + 1) as u64,
        last_hash: if entries.len() > 0 { spec_content_hash(entries[0].content) } else { 0 },
        dirty: false,
    }
}

/// The first match of `h` is unique.
proof fn lemma_first_match_unique(s: Seq<EntryView>, h: u64, p: int)
    requires
        is_first_match(s, h, p),
    ensures
        has_match(s, h),
        first_match(s, h) == p,
{
    let q = first_match(s, h);
    assert(is_first_match(s, h, q));
    if q < p {
        assert(!hash_matches(s, q, h));
    } else if p < q {
        assert(!hash_matches(s, p, h));
    }
}

/// The position of the first entry whose content hashes to `h`.
fn find_hash(entries: &Vec<ClipboardEntry>, h: u64) -> (r: Option<usize>)
    ensures
        match r {
            Some(p) => is_first_match(entries_view(entries@), h, p as int),
            None => !has_match(entries_view(entries@), h),
        },
{
    let ghost s = entries_view(entries@);
    let mut i: usize = 0;
    while i < entries.len()
        invariant
            s == entries_view(entries@),
            0 <= i <= entries.len(),
            forall|k: int| 0 <= k < i ==> !hash_matches(s, k, h),
        decreases entries.len() - i,
    {
        if entries[i].content.content_hash() == h {
            return Some(i);
        }
        i = i + 1;
    }
    None
}

/// The current time in whole seconds since the Unix epoch.
///
/// Calls `std::time::SystemTime::now` and converts the duration since the
/// epoch to seconds (zero for a clock set before the epoch). The result
/// depends on the clock, so nothing is stated of it.
#[verifier::external_body]
pub(crate) fn now() -> u64 {
    std::time::SystemTime::now()
        .duration_since(std::time::UNIX_EPOCH)
        .unwrap_or_default()
        .as_secs()
}

/// The history's own bookkeeping, which only its methods change.
pub struct HistoryMeta {
    next_id: u64,
    last_hash: u64,
    dirty: bool,
}

impl HistoryMeta {
    /// The id the next new entry receives.
    pub closed spec fn spec_next_id(self) -> u64 {
        self.next_id
    }

    /// The content hash of the last accepted content.
    pub closed spec fn spec_last_hash(self) -> u64 {
        self.last_hash
    }

    /// Whether the entries changed since they were last saved.
    pub closed spec fn spec_dirty(self) -> bool {
        self.dirty
    }
}

/// The history of clipboard entries, newest first, and its configuration.
pub struct ClipboardHistory {
    pub entries: Vec<ClipboardEntry>,
    pub config: Config,
    pub meta: HistoryMeta,
}

impl ClipboardHistory {
    /// The mathematical state of the history.
    pub open spec fn state(&self) -> HistoryState {
        HistoryState {
            entries: entries_view(self.entries@),
            max_history: self.config.max_history,
            next_id: self.meta.spec_next_id(),
            last_hash: self.meta.spec_last_hash(),
            dirty: self.meta.spec_dirty(),
        }
    }

    /// Keeps only the first `max_history` unpinned entries.
    fn trim(&mut self)
        ensures
            final(self).state() == (HistoryState {
                entries: keep_first_unpinned(old(self).state().entries, old(self).config.max_history as nat),
                ..old(self).state()
            }),
            final(self).config == old(self).config,
    {
        let max = self.config.max_history;
        let mut old_entries: Vec<ClipboardEntry> = Vec::new();
        std::mem::swap(&mut old_entries, &mut self.entries);
        let ghost src = entries_view(old_entries@);
        let mut kept: Vec<ClipboardEntry> = Vec::new();
        let mut unpinned: usize = 0;
        let n = old_entries.len();
        for e in it: old_entries.into_iter()
            invariant
                src == entries_view(it.seq()),
                src.len() == n,
                unpinned == unpinned_count(src.take(it.index() as int)),
                unpinned <= it.index(),
                entries_view(kept@) == keep_first_unpinned(src.take(it.index() as int), max as nat),
        {
            let ghost i = it.index();
            let ghost prefix = src.take(i as int);
            let ghost next = src.take(i + 1);
            proof {
                assert(next.drop_last() =~= prefix);
                assert(next.last() == e@);
            }
            let pinned = e.pinned;
            if pinned || unpinned < max {
                let ghost before = kept@;
                kept.push(e);
                proof {
                    assert(entries_view(kept@) =~= entries_view(before).push(e@));
                }
            }
            if !pinned {
                unpinned = unpinned + 1;
            }
        }
        proof {
            assert(src.take(src.len() as int) =~= src);
        }
        self.entries = kept;
    }

    /// Adds `content` at time `now`; returns whether it was accepted.
    ///
    /// Content that hashes like the last accepted content is refused.
    /// Otherwise an entry with the same hash moves to the front with the new
    /// time, or a new entry with the next id is put in front; then only the
    /// newest `max_history` unpinned entries are kept.
    pub fn add_at(&mut self, content: EntryContent, now: u64) -> (r: bool)
        requires
            add_allocates(old(self).state(), content@) ==> old(self).state().next_id < u64::MAX,
        ensures
            (final(self).state(), r) == spec_add(old(self).state(), content@, now),
            final(self).config == old(self).config,
    {
        let ghost s0 = self.state();
        let ghost c = content@;
        let hash = content.content_hash();
        if hash == self.meta.last_hash {
            return false;
        }
        self.meta.last_hash = hash;
        match find_hash(&self.entries, hash) {
            Some(p) => {
                proof {
                    lemma_first_match_unique(s0.entries, hash, p as int);
                }
                let ghost before = self.entries@;
                let mut entry = self.entries.remove(p);
                entry.timestamp = now;
                let ghost moved = entry@;
                self.entries.insert(0, entry);
                proof {
                    assert(self.entries@ =~= seq![self.entries@[0]] + before.remove(p as int));
                    assert(entries_view(self.entries@) =~= seq![moved] + entries_view(before).remove(p as int));
                    assert(entries_view(self.entries@) =~= entries_with(s0, c, now));
                }
            },
            None => {
                let entry = ClipboardEntry {
                    id: self.meta.next_id,
                    content,
                    timestamp: now,
                    pinned: false,
                    tag: None,
                };
                self.meta.next_id = self.meta.next_id + 1;
                let ghost before = self.entries@;
                self.entries.insert(0, entry);
                proof {
                    assert(entries_view(self.entries@) =~= entries_with(s0, c, now));
                }
            },
        }
        self.trim();
        self.meta.dirty = true;
        true
    }

    /// Whether adding `content` now would create a new entry, which takes the
    /// next id (so [`ClipboardHistory::add`] needs one below the largest).
    pub fn add_needs_fresh_id(&self, content: &EntryContent) -> (r: bool)
        ensures
            r == add_allocates(self.state(), content@),
    {
        let hash = content.content_hash();
        if hash == self.meta.last_hash {
            return false;
        }
        match find_hash(&self.entries, hash) {
            Some(p) => {
                proof {
                    lemma_first_match_unique(self.state().entries, hash, p as int);
                }
                false
            },
            None => true,
        }
    }

    /// Adds `content`, stamped with the current time; returns whether it
    /// was accepted (see [`ClipboardHistory::add_at`]).
    pub fn add(&mut self, content: EntryContent) -> (r: bool)
        requires
            add_allocates(old(self).state(), content@) ==> old(self).state().next_id < u64::MAX,
        ensures
            exists|t: u64| (final(self).state(), r) == spec_add(old(self).state(), content@, t),
            final(self).config == old(self).config,
    {
        let t = now();
        self.add_at(content, t)
    }

    /// A history over `stored` (the entries read back from the history file,
    /// `None` when there were none to read) with the given configuration.
    pub fn load(config: &Config, stored: Option<Vec<ClipboardEntry>>) -> (r: ClipboardHistory)
        requires
            match stored {
                Some(v) => max_id(entries_view(v@)) < u64::MAX,
                None => true,
            },
        ensures
            r.state() == spec_load(
                match stored {
                    Some(v) => entries_view(v@),
                    None => Seq::empty(),
                },
                config.max_history,
            ),
            r.config.max_history == config.max_history,
            r.config.history_path@ == config.history_path@,
            r.config.socket_path@ == config.socket_path@,
            r.config.poll_interval_ms == config.poll_interval_ms,
            r.config.max_entry_bytes == config.max_entry_bytes,
            state_wf(r.state()),
    {
        let entries = match stored {
            Some(v) => v,
            None => Vec::new(),
        };
        let ghost s = entries_view(entries@);
        assert(s == match stored {
            Some(v) => entries_view(v@),
            None => Seq::<EntryView>::empty(),
        });
        let mut max: u64 = 0;
        let mut i: usize = 0;
        while i < entries.len()
            invariant
                s == entries_view(entries@),
                0 <= i <= entries.len(),
                max == max_id(s.take(i as int)),
                forall|k: int| 0 <= k < i ==> #[trigger] s[k].id <= max,
            decreases entries.len() - i,
        {
            proof {
                assert(s.take(i + 1).drop_last() =~= s.take(i as int));
            }
            if entries[i].id > max {
                max = entries[i].id;
            }
            i = i + 1;
        }
        proof {
            assert(s.take(s.len() as int) =~= s);
        }
        let last_hash = if entries.len() > 0 {
            entries[0].content.content_hash()
        } else {
            0
        };
        ClipboardHistory {
            entries,
            config: config.duplicate(),
            meta: HistoryMeta { next_id: max + 1, last_hash, dirty: false },
        }
    }

    /// Sets or clears the tag of entry `index`; returns whether `index` was
    /// in range.
    pub fn set_tag(&mut self, index: usize, tag: Option<String>) -> (r: bool)
        ensures
            (final(self).state(), r) == spec_set_tag(old(self).state(), index, opt_view(tag)),
            final(self).config == old(self).config,
    {
        if index < self.entries.len() {
            let ghost before = self.entries@;
            self.entries[index].tag = tag;
            self.meta.dirty = true;
            proof {
                assert(entries_view(self.entries@) =~= entries_view(before).update(
                    index as int,
                    EntryView { tag: opt_view(tag), ..entries_view(before)[index as int] },
                ));
            }
            true
        } else {
            false
        }
    }

    /// Deletes entry `index`; returns whether `index` was in range.
    pub fn delete(&mut self, index: usize) -> (r: bool)
        ensures
            (final(self).state(), r) == spec_delete(old(self).state(), index),
            final(self).config == old(self).config,
    {
        if index < self.entries.len() {
            let ghost before = self.entries@;
            self.entries.remove(index);
            self.meta.dirty = true;
            proof {
                assert(entries_view(self.entries@) =~= entries_view(before).remove(index as int));
            }
            true
        } else {
            false
        }
    }

    /// Sets the pinned flag of entry `index`.
    fn set_pinned(&mut self, index: usize, pinned: bool) -> (r: bool)
        ensures
            (final(self).state(), r) == spec_set_pinned(old(self).state(), index, pinned),
            final(self).config == old(self).config,
    {
        if index < self.entries.len() {
            let ghost before = self.entries@;
            self.entries[index].pinned = pinned;
            self.meta.dirty = true;
            proof {
                assert(entries_view(self.entries@) =~= entries_view(before).update(
                    index as int,
                    EntryView { pinned, ..entries_view(before)[index as int] },
                ));
            }
            true
        } else {
            false
        }
    }

    /// Pins entry `index`, so that trimming and clearing keep it; returns
    /// whether `index` was in range.
    pub fn pin(&mut self, index: usize) -> (r: bool)
        ensures
            (final(self).state(), r) == spec_set_pinned(old(self).state(), index, true),
            final(self).config == old(self).config,
    {
        self.set_pinned(index, true)
    }

    /// Unpins entry `index`; returns whether `index` was in range.
    pub fn unpin(&mut self, index: usize) -> (r: bool)
        ensures
            (final(self).state(), r) == spec_set_pinned(old(self).state(), index, false),
            final(self).config == old(self).config,
    {
        self.set_pinned(index, false)
    }

    /// Removes every unpinned entry.
    pub fn clear_unpinned(&mut self)
        ensures
            final(self).state() == spec_clear(old(self).state()),
            final(self).config == old(self).config,
    {
        let mut old_entries: Vec<ClipboardEntry> = Vec::new();
        std::mem::swap(&mut old_entries, &mut self.entries);
        let ghost src = entries_view(old_entries@);
        let mut kept: Vec<ClipboardEntry> = Vec::new();
        for e in it: old_entries.into_iter()
            invariant
                src == entries_view(it.seq()),
                entries_view(kept@) == pinned_only(src.take(it.index() as int)),
        {
            let ghost i = it.index();
            proof {
                assert(src.take(i + 1).drop_last() =~= src.take(i as int));
                assert(src.take(i + 1).last() == e@);
            }
            if e.pinned {
                let ghost before = kept@;
                kept.push(e);
                proof {
                    assert(entries_view(kept@) =~= entries_view(before).push(e@));
                }
            }
        }
        proof {
            assert(src.take(src.len() as int) =~= src);
        }
        self.entries = kept;
        self.meta.dirty = true;
    }

    /// Whether the entries changed since they were last saved.
    pub fn is_dirty(&self) -> (r: bool)
        ensures
            r == self.state().dirty,
    {
        self.meta.dirty
    }

    /// The id the next new entry receives.
    pub fn next_id(&self) -> (r: u64)
        ensures
            r == self.state().next_id,
    {
        self.meta.next_id
    }

    /// Records that the entries were saved.
    pub fn mark_saved(&mut self)
        ensures
            final(self).state() == (HistoryState { dirty: false, ..old(self).state() }),
            final(self).entries == old(self).entries,
            final(self).config == old(self).config,
    {
        self.meta.dirty = false;
    }

    /// Whether a save is due; the history counts as saved afterwards, so the
    /// caller writes the entries out when this returns `true`.
    pub fn save_if_dirty(&mut self) -> (r: bool)
        ensures
            r == old(self).state().dirty,
            final(self).state() == (HistoryState { dirty: false, ..old(self).state() }),
            final(self).entries == old(self).entries,
            final(self).config == old(self).config,
    {
        let due = self.meta.dirty;
        self.meta.dirty = false;
        due
    }
}


/// Every entry that `keep_first_unpinned` keeps comes from its input, and
/// every pinned entry of the input is kept.
pub proof fn lemma_keep_elements(s: Seq<EntryView>, m: nat)
    ensures
        forall|x: EntryView| #[trigger] keep_first_unpinned(s, m).contains(x) ==> s.contains(x),
        forall|x: EntryView| #![trigger s.contains(x)] s.contains(x) && x.pinned ==> keep_first_unpinned(s, m).contains(x),
    decreases s.len(),
{
    if s.len() > 0 {
        let d = s.drop_last();
        lemma_keep_elements(d, m);
        let k = keep_first_unpinned(s, m);
        let kd = keep_first_unpinned(d, m);
        let kept_last = s.last().pinned || unpinned_count(d) < m;
        assert(kept_last ==> k == kd.push(s.last()));
        assert(!kept_last ==> k == kd);
        assert forall|x: EntryView| k.contains(x) implies s.contains(x) by {
            let j = choose|j: int| 0 <= j < k.len() && k[j] == x;
            if j < kd.len() {
                assert(k[j] == kd[j]);
                assert(kd.contains(x));
                let i = choose|i: int| 0 <= i < d.len() && d[i] == x;
                assert(s[i] == x);
            } else {
                assert(s[s.len() - 1] == x);
            }
        }
        assert forall|x: EntryView| s.contains(x) && x.pinned implies k.contains(x) by {
            let i = choose|i: int| 0 <= i < s.len() && s[i] == x;
            if i < s.len() - 1 {
                assert(d[i] == x);
                assert(d.contains(x));
                assert(kd.contains(x));
                let j = choose|j: int| 0 <= j < kd.len() && kd[j] == x;
                assert(k[j] == x);
            } else {
                assert(k[k.len() - 1] == x);
            }
        }
    }
}

/// `keep_first_unpinned` leaves `min(unpinned, m)` unpinned entries.
pub proof fn lemma_keep_count(s: Seq<EntryView>, m: nat)
    ensures
        unpinned_count(keep_first_unpinned(s, m)) == if unpinned_count(s) <= m {
            unpinned_count(s)
        } else {
            m
        },
    decreases s.len(),
{
    if s.len() > 0 {
        let d = s.drop_last();
        lemma_keep_count(d, m);
        let kd = keep_first_unpinned(d, m);
        if s.last().pinned || unpinned_count(d) < m {
            assert(kd.push(s.last()).drop_last() =~= kd);
        }
    }
}

/// Keeping at least one unpinned entry never drops the first entry.
pub proof fn lemma_keep_first(s: Seq<EntryView>, m: nat)
    requires
        s.len() > 0,
        m > 0,
    ensures
        keep_first_unpinned(s, m).len() > 0,
        keep_first_unpinned(s, m)[0] == s[0],
    decreases s.len(),
{
    let d = s.drop_last();
    let kd = keep_first_unpinned(d, m);
    let k = keep_first_unpinned(s, m);
    if s.len() == 1 {
        assert(unpinned_count(d) == 0);
        assert(kd.len() == 0);
        assert(k == kd.push(s.last()));
    } else {
        lemma_keep_first(d, m);
        assert(d[0] == s[0]);
        if s.last().pinned || unpinned_count(d) < m {
            assert(k == kd.push(s.last()));
            assert(k[0] == kd[0]);
        } else {
            assert(k == kd);
        }
    }
}

/// Every entry of `pinned_only(s)` is a pinned entry of `s`, and every
/// pinned entry of `s` is in it.
pub proof fn lemma_pinned_only_elements(s: Seq<EntryView>)
    ensures
        forall|x: EntryView| #![trigger pinned_only(s).contains(x)] #![trigger s.contains(x)] pinned_only(s).contains(x) <==> (s.contains(x) && x.pinned),
        unpinned_count(pinned_only(s)) == 0,
    decreases s.len(),
{
    if s.len() > 0 {
        let d = s.drop_last();
        lemma_pinned_only_elements(d);
        let p = pinned_only(s);
        let pd = pinned_only(d);
        if s.last().pinned {
            assert(p.drop_last() =~= pd);
        }
        assert(s.last().pinned ==> p == pd.push(s.last()));
        assert(!s.last().pinned ==> p == pd);
        assert forall|x: EntryView| p.contains(x) implies s.contains(x) && x.pinned by {
            let j = choose|j: int| 0 <= j < p.len() && p[j] == x;
            if j < pd.len() {
                assert(p[j] == pd[j]);
                assert(pd.contains(x));
                let i = choose|i: int| 0 <= i < d.len() && d[i] == x;
                assert(s[i] == x);
            } else {
                assert(s[s.len() - 1] == x);
            }
        }
        assert forall|x: EntryView| s.contains(x) && x.pinned implies p.contains(x) by {
            let i = choose|i: int| 0 <= i < s.len() && s[i] == x;
            if i < s.len() - 1 {
                assert(d[i] == x);
                assert(d.contains(x));
                assert(pd.contains(x));
                let j = choose|j: int| 0 <= j < pd.len() && pd[j] == x;
                assert(p[j] == x);
            } else {
                assert(p[p.len() - 1] == x);
            }
        }
    }
}

/// Clearing keeps exactly the pinned entries of a sequence already
/// cleared.
proof fn lemma_pinned_only_idempotent(s: Seq<EntryView>)
    ensures
        pinned_only(pinned_only(s)) == pinned_only(s),
    decreases s.len(),
{
    if s.len() > 0 {
        let d = s.drop_last();
        lemma_pinned_only_idempotent(d);
        if s.last().pinned {
            let p = pinned_only(d).push(s.last());
            assert(p.drop_last() =~= pinned_only(d));
        }
    }
}

/// When some entry matches, `first_match` is the first one that does.
pub proof fn lemma_first_match_exists(s: Seq<EntryView>, h: u64)
    requires
        has_match(s, h),
    ensures
        is_first_match(s, h, first_match(s, h)),
    decreases s.len(),
{
    let d = s.drop_last();
    if has_match(d, h) {
        lemma_first_match_exists(d, h);
        let p = first_match(d, h);
        assert forall|k: int| 0 <= k < p implies !hash_matches(s, k, h) by {
            assert(d[k] == s[k]);
            assert(!hash_matches(d, k, h));
        }
        assert(d[p] == s[p]);
        assert(is_first_match(s, h, p));
    } else {
        let l = s.len() - 1;
        assert forall|k: int| 0 <= k < l implies !hash_matches(s, k, h) by {
            assert(d[k] == s[k]);
            if hash_matches(s, k, h) {
                assert(hash_matches(d, k, h));
            }
        }
        let q = choose|q: int| 0 <= q < s.len() && hash_matches(s, q, h);
        if q < l {
            assert(d[q] == s[q]);
            assert(hash_matches(d, q, h));
        }
        assert(is_first_match(s, h, l));
    }
}

/// Adding the same content twice in a row: the second add is refused and
/// changes nothing, whether or not the first was accepted.
pub proof fn law_repeated_add_is_refused(s: HistoryState, c: ContentView, t1: u64, t2: u64)
    ensures
        spec_add(spec_add(s, c, t1).0, c, t2) == (spec_add(s, c, t1).0, false),
{
}

/// Adding content keeps every id below the next id.
pub proof fn law_add_keeps_ids_below_next(s: HistoryState, c: ContentView, t: u64)
    requires
        state_wf(s),
        add_allocates(s, c) ==> s.next_id < u64::MAX,
    ensures
        state_wf(spec_add(s, c, t).0),
{
    let h = spec_content_hash(c);
    if h != s.last_hash {
        let w = entries_with(s, c, t);
        let r = spec_add(s, c, t).0;
        lemma_keep_elements(w, s.max_history as nat);
        if has_match(s.entries, h) {
            lemma_first_match_exists(s.entries, h);
        }
        assert forall|i: int| 0 <= i < r.entries.len() implies #[trigger] r.entries[i].id < r.next_id by {
            assert(r.entries.contains(r.entries[i]));
            assert(w.contains(r.entries[i]));
            let j = choose|j: int| 0 <= j < w.len() && w[j] == r.entries[i];
            if has_match(s.entries, h) {
                let p = first_match(s.entries, h);
                if j == 0 {
                    assert(s.entries[p].id < s.next_id);
                } else if j - 1 < p {
                    assert(w[j] == s.entries[j - 1]);
                } else {
                    assert(w[j] == s.entries[j]);
                }
            } else if j > 0 {
                assert(w[j] == s.entries[j - 1]);
            }
        }
    }
}

/// After an add, at most `max_history` entries are unpinned, unless the add
/// was refused and changed nothing.
pub proof fn law_add_bounds_unpinned(s: HistoryState, c: ContentView, t: u64)
    ensures
        spec_add(s, c, t).1 ==> unpinned_count(spec_add(s, c, t).0.entries) <= s.max_history,
        !spec_add(s, c, t).1 ==> spec_add(s, c, t).0 == s,
{
    lemma_keep_count(entries_with(s, c, t), s.max_history as nat);
}

/// Adding never loses a pinned entry: each one is still there, pinned, with
/// its id, content and tag (only its time changes when it is the one moved
/// to the front).
pub proof fn law_add_keeps_pinned(s: HistoryState, c: ContentView, t: u64, k: int)
    requires
        0 <= k < s.entries.len(),
        s.entries[k].pinned,
    ensures
        exists|j: int|
            0 <= j < spec_add(s, c, t).0.entries.len() && {
                let e = #[trigger] spec_add(s, c, t).0.entries[j];
                &&& e.pinned
                &&& e.id == s.entries[k].id
                &&& e.content == s.entries[k].content
                &&& e.tag == s.entries[k].tag
            },
{
    let h = spec_content_hash(c);
    let r = spec_add(s, c, t).0;
    if h == s.last_hash {
        assert(r.entries[k] == s.entries[k]);
    } else {
        let w = entries_with(s, c, t);
        lemma_keep_elements(w, s.max_history as nat);
        let x: EntryView;
        if has_match(s.entries, h) {
            lemma_first_match_exists(s.entries, h);
            let p = first_match(s.entries, h);
            if k == p {
                x = w[0];
            } else if k < p {
                assert(w[k + 1] == s.entries.remove(p)[k]);
                x = w[k + 1];
            } else {
                assert(w[k] == s.entries.remove(p)[k - 1]);
                x = w[k];
            }
        } else {
            x = w[k + 1];
        }
        assert(w.contains(x));
        assert(r.entries.contains(x));
        let j = choose|j: int| 0 <= j < r.entries.len() && r.entries[j] == x;
        assert(r.entries[j] == x);
    }
}

/// After an accepted add, with room for at least one unpinned entry, the
/// newest entry holds content with the added hash and the time of the add;
/// a content seen for the first time gets the next id.
pub proof fn law_added_content_comes_first(s: HistoryState, c: ContentView, t: u64)
    requires
        s.max_history > 0,
        spec_content_hash(c) != s.last_hash,
        add_allocates(s, c) ==> s.next_id < u64::MAX,
    ensures
        spec_add(s, c, t).1,
        spec_add(s, c, t).0.entries.len() > 0,
        spec_content_hash(spec_add(s, c, t).0.entries[0].content) == spec_content_hash(c),
        spec_add(s, c, t).0.entries[0].timestamp == t,
        add_allocates(s, c) ==> spec_add(s, c, t).0.entries[0].id == s.next_id
            && spec_add(s, c, t).0.entries[0].content == c
            && spec_add(s, c, t).0.next_id == s.next_id + 1,
{
    let h = spec_content_hash(c);
    let w = entries_with(s, c, t);
    lemma_keep_first(w, s.max_history as nat);
    if has_match(s.entries, h) {
        lemma_first_match_exists(s.entries, h);
    }
}

/// In a history whose ids are all below the next id, a content seen for the
/// first time is stored under an id greater than every id already there.
pub proof fn law_new_entry_id_is_greatest(s: HistoryState, c: ContentView, t: u64)
    requires
        state_wf(s),
        s.max_history > 0,
        add_allocates(s, c),
        s.next_id < u64::MAX,
    ensures
        forall|i: int| 0 <= i < s.entries.len() ==> #[trigger] s.entries[i].id < spec_add(s, c, t).0.entries[0].id,
        !spec_add(s, c, t).0.entries[0].pinned,
        spec_add(s, c, t).0.entries[0].tag is None,
{
    law_added_content_comes_first(s, c, t);
    let w = entries_with(s, c, t);
    lemma_keep_first(w, s.max_history as nat);
}

/// No two entries of `s` share an id.
pub open spec fn ids_distinct(s: Seq<EntryView>) -> bool {
    forall|i: int, j: int| 0 <= i < j < s.len() ==> s[i].id != s[j].id
}

/// Keeping a part of entries with distinct ids keeps them distinct.
proof fn lemma_keep_distinct(s: Seq<EntryView>, m: nat)
    requires
        ids_distinct(s),
    ensures
        ids_distinct(keep_first_unpinned(s, m)),
    decreases s.len(),
{
    if s.len() > 0 {
        let d = s.drop_last();
        assert(ids_distinct(d)) by {
            assert forall|i: int, j: int| 0 <= i < j < d.len() implies d[i].id != d[j].id by {
                assert(d[i] == s[i] && d[j] == s[j]);
            }
        }
        lemma_keep_distinct(d, m);
        lemma_keep_elements(d, m);
        let kd = keep_first_unpinned(d, m);
        let k = keep_first_unpinned(s, m);
        if s.last().pinned || unpinned_count(d) < m {
            assert(k == kd.push(s.last()));
            assert forall|i: int, j: int| 0 <= i < j < k.len() implies k[i].id != k[j].id by {
                if j == k.len() - 1 {
                    assert(kd.contains(kd[i]));
                    let q = choose|q: int| 0 <= q < d.len() && d[q] == kd[i];
                    assert(s[q] == kd[i]);
                } else {
                    assert(k[i] == kd[i] && k[j] == kd[j]);
                }
            }
        }
    }
}

/// Adding keeps the ids of the entries distinct.
pub proof fn law_add_keeps_ids_distinct(s: HistoryState, c: ContentView, t: u64)
    requires
        state_wf(s),
        ids_distinct(s.entries),
    ensures
        ids_distinct(spec_add(s, c, t).0.entries),
{
    let h = spec_content_hash(c);
    if h != s.last_hash {
        let w = entries_with(s, c, t);
        if has_match(s.entries, h) {
            lemma_first_match_exists(s.entries, h);
            let p = first_match(s.entries, h);
            let rm = s.entries.remove(p);
            assert forall|i: int, j: int| 0 <= i < j < w.len() implies w[i].id != w[j].id by {
                let si = if i == 0 { p } else if i - 1 < p { i - 1 } else { i };
                let sj = if j - 1 < p { j - 1 } else { j };
                assert(w[i].id == s.entries[si].id);
                assert(w[j] == s.entries[sj]);
                assert(si != sj);
                if si < sj {
                } else {
                }
            }
        } else {
            assert forall|i: int, j: int| 0 <= i < j < w.len() implies w[i].id != w[j].id by {
                if i == 0 {
                    assert(w[j] == s.entries[j - 1]);
                } else {
                    assert(w[i] == s.entries[i - 1] && w[j] == s.entries[j - 1]);
                }
            }
        }
        lemma_keep_distinct(w, s.max_history as nat);
    }
}

/// Clearing twice is clearing once, and a cleared history holds exactly the
/// pinned entries it had.
pub proof fn law_clear_keeps_exactly_pinned(s: HistoryState)
    ensures
        spec_clear(spec_clear(s)) == spec_clear(s),
        unpinned_count(spec_clear(s).entries) == 0,
        forall|x: EntryView| spec_clear(s).entries.contains(x) <==> (s.entries.contains(x) && x.pinned),
{
    lemma_pinned_only_idempotent(s.entries);
    lemma_pinned_only_elements(s.entries);
}

/// Pinning an unpinned entry and then unpinning it restores the entries.
pub proof fn law_pin_then_unpin_restores(s: HistoryState, i: usize)
    requires
        i < s.entries.len(),
        !s.entries[i as int].pinned,
    ensures
        spec_set_pinned(spec_set_pinned(s, i, true).0, i, false).0.entries == s.entries,
{
    let r = spec_set_pinned(spec_set_pinned(s, i, true).0, i, false).0;
    assert(r.entries =~= s.entries);
}

/// Trimming a history within its limit changes nothing.
pub proof fn law_trim_within_limit_changes_nothing(s: Seq<EntryView>, m: nat)
    requires
        unpinned_count(s) <= m,
    ensures
        keep_first_unpinned(s, m) == s,
    decreases s.len(),
{
    if s.len() > 0 {
        let d = s.drop_last();
        law_trim_within_limit_changes_nothing(d, m);
        assert(d.push(s.last()) =~= s);
    }
}

/// No two entries of `s` hold contents with the same hash.
pub open spec fn hashes_distinct(s: Seq<EntryView>) -> bool {
    forall|i: int, j: int|
        0 <= i < j < s.len() ==> spec_content_hash(s[i].content) != spec_content_hash(s[j].content)
}

/// Keeping a part of entries with distinct hashes keeps them distinct.
proof fn lemma_keep_hashes_distinct(s: Seq<EntryView>, m: nat)
    requires
        hashes_distinct(s),
    ensures
        hashes_distinct(keep_first_unpinned(s, m)),
    decreases s.len(),
{
    if s.len() > 0 {
        let d = s.drop_last();
        assert(hashes_distinct(d)) by {
            assert forall|i: int, j: int| 0 <= i < j < d.len() implies spec_content_hash(d[i].content)
                != spec_content_hash(d[j].content) by {
                assert(d[i] == s[i] && d[j] == s[j]);
            }
        }
        lemma_keep_hashes_distinct(d, m);
        lemma_keep_elements(d, m);
        let kd = keep_first_unpinned(d, m);
        let k = keep_first_unpinned(s, m);
        if s.last().pinned || unpinned_count(d) < m {
            assert(k == kd.push(s.last()));
            assert forall|i: int, j: int| 0 <= i < j < k.len() implies spec_content_hash(k[i].content)
                != spec_content_hash(k[j].content) by {
                if j == k.len() - 1 {
                    assert(kd.contains(kd[i]));
                    let q = choose|q: int| 0 <= q < d.len() && d[q] == kd[i];
                    assert(s[q] == kd[i]);
                } else {
                    assert(k[i] == kd[i] && k[j] == kd[j]);
                }
            }
        }
    }
}

/// Adding keeps the contents of the entries distinct: no two entries ever
/// hold contents with the same hash.
pub proof fn law_add_keeps_hashes_distinct(s: HistoryState, c: ContentView, t: u64)
    requires
        hashes_distinct(s.entries),
    ensures
        hashes_distinct(spec_add(s, c, t).0.entries),
{
    let h = spec_content_hash(c);
    if h != s.last_hash {
        let w = entries_with(s, c, t);
        if has_match(s.entries, h) {
            lemma_first_match_exists(s.entries, h);
            let p = first_match(s.entries, h);
            assert forall|i: int, j: int| 0 <= i < j < w.len() implies spec_content_hash(w[i].content)
                != spec_content_hash(w[j].content) by {
                let si = if i == 0 { p } else if i - 1 < p { i - 1 } else { i };
                let sj = if j - 1 < p { j - 1 } else { j };
                assert(w[i].content == s.entries[si].content);
                assert(w[j] == s.entries[sj]);
                assert(si != sj);
                if si < sj {
                } else {
                }
            }
        } else {
            assert forall|i: int, j: int| 0 <= i < j < w.len() implies spec_content_hash(w[i].content)
                != spec_content_hash(w[j].content) by {
                if i == 0 {
                    assert(w[j] == s.entries[j - 1]);
                    assert(!hash_matches(s.entries, j - 1, h));
                } else {
                    assert(w[i] == s.entries[i - 1] && w[j] == s.entries[j - 1]);
                }
            }
        }
        lemma_keep_hashes_distinct(w, s.max_history as nat);
    }
}

/// An operation on the history, by its mathematical arguments.
pub enum HistoryOp {
    Add { content: ContentView, now: u64 },
    SetTag { index: usize, tag: Option<Seq<char>> },
    SetPinned { index: usize, pinned: bool },
    Delete { index: usize },
    Clear,
}

/// The state after `op`, and whether the operation reports a change
/// (clearing always counts as one).
pub open spec fn spec_apply(s: HistoryState, op: HistoryOp) -> (HistoryState, bool) {
    match op {
        HistoryOp::Add { content, now } => spec_add(s, content, now),
        HistoryOp::SetTag { index, tag } => spec_set_tag(s, index, tag),
        HistoryOp::SetPinned { index, pinned } => spec_set_pinned(s, index, pinned),
        HistoryOp::Delete { index } => spec_delete(s, index),
        HistoryOp::Clear => (spec_clear(s), true),
    }
}

/// The state after running `ops` in order from `s`.
pub open spec fn spec_run(s: HistoryState, ops: Seq<HistoryOp>) -> HistoryState
    decreases ops.len(),
{
    if ops.len() == 0 {
        s
    } else {
        spec_apply(spec_run(s, ops.drop_last()), ops.last()).0
    }
}

/// Whether some operation of `ops`, run in order from `s`, reports a change.
pub open spec fn some_change(s: HistoryState, ops: Seq<HistoryOp>) -> bool
    decreases ops.len(),
{
    if ops.len() == 0 {
        false
    } else {
        some_change(s, ops.drop_last()) || spec_apply(spec_run(s, ops.drop_last()), ops.last()).1
    }
}

/// An operation that reports no change leaves the state as it was, and one
/// that reports a change leaves it due for saving.
proof fn lemma_apply_change(s: HistoryState, op: HistoryOp)
    ensures
        !spec_apply(s, op).1 ==> spec_apply(s, op).0 == s,
        spec_apply(s, op).1 ==> spec_apply(s, op).0.dirty,
{
}

/// From a saved state (just loaded, or just saved), a save is due exactly
/// when some operation since reported a change; when none did, the state,
/// entries included, is still the saved one.
pub proof fn law_save_due_exactly_after_change(s: HistoryState, ops: Seq<HistoryOp>)
    requires
        !s.dirty,
    ensures
        spec_run(s, ops).dirty == some_change(s, ops),
        !some_change(s, ops) ==> spec_run(s, ops) == s,
    decreases ops.len(),
{
    if ops.len() > 0 {
        let d = ops.drop_last();
        law_save_due_exactly_after_change(s, d);
        lemma_apply_change(spec_run(s, d), ops.last());
    }
}

/// An add is refused exactly when the content hashes like the last accepted
/// content, and a refused add changes nothing; after an add the last hash is
/// the added content's, and the other operations keep it.
pub proof fn law_add_refused_exactly_on_last_hash(s: HistoryState, c: ContentView, t: u64, op: HistoryOp)
    ensures
        spec_add(s, c, t).1 == (spec_content_hash(c) != s.last_hash),
        !spec_add(s, c, t).1 ==> spec_add(s, c, t).0 == s,
        spec_add(s, c, t).0.last_hash == spec_content_hash(c),
        !(op is Add) ==> spec_apply(s, op).0.last_hash == s.last_hash,
{
}

/// Every id of `s` is at most `max_id(s)`.
proof fn lemma_max_id_bounds(s: Seq<EntryView>)
    ensures
        forall|i: int| 0 <= i < s.len() ==> #[trigger] s[i].id <= max_id(s),
    decreases s.len(),
{
    if s.len() > 0 {
        let d = s.drop_last();
        lemma_max_id_bounds(d);
        assert forall|i: int| 0 <= i < s.len() implies #[trigger] s[i].id <= max_id(s) by {
            if i < s.len() - 1 {
                assert(d[i] == s[i]);
            }
        }
    }
}

/// What was saved loads back unchanged and not due for saving; ids go on
/// after the stored ones, so a new entry added after loading gets an id
/// above every stored id.
pub proof fn law_load_then_add_continues_ids(entries: Seq<EntryView>, m: usize, c: ContentView, t: u64)
    requires
        max_id(entries) < u64::MAX - 1,
    ensures
        spec_load(entries, m).entries == entries,
        !spec_load(entries, m).dirty,
        state_wf(spec_load(entries, m)),
        m > 0 && add_allocates(spec_load(entries, m), c) ==> {
            let e = spec_add(spec_load(entries, m), c, t).0.entries[0];
            &&& e.id == max_id(entries) + 1
            &&& forall|i: int| 0 <= i < entries.len() ==> #[trigger] entries[i].id < e.id
        },
{
    lemma_max_id_bounds(entries);
    let s = spec_load(entries, m);
    if m > 0 && add_allocates(s, c) {
        law_added_content_comes_first(s, c, t);
    }
}

/// Deleting an index in range always succeeds, pinned entry or not, and
/// removes exactly that entry, the others keeping their order; out of range
/// it fails and changes nothing. Pinning, unpinning and tagging in range
/// change only that entry's flag or tag.
pub proof fn law_index_operations_act_on_that_entry(s: HistoryState, i: usize, pinned: bool, tag: Option<Seq<char>>)
    ensures
        i < s.entries.len() ==> {
            let (u, ok) = spec_delete(s, i);
            &&& ok
            &&& u.entries.len() + 1 == s.entries.len()
            &&& forall|j: int| 0 <= j < i ==> #[trigger] u.entries[j] == s.entries[j]
            &&& forall|j: int| i <= j < u.entries.len() ==> #[trigger] u.entries[j] == s.entries[j + 1]
        },
        i < s.entries.len() ==> {
            let (u, ok) = spec_set_pinned(s, i, pinned);
            &&& ok
            &&& u.entries.len() == s.entries.len()
            &&& u.entries[i as int] == (EntryView { pinned, ..s.entries[i as int] })
            &&& forall|j: int| 0 <= j < s.entries.len() && j != i ==> #[trigger] u.entries[j] == s.entries[j]
        },
        i < s.entries.len() ==> {
            let (u, ok) = spec_set_tag(s, i, tag);
            &&& ok
            &&& u.entries.len() == s.entries.len()
            &&& u.entries[i as int] == (EntryView { tag, ..s.entries[i as int] })
            &&& forall|j: int| 0 <= j < s.entries.len() && j != i ==> #[trigger] u.entries[j] == s.entries[j]
        },
        i >= s.entries.len() ==> spec_delete(s, i) == (s, false) && spec_set_pinned(s, i, pinned) == (s, false)
            && spec_set_tag(s, i, tag) == (s, false),
{
}

} // verus!
