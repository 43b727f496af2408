//! Playback history and resume positions.
//!
//! Keeps the last position of each file, to resume where playback stopped, and
//! the order in which files were played (most recent first, at most 200).
//! Positions and durations are seconds as `f64`, held here by their bits
//! (`f64::to_bits`); times are milliseconds since the Unix epoch.
use vstd::prelude::*;
use crate::keyed::KeyedVec;

verus! {

/// How many files the history remembers.
pub const MAX_HISTORY: usize = 200;

/// What the history knows of one file.
#[derive(Debug)]
pub struct HistoryEntry {
    pub path: String,
    pub title: String,
    /// `f64::to_bits` of the last position, in seconds.
    pub last_position: u64,
    /// `f64::to_bits` of the duration, in seconds.
    pub duration: u64,
    /// Milliseconds since the Unix epoch.
    pub last_watched: i64,
    pub play_count: u32,
}

pub struct EntryView {
    pub path: Seq<char>,
    pub title: Seq<char>,
    pub last_position: u64,
    pub duration: u64,
    pub last_watched: i64,
    pub play_count: u32,
}

impl View for HistoryEntry {
    type V = EntryView;

    open spec fn view(&self) -> EntryView {
        EntryView {
            path: self.path@,
            title: self.title@,
            last_position: self.last_position,
            duration: self.duration,
            last_watched: self.last_watched,
            play_count: self.play_count,
        }
    }
}

impl HistoryEntry {
    /// A copy of the entry.
    pub fn copy(&self) -> (r: HistoryEntry)
        ensures
            r@ == self@,
    {
        HistoryEntry {
            path: self.path.clone(),
            title: self.title.clone(),
            last_position: self.last_position,
            duration: self.duration,
            last_watched: self.last_watched,
            play_count: self.play_count,
        }
    }
}

/// Files by key (the path as text) and the order of their last use.
pub struct History {
    entries: KeyedVec<HistoryEntry>,
    order: Vec<String>,
}

pub struct HistoryView {
    pub entries: Map<Seq<char>, EntryView>,
    /// Most recent first.
    pub order: Seq<Seq<char>>,
}

impl View for History {
    type V = HistoryView;

    closed spec fn view(&self) -> HistoryView {
        HistoryView { entries: self.entries@, order: self.order@.map_values(|s: String| s@) }
    }
}

/// The order without `key`.
pub open spec fn without(s: Seq<Seq<char>>, key: Seq<char>) -> Seq<Seq<char>>
    decreases s.len(),
{
    if s.len() == 0 {
        s
    } else {
        let r = without(s.drop_last(), key);
        if s.last() == key {
            r
        } else {
            r.push(s.last())
        }
    }
}

/// The order after using `key`: first, and no longer anywhere else.
pub open spec fn bumped(order: Seq<Seq<char>>, key: Seq<char>) -> Seq<Seq<char>> {
    seq![key] + without(order, key)
}

/// The history after using `key` with `entries` as they now are: `key` moves
/// to the front, and when that makes the order longer than the limit, the
/// oldest file is forgotten.
pub open spec fn after_bump(entries: Map<Seq<char>, EntryView>, order: Seq<Seq<char>>, key: Seq<char>) -> HistoryView {
    let b = bumped(order, key);
    if b.len() > MAX_HISTORY {
        HistoryView { entries: entries.remove(b.last()), order: b.drop_last() }
    } else {
        HistoryView { entries, order: b }
    }
}

/// The entry after saving progress: position, duration, time and title
/// replaced, play count kept (0 for a new entry).
pub open spec fn updated_entry(
    prev: Option<EntryView>,
    path: Seq<char>,
    title: Seq<char>,
    position: u64,
    duration: u64,
    now: i64,
) -> EntryView {
    EntryView {
        path: match prev {
            Some(e) => e.path,
            None => path,
        },
        title,
        last_position: position,
        duration,
        last_watched: now,
        play_count: match prev {
            Some(e) => e.play_count,
            None => 0,
        },
    }
}

/// The entry after a play starts: duration, time and title replaced, play count
/// one more (saturating), position kept (0 for a new entry).
pub open spec fn started_entry(prev: Option<EntryView>, path: Seq<char>, title: Seq<char>, duration: u64, now: i64) -> EntryView {
    EntryView {
        path: match prev {
            Some(e) => e.path,
            None => path,
        },
        title,
        last_position: match prev {
            Some(e) => e.last_position,
            None => 0,
        },
        duration,
        last_watched: now,
        play_count: match prev {
            Some(e) => if e.play_count == u32::MAX {
                u32::MAX
            } else {
                (e.play_count + 1) as u32
            },
            None => 1,
        },
    }
}

pub open spec fn entry_of(m: Map<Seq<char>, EntryView>, k: Seq<char>) -> Option<EntryView> {
    if m.contains_key(k) {
        Some(m[k])
    } else {
        None
    }
}

fn remove_key(order: &Vec<String>, key: &str) -> (r: Vec<String>)
    ensures
        r@.map_values(|s: String| s@) == without(order@.map_values(|s: String| s@), key@),
{
    let ghost ov = order@.map_values(|s: String| s@);
    let kv = crate::text::chars_of(key);
    let mut out: Vec<String> = Vec::new();
    let mut i: usize = 0;
    while i < order.len()
        invariant
            i <= order.len(),
            ov == order@.map_values(|s: String| s@),
            kv@ == key@,
            out@.map_values(|s: String| s@) == without(ov.take(i as int), key@),
        decreases order.len() - i,
    {
        let ghost before = out@;
        let same = crate::text::str_eq_chars(order[i].as_str(), &kv);
        if !same {
            out.push(order[i].clone());
            assert(out@.map_values(|s: String| s@) =~= before.map_values(|s: String| s@).push(ov[i as int]));
        }
        proof {
            assert(ov.take(i + 1).drop_last() =~= ov.take(i as int));
            assert(ov.take(i + 1).last() == ov[i as int]);
        }
        i = i + 1;
    }
    proof {
        assert(ov.take(order.len() as int) =~= ov);
    }
    out
}

impl History {
    /// An empty history.
    pub fn new() -> (h: History)
        ensures
            h@.entries == Map::<Seq<char>, EntryView>::empty(),
            h@.order.len() == 0,
    {
        History { entries: KeyedVec::new(), order: Vec::new() }
    }

    /// Moves `key` to the front of the order, forgetting the oldest file when
    /// the history grows past its limit.
    fn bump_order(&mut self, key: String)
        ensures
            final(self)@ == after_bump(old(self)@.entries, old(self)@.order, key@),
    {
        let ghost k = key@;
        let rest = remove_key(&self.order, key.as_str());
        let mut order: Vec<String> = Vec::new();
        order.push(key);
        let mut i: usize = 0;
        while i < rest.len()
            invariant
                i <= rest.len(),
                order@.map_values(|s: String| s@) == seq![k] + rest@.map_values(|s: String| s@).take(i as int),
            decreases rest.len() - i,
        {
            let ghost before = order@;
            order.push(rest[i].clone());
            proof {
                assert(order@.map_values(|s: String| s@) =~= before.map_values(|s: String| s@).push(rest@[i as int]@));
                assert(rest@.map_values(|s: String| s@).take(i + 1) =~= rest@.map_values(|s: String| s@).take(
                    i as int,
                ).push(rest@[i as int]@));
            }
            i = i + 1;
        }
        proof {
            assert(rest@.map_values(|s: String| s@).take(rest.len() as int) =~= rest@.map_values(
                |s: String| s@,
            ));
        }
        if order.len() > MAX_HISTORY {
            let ghost before = order@;
            match order.pop() {
                Some(old_key) => {
                    let _ = self.entries.take(old_key.as_str());
                    proof {
                        assert(order@.map_values(|s: String| s@) =~= before.map_values(|s: String| s@).drop_last());
                    }
                },
                None => {},
            }
        }
        self.order = order;
    }

    /// Saves playback progress of the file `path`, at time `now`, without counting a new play.
    pub fn update_at(&mut self, path: &str, title: &str, position: u64, duration: u64, now: i64)
        ensures
            final(self)@ == after_bump(
                old(self)@.entries.insert(
                    path@,
                    updated_entry(entry_of(old(self)@.entries, path@), path@, title@, position, duration, now),
                ),
                old(self)@.order,
                path@,
            ),
    {
        let prev = self.entries.take(path);
        let e = match prev {
            Some(e) => HistoryEntry {
                path: e.path,
                title: String::from_str(title),
                last_position: position,
                duration,
                last_watched: now,
                play_count: e.play_count,
            },
            None => HistoryEntry {
                path: String::from_str(path),
                title: String::from_str(title),
                last_position: position,
                duration,
                last_watched: now,
                play_count: 0,
            },
        };
        self.entries.set(String::from_str(path), e);
        proof {
            assert(self@.entries =~= old(self)@.entries.insert(
                path@,
                updated_entry(entry_of(old(self)@.entries, path@), path@, title@, position, duration, now),
            ));
        }
        self.bump_order(String::from_str(path));
    }

    /// Marks the start of a play of the file `path`, at time `now`, counting it once.
    pub fn mark_play_start_at(&mut self, path: &str, title: &str, duration: u64, now: i64)
        ensures
            final(self)@ == after_bump(
                old(self)@.entries.insert(
                    path@,
                    started_entry(entry_of(old(self)@.entries, path@), path@, title@, duration, now),
                ),
                old(self)@.order,
                path@,
            ),
    {
        let prev = self.entries.take(path);
        let e = match prev {
            Some(e) => HistoryEntry {
                path: e.path,
                title: String::from_str(title),
                last_position: e.last_position,
                duration,
                last_watched: now,
                play_count: if e.play_count == u32::MAX {
                    u32::MAX
                } else {
                    e.play_count + 1
                },
            },
            None => HistoryEntry {
                path: String::from_str(path),
                title: String::from_str(title),
                last_position: 0,
                duration,
                last_watched: now,
                play_count: 1,
            },
        };
        self.entries.set(String::from_str(path), e);
        proof {
            assert(self@.entries =~= old(self)@.entries.insert(
                path@,
                started_entry(entry_of(old(self)@.entries, path@), path@, title@, duration, now),
            ));
        }
        self.bump_order(String::from_str(path));
    }

    /// Saves playback progress of the file `path` now (by the clock), without
    /// counting a new play.
    pub fn update(&mut self, path: &str, title: &str, position: u64, duration: u64)
        ensures
            exists|now: i64|
                now >= 0 && final(self)@ == after_bump(
                    old(self)@.entries.insert(
                        path@,
                        updated_entry(entry_of(old(self)@.entries, path@), path@, title@, position, duration, now),
                    ),
                    old(self)@.order,
                    path@,
                ),
    {
        let now = crate::clock::now_millis();
        self.update_at(path, title, position, duration, now);
    }

    /// Marks the start of a play of the file `path` now (by the clock), counting it once.
    pub fn mark_play_start(&mut self, path: &str, title: &str, duration: u64)
        ensures
            exists|now: i64|
                now >= 0 && final(self)@ == after_bump(
                    old(self)@.entries.insert(
                        path@,
                        started_entry(entry_of(old(self)@.entries, path@), path@, title@, duration, now),
                    ),
                    old(self)@.order,
                    path@,
                ),
    {
        let now = crate::clock::now_millis();
        self.mark_play_start_at(path, title, duration, now);
    }

    /// The entry of the file `path`.
    pub fn get(&self, path: &str) -> (r: Option<&HistoryEntry>)
        ensures
            match r {
                Some(e) => entry_of(self@.entries, path@) == Some(e@),
                None => entry_of(self@.entries, path@) is None,
            },
    {
        self.entries.get(path)
    }

    /// The entries in the order of their last use, most recent first (keys
    /// without an entry are skipped).
    pub fn all_entries(&self) -> (r: Vec<HistoryEntry>)
        ensures
            r@.map_values(|e: HistoryEntry| e@) == recent_entries(self@),
    {
        let ghost ov = self@.order;
        let mut out: Vec<HistoryEntry> = Vec::new();
        let mut i: usize = 0;
        while i < self.order.len()
            invariant
                i <= self.order.len(),
                ov == self@.order,
                out@.map_values(|e: HistoryEntry| e@) == entries_in_order(self@.entries, ov.take(i as int)),
            decreases self.order.len() - i,
        {
            let ghost before = out@;
            match self.entries.get(self.order[i].as_str()) {
                Some(e) => {
                    out.push(e.copy());
                    assert(out@.map_values(|e: HistoryEntry| e@) =~= before.map_values(|e: HistoryEntry| e@).push(
                        e@,
                    ));
                },
                None => {},
            }
            proof {
                assert(ov.take(i + 1).drop_last() =~= ov.take(i as int));
                assert(ov.take(i + 1).last() == ov[i as int]);
            }
            i = i + 1;
        }
        proof {
            assert(ov.take(self.order.len() as int) =~= ov);
        }
        out
    }

    /// The entries, most recent first.
    pub fn recent(&self) -> (r: Vec<HistoryEntry>)
        ensures
            r@.map_values(|e: HistoryEntry| e@) == recent_entries(self@),
    {
        self.all_entries()
    }

    /// Forgets everything.
    pub fn clear(&mut self)
        ensures
            final(self)@.entries == Map::<Seq<char>, EntryView>::empty(),
            final(self)@.order.len() == 0,
    {
        self.entries.clear();
        self.order = Vec::new();
    }

    /// Forgets the file `path`.
    pub fn remove(&mut self, path: &str)
        ensures
            final(self)@.entries == old(self)@.entries.remove(path@),
            final(self)@.order == without(old(self)@.order, path@),
    {
        let _ = self.entries.take(path);
        self.order = remove_key(&self.order, path);
    }

    /// Forgets each of the files.
    pub fn remove_many(&mut self, paths: &Vec<String>)
        ensures
            final(self)@ == removed_all(old(self)@, paths@.map_values(|s: String| s@)),
    {
        let ghost ps = paths@.map_values(|s: String| s@);
        let mut i: usize = 0;
        while i < paths.len()
            invariant
                i <= paths.len(),
                ps == paths@.map_values(|s: String| s@),
                self@ == removed_all(old(self)@, ps.take(i as int)),
            decreases paths.len() - i,
        {
            self.remove(paths[i].as_str());
            proof {
                assert(ps.take(i + 1).drop_last() =~= ps.take(i as int));
                assert(ps.take(i + 1).last() == ps[i as int]);
            }
            i = i + 1;
        }
        proof {
            assert(ps.take(paths.len() as int) =~= ps);
        }
    }

    /// The entries and the order, as stored.
    pub fn parts(&self) -> (r: (&KeyedVec<HistoryEntry>, &Vec<String>))
        ensures
            r.0@ == self@.entries,
            r.1@.map_values(|s: String| s@) == self@.order,
    {
        (&self.entries, &self.order)
    }

    /// A history made of stored entries and order.
    pub fn from_parts(entries: KeyedVec<HistoryEntry>, order: Vec<String>) -> (h: History)
        ensures
            h@.entries == entries@,
            h@.order == order@.map_values(|s: String| s@),
    {
        History { entries, order }
    }
}

impl Default for History {
    fn default() -> (h: History)
        ensures
            h@.entries == Map::<Seq<char>, EntryView>::empty(),
            h@.order.len() == 0,
    {
        History::new()
    }
}

/// The entries of the keys in `order` that have one, in that order.
pub open spec fn entries_in_order(m: Map<Seq<char>, EntryView>, order: Seq<Seq<char>>) -> Seq<EntryView>
    decreases order.len(),
{
    if order.len() == 0 {
        Seq::empty()
    } else {
        let r = entries_in_order(m, order.drop_last());
        if m.contains_key(order.last()) {
            r.push(m[order.last()])
        } else {
            r
        }
    }
}

pub open spec fn recent_entries(h: HistoryView) -> Seq<EntryView> {
    entries_in_order(h.entries, h.order)
}

/// The history after forgetting each key in turn.
pub open spec fn removed_all(h: HistoryView, keys: Seq<Seq<char>>) -> HistoryView
    decreases keys.len(),
{
    if keys.len() == 0 {
        h
    } else {
        let r = removed_all(h, keys.drop_last());
        HistoryView { entries: r.entries.remove(keys.last()), order: without(r.order, keys.last()) }
    }
}

proof fn lemma_without(s: Seq<Seq<char>>, key: Seq<char>)
    ensures
        !without(s, key).contains(key),
        without(s, key).len() <= s.len(),
        forall|x: Seq<char>| #[trigger] without(s, key).contains(x) ==> s.contains(x),
        s.no_duplicates() ==> without(s, key).no_duplicates(),
    decreases s.len(),
{
    if s.len() > 0 {
        let d = s.drop_last();
        lemma_without(d, key);
        let r = without(d, key);
        assert forall|x: Seq<char>| #[trigger] without(s, key).contains(x) implies s.contains(x) by {
            if r.contains(x) {
                let i = choose|i: int| 0 <= i < r.len() && r[i] == x;
                assert(d.contains(x));
                let j = choose|j: int| 0 <= j < d.len() && d[j] == x;
                assert(s[j] == x);
            } else {
                assert(x == s.last());
                assert(s[s.len() - 1] == x);
            }
        }
        if s.last() != key {
            let w = r.push(s.last());
            assert(w[r.len() as int] == s.last());
            if s.no_duplicates() {
                assert(d.no_duplicates()) by {
                    assert forall|i: int, j: int| 0 <= i < d.len() && 0 <= j < d.len() && i != j implies d[i]
                        != d[j] by {
                        assert(s[i] == d[i] && s[j] == d[j]);
                    }
                }
                assert(!r.contains(s.last())) by {
                    if r.contains(s.last()) {
                        assert(d.contains(s.last()));
                        let j = choose|j: int| 0 <= j < d.len() && d[j] == s.last();
                        assert(s[j] == s[s.len() - 1]);
                    }
                }
                assert forall|i: int, j: int| 0 <= i < w.len() && 0 <= j < w.len() && i != j implies w[i] != w[j] by {
                    if i < r.len() && j < r.len() {
                    } else if i < r.len() {
                        assert(r.contains(r[i]));
                    } else {
                        assert(r.contains(r[j]));
                    }
                }
            }
            assert(!w.contains(key)) by {
                if w.contains(key) {
                    let i = choose|i: int| 0 <= i < w.len() && w[i] == key;
                    if i < r.len() {
                        assert(r.contains(key));
                    }
                }
            }
        }
    }
}

/// The order after using `key`: `key` comes first and nowhere else, no key is
/// there twice when none was before, and the limit is kept.
proof fn lemma_bumped_order(order: Seq<Seq<char>>, key: Seq<char>)
    ensures
        bumped(order, key).len() >= 1,
        bumped(order, key)[0] == key,
        forall|i: int| 0 < i < bumped(order, key).len() ==> #[trigger] bumped(order, key)[i] != key,
        bumped(order, key).len() <= order.len() + 1,
        order.no_duplicates() ==> bumped(order, key).no_duplicates(),
{
    lemma_without(order, key);
    let w = without(order, key);
    let b = bumped(order, key);
    assert forall|i: int| 0 < i < b.len() implies #[trigger] b[i] != key by {
        assert(b[i] == w[i - 1]);
        assert(w.contains(w[i - 1]));
    }
    if order.no_duplicates() {
        assert forall|i: int, j: int| 0 <= i < b.len() && 0 <= j < b.len() && i != j implies b[i] != b[j] by {
            if i > 0 && j > 0 {
                assert(b[i] == w[i - 1] && b[j] == w[j - 1]);
            } else if i == 0 {
                assert(b[j] == w[j - 1]);
                assert(w.contains(w[j - 1]));
            } else {
                assert(b[i] == w[i - 1]);
                assert(w.contains(w[i - 1]));
            }
        }
    }
}

/// Using a file keeps its entry as it was just written, puts it first in the
/// order, keeps the order free of repeats and within the limit.
pub proof fn using_a_file_keeps_it_first(entries: Map<Seq<char>, EntryView>, order: Seq<Seq<char>>, key: Seq<char>)
    requires
        entries.contains_key(key),
    ensures
        after_bump(entries, order, key).entries.contains_key(key),
        after_bump(entries, order, key).entries[key] == entries[key],
        after_bump(entries, order, key).order.len() >= 1,
        after_bump(entries, order, key).order[0] == key,
        order.len() <= MAX_HISTORY ==> after_bump(entries, order, key).order.len() <= MAX_HISTORY,
        order.no_duplicates() ==> after_bump(entries, order, key).order.no_duplicates(),
{
    lemma_bumped_order(order, key);
    let b = bumped(order, key);
    if b.len() > MAX_HISTORY {
        assert(b.last() == b[b.len() - 1]);
        assert(b.last() != key);
        if order.no_duplicates() {
            let d = b.drop_last();
            assert forall|i: int, j: int| 0 <= i < d.len() && 0 <= j < d.len() && i != j implies d[i] != d[j] by {
                assert(d[i] == b[i] && d[j] == b[j]);
            }
        }
    }
}

/// Saving progress gives back what was saved when the file is read: the new
/// position, duration, title and time, with the play count unchanged (0 for a
/// new file); the file comes first in the order.
pub proof fn saved_progress_reads_back(
    h: HistoryView,
    path: Seq<char>,
    title: Seq<char>,
    position: u64,
    duration: u64,
    now: i64,
)
    ensures
        ({
            let prev = entry_of(h.entries, path);
            let after = after_bump(
                h.entries.insert(path, updated_entry(prev, path, title, position, duration, now)),
                h.order,
                path,
            );
            &&& entry_of(after.entries, path) matches Some(e)
            &&& e.last_position == position
            &&& e.duration == duration
            &&& e.title == title
            &&& e.last_watched == now
            &&& e.play_count == (match prev {
                Some(p) => p.play_count,
                None => 0,
            })
            &&& after.order[0] == path
        }),
{
    let prev = entry_of(h.entries, path);
    using_a_file_keeps_it_first(
        h.entries.insert(path, updated_entry(prev, path, title, position, duration, now)),
        h.order,
        path,
    );
}

/// Starting a play counts it once (up to the counter's limit) and keeps the
/// saved position; the file comes first in the order.
pub proof fn play_start_counts_once(h: HistoryView, path: Seq<char>, title: Seq<char>, duration: u64, now: i64)
    ensures
        ({
            let prev = entry_of(h.entries, path);
            let after = after_bump(
                h.entries.insert(path, started_entry(prev, path, title, duration, now)),
                h.order,
                path,
            );
            &&& entry_of(after.entries, path) matches Some(e)
            &&& e.play_count == (match prev {
                Some(p) => if p.play_count == u32::MAX {
                    u32::MAX
                } else {
                    (p.play_count + 1) as u32
                },
                None => 1,
            })
            &&& e.last_position == (match prev {
                Some(p) => p.last_position,
                None => 0,
            })
            &&& after.order[0] == path
        }),
{
    let prev = entry_of(h.entries, path);
    using_a_file_keeps_it_first(
        h.entries.insert(path, started_entry(prev, path, title, duration, now)),
        h.order,
        path,
    );
}

/// A file that was removed has no entry and no place in the order.
pub proof fn removed_file_is_forgotten(h: HistoryView, path: Seq<char>)
    ensures
        entry_of(h.entries.remove(path), path) is None,
        !without(h.order, path).contains(path),
{
    lemma_without(h.order, path);
}

/// After removing several files, none of them has an entry or a place in the order.
pub proof fn removed_files_are_forgotten(h: HistoryView, keys: Seq<Seq<char>>)
    ensures
        forall|i: int|
            0 <= i < keys.len() ==> !removed_all(h, keys).entries.contains_key(#[trigger] keys[i])
                && !removed_all(h, keys).order.contains(keys[i]),
    decreases keys.len(),
{
    if keys.len() > 0 {
        let d = keys.drop_last();
        removed_files_are_forgotten(h, d);
        let r = removed_all(h, d);
        lemma_without(r.order, keys.last());
        assert forall|i: int| 0 <= i < keys.len() implies !removed_all(h, keys).entries.contains_key(
            #[trigger] keys[i],
        ) && !removed_all(h, keys).order.contains(keys[i]) by {
            if i < d.len() {
                assert(d[i] == keys[i]);
                if without(r.order, keys.last()).contains(keys[i]) {
                    assert(r.order.contains(keys[i]));
                }
            }
        }
    }
}

} // verus!
