//! Playlist with M3U/PLS support.
use vstd::prelude::*;
use std::collections::HashMap;
use vstd::std_specs::hash::{group_hash_axioms, spec_keys_iter};
use vstd::std_specs::iter::IteratorSpec;
use crate::paths::{
    path_eq, path_file_name, path_is_absolute, path_extension, extension, path_join, path_parent, same_path, file_name, is_absolute,
    join, parent,
};
use crate::num::{parse_u32, parse_u32_spec};
use crate::text::{
    chars_of, chars_start_with_str, lines, lines_of, split_once, split_once_chars, starts_with,
    str_eq_chars, string_from_chars, trim, trim_chars, slice_chars, push_all, lowercase, to_lowercase,
    lemma_split_once_at,
};

verus! {

broadcast use group_hash_axioms;

/// One entry of a playlist: where it is played from and how it is shown.
#[derive(Debug, Clone)]
pub struct Track {
    pub path: String,
    pub title: String,
}

/// The value of a track: its path and title as text.
pub struct TrackView {
    pub path: Seq<char>,
    pub title: Seq<char>,
}

impl View for Track {
    type V = TrackView;

    open spec fn view(&self) -> TrackView {
        TrackView { path: self.path@, title: self.title@ }
    }
}

/// The title that a local file gets: its file name, or the whole path when it has none.
pub open spec fn title_for_path(path: Seq<char>) -> Seq<char> {
    match path_file_name(path) {
        Some(n) => n,
        None => path,
    }
}

/// The title that a stream gets: the given title, or else its URL.
pub open spec fn title_for_url(url: Seq<char>, title: Option<Seq<char>>) -> Seq<char> {
    match title {
        Some(t) => t,
        None => url,
    }
}

pub open spec fn opt_view(o: Option<String>) -> Option<Seq<char>> {
    match o {
        Some(s) => Some(s@),
        None => None,
    }
}

impl Track {
    /// A track for a local file, titled by its file name.
    pub fn from_path(path: String) -> (t: Track)
        ensures
            t@.path == path@,
            t@.title == title_for_path(path@),
    {
        let title = match file_name(path.as_str()) {
            Some(n) => n,
            None => path.clone(),
        };
        Track { path, title }
    }

    /// A track for a stream, titled by the given title or else by its URL.
    pub fn from_url(url: String, title: Option<String>) -> (t: Track)
        ensures
            t@.path == url@,
            t@.title == title_for_url(url@, opt_view(title)),
    {
        let title = match title {
            Some(t) => t,
            None => url.clone(),
        };
        Track { path: url, title }
    }
}

/// The ordered tracks and the index of the one being played.
pub struct Playlist {
    pub tracks: Vec<Track>,
    pub current: Option<usize>,
}

pub struct PlaylistView {
    pub tracks: Seq<TrackView>,
    pub current: Option<usize>,
}

pub open spec fn tracks_view(v: Seq<Track>) -> Seq<TrackView> {
    v.map_values(|t: Track| t@)
}

impl View for Playlist {
    type V = PlaylistView;

    open spec fn view(&self) -> PlaylistView {
        PlaylistView { tracks: tracks_view(self.tracks@), current: self.current }
    }
}

impl Default for Playlist {
    fn default() -> (p: Self)
        ensures
            p@.tracks.len() == 0,
            p@.current is None,
    {
        Playlist { tracks: Vec::new(), current: None }
    }
}

/// Whether some track has a path equal (as `PathBuf`s are) to `p`.
pub open spec fn has_path(tracks: Seq<TrackView>, p: Seq<char>) -> bool {
    exists|i: int| 0 <= i < tracks.len() && (#[trigger] tracks[i].path == p || path_eq(tracks[i].path, p))
}

/// The tracks after adding a local file: unchanged when its path is already there.
pub open spec fn spec_add(tracks: Seq<TrackView>, p: Seq<char>) -> Seq<TrackView> {
    if has_path(tracks, p) {
        tracks
    } else {
        tracks.push(TrackView { path: p, title: title_for_path(p) })
    }
}

/// The tracks after adding a stream: unchanged when its URL is already there.
pub open spec fn spec_add_url(tracks: Seq<TrackView>, url: Seq<char>, title: Option<Seq<char>>) -> Seq<
    TrackView,
> {
    if has_path(tracks, url) {
        tracks
    } else {
        tracks.push(TrackView { path: url, title: title_for_url(url, title) })
    }
}

/// The tracks after adding each path in turn.
pub open spec fn spec_add_many(tracks: Seq<TrackView>, ps: Seq<Seq<char>>) -> Seq<TrackView>
    decreases ps.len(),
{
    if ps.len() == 0 {
        tracks
    } else {
        spec_add(spec_add_many(tracks, ps.drop_last()), ps.last())
    }
}

/// No two tracks have equal paths.
pub open spec fn no_duplicate_paths(tracks: Seq<TrackView>) -> bool {
    forall|i: int, j: int|
        0 <= i < tracks.len() && 0 <= j < tracks.len() && i != j ==> #[trigger] tracks[i].path
            != #[trigger] tracks[j].path && !path_eq(tracks[i].path, tracks[j].path)
}

/// The selection after removing the track at `idx`: cleared when it was that
/// track, moved down by one when it was after it.
pub open spec fn current_after_remove(current: Option<usize>, idx: usize) -> Option<usize> {
    match current {
        None => None,
        Some(c) => if c == idx {
            None
        } else if c > idx {
            Some((c - 1) as usize)
        } else {
            Some(c)
        },
    }
}

/// The tracks with the entries at `i` and `j` exchanged.
pub open spec fn swapped(tracks: Seq<TrackView>, i: int, j: int) -> Seq<TrackView> {
    tracks.update(i, tracks[j]).update(j, tracks[i])
}

/// The selection after the entries at `i` and `j` trade places: it follows its track.
pub open spec fn current_after_swap(current: Option<usize>, i: usize, j: usize) -> Option<usize> {
    if current == Some(j) {
        Some(i)
    } else if current == Some(i) {
        Some(j)
    } else {
        current
    }
}

proof fn lemma_push_keeps_unique(tracks: Seq<TrackView>, t: TrackView)
    requires
        forall|i: int|
            0 <= i < tracks.len() ==> #[trigger] tracks[i].path != t.path && !path_eq(tracks[i].path, t.path)
                && !path_eq(t.path, tracks[i].path),
    ensures
        no_duplicate_paths(tracks) ==> no_duplicate_paths(tracks.push(t)),
{
    let s = tracks.push(t);
    if no_duplicate_paths(tracks) {
        assert forall|i: int, j: int|
            0 <= i < s.len() && 0 <= j < s.len() && i != j implies #[trigger] s[i].path != #[trigger] s[j].path
            && !path_eq(s[i].path, s[j].path) by {
            if i < tracks.len() && j < tracks.len() {
                assert(s[i] == tracks[i] && s[j] == tracks[j]);
            } else if i < tracks.len() {
                assert(s[i] == tracks[i]);
            } else {
                assert(s[j] == tracks[j]);
            }
        }
    }
}

impl Playlist {
    /// Whether some track's path equals `path`.
    fn contains_path(&self, path: &str) -> (r: bool)
        ensures
            r == has_path(self@.tracks, path@),
            !r ==> forall|i: int|
                0 <= i < self@.tracks.len() ==> self@.tracks[i].path != path@ && !path_eq(
                    #[trigger] self@.tracks[i].path,
                    path@,
                ) && !path_eq(path@, self@.tracks[i].path),
    {
        let mut i: usize = 0;
        while i < self.tracks.len()
            invariant
                i <= self.tracks.len(),
                forall|j: int|
                    0 <= j < i ==> !path_eq(#[trigger] self@.tracks[j].path, path@)
                        && !path_eq(path@, self@.tracks[j].path) && self@.tracks[j].path != path@,
            decreases self.tracks.len() - i,
        {
            if same_path(self.tracks[i].path.as_str(), path) {
                assert(path_eq(self@.tracks[i as int].path, path@));
                return true;
            }
            i = i + 1;
        }
        false
    }

    /// Appends a local file unless a track with an equal path is already there.
    pub fn add(&mut self, path: String)
        ensures
            final(self)@.tracks == spec_add(old(self)@.tracks, path@),
            final(self)@.current == old(self)@.current,
            no_duplicate_paths(old(self)@.tracks) ==> no_duplicate_paths(final(self)@.tracks),
            old(self)@.tracks.is_prefix_of(final(self)@.tracks),
    {
        let ghost p = path@;
        if !self.contains_path(path.as_str()) {
            let ghost before = self@.tracks;
            let t = Track::from_path(path);
            self.tracks.push(t);
            proof {
                assert(self@.tracks =~= before.push(TrackView { path: p, title: title_for_path(p) }));
                lemma_push_keeps_unique(before, TrackView { path: p, title: title_for_path(p) });
            }
        }
    }

    /// Appends a stream unless a track with an equal path is already there.
    pub fn add_url(&mut self, url: String, title: Option<String>)
        ensures
            final(self)@.tracks == spec_add_url(old(self)@.tracks, url@, opt_view(title)),
            final(self)@.current == old(self)@.current,
            no_duplicate_paths(old(self)@.tracks) ==> no_duplicate_paths(final(self)@.tracks),
            old(self)@.tracks.is_prefix_of(final(self)@.tracks),
    {
        let ghost u = url@;
        let ghost tv = opt_view(title);
        let track = Track::from_url(url, title);
        if !self.contains_path(track.path.as_str()) {
            let ghost before = self@.tracks;
            self.tracks.push(track);
            proof {
                assert(self@.tracks =~= before.push(TrackView { path: u, title: title_for_url(u, tv) }));
                lemma_push_keeps_unique(before, TrackView { path: u, title: title_for_url(u, tv) });
            }
        }
    }

    /// Adds each path in turn, as `add` does.
    pub fn add_many(&mut self, paths: Vec<String>)
        ensures
            final(self)@.tracks == spec_add_many(old(self)@.tracks, paths@.map_values(|s: String| s@)),
            final(self)@.current == old(self)@.current,
            no_duplicate_paths(old(self)@.tracks) ==> no_duplicate_paths(final(self)@.tracks),
            old(self)@.tracks.is_prefix_of(final(self)@.tracks),
    {
        let ghost ps = paths@.map_values(|s: String| s@);
        let mut i: usize = 0;
        while i < paths.len()
            invariant
                i <= paths.len(),
                ps == paths@.map_values(|s: String| s@),
                self@.tracks == spec_add_many(old(self)@.tracks, ps.take(i as int)),
                self@.current == old(self)@.current,
                no_duplicate_paths(old(self)@.tracks) ==> no_duplicate_paths(self@.tracks),
                old(self)@.tracks.is_prefix_of(self@.tracks),
            decreases paths.len() - i,
        {
            let p = paths[i].clone();
            self.add(p);
            proof {
                assert(ps.take(i + 1).drop_last() =~= ps.take(i as int));
                assert(ps.take(i + 1).last() == ps[i as int]);
            }
            i = i + 1;
        }
        proof {
            assert(ps.take(paths.len() as int) =~= ps);
        }
    }

    /// Selects the first track whose path equals `path`, or clears the selection when none does.
    pub fn set_current_by_path(&mut self, path: &str)
        ensures
            final(self)@.tracks == old(self)@.tracks,
            match final(self)@.current {
                Some(i) => i < old(self)@.tracks.len() && path_eq(old(self)@.tracks[i as int].path, path@)
                    && forall|j: int| 0 <= j < i ==> !path_eq(#[trigger] old(self)@.tracks[j].path, path@),
                None => forall|j: int|
                    0 <= j < old(self)@.tracks.len() ==> !path_eq(#[trigger] old(self)@.tracks[j].path, path@)
                        && old(self)@.tracks[j].path != path@,
            },
    {
        let mut i: usize = 0;
        while i < self.tracks.len()
            invariant
                i <= self.tracks.len(),
                self@ == old(self)@,
                forall|j: int|
                    0 <= j < i ==> !path_eq(#[trigger] self@.tracks[j].path, path@)
                        && self@.tracks[j].path != path@,
            decreases self.tracks.len() - i,
        {
            if same_path(self.tracks[i].path.as_str(), path) {
                self.current = Some(i);
                return;
            }
            i = i + 1;
        }
        self.current = None;
    }

    /// The track after the selected one, if there is one.
    pub fn next(&self) -> (r: Option<&Track>)
        ensures
            match self.current {
                Some(c) => if c + 1 < self@.tracks.len() {
                    r is Some && r->0@ == self@.tracks[c + 1]
                } else {
                    r is None
                },
                None => r is None,
            },
    {
        match self.current {
            Some(c) => {
                if c < self.tracks.len() && c + 1 < self.tracks.len() {
                    Some(&self.tracks[c + 1])
                } else {
                    None
                }
            },
            None => None,
        }
    }

    /// The track before the selected one, if there is one.
    pub fn prev(&self) -> (r: Option<&Track>)
        ensures
            match self.current {
                Some(c) => if 0 < c && c - 1 < self@.tracks.len() {
                    r is Some && r->0@ == self@.tracks[c - 1]
                } else {
                    r is None
                },
                None => r is None,
            },
    {
        match self.current {
            Some(c) => {
                if c > 0 && c - 1 < self.tracks.len() {
                    Some(&self.tracks[c - 1])
                } else {
                    None
                }
            },
            None => None,
        }
    }

    /// Removes the track at `idx` (nothing happens when there is none); the
    /// selection keeps pointing at the same track, or is cleared when that track
    /// was the one removed.
    pub fn remove(&mut self, idx: usize)
        ensures
            idx < old(self)@.tracks.len() ==> final(self)@.tracks == old(self)@.tracks.remove(idx as int)
                && final(self)@.current == current_after_remove(old(self)@.current, idx),
            idx >= old(self)@.tracks.len() ==> final(self)@ == old(self)@,
    {
        if idx < self.tracks.len() {
            let ghost before = self@.tracks;
            self.tracks.remove(idx);
            proof {
                assert(self@.tracks =~= before.remove(idx as int));
            }
            self.current = match self.current {
                Some(c) => {
                    if c == idx {
                        None
                    } else if c > idx {
                        Some(c - 1)
                    } else {
                        Some(c)
                    }
                },
                None => None,
            };
        }
    }

    /// Removes every track and the selection.
    pub fn clear(&mut self)
        ensures
            final(self)@.tracks.len() == 0,
            final(self)@.current is None,
    {
        self.tracks.clear();
        self.current = None;
    }

    /// Exchanges the entries at `i` and `i + 1`.
    fn swap_with_next(&mut self, i: usize)
        requires
            i + 1 < old(self).tracks.len(),
        ensures
            final(self)@.tracks == swapped(old(self)@.tracks, i as int, i + 1),
            final(self)@.current == old(self)@.current,
    {
        let ghost before = self@.tracks;
        let t = self.tracks.remove(i + 1);
        self.tracks.insert(i, t);
        proof {
            assert(self@.tracks =~= swapped(before, i as int, i + 1));
        }
    }

    /// Moves the track at `idx` one place up; the selection follows the track it pointed at.
    pub fn move_up(&mut self, idx: usize)
        ensures
            0 < idx < old(self)@.tracks.len() ==> final(self)@.tracks == swapped(
                old(self)@.tracks,
                idx - 1,
                idx as int,
            ) && final(self)@.current == current_after_swap(
                old(self)@.current,
                (idx - 1) as usize,
                idx,
            ),
            !(0 < idx < old(self)@.tracks.len()) ==> final(self)@ == old(self)@,
    {
        if idx > 0 && idx < self.tracks.len() {
            self.swap_with_next(idx - 1);
            if self.current == Some(idx) {
                self.current = Some(idx - 1);
            } else if self.current == Some(idx - 1) {
                self.current = Some(idx);
            }
        }
    }

    /// Moves the track at `idx` one place down; the selection follows the track it pointed at.
    pub fn move_down(&mut self, idx: usize)
        ensures
            idx + 1 < old(self)@.tracks.len() ==> final(self)@.tracks == swapped(
                old(self)@.tracks,
                idx as int,
                idx + 1,
            ) && final(self)@.current == current_after_swap(
                old(self)@.current,
                idx,
                (idx + 1) as usize,
            ),
            !(idx + 1 < old(self)@.tracks.len()) ==> final(self)@ == old(self)@,
    {
        if idx < self.tracks.len() && idx + 1 < self.tracks.len() {
            self.swap_with_next(idx);
            if self.current == Some(idx) {
                self.current = Some(idx + 1);
            } else if self.current == Some(idx + 1) {
                self.current = Some(idx);
            }
        }
    }
}


// ───────────────────────────── laws ─────────────────────────────

/// After a file is added, the playlist holds a track with its path, whether it
/// was there before or not.
pub proof fn added_path_is_present(tracks: Seq<TrackView>, p: Seq<char>)
    ensures
        has_path(spec_add(tracks, p), p),
{
    if !has_path(tracks, p) {
        let s = spec_add(tracks, p);
        assert(s[tracks.len() as int].path == p);
    }
}

/// After a stream is added, the playlist holds a track with its URL.
pub proof fn added_url_is_present(tracks: Seq<TrackView>, url: Seq<char>, title: Option<Seq<char>>)
    ensures
        has_path(spec_add_url(tracks, url, title), url),
{
    if !has_path(tracks, url) {
        let s = spec_add_url(tracks, url, title);
        assert(s[tracks.len() as int].path == url);
    }
}

/// Adding the same file a second time changes nothing.
pub proof fn adding_twice_is_adding_once(tracks: Seq<TrackView>, p: Seq<char>)
    ensures
        spec_add(spec_add(tracks, p), p) == spec_add(tracks, p),
{
    added_path_is_present(tracks, p);
}

/// Adding the same stream a second time changes nothing, whatever its title.
pub proof fn adding_url_twice_is_adding_once(
    tracks: Seq<TrackView>,
    url: Seq<char>,
    t1: Option<Seq<char>>,
    t2: Option<Seq<char>>,
)
    ensures
        spec_add_url(spec_add_url(tracks, url, t1), url, t2) == spec_add_url(tracks, url, t1),
{
    added_url_is_present(tracks, url, t1);
}

/// Moving a track down undoes moving it up: the tracks and the selection are
/// as they were.
pub proof fn move_down_undoes_move_up(tracks: Seq<TrackView>, current: Option<usize>, idx: usize)
    requires
        0 < idx < tracks.len(),
    ensures
        swapped(swapped(tracks, idx - 1, idx as int), idx - 1, idx as int) == tracks,
        current_after_swap(current_after_swap(current, (idx - 1) as usize, idx), (idx - 1) as usize, idx)
            == current,
{
    assert(swapped(swapped(tracks, idx - 1, idx as int), idx - 1, idx as int) =~= tracks);
}

/// When two tracks trade places, the selection still points at the track it
/// pointed at before.
pub proof fn selection_follows_moved_track(tracks: Seq<TrackView>, c: usize, i: usize, j: usize)
    requires
        i < tracks.len(),
        j < tracks.len(),
        c < tracks.len(),
    ensures
        current_after_swap(Some(c), i, j) matches Some(k) && k < tracks.len() && swapped(
            tracks,
            i as int,
            j as int,
        )[k as int] == tracks[c as int],
{
}

/// When a track is removed, the selection still points at the track it pointed
/// at before, or is cleared when that was the removed one.
pub proof fn selection_follows_after_remove(tracks: Seq<TrackView>, c: usize, idx: usize)
    requires
        idx < tracks.len(),
        c < tracks.len(),
    ensures
        match current_after_remove(Some(c), idx) {
            Some(k) => c != idx && k < tracks.len() - 1 && tracks.remove(idx as int)[k as int] == tracks[c as int],
            None => c == idx,
        },
{
}


// ───────────────────────────── M3U import ─────────────────────────────

/// The directory that relative entries of a playlist file are resolved against.
pub open spec fn playlist_dir(path: Seq<char>) -> Seq<char> {
    match path_parent(path) {
        Some(d) => d,
        None => "."@,
    }
}

/// The title part of an `#EXTINF:` line (the text after its first comma), if any.
pub open spec fn extinf_title(rest: Seq<char>) -> Option<Seq<char>> {
    match split_once(rest, ',') {
        Some((_, t)) => Some(t),
        None => None,
    }
}

/// The parser's state between M3U lines: the tracks so far and the pending title.
pub struct M3uState {
    pub tracks: Seq<TrackView>,
    pub hint: Option<Seq<char>>,
}

/// One M3U line: blank lines and `#EXTM3U` are skipped, `#EXTINF:` sets the
/// pending title, other `#` lines are comments, an http(s) URL is added as a
/// stream with the pending title, anything else is added as a file (resolved
/// against `dir` when relative); an entry consumes the pending title.
pub open spec fn m3u_step(dir: Seq<char>, st: M3uState, raw: Seq<char>) -> M3uState {
    let line = trim(raw);
    if line.len() == 0 || line == "#EXTM3U"@ {
        st
    } else if starts_with(line, "#EXTINF:"@) {
        M3uState { tracks: st.tracks, hint: extinf_title(line.skip(8)) }
    } else if starts_with(line, "#"@) {
        st
    } else if starts_with(line, "http://"@) || starts_with(line, "https://"@) {
        M3uState { tracks: spec_add_url(st.tracks, line, st.hint), hint: None }
    } else {
        let p = if path_is_absolute(line) {
            line
        } else {
            path_join(dir, line)
        };
        M3uState { tracks: spec_add(st.tracks, p), hint: None }
    }
}

/// The state after reading the given lines in order.
pub open spec fn m3u_fold(dir: Seq<char>, st: M3uState, ls: Seq<Seq<char>>) -> M3uState
    decreases ls.len(),
{
    if ls.len() == 0 {
        st
    } else {
        m3u_step(dir, m3u_fold(dir, st, ls.drop_last()), ls.last())
    }
}

/// The tracks after importing M3U `content` read from the file at `path`.
pub open spec fn spec_import_m3u(tracks: Seq<TrackView>, path: Seq<char>, content: Seq<char>) -> Seq<
    TrackView,
> {
    m3u_fold(playlist_dir(path), M3uState { tracks, hint: None }, lines(content)).tracks
}

impl Playlist {
    /// Handles one line of an M3U file, updating the pending title.
    fn m3u_line(&mut self, dir: &str, hint: &mut Option<String>, raw: &Vec<char>)
        ensures
            final(self)@.current == old(self)@.current,
            ({
                let st = m3u_step(dir@, M3uState { tracks: old(self)@.tracks, hint: opt_view(*old(hint)) }, raw@);
                final(self)@.tracks == st.tracks && opt_view(*final(hint)) == st.hint
            }),
            no_duplicate_paths(old(self)@.tracks) ==> no_duplicate_paths(final(self)@.tracks),
            old(self)@.tracks.is_prefix_of(final(self)@.tracks),
    {
        let line = trim_chars(raw);
        if line.len() == 0 || str_eq_chars("#EXTM3U", &line) {
            return;
        }
        if chars_start_with_str(&line, "#EXTINF:") {
            proof {
                reveal_strlit("#EXTINF:");
            }
            let rest = slice_chars(&line, 8, line.len());
            proof {
                assert(rest@ == line@.skip(8));
            }
            *hint = match split_once_chars(&rest, ',') {
                Some((_, t)) => Some(string_from_chars(t.as_slice())),
                None => None,
            };
        } else if chars_start_with_str(&line, "#") {
        } else if chars_start_with_str(&line, "http://") || chars_start_with_str(&line, "https://") {
            let url = string_from_chars(line.as_slice());
            let title = hint.take();
            self.add_url(url, title);
        } else {
            let text = string_from_chars(line.as_slice());
            let p = if is_absolute(text.as_str()) {
                text
            } else {
                join(dir, text.as_str())
            };
            self.add(p);
            *hint = None;
        }
    }

    /// Imports the entries of an M3U/M3U8 file whose text is `content` and
    /// whose location is `path` (relative entries are resolved against its directory).
    pub fn import_m3u(&mut self, path: &str, content: &str)
        ensures
            final(self)@.tracks == spec_import_m3u(old(self)@.tracks, path@, content@),
            final(self)@.current == old(self)@.current,
            no_duplicate_paths(old(self)@.tracks) ==> no_duplicate_paths(final(self)@.tracks),
            old(self)@.tracks.is_prefix_of(final(self)@.tracks),
    {
        let dir = match parent(path) {
            Some(d) => d,
            None => String::from_str("."),
        };
        proof {
            reveal_strlit(".");
        }
        let cs = chars_of(content);
        let ls = lines_of(&cs);
        let ghost lsv = lines(content@);
        let mut hint: Option<String> = None;
        let mut i: usize = 0;
        while i < ls.len()
            invariant
                i <= ls.len(),
                ls@.len() == lsv.len(),
                lsv == lines(content@),
                forall|k: int| 0 <= k < ls@.len() ==> #[trigger] ls@[k]@ == lsv[k],
                dir@ == playlist_dir(path@),
                ({
                    let st = m3u_fold(dir@, M3uState { tracks: old(self)@.tracks, hint: None }, lsv.take(i as int));
                    self@.tracks == st.tracks && opt_view(hint) == st.hint
                }),
                self@.current == old(self)@.current,
                no_duplicate_paths(old(self)@.tracks) ==> no_duplicate_paths(self@.tracks),
                old(self)@.tracks.is_prefix_of(self@.tracks),
            decreases ls.len() - i,
        {
            self.m3u_line(dir.as_str(), &mut hint, &ls[i]);
            proof {
                assert(lsv.take(i + 1).drop_last() =~= lsv.take(i as int));
                assert(lsv.take(i + 1).last() == lsv[i as int]);
            }
            i = i + 1;
        }
        proof {
            assert(lsv.take(ls.len() as int) =~= lsv);
        }
    }
}


// ───────────────────────────── PLS import ─────────────────────────────

/// The numbered `File<n>=` and `Title<n>=` entries of a PLS file.
pub struct PlsTables {
    pub files: Map<u32, Seq<char>>,
    pub titles: Map<u32, Seq<char>>,
}

/// `key<n>=<value>` on a trimmed line: the number and the trimmed value.
pub open spec fn pls_entry(line: Seq<char>, key: Seq<char>) -> Option<(u32, Seq<char>)> {
    match split_once(line.skip(key.len() as int), '=') {
        Some((num, val)) => match parse_u32_spec(trim(num)) {
            Some(n) => Some((n, trim(val))),
            None => None,
        },
        None => None,
    }
}

/// One PLS line: a `File<n>=` or `Title<n>=` entry sets number `n` (a later
/// entry replaces an earlier one); other lines are ignored.
pub open spec fn pls_step(t: PlsTables, raw: Seq<char>) -> PlsTables {
    let line = trim(raw);
    if starts_with(line, "File"@) {
        match pls_entry(line, "File"@) {
            Some((n, v)) => PlsTables { files: t.files.insert(n, v), titles: t.titles },
            None => t,
        }
    } else if starts_with(line, "Title"@) {
        match pls_entry(line, "Title"@) {
            Some((n, v)) => PlsTables { files: t.files, titles: t.titles.insert(n, v) },
            None => t,
        }
    } else {
        t
    }
}

pub open spec fn pls_scan(ls: Seq<Seq<char>>) -> PlsTables
    decreases ls.len(),
{
    if ls.len() == 0 {
        PlsTables { files: Map::empty(), titles: Map::empty() }
    } else {
        pls_step(pls_scan(ls.drop_last()), ls.last())
    }
}

/// Adds the entry numbered `n`: a stream (titled by `Title<n>` when present) when
/// its text starts with `http`, else a file.
pub open spec fn pls_add_entry(tracks: Seq<TrackView>, t: PlsTables, n: u32) -> Seq<TrackView> {
    let f = t.files[n];
    let title = if t.titles.contains_key(n) {
        Some(t.titles[n])
    } else {
        None
    };
    if starts_with(f, "http"@) {
        spec_add_url(tracks, f, title)
    } else {
        spec_add(tracks, f)
    }
}

pub open spec fn pls_apply(tracks: Seq<TrackView>, t: PlsTables, ks: Seq<u32>) -> Seq<TrackView>
    decreases ks.len(),
{
    if ks.len() == 0 {
        tracks
    } else {
        pls_add_entry(pls_apply(tracks, t, ks.drop_last()), t, ks.last())
    }
}

/// `ks` lists the numbers of `dom` in increasing order (there is exactly one such sequence).
pub open spec fn sorted_keys(ks: Seq<u32>, dom: Set<u32>) -> bool {
    &&& forall|i: int, j: int| 0 <= i < j < ks.len() ==> ks[i] < ks[j]
    &&& forall|i: int| 0 <= i < ks.len() ==> dom.contains(#[trigger] ks[i])
    &&& forall|k: u32| dom.contains(k) ==> ks.contains(k)
}

/// The tracks after importing PLS `content`: its file entries in increasing number.
pub open spec fn spec_import_pls(tracks: Seq<TrackView>, content: Seq<char>, result: Seq<TrackView>) -> bool {
    let t = pls_scan(lines(content));
    exists|ks: Seq<u32>| sorted_keys(ks, t.files.dom()) && result == #[trigger] pls_apply(tracks, t, ks)
}

/// The texts of a table of PLS entries.
pub open spec fn table_texts(m: Map<u32, Vec<char>>) -> Map<u32, Seq<char>> {
    m.map_values(|v: Vec<char>| v@)
}

/// Strictly increasing numbers.
pub open spec fn increasing_u32(s: Seq<u32>) -> bool {
    forall|i: int, j: int| 0 <= i < j < s.len() ==> s[i] < s[j]
}

/// Puts `k` into an increasing list that does not hold it yet.
fn insert_key(out: &mut Vec<u32>, k: u32)
    requires
        increasing_u32(old(out)@),
        !old(out)@.contains(k),
    ensures
        increasing_u32(final(out)@),
        final(out)@.to_set() == old(out)@.to_set().insert(k),
{
    let mut i: usize = 0;
    while i < out.len() && out[i] < k
        invariant
            i <= out.len(),
            forall|j: int| 0 <= j < i ==> out@[j] < k,
        decreases out.len() - i,
    {
        i = i + 1;
    }
    let ghost s = out@;
    if i < out.len() {
        assert(s[i as int] != k);
    }
    out.insert(i, k);
    proof {
        let a = out@;
        assert(a == s.insert(i as int, k));
        assert forall|x: int, y: int| 0 <= x < y < a.len() implies a[x] < a[y] by {
            if y < i {
                assert(a[x] == s[x] && a[y] == s[y]);
            } else if y == i {
                assert(a[x] == s[x]);
            } else if x < i {
                assert(a[x] == s[x] && a[y] == s[y - 1]);
                assert(s[i as int] > k);
            } else if x == i {
                assert(a[y] == s[y - 1]);
                assert(s[i as int] > k);
            } else {
                assert(a[x] == s[x - 1] && a[y] == s[y - 1]);
            }
        }
        assert forall|v: u32| a.to_set().contains(v) <==> s.to_set().insert(k).contains(v) by {
            if a.contains(v) {
                let j = choose|j: int| 0 <= j < a.len() && a[j] == v;
                if j < i {
                    assert(s[j] == v);
                } else if j > i {
                    assert(s[j - 1] == v);
                }
            }
            if s.contains(v) {
                let j = choose|j: int| 0 <= j < s.len() && s[j] == v;
                if j < i {
                    assert(a[j] == v);
                } else {
                    assert(a[j + 1] == v);
                }
            }
            if v == k {
                assert(a[i as int] == k);
            }
        }
        assert(a.to_set() =~= s.to_set().insert(k));
    }
}

/// The numbers of a table in increasing order (the map's own order is that of
/// its hasher, so they are sorted as they are taken out).
fn sorted_numbers(m: &HashMap<u32, Vec<char>>) -> (r: Vec<u32>)
    ensures
        increasing_u32(r@),
        r@.to_set() == m@.dom(),
{
    let mut out: Vec<u32> = Vec::new();
    let ghost u = spec_keys_iter(m).remaining().unref();
    proof {
        assert(out@.to_set() =~= u.take(0).to_set());
    }
    for k in it: m.keys()
        invariant
            it.seq() == spec_keys_iter(m).remaining(),
            u == it.seq().unref(),
            u.no_duplicates(),
            u.to_set() == m@.dom(),
            increasing_u32(out@),
            out@.to_set() == u.take(it.index()).to_set(),
    {
        let kk: u32 = *k;
        proof {
            let idx = it.index();
            assert(kk == u[idx]);
            if out@.contains(kk) {
                assert(out@.to_set().contains(kk));
                assert(u.take(idx).to_set().contains(kk));
                assert(u.take(idx).contains(kk));
                let j = choose|j: int| 0 <= j < idx && u.take(idx)[j] == kk;
                assert(u[j] == u[idx]);
            }
            let a = u.take(idx);
            let b = u.take(idx + 1);
            assert(b =~= a.push(kk));
            assert forall|v: u32| b.to_set().contains(v) <==> a.to_set().insert(kk).contains(v) by {
                if b.contains(v) {
                    let j = choose|j: int| 0 <= j < b.len() && b[j] == v;
                    if j < a.len() {
                        assert(a[j] == v);
                    }
                }
                if a.contains(v) {
                    let j = choose|j: int| 0 <= j < a.len() && a[j] == v;
                    assert(b[j] == v);
                }
                if v == kk {
                    assert(b[idx] == kk);
                }
            }
            assert(b.to_set() =~= a.to_set().insert(kk));
        }
        insert_key(&mut out, kk);
    }
    proof {
        assert(u.take(u.len() as int) =~= u);
    }
    out
}

/// Reads `key<n>=<value>` from a trimmed line that starts with `key`.
fn read_pls_entry(line: &Vec<char>, key: &str) -> (r: Option<(u32, Vec<char>)>)
    requires
        starts_with(line@, key@),
    ensures
        match r {
            Some((n, v)) => pls_entry(line@, key@) == Some((n, v@)),
            None => pls_entry(line@, key@) is None,
        },
{
    let klen = chars_of(key).len();
    let rest = slice_chars(line, klen, line.len());
    assert(rest@ == line@.skip(key@.len() as int));
    match split_once_chars(&rest, '=') {
        Some((num, val)) => {
            let num_t = trim_chars(&num);
            match parse_u32(&num_t) {
                Some(n) => Some((n, trim_chars(&val))),
                None => None,
            }
        },
        None => None,
    }
}

/// Records one PLS line in the tables.
fn pls_line(files: &mut HashMap<u32, Vec<char>>, titles: &mut HashMap<u32, Vec<char>>, raw: &Vec<char>)
    ensures
        pls_step(PlsTables { files: table_texts(old(files)@), titles: table_texts(old(titles)@) }, raw@)
            == (PlsTables { files: table_texts(final(files)@), titles: table_texts(final(titles)@) }),
{
    let line = trim_chars(raw);
    if chars_start_with_str(&line, "File") {
        match read_pls_entry(&line, "File") {
            Some((n, v)) => {
                let ghost vv = v@;
                let _ = files.insert(n, v);
                proof {
                    assert(table_texts(files@) =~= table_texts(old(files)@).insert(n, vv));
                }
            },
            None => {},
        }
    } else if chars_start_with_str(&line, "Title") {
        match read_pls_entry(&line, "Title") {
            Some((n, v)) => {
                let ghost vv = v@;
                let _ = titles.insert(n, v);
                proof {
                    assert(table_texts(titles@) =~= table_texts(old(titles)@).insert(n, vv));
                }
            },
            None => {},
        }
    }
}

impl Playlist {
    /// Imports the entries of a PLS file whose text is `content`: each
    /// `File<n>=` entry in increasing `n`, titled by `Title<n>=` when it is a stream.
    pub fn import_pls(&mut self, content: &str)
        ensures
            spec_import_pls(old(self)@.tracks, content@, final(self)@.tracks),
            final(self)@.current == old(self)@.current,
            no_duplicate_paths(old(self)@.tracks) ==> no_duplicate_paths(final(self)@.tracks),
            old(self)@.tracks.is_prefix_of(final(self)@.tracks),
    {
        let cs = chars_of(content);
        let ls = lines_of(&cs);
        let ghost lsv = lines(content@);
        let mut files: HashMap<u32, Vec<char>> = HashMap::new();
        let mut titles: HashMap<u32, Vec<char>> = HashMap::new();
        proof {
            assert(table_texts(files@) =~= Map::<u32, Seq<char>>::empty());
            assert(table_texts(titles@) =~= Map::<u32, Seq<char>>::empty());
        }
        let mut i: usize = 0;
        while i < ls.len()
            invariant
                i <= ls.len(),
                ls@.len() == lsv.len(),
                forall|k: int| 0 <= k < ls@.len() ==> #[trigger] ls@[k]@ == lsv[k],
                pls_scan(lsv.take(i as int)) == (PlsTables {
                    files: table_texts(files@),
                    titles: table_texts(titles@),
                }),
            decreases ls.len() - i,
        {
            pls_line(&mut files, &mut titles, &ls[i]);
            proof {
                assert(lsv.take(i + 1).drop_last() =~= lsv.take(i as int));
                assert(lsv.take(i + 1).last() == lsv[i as int]);
            }
            i = i + 1;
        }
        proof {
            assert(lsv.take(ls.len() as int) =~= lsv);
        }
        let ghost t = pls_scan(lsv);
        let ks = sorted_numbers(&files);
        proof {
            assert(sorted_keys(ks@, t.files.dom())) by {
                assert forall|x: int| 0 <= x < ks@.len() implies t.files.dom().contains(#[trigger] ks@[x]) by {
                    assert(ks@.to_set().contains(ks@[x]));
                }
                assert forall|k: u32| t.files.dom().contains(k) implies ks@.contains(k) by {
                    assert(ks@.to_set().contains(k));
                }
            }
        }
        let mut j: usize = 0;
        while j < ks.len()
            invariant
                j <= ks.len(),
                t == (PlsTables { files: table_texts(files@), titles: table_texts(titles@) }),
                sorted_keys(ks@, t.files.dom()),
                self@.tracks == pls_apply(old(self)@.tracks, t, ks@.take(j as int)),
                self@.current == old(self)@.current,
                no_duplicate_paths(old(self)@.tracks) ==> no_duplicate_paths(self@.tracks),
                old(self)@.tracks.is_prefix_of(self@.tracks),
            decreases ks.len() - j,
        {
            let n = ks[j];
            proof {
                assert(t.files.dom().contains(ks@[j as int]));
                assert(ks@.take(j + 1).drop_last() =~= ks@.take(j as int));
                assert(ks@.take(j + 1).last() == n);
            }
            match files.get(&n) {
                Some(f) => {
                    let fs = string_from_chars(f.as_slice());
                    if chars_start_with_str(f, "http") {
                        let ts = match titles.get(&n) {
                            Some(tv) => Some(string_from_chars(tv.as_slice())),
                            None => None,
                        };
                        self.add_url(fs, ts);
                    } else {
                        self.add(fs);
                    }
                },
                None => {},
            }
            j = j + 1;
        }
        proof {
            assert(ks@.take(ks.len() as int) =~= ks@);
        }
    }
}

/// The M3U text of the given tracks: a header, then for each track an
/// `#EXTINF:-1,<title>` line and its path, separated by newlines.
pub open spec fn m3u_text(tracks: Seq<TrackView>) -> Seq<char>
    decreases tracks.len(),
{
    if tracks.len() == 0 {
        "#EXTM3U"@
    } else {
        m3u_text(tracks.drop_last()) + "\n#EXTINF:-1,"@ + tracks.last().title + seq!['\n']
            + tracks.last().path
    }
}

/// Whether a playlist file at `path` is read as PLS (by its extension, in any case).
pub open spec fn is_pls_path(path: Seq<char>) -> bool {
    match path_extension(path) {
        Some(e) => lowercase(e) == "pls"@,
        None => false,
    }
}

impl Playlist {
    /// The playlist as M3U text.
    pub fn export_m3u(&self) -> (r: String)
        ensures
            r@ == m3u_text(self@.tracks),
    {
        let mut out = chars_of("#EXTM3U");
        let sep = chars_of("\n#EXTINF:-1,");
        let mut i: usize = 0;
        while i < self.tracks.len()
            invariant
                i <= self.tracks.len(),
                sep@ == "\n#EXTINF:-1,"@,
                out@ == m3u_text(self@.tracks.take(i as int)),
            decreases self.tracks.len() - i,
        {
            push_all(&mut out, &sep);
            let title = chars_of(self.tracks[i].title.as_str());
            push_all(&mut out, &title);
            out.push('\n');
            let path = chars_of(self.tracks[i].path.as_str());
            push_all(&mut out, &path);
            proof {
                let ts = self@.tracks.take(i + 1);
                assert(ts.drop_last() =~= self@.tracks.take(i as int));
                assert(ts.last() == self@.tracks[i as int]);
            }
            i = i + 1;
        }
        proof {
            assert(self@.tracks.take(self.tracks.len() as int) =~= self@.tracks);
        }
        string_from_chars(out.as_slice())
    }

    /// Imports a playlist file (PLS by its extension, otherwise M3U) whose text
    /// is `content`; returns the paths of the tracks that were added, in order.
    pub fn load_m3u(&mut self, path: &str, content: &str) -> (r: Vec<String>)
        ensures
            is_pls_path(path@) ==> spec_import_pls(old(self)@.tracks, content@, final(self)@.tracks),
            !is_pls_path(path@) ==> final(self)@.tracks == spec_import_m3u(old(self)@.tracks, path@, content@),
            final(self)@.current == old(self)@.current,
            old(self)@.tracks.is_prefix_of(final(self)@.tracks),
            r@.len() == final(self)@.tracks.len() - old(self)@.tracks.len(),
            forall|i: int|
                0 <= i < r@.len() ==> #[trigger] r@[i]@ == final(self)@.tracks[old(self)@.tracks.len() + i].path,
    {
        let before = self.tracks.len();
        let pls = match extension(path) {
            Some(e) => {
                let low = to_lowercase(e.as_str());
                str_eq_chars("pls", &chars_of(low.as_str()))
            },
            None => false,
        };
        if pls {
            self.import_pls(content);
        } else {
            self.import_m3u(path, content);
        }
        let mut out: Vec<String> = Vec::new();
        let mut i: usize = before;
        while i < self.tracks.len()
            invariant
                before <= i <= self.tracks.len(),
                before == old(self)@.tracks.len(),
                out@.len() == i - before,
                forall|k: int| 0 <= k < out@.len() ==> #[trigger] out@[k]@ == self@.tracks[before + k].path,
            decreases self.tracks.len() - i,
        {
            out.push(self.tracks[i].path.clone());
            i = i + 1;
        }
        out
    }
}

// ───────────────────────────── laws of the playlist files ─────────────────────────────

/// The exported text of no tracks is the header, and adding a track at the
/// end of the playlist adds its entry at the end of the text: the entries come
/// in playlist order, each `#EXTINF:-1,<title>` on one line and the path on the next.
pub proof fn export_lists_tracks_in_order(ts: Seq<TrackView>, t: TrackView)
    ensures
        m3u_text(Seq::empty()) == "#EXTM3U"@,
        m3u_text(ts.push(t)) == m3u_text(ts) + "\n#EXTINF:-1,"@ + t.title + seq!['\n'] + t.path,
{
    assert(ts.push(t).drop_last() =~= ts);
}

/// A comment line: after trimming, it starts with `#` and is neither the
/// `#EXTM3U` header nor an `#EXTINF:` line.
pub open spec fn is_m3u_comment(raw: Seq<char>) -> bool {
    let line = trim(raw);
    &&& line.len() > 0
    &&& line[0] == '#'
    &&& line != "#EXTM3U"@
    &&& !starts_with(line, "#EXTINF:"@)
}

/// Reading the lines `a` and then the lines `b` is reading `a + b`.
pub proof fn m3u_fold_concat(dir: Seq<char>, st: M3uState, a: Seq<Seq<char>>, b: Seq<Seq<char>>)
    ensures
        m3u_fold(dir, st, a + b) == m3u_fold(dir, m3u_fold(dir, st, a), b),
    decreases b.len(),
{
    if b.len() == 0 {
        assert(a + b =~= a);
    } else {
        m3u_fold_concat(dir, st, a, b.drop_last());
        assert((a + b).drop_last() =~= a + b.drop_last());
        assert((a + b).last() == b.last());
    }
}

/// A comment line changes neither the tracks nor the pending `#EXTINF` title.
pub proof fn comment_lines_change_nothing(dir: Seq<char>, st: M3uState, cs: Seq<Seq<char>>)
    requires
        forall|i: int| 0 <= i < cs.len() ==> is_m3u_comment(#[trigger] cs[i]),
    ensures
        m3u_fold(dir, st, cs) == st,
    decreases cs.len(),
{
    if cs.len() > 0 {
        comment_lines_change_nothing(dir, st, cs.drop_last());
        let line = trim(cs.last());
        assert(is_m3u_comment(cs[cs.len() - 1]));
        reveal_strlit("#");
        assert(line.subrange(0, 1) =~= "#"@);
    }
}

/// `#EXTINF:<d>,<t>`, then any number of comment lines, then a stream URL that
/// is not in the playlist yet: the stream is added at the end, titled `t`.
pub proof fn extinf_title_reaches_next_stream(
    dir: Seq<char>,
    tracks: Seq<TrackView>,
    ext: Seq<char>,
    d: Seq<char>,
    t: Seq<char>,
    cs: Seq<Seq<char>>,
    url: Seq<char>,
)
    requires
        trim(ext) == "#EXTINF:"@ + d + seq![','] + t,
        !d.contains(','),
        forall|i: int| 0 <= i < cs.len() ==> is_m3u_comment(#[trigger] cs[i]),
        starts_with(trim(url), "http://"@) || starts_with(trim(url), "https://"@),
        !has_path(tracks, trim(url)),
    ensures
        m3u_fold(dir, M3uState { tracks, hint: None }, seq![ext] + cs + seq![url]).tracks == tracks.push(
            TrackView { path: trim(url), title: t },
        ),
{
    reveal_strlit("#EXTM3U");
    reveal_strlit("#EXTINF:");
    reveal_strlit("#");
    reveal_strlit("http://");
    reveal_strlit("https://");
    let st0 = M3uState { tracks, hint: None };
    let line = trim(ext);
    // the #EXTINF line sets the pending title
    assert(line.len() > 7);
    assert(line != "#EXTM3U"@);
    assert(line.subrange(0, 8) =~= "#EXTINF:"@);
    assert(line.skip(8) =~= d + seq![','] + t);
    lemma_split_once_at(d, ',', t);
    let st1 = M3uState { tracks, hint: Some(t) };
    assert(m3u_step(dir, st0, ext) == st1);
    assert(seq![ext].drop_last() =~= Seq::<Seq<char>>::empty());
    assert(m3u_fold(dir, st0, Seq::<Seq<char>>::empty()) == st0);
    assert(seq![ext].last() == ext);
    assert(m3u_fold(dir, st0, seq![ext]) == st1);
    // the comments keep it
    comment_lines_change_nothing(dir, st1, cs);
    m3u_fold_concat(dir, st0, seq![ext], cs);
    // the stream takes it
    let u = trim(url);
    assert(u[0] == 'h') by {
        if starts_with(u, "http://"@) {
            assert(u.subrange(0, 7)[0] == u[0]);
        } else {
            assert(u.subrange(0, 8)[0] == u[0]);
        }
    }
    assert(u != "#EXTM3U"@);
    assert(!starts_with(u, "#EXTINF:"@)) by {
        if starts_with(u, "#EXTINF:"@) {
            assert(u.subrange(0, 8)[0] == u[0]);
        }
    }
    assert(!starts_with(u, "#"@)) by {
        if starts_with(u, "#"@) {
            assert(u.subrange(0, 1)[0] == u[0]);
        }
    }
    m3u_fold_concat(dir, st0, seq![ext] + cs, seq![url]);
    assert(seq![url].drop_last() =~= Seq::<Seq<char>>::empty());
    assert(m3u_fold(dir, st1, Seq::<Seq<char>>::empty()) == st1);
    assert(seq![url].last() == url);
    assert(m3u_fold(dir, st1, seq![url]) == m3u_step(dir, st1, url));
}

} // verus!
