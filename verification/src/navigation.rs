//! The player's decisions: which panel is open and which track plays next.
use vstd::prelude::*;
use crate::config::RepeatMode;
use crate::playlist::{Playlist, PlaylistView, TrackView};

verus! {

/// The side panel that is shown.
#[derive(Debug, Clone, Copy, PartialEq, Eq, Structural)]
pub enum SidePanel {
    Hidden,
    Playlist,
    History,
    Bookmarks,
    Notes,
    Chapters,
    Equalizer,
    AudioTracks,
    Subtitles,
    SubtitlesDownload,
    ImageControls,
    Sync,
    Karaoke,
    MediaInfo,
    Theme,
    Settings,
    UpNext,
    Performance,
    Library,
    CodecDiagnostics,
}

/// The panels that the video's context menu can open.
#[derive(Debug, Clone, Copy, PartialEq, Eq, Structural)]
pub enum CtxPanel {
    Equalizer,
    ImageControls,
    Sync,
    MediaInfo,
    Subtitles,
    SubtitlesDownload,
    AudioTracks,
}

/// The side panel that a context-menu panel stands for.
pub open spec fn ctx_panel_spec(p: CtxPanel) -> SidePanel {
    match p {
        CtxPanel::Equalizer => SidePanel::Equalizer,
        CtxPanel::ImageControls => SidePanel::ImageControls,
        CtxPanel::Sync => SidePanel::Sync,
        CtxPanel::MediaInfo => SidePanel::MediaInfo,
        CtxPanel::Subtitles => SidePanel::Subtitles,
        CtxPanel::SubtitlesDownload => SidePanel::SubtitlesDownload,
        CtxPanel::AudioTracks => SidePanel::AudioTracks,
    }
}

pub fn map_ctx_panel(panel: CtxPanel) -> (r: SidePanel)
    ensures
        r == ctx_panel_spec(panel),
{
    match panel {
        CtxPanel::Equalizer => SidePanel::Equalizer,
        CtxPanel::ImageControls => SidePanel::ImageControls,
        CtxPanel::Sync => SidePanel::Sync,
        CtxPanel::MediaInfo => SidePanel::MediaInfo,
        CtxPanel::Subtitles => SidePanel::Subtitles,
        CtxPanel::SubtitlesDownload => SidePanel::SubtitlesDownload,
        CtxPanel::AudioTracks => SidePanel::AudioTracks,
    }
}

/// Opening the panel that is already shown hides it; any other panel replaces it.
pub fn toggle_side(shown: SidePanel, panel: SidePanel) -> (r: SidePanel)
    ensures
        r == (if shown == panel {
            SidePanel::Hidden
        } else {
            panel
        }),
{
    if shown == panel {
        SidePanel::Hidden
    } else {
        panel
    }
}

/// The track that shuffle picks: with a random `r`, one of the other tracks,
/// counting forward from the selected one (the first when none is selected);
/// nothing when there is at most one track.
pub open spec fn shuffle_choice(len: nat, current: Option<usize>, r: nat) -> Option<nat> {
    if len <= 1 {
        None
    } else {
        let c = match current {
            Some(c) => c as nat,
            None => 0,
        };
        Some(((c + 1 + r % ((len - 1) as nat)) % len) as nat)
    }
}

/// Whether the shuffle arithmetic stays within `usize`.
pub open spec fn shuffle_fits(len: nat, current: Option<usize>) -> bool {
    len <= 1 || match current {
        Some(c) => c + len - 1 <= usize::MAX,
        None => true,
    }
}

/// The index that shuffle plays.
pub fn shuffle_pick(len: usize, current: Option<usize>, r: usize) -> (idx: Option<usize>)
    requires
        shuffle_fits(len as nat, current),
    ensures
        match idx {
            Some(i) => shuffle_choice(len as nat, current, r as nat) == Some(i as nat) && i < len,
            None => shuffle_choice(len as nat, current, r as nat) is None,
        },
{
    if len <= 1 {
        return None;
    }
    let c = match current {
        Some(c) => c,
        None => 0,
    };
    let step = r % (len - 1);
    Some((c + 1 + step) % len)
}

/// Shuffle never replays the selected track: from a valid selection in a list of
/// more than one track, it picks another index of the list.
pub proof fn shuffle_picks_another_track(len: nat, c: usize, r: nat)
    requires
        len > 1,
        c < len,
    ensures
        shuffle_choice(len, Some(c), r) is Some,
        shuffle_choice(len, Some(c), r)->0 < len,
        shuffle_choice(len, Some(c), r)->0 != c,
{
    let k = r % ((len - 1) as nat);
    assert(k < len - 1);
    let s: int = c + 1 + k;
    let l: int = len as int;
    assert(c + 1 <= s < c + l);
    if s < l {
        assert(s % l == s) by (nonlinear_arith)
            requires
                0 <= s < l,
        ;
    } else {
        assert(s % l == s - l) by (nonlinear_arith)
            requires
                l <= s < 2 * l,
        ;
    }
}

/// What follows the end of a track or a press of "next".
#[derive(Debug, Clone, Copy, PartialEq, Eq, Structural)]
pub enum TrackChoice {
    /// Play the file that was playing once more.
    ReplayCurrent,
    /// Play the track at this index (now selected).
    Play(usize),
    /// Nothing to play.
    Stop,
}

/// The index after the selected one when there is such a track.
pub open spec fn next_index(pl: PlaylistView) -> Option<nat> {
    match pl.current {
        Some(c) => if c + 1 < pl.tracks.len() {
            Some((c + 1) as nat)
        } else {
            None
        },
        None => None,
    }
}

/// "Next": a shuffle pick when shuffle is on, otherwise the following track.
pub open spec fn next_choice(pl: PlaylistView, shuffle: bool, r: nat) -> Option<nat> {
    if shuffle {
        shuffle_choice(pl.tracks.len(), pl.current, r)
    } else {
        next_index(pl)
    }
}

/// The end of a track: repeat-one replays it, repeat-all moves on and wraps to
/// the first track, no repeat moves on as "next" does.
pub open spec fn after_end_choice(pl: PlaylistView, repeat: RepeatMode, shuffle: bool, r: nat) -> Option<
    Option<nat>,
> {
    match repeat {
        RepeatMode::One => None,
        RepeatMode::All => Some(
            match next_index(pl) {
                Some(i) => Some(i),
                None => if pl.tracks.len() > 0 {
                    Some(0)
                } else {
                    None
                },
            },
        ),
        RepeatMode::Off => Some(next_choice(pl, shuffle, r)),
    }
}

/// The choice as the player performs it: `None` inside stands for "nothing to play".
pub open spec fn choice_matches(c: TrackChoice, spec: Option<Option<nat>>) -> bool {
    match c {
        TrackChoice::ReplayCurrent => spec is None,
        TrackChoice::Play(i) => spec == Some(Some(i as nat)),
        TrackChoice::Stop => spec == Some(None::<nat>),
    }
}

/// Selects `idx` when a track is chosen.
pub open spec fn selection_after(pl: PlaylistView, chosen: Option<nat>) -> Option<usize> {
    match chosen {
        Some(i) => Some(i as usize),
        None => pl.current,
    }
}

/// The track to play on "next" (after the up-next queue, which the caller
/// empties first); the chosen track becomes the selection.
pub fn play_next_choice(pl: &mut Playlist, shuffle: bool, r: usize) -> (idx: Option<usize>)
    requires
        shuffle ==> shuffle_fits(old(pl)@.tracks.len(), old(pl)@.current),
    ensures
        match idx {
            Some(i) => next_choice(old(pl)@, shuffle, r as nat) == Some(i as nat) && i < old(pl)@.tracks.len(),
            None => next_choice(old(pl)@, shuffle, r as nat) is None,
        },
        final(pl)@.tracks == old(pl)@.tracks,
        final(pl)@.current == selection_after(old(pl)@, next_choice(old(pl)@, shuffle, r as nat)),
{
    let chosen = if shuffle {
        shuffle_pick(pl.tracks.len(), pl.current, r)
    } else {
        match pl.current {
            Some(c) => if c < pl.tracks.len() && c + 1 < pl.tracks.len() {
                Some(c + 1)
            } else {
                None
            },
            None => None,
        }
    };
    if let Some(i) = chosen {
        pl.current = Some(i);
    }
    chosen
}

/// What plays when a track ends (after the up-next queue, which the caller
/// empties first); a chosen track becomes the selection.
pub fn after_end_of_file(pl: &mut Playlist, repeat: RepeatMode, shuffle: bool, r: usize) -> (c:
    TrackChoice)
    requires
        shuffle ==> shuffle_fits(old(pl)@.tracks.len(), old(pl)@.current),
    ensures
        choice_matches(c, after_end_choice(old(pl)@, repeat, shuffle, r as nat)),
        final(pl)@.tracks == old(pl)@.tracks,
        final(pl)@.current == match c {
            TrackChoice::Play(i) => Some(i),
            _ => old(pl)@.current,
        },
        c matches TrackChoice::Play(i) ==> i < old(pl)@.tracks.len(),
{
    match repeat {
        RepeatMode::One => TrackChoice::ReplayCurrent,
        RepeatMode::All => {
            let next = match pl.current {
                Some(c) => if c < pl.tracks.len() && c + 1 < pl.tracks.len() {
                    Some(c + 1)
                } else {
                    None
                },
                None => None,
            };
            match next {
                Some(i) => {
                    pl.current = Some(i);
                    TrackChoice::Play(i)
                },
                None => if pl.tracks.len() > 0 {
                    pl.current = Some(0);
                    TrackChoice::Play(0)
                } else {
                    TrackChoice::Stop
                },
            }
        },
        RepeatMode::Off => match play_next_choice(pl, shuffle, r) {
            Some(i) => TrackChoice::Play(i),
            None => TrackChoice::Stop,
        },
    }
}

/// "Next" as the player does it: shuffle draws its chance from the clock.
pub fn play_next(pl: &mut Playlist, shuffle: bool) -> (idx: Option<usize>)
    requires
        shuffle ==> shuffle_fits(old(pl)@.tracks.len(), old(pl)@.current),
    ensures
        exists|r: nat|
            {
                &&& r < 1_000_000_000
                &&& match idx {
                    Some(i) => next_choice(old(pl)@, shuffle, r) == Some(i as nat) && i < old(pl)@.tracks.len(),
                    None => next_choice(old(pl)@, shuffle, r) is None,
                }
                &&& final(pl)@.current == selection_after(old(pl)@, next_choice(old(pl)@, shuffle, r))
            },
        final(pl)@.tracks == old(pl)@.tracks,
{
    let r = if shuffle {
        crate::clock::rand_usize()
    } else {
        0
    };
    play_next_choice(pl, shuffle, r)
}

/// The end of a track as the player handles it: shuffle draws its chance from the clock.
pub fn end_of_file(pl: &mut Playlist, repeat: RepeatMode, shuffle: bool) -> (c: TrackChoice)
    requires
        shuffle ==> shuffle_fits(old(pl)@.tracks.len(), old(pl)@.current),
    ensures
        exists|r: nat| r < 1_000_000_000 && choice_matches(c, after_end_choice(old(pl)@, repeat, shuffle, r)),
        final(pl)@.tracks == old(pl)@.tracks,
        final(pl)@.current == match c {
            TrackChoice::Play(i) => Some(i),
            _ => old(pl)@.current,
        },
        c matches TrackChoice::Play(i) ==> i < old(pl)@.tracks.len(),
{
    let r = if shuffle && repeat == RepeatMode::Off {
        crate::clock::rand_usize()
    } else {
        0
    };
    after_end_of_file(pl, repeat, shuffle, r)
}

/// The index before the selected one when there is such a track.
pub open spec fn prev_index(pl: PlaylistView) -> Option<nat> {
    match pl.current {
        Some(c) => if 0 < c && c - 1 < pl.tracks.len() {
            Some((c - 1) as nat)
        } else {
            None
        },
        None => None,
    }
}

/// The track to play on "previous"; it becomes the selection.
pub fn play_prev_choice(pl: &mut Playlist) -> (idx: Option<usize>)
    ensures
        match idx {
            Some(i) => prev_index(old(pl)@) == Some(i as nat),
            None => prev_index(old(pl)@) is None,
        },
        final(pl)@.tracks == old(pl)@.tracks,
        final(pl)@.current == match idx {
            Some(i) => Some(i),
            None => old(pl)@.current,
        },
{
    match pl.current {
        Some(c) => if c > 0 && c - 1 < pl.tracks.len() {
            pl.current = Some(c - 1);
            Some(c - 1)
        } else {
            None
        },
        None => None,
    }
}

/// "Next" then "previous" (without shuffle) comes back to the track that was
/// selected, and "previous" then "next" too.
pub proof fn next_and_prev_undo_each_other(tracks: Seq<TrackView>, c: usize)
    requires
        c < tracks.len() <= usize::MAX,
    ensures
        next_index(PlaylistView { tracks, current: Some(c) }) matches Some(n) ==> prev_index(
            PlaylistView { tracks, current: Some(n as usize) },
        ) == Some(c as nat),
        prev_index(PlaylistView { tracks, current: Some(c) }) matches Some(p) ==> next_index(
            PlaylistView { tracks, current: Some(p as usize) },
        ) == Some(c as nat),
{
}

/// With repeat-all, the end of a track always leads to a track of a non-empty
/// playlist (wrapping to the first), whatever the selection.
pub proof fn repeat_all_never_stops(pl: PlaylistView, shuffle: bool, r: nat)
    requires
        pl.tracks.len() > 0,
    ensures
        after_end_choice(pl, RepeatMode::All, shuffle, r) matches Some(Some(i)) && i < pl.tracks.len(),
{
}

/// With repeat-one, the end of a track replays it.
pub proof fn repeat_one_replays(pl: PlaylistView, shuffle: bool, r: nat)
    ensures
        after_end_choice(pl, RepeatMode::One, shuffle, r) is None,
{
}

/// Shuffle can land on every other track: for each track `k` other than the
/// selected one there is a draw below `len - 1` that picks it, and the pick
/// follows the draw: `(c + 1 + r % (len - 1)) % len`.
pub proof fn shuffle_can_pick_every_other_track(len: nat, c: usize, k: nat)
    requires
        len > 1,
        c < len,
        k < len,
        k != c,
    ensures
        exists|r: nat| r < len - 1 && #[trigger] shuffle_choice(len, Some(c), r) == Some(k),
{
    let l: int = len as int;
    let m: int = l - 1;
    let r: int = if k > c { k - c - 1 } else { k + l - c - 1 };
    assert(0 <= r < m);
    assert(r % m == r) by (nonlinear_arith)
        requires
            0 <= r < m,
    ;
    let sum: int = c + 1 + r;
    if k > c {
        assert(sum == k);
        assert(sum % l == k) by (nonlinear_arith)
            requires
                sum == k,
                0 <= k < l,
        ;
    } else {
        assert(sum == k + l);
        assert(sum % l == k) by (nonlinear_arith)
            requires
                sum == k + l,
                0 <= k < l,
        ;
    }
    assert(shuffle_choice(len, Some(c), r as nat) == Some(k));
}

/// Different draws below `len - 1` pick different tracks.
pub proof fn shuffle_draws_pick_different_tracks(len: nat, c: usize, r1: nat, r2: nat)
    requires
        len > 1,
        c < len,
        r1 < len - 1,
        r2 < len - 1,
        r1 != r2,
    ensures
        shuffle_choice(len, Some(c), r1) != shuffle_choice(len, Some(c), r2),
{
    let l: int = len as int;
    let m: int = l - 1;
    let a: int = r1 as int;
    let b: int = r2 as int;
    assert(a % m == a && b % m == b) by (nonlinear_arith)
        requires
            0 <= a < m,
            0 <= b < m,
    ;
    let x: int = c + 1 + a;
    let y: int = c + 1 + b;
    assert(x % l != y % l) by (nonlinear_arith)
        requires
            x != y,
            1 <= x < 2 * l,
            1 <= y < 2 * l,
            x - y < l,
            y - x < l,
            l > 1,
    {
        if x < l && y < l {
            assert(x % l == x);
            assert(y % l == y);
        } else if x >= l && y >= l {
            assert(x % l == x - l);
            assert(y % l == y - l);
        } else if x < l {
            assert(x % l == x);
            assert(y % l == y - l);
        } else {
            assert(x % l == x - l);
            assert(y % l == y);
        }
    }
}

} // verus!
