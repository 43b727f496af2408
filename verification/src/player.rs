//! What the player reports about the media: tracks, titles, times, volume.
use vstd::prelude::*;
use crate::num::{dec_pad2, int_text, push_dec_pad2, push_int};
use crate::paths::{file_name, path_file_name};
use crate::text::{chars_of, str_eq_chars, string_from_chars};

verus! {

/// The kind of a track inside a media file.
#[derive(Debug, Clone, Copy, PartialEq, Eq, Structural)]
pub enum TrackKind {
    Audio,
    Sub,
    Video,
}

/// An audio, subtitle or video track of the loaded media.
#[derive(Debug, Clone)]
pub struct MediaTrack {
    pub id: i64,
    pub kind: TrackKind,
    pub title: String,
    pub lang: String,
    pub selected: bool,
}

/// The value of a track.
pub struct MediaTrackView {
    pub id: i64,
    pub kind: TrackKind,
    pub title: Seq<char>,
    pub lang: Seq<char>,
    pub selected: bool,
}

impl View for MediaTrack {
    type V = MediaTrackView;

    open spec fn view(&self) -> MediaTrackView {
        MediaTrackView { id: self.id, kind: self.kind, title: self.title@, lang: self.lang@, selected: self.selected }
    }
}

impl MediaTrack {
    /// A copy of the track.
    pub fn copy(&self) -> (r: MediaTrack)
        ensures
            r@ == self@,
    {
        MediaTrack {
            id: self.id,
            kind: self.kind,
            title: self.title.clone(),
            lang: self.lang.clone(),
            selected: self.selected,
        }
    }
}

/// The tracks of one kind, in their order.
pub open spec fn of_kind(s: Seq<MediaTrackView>, kind: TrackKind) -> Seq<MediaTrackView>
    decreases s.len(),
{
    if s.len() == 0 {
        s
    } else {
        let r = of_kind(s.drop_last(), kind);
        if s.last().kind == kind {
            r.push(s.last())
        } else {
            r
        }
    }
}

/// The tracks of one kind (as the audio and subtitle menus list them), in their order.
pub fn tracks_of_kind(tracks: &Vec<MediaTrack>, kind: TrackKind) -> (r: Vec<MediaTrack>)
    ensures
        r@.map_values(|t: MediaTrack| t@) == of_kind(tracks@.map_values(|t: MediaTrack| t@), kind),
{
    let ghost s = tracks@.map_values(|t: MediaTrack| t@);
    let mut out: Vec<MediaTrack> = Vec::new();
    let mut i: usize = 0;
    while i < tracks.len()
        invariant
            i <= tracks.len(),
            s == tracks@.map_values(|t: MediaTrack| t@),
            out@.map_values(|t: MediaTrack| t@) == of_kind(s.take(i as int), kind),
        decreases tracks.len() - i,
    {
        let ghost before = out@;
        if tracks[i].kind == kind {
            out.push(tracks[i].copy());
            assert(out@.map_values(|t: MediaTrack| t@) =~= before.map_values(|t: MediaTrack| t@).push(s[i as int]));
        }
        proof {
            assert(s.take(i + 1).drop_last() =~= s.take(i as int));
            assert(s.take(i + 1).last() == s[i as int]);
        }
        i = i + 1;
    }
    proof {
        assert(s.take(tracks.len() as int) =~= s);
    }
    out
}

/// The kind named by mpv's `type` field of a track.
pub open spec fn kind_named(name: Seq<char>) -> Option<TrackKind> {
    if name == "audio"@ {
        Some(TrackKind::Audio)
    } else if name == "sub"@ {
        Some(TrackKind::Sub)
    } else if name == "video"@ {
        Some(TrackKind::Video)
    } else {
        None
    }
}

/// The title of a track without one: `Pista <id>`.
pub open spec fn untitled_track(id: i64) -> Seq<char> {
    "Pista "@ + int_text(id as int)
}

/// Reads mpv's `type` field of a track.
pub fn track_kind_of(name: &str) -> (r: Option<TrackKind>)
    ensures
        r == kind_named(name@),
{
    let n = chars_of(name);
    if str_eq_chars("audio", &n) {
        Some(TrackKind::Audio)
    } else if str_eq_chars("sub", &n) {
        Some(TrackKind::Sub)
    } else if str_eq_chars("video", &n) {
        Some(TrackKind::Video)
    } else {
        None
    }
}

/// A track from the fields mpv lists for it; `None` for a kind other than
/// audio, subtitle or video. An empty title becomes `Pista <id>`.
pub fn media_track_from_raw(id: i64, kind: &str, title: String, lang: String, selected: bool) -> (r: Option<MediaTrack>)
    ensures
        match r {
            Some(t) => kind_named(kind@) == Some(t.kind) && t.id == id && t.lang@ == lang@ && t.selected
                == selected && t.title@ == (if title@.len() == 0 {
                untitled_track(id)
            } else {
                title@
            }),
            None => kind_named(kind@) is None,
        },
{
    let k = match track_kind_of(kind) {
        Some(k) => k,
        None => return None,
    };
    let title = if title.as_str().is_empty() {
        let mut v = chars_of("Pista ");
        push_int(&mut v, id);
        string_from_chars(v.as_slice())
    } else {
        title
    };
    Some(MediaTrack { id, kind: k, title, lang, selected })
}

/// `mm:ss`, or `hh:mm:ss` from one hour on, each part at least two digits.
pub open spec fn clock_text(s: nat) -> Seq<char> {
    let h = s / 3600;
    let m = (s % 3600) / 60;
    let sec = s % 60;
    if h > 0 {
        dec_pad2(h) + seq![':'] + dec_pad2(m) + seq![':'] + dec_pad2(sec)
    } else {
        dec_pad2(m) + seq![':'] + dec_pad2(sec)
    }
}

/// Formats a whole number of seconds as a clock.
pub fn format_clock(secs: u64) -> (r: String)
    ensures
        r@ == clock_text(secs as nat),
{
    let h = secs / 3600;
    let m = (secs % 3600) / 60;
    let s = secs % 60;
    let mut v: Vec<char> = Vec::new();
    if h > 0 {
        push_dec_pad2(&mut v, h);
        v.push(':');
    }
    push_dec_pad2(&mut v, m);
    v.push(':');
    push_dec_pad2(&mut v, s);
    proof {
        if h > 0 {
            assert(v@ =~= clock_text(secs as nat));
        } else {
            assert(v@ =~= clock_text(secs as nat));
        }
    }
    string_from_chars(v.as_slice())
}

/// The title of the loaded file: its file name, or `Sin título`.
pub open spec fn loaded_title_text(current_file: Option<Seq<char>>) -> Seq<char> {
    match current_file {
        Some(p) => match path_file_name(p) {
            Some(n) => n,
            None => "Sin título"@,
        },
        None => "Sin título"@,
    }
}

pub fn loaded_title(current_file: Option<&str>) -> (r: String)
    ensures
        r@ == loaded_title_text(match current_file {
            Some(p) => Some(p@),
            None => None,
        }),
{
    match current_file {
        Some(p) => match file_name(p) {
            Some(n) => n,
            None => String::from_str("Sin título"),
        },
        None => String::from_str("Sin título"),
    }
}

/// The volume the player accepts: between 0 and 150.
pub open spec fn clamp_volume_spec(v: int) -> int {
    if v < 0 {
        0
    } else if v > 150 {
        150
    } else {
        v
    }
}

pub fn clamp_volume(v: i64) -> (r: i64)
    ensures
        r == clamp_volume_spec(v as int),
{
    if v < 0 {
        0
    } else if v > 150 {
        150
    } else {
        v
    }
}

/// The volume after a step up or down, kept between 0 and 150.
pub fn volume_after_step(v: i64, delta: i64) -> (r: i64)
    requires
        i64::MIN <= v + delta <= i64::MAX,
    ensures
        r == clamp_volume_spec(v + delta),
        0 <= r <= 150,
{
    clamp_volume(v + delta)
}

} // verus!
