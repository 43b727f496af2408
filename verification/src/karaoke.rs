//! Karaoke with .CDG files.
//!
//! A CDG (CD+Graphics) file holds graphics in step with the music. The player
//! shows it when the `.cdg` file sits next to the audio file under the same base
//! name, e.g. `cancion.mp3` + `cancion.cdg`.
use vstd::prelude::*;
use crate::paths::{extension, file_stem, join, parent, path_extension, path_file_stem, path_join, path_parent};
use crate::text::{ascii_lower_chars, ascii_lower_seq, chars_of, push_all, str_eq_chars, string_from_chars};

verus! {

/// The hint shown in the interface.
pub const USAGE_HINT: &'static str = "Para karaoke: coloca el archivo .cdg junto al .mp3 con el mismo nombre.\nEjemplo: 'cancion.mp3' + 'cancion.cdg'\nRPlayer los reproducirá automáticamente en sincronía.";

/// What a file is for karaoke.
#[derive(Debug, Clone, PartialEq)]
pub enum KaraokeFileType {
    Cdg,
    /// Audio with the `.cdg` file that goes with it.
    AudioWithCdg(String),
    Audio,
}

/// The two places where the graphics of an audio file may be: `<dir>/<stem>.cdg`
/// and `<dir>/<stem>.CDG`; none when the path has no stem or no parent.
pub open spec fn cdg_candidates_spec(audio: Seq<char>) -> Option<(Seq<char>, Seq<char>)> {
    match (path_file_stem(audio), path_parent(audio)) {
        (Some(stem), Some(dir)) => Some(
            (path_join(dir, stem + ".cdg"@), path_join(dir, stem + ".CDG"@)),
        ),
        _ => None,
    }
}

pub fn cdg_candidates(audio_path: &str) -> (r: Option<(String, String)>)
    ensures
        match r {
            Some((a, b)) => cdg_candidates_spec(audio_path@) == Some((a@, b@)),
            None => cdg_candidates_spec(audio_path@) is None,
        },
{
    let stem = match file_stem(audio_path) {
        Some(s) => s,
        None => return None,
    };
    let dir = match parent(audio_path) {
        Some(d) => d,
        None => return None,
    };
    let mut lo = chars_of(stem.as_str());
    let mut up = chars_of(stem.as_str());
    push_all(&mut lo, &chars_of(".cdg"));
    push_all(&mut up, &chars_of(".CDG"));
    let los = string_from_chars(lo.as_slice());
    let ups = string_from_chars(up.as_slice());
    Some((join(dir.as_str(), los.as_str()), join(dir.as_str(), ups.as_str())))
}

/// The `.cdg` file of an audio file, given whether each candidate exists
/// (the lower-case name is preferred).
pub open spec fn find_cdg_spec(audio: Seq<char>, lower_exists: bool, upper_exists: bool) -> Option<Seq<char>> {
    match cdg_candidates_spec(audio) {
        Some((lo, up)) => if lower_exists {
            Some(lo)
        } else if upper_exists {
            Some(up)
        } else {
            None
        },
        None => None,
    }
}

/// The `.cdg` file that goes with an audio file. Whether each candidate of
/// `cdg_candidates` exists on disk is passed in.
pub fn find_cdg(audio_path: &str, lower_exists: bool, upper_exists: bool) -> (r: Option<String>)
    ensures
        match r {
            Some(c) => find_cdg_spec(audio_path@, lower_exists, upper_exists) == Some(c@),
            None => find_cdg_spec(audio_path@, lower_exists, upper_exists) is None,
        },
{
    match cdg_candidates(audio_path) {
        Some((lo, up)) => if lower_exists {
            Some(lo)
        } else if upper_exists {
            Some(up)
        } else {
            None
        },
        None => None,
    }
}

/// The extension of a path in ASCII lower case (empty when there is none).
pub open spec fn lower_ext(path: Seq<char>) -> Seq<char> {
    match path_extension(path) {
        Some(e) => ascii_lower_seq(e),
        None => Seq::empty(),
    }
}

pub open spec fn is_audio_ext(e: Seq<char>) -> bool {
    e == "mp3"@ || e == "ogg"@ || e == "flac"@ || e == "wav"@ || e == "aac"@ || e == "m4a"@
}

/// A `.cdg` file is graphics; an audio file (mp3, ogg, flac, wav, aac, m4a)
/// whose `.cdg` file is found (as `find_cdg` finds it, given whether each of
/// the two candidates exists) is karaoke audio; anything else is plain audio.
pub fn classify(path: &str, lower_exists: bool, upper_exists: bool) -> (r: KaraokeFileType)
    ensures
        lower_ext(path@) == "cdg"@ ==> r == KaraokeFileType::Cdg,
        lower_ext(path@) != "cdg"@ ==> match find_cdg_spec(path@, lower_exists, upper_exists) {
            Some(c) => if is_audio_ext(lower_ext(path@)) {
                r matches KaraokeFileType::AudioWithCdg(s) && s@ == c
            } else {
                r == KaraokeFileType::Audio
            },
            None => r == KaraokeFileType::Audio,
        },
{
    let ext = match extension(path) {
        Some(e) => ascii_lower_chars(&chars_of(e.as_str())),
        None => Vec::new(),
    };
    if str_eq_chars("cdg", &ext) {
        return KaraokeFileType::Cdg;
    }
    let audio = str_eq_chars("mp3", &ext) || str_eq_chars("ogg", &ext) || str_eq_chars("flac", &ext)
        || str_eq_chars("wav", &ext) || str_eq_chars("aac", &ext) || str_eq_chars("m4a", &ext);
    if audio {
        if let Some(c) = find_cdg(path, lower_exists, upper_exists) {
            return KaraokeFileType::AudioWithCdg(c);
        }
    }
    KaraokeFileType::Audio
}

/// The mpv filter that cancels what is mixed dead-centre (where most vocals are).
pub const VOCAL_SUPPRESSION_FILTER: &'static str = "pan=stereo|c0=c0-c1|c1=c1-c0";

/// The `af` chain for karaoke: vocal suppression when asked for, then the
/// pitch-shift filter when there is one, separated by a comma; empty when
/// neither is on.
pub open spec fn karaoke_chain_text(vocal_suppression: bool, pitch_filter: Option<Seq<char>>) -> Seq<char> {
    match (vocal_suppression, pitch_filter) {
        (true, Some(p)) => VOCAL_SUPPRESSION_FILTER@ + ","@ + p,
        (true, None) => VOCAL_SUPPRESSION_FILTER@,
        (false, Some(p)) => p,
        (false, None) => Seq::empty(),
    }
}

/// Joins the karaoke filters into one `af` fragment. `pitch_filter` is the
/// pitch-shift filter already written out, or none when the pitch is not moved.
pub fn karaoke_af_chain(vocal_suppression: bool, pitch_filter: Option<&str>) -> (r: String)
    ensures
        r@ == karaoke_chain_text(vocal_suppression, match pitch_filter {
            Some(p) => Some(p@),
            None => None,
        }),
{
    let mut out: Vec<char> = Vec::new();
    if vocal_suppression {
        push_all(&mut out, &chars_of(VOCAL_SUPPRESSION_FILTER));
    }
    if let Some(p) = pitch_filter {
        if vocal_suppression {
            out.push(',');
        }
        push_all(&mut out, &chars_of(p));
    }
    proof {
        reveal_strlit(",");
    }
    assert(out@ =~= karaoke_chain_text(vocal_suppression, match pitch_filter {
        Some(p) => Some(p@),
        None => None,
    }));
    string_from_chars(out.as_slice())
}

/// Whether a path names a `.cdg` file, the extension compared without regard
/// to ASCII case (as the directory listing of karaoke files picks them).
pub fn has_cdg_extension(path: &str) -> (r: bool)
    ensures
        r == (lower_ext(path@) == "cdg"@ && path_extension(path@) is Some),
{
    match extension(path) {
        Some(e) => {
            let low = ascii_lower_chars(&chars_of(e.as_str()));
            str_eq_chars("cdg", &low)
        },
        None => false,
    }
}

} // verus!
