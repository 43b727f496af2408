//! Where the cover picture of a media file is looked for.
//!
//! Next to the file, a picture named like the file comes first, then the usual
//! names (`cover`, `folder`, `front`, `album`, `artwork`), each with the picture
//! extensions in turn; failing those, any picture in the directory.
use vstd::prelude::*;
use crate::paths::{extension, file_stem, join, parent, path_extension, path_file_stem, path_join, path_parent};
use crate::text::{chars_of, lowercase, push_all, str_eq_chars, string_from_chars, to_lowercase};

verus! {

/// The picture extensions, in the order they are tried.
pub open spec fn image_exts() -> Seq<Seq<char>> {
    seq!["jpg"@, "jpeg"@, "png"@, "webp"@, "bmp"@]
}

/// The usual names of a cover picture, in the order they are tried.
pub open spec fn cover_names() -> Seq<Seq<char>> {
    seq!["cover"@, "folder"@, "front"@, "album"@, "artwork"@]
}

/// `<dir>/<name>.<ext>` for each picture extension.
pub open spec fn named_candidates(dir: Seq<char>, name: Seq<char>) -> Seq<Seq<char>> {
    image_exts().map_values(|e: Seq<char>| path_join(dir, name + "."@ + e))
}

/// Every place tried for the cover of a media file, in order; none when the
/// path has no parent directory or no file stem.
pub open spec fn cover_candidates_spec(media: Seq<char>) -> Option<Seq<Seq<char>>> {
    match (path_parent(media), path_file_stem(media)) {
        (Some(dir), Some(stem)) => Some(
            named_candidates(dir, lowercase(stem)) + named_candidates(dir, cover_names()[0])
                + named_candidates(dir, cover_names()[1]) + named_candidates(dir, cover_names()[2])
                + named_candidates(dir, cover_names()[3]) + named_candidates(dir, cover_names()[4]),
        ),
        _ => None,
    }
}

/// Whether a path names a picture: its extension, lower-cased, is one of the picture extensions.
pub open spec fn is_image_path(path: Seq<char>) -> bool {
    match path_extension(path) {
        Some(e) => image_exts().contains(lowercase(e)),
        None => false,
    }
}

fn image_ext(i: usize) -> (r: &'static str)
    requires
        i < 5,
    ensures
        r@ == image_exts()[i as int],
{
    match i {
        0 => "jpg",
        1 => "jpeg",
        2 => "png",
        3 => "webp",
        _ => "bmp",
    }
}

fn cover_name(i: usize) -> (r: &'static str)
    requires
        i < 5,
    ensures
        r@ == cover_names()[i as int],
{
    match i {
        0 => "cover",
        1 => "folder",
        2 => "front",
        3 => "album",
        _ => "artwork",
    }
}

/// Appends `<dir>/<name>.<ext>` for each picture extension.
fn push_named(out: &mut Vec<String>, dir: &str, name: &str)
    ensures
        final(out)@.map_values(|s: String| s@) == old(out)@.map_values(|s: String| s@) + named_candidates(
            dir@,
            name@,
        ),
{
    let ghost start = out@.map_values(|s: String| s@);
    let mut i: usize = 0;
    while i < 5
        invariant
            i <= 5,
            out@.map_values(|s: String| s@) == start + named_candidates(dir@, name@).take(i as int),
        decreases 5 - i,
    {
        let mut file = chars_of(name);
        file.push('.');
        push_all(&mut file, &chars_of(image_ext(i)));
        let f = string_from_chars(file.as_slice());
        let p = join(dir, f.as_str());
        let ghost before = out@;
        proof {
            assert(f@ == name@ + "."@ + image_exts()[i as int]) by {
                reveal_strlit(".");
                assert(f@ =~= name@ + "."@ + image_exts()[i as int]);
            }
            assert(named_candidates(dir@, name@)[i as int] == p@);
            assert(named_candidates(dir@, name@).take(i + 1) =~= named_candidates(dir@, name@).take(
                i as int,
            ).push(p@));
        }
        out.push(p);
        proof {
            assert(out@.map_values(|s: String| s@) =~= before.map_values(|s: String| s@).push(p@));
        }
        i = i + 1;
    }
    proof {
        assert(named_candidates(dir@, name@).take(5) =~= named_candidates(dir@, name@));
    }
}

/// Every place to look for the cover of a media file, in the order they are
/// tried; none when the path has no parent directory or no file stem.
pub fn cover_candidates(media_path: &str) -> (r: Option<Vec<String>>)
    ensures
        match r {
            Some(v) => cover_candidates_spec(media_path@) == Some(v@.map_values(|s: String| s@)),
            None => cover_candidates_spec(media_path@) is None,
        },
{
    let dir = match parent(media_path) {
        Some(d) => d,
        None => return None,
    };
    let stem = match file_stem(media_path) {
        Some(s) => s,
        None => return None,
    };
    let low = to_lowercase(stem.as_str());
    let mut out: Vec<String> = Vec::new();
    assert(out@.map_values(|s: String| s@) =~= Seq::<Seq<char>>::empty());
    push_named(&mut out, dir.as_str(), low.as_str());
    let mut k: usize = 0;
    while k < 5
        invariant
            k <= 5,
            out@.map_values(|s: String| s@) == Seq::<Seq<char>>::empty() + named_candidates(dir@, lowercase(stem@))
                + (if k > 0 { named_candidates(dir@, cover_names()[0]) } else { Seq::empty() })
                + (if k > 1 { named_candidates(dir@, cover_names()[1]) } else { Seq::empty() })
                + (if k > 2 { named_candidates(dir@, cover_names()[2]) } else { Seq::empty() })
                + (if k > 3 { named_candidates(dir@, cover_names()[3]) } else { Seq::empty() })
                + (if k > 4 { named_candidates(dir@, cover_names()[4]) } else { Seq::empty() }),
        decreases 5 - k,
    {
        push_named(&mut out, dir.as_str(), cover_name(k));
        k = k + 1;
    }
    proof {
        assert(out@.map_values(|s: String| s@) =~= named_candidates(dir@, lowercase(stem@)) + named_candidates(
            dir@,
            cover_names()[0],
        ) + named_candidates(dir@, cover_names()[1]) + named_candidates(dir@, cover_names()[2])
            + named_candidates(dir@, cover_names()[3]) + named_candidates(dir@, cover_names()[4]));
    }
    Some(out)
}

/// Whether the file at `path` is named as a picture is (by its extension).
pub fn is_image_file_name(path: &str) -> (r: bool)
    ensures
        r == is_image_path(path@),
{
    match extension(path) {
        Some(e) => {
            let low = to_lowercase(e.as_str());
            let lv = chars_of(low.as_str());
            let mut i: usize = 0;
            while i < 5
                invariant
                    i <= 5,
                    lv@ == low@,
                    low@ == lowercase(e@),
                    path_extension(path@) == Some(e@),
                    forall|j: int| 0 <= j < i ==> image_exts()[j] != low@,
                decreases 5 - i,
            {
                if str_eq_chars(image_ext(i), &lv) {
                    assert(image_exts()[i as int] == low@);
                    return true;
                }
                i = i + 1;
            }
            assert(!image_exts().contains(low@));
            false
        },
        None => false,
    }
}

} // verus!
