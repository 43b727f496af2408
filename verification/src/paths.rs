//! File-system paths as text.
//!
//! Paths are held as `String`s. Taking a path apart is left to `std::path`,
//! whose results are named here (the name of each function stands for what the
//! `std::path` call returns on the given text, under the path rules of the
//! platform the library is built for), so that the library states its
//! behaviour in terms of exactly the path rules that the standard library applies.
//! The file stem and the extension, which the documentation of `std::path`
//! states in a few lines from the file name, are computed and proved here.
use vstd::prelude::*;
use crate::text::{chars_of, slice_chars, string_from_chars};

verus! {

/// What `Path::file_name` gives for the path text: its last normal component.
pub uninterp spec fn path_file_name(path: Seq<char>) -> Option<Seq<char>>;

/// The index of the last `.` in the text, or -1 when there is none.
pub open spec fn last_dot(s: Seq<char>) -> int
    decreases s.len(),
{
    if s.len() == 0 {
        -1
    } else if s.last() == '.' {
        s.len() - 1
    } else {
        last_dot(s.drop_last())
    }
}

/// `Path::file_stem` as its documentation states it: none without a file name;
/// the whole file name when it has no `.` or only a leading one; otherwise the
/// part before the final `.`.
pub open spec fn path_file_stem(path: Seq<char>) -> Option<Seq<char>> {
    match path_file_name(path) {
        Some(n) => if last_dot(n) <= 0 {
            Some(n)
        } else {
            Some(n.take(last_dot(n)))
        },
        None => None,
    }
}

/// `Path::extension` as its documentation states it: none without a file name,
/// without a `.` or with only a leading one; otherwise the part after the final `.`.
pub open spec fn path_extension(path: Seq<char>) -> Option<Seq<char>> {
    match path_file_name(path) {
        Some(n) => if last_dot(n) <= 0 {
            None
        } else {
            Some(n.skip(last_dot(n) + 1))
        },
        None => None,
    }
}

/// What `Path::parent` gives for the path text.
pub uninterp spec fn path_parent(path: Seq<char>) -> Option<Seq<char>>;

/// What `Path::join` gives for a base path and a path to append.
pub uninterp spec fn path_join(base: Seq<char>, rel: Seq<char>) -> Seq<char>;

/// What `Path::is_absolute` gives for the path text.
pub uninterp spec fn path_is_absolute(path: Seq<char>) -> bool;

/// What `PathBuf == PathBuf` gives: whether two paths have the same components.
pub uninterp spec fn path_eq(a: Seq<char>, b: Seq<char>) -> bool;

/// `Path::file_name`, the result converted to a `String`.
/// The contract claims only that the result is the named value `path_file_name`.
#[verifier::external_body]
pub(crate) fn file_name(path: &str) -> (r: Option<String>)
    ensures
        match r {
            Some(n) => path_file_name(path@) == Some(n@),
            None => path_file_name(path@) is None,
        },
{
    match std::path::Path::new(path).file_name() {
        Some(n) => Some(n.to_string_lossy().into_owned()),
        None => None,
    }
}

proof fn lemma_last_dot_bounds(s: Seq<char>)
    ensures
        -1 <= last_dot(s) < s.len(),
        last_dot(s) >= 0 ==> s[last_dot(s)] == '.',
    decreases s.len(),
{
    if s.len() > 0 && s.last() != '.' {
        lemma_last_dot_bounds(s.drop_last());
    }
}

/// The index of the last `.` in `v`, if any.
fn find_last_dot(v: &Vec<char>) -> (r: Option<usize>)
    ensures
        match r {
            Some(i) => i == last_dot(v@),
            None => last_dot(v@) == -1,
        },
{
    let mut i: usize = v.len();
    assert(v@.take(v.len() as int) =~= v@);
    while i > 0
        invariant
            i <= v.len(),
            last_dot(v@.take(i as int)) == last_dot(v@),
        decreases i,
    {
        assert(v@.take(i as int).drop_last() =~= v@.take(i - 1));
        if v[i - 1] == '.' {
            return Some(i - 1);
        }
        i = i - 1;
    }
    None
}

/// `Path::file_stem`: the file name without its extension.
pub(crate) fn file_stem(path: &str) -> (r: Option<String>)
    ensures
        match r {
            Some(n) => path_file_stem(path@) == Some(n@),
            None => path_file_stem(path@) is None,
        },
{
    match file_name(path) {
        Some(n) => {
            let v = chars_of(n.as_str());
            proof {
                lemma_last_dot_bounds(v@);
            }
            match find_last_dot(&v) {
                Some(i) => if i > 0 {
                    Some(string_from_chars(slice_chars(&v, 0, i).as_slice()))
                } else {
                    Some(n)
                },
                None => Some(n),
            }
        },
        None => None,
    }
}

/// `Path::extension`: the part of the file name after its final `.`.
pub(crate) fn extension(path: &str) -> (r: Option<String>)
    ensures
        match r {
            Some(n) => path_extension(path@) == Some(n@),
            None => path_extension(path@) is None,
        },
{
    match file_name(path) {
        Some(n) => {
            let v = chars_of(n.as_str());
            proof {
                lemma_last_dot_bounds(v@);
            }
            match find_last_dot(&v) {
                Some(i) => if i > 0 {
                    Some(string_from_chars(slice_chars(&v, i + 1, v.len()).as_slice()))
                } else {
                    None
                },
                None => None,
            }
        },
        None => None,
    }
}

/// `Path::parent`, the result converted to a `String`.
/// The contract claims only that the result is the named value `path_parent`.
#[verifier::external_body]
pub(crate) fn parent(path: &str) -> (r: Option<String>)
    ensures
        match r {
            Some(n) => path_parent(path@) == Some(n@),
            None => path_parent(path@) is None,
        },
{
    match std::path::Path::new(path).parent() {
        Some(n) => Some(n.to_string_lossy().into_owned()),
        None => None,
    }
}

/// `Path::join`, the result converted to a `String`.
/// The contract claims only that the result is the named value `path_join`.
#[verifier::external_body]
pub(crate) fn join(base: &str, rel: &str) -> (r: String)
    ensures
        r@ == path_join(base@, rel@),
{
    std::path::Path::new(base).join(rel).to_string_lossy().into_owned()
}

/// `Path::is_absolute`.
/// The contract claims only that the result is the named value `path_is_absolute`.
#[verifier::external_body]
pub(crate) fn is_absolute(path: &str) -> (r: bool)
    ensures
        r == path_is_absolute(path@),
{
    std::path::Path::new(path).is_absolute()
}

/// `PathBuf == PathBuf` on the two paths.
/// Besides naming the result `path_eq`, the contract claims what the `Eq`
/// implementation promises: the comparison is symmetric, and a path equals itself.
#[verifier::external_body]
pub(crate) fn same_path(a: &str, b: &str) -> (r: bool)
    ensures
        r == path_eq(a@, b@),
        r == path_eq(b@, a@),
        a@ == b@ ==> r,
{
    std::path::Path::new(a) == std::path::Path::new(b)
}

} // verus!
