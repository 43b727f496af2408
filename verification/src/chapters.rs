//! Chapters embedded in MKV/MP4 files.
use vstd::prelude::*;
use crate::num::{dec_digits, push_dec};
use crate::text::{chars_of, string_from_chars};
use crate::playlist::opt_view;

verus! {

/// The title of chapter `index` (from 0): its own title, or `Capítulo <index + 1>`
/// when it has none or an empty one.
pub open spec fn chapter_title_text(index: nat, title: Option<Seq<char>>) -> Seq<char> {
    match title {
        Some(t) => if t.len() > 0 {
            t
        } else {
            "Capítulo "@ + dec_digits(index + 1)
        },
        None => "Capítulo "@ + dec_digits(index + 1),
    }
}

pub fn chapter_title(index: usize, title: Option<String>) -> (r: String)
    requires
        index < u64::MAX,
    ensures
        r@ == chapter_title_text(index as nat, opt_view(title)),
{
    match title {
        Some(t) => {
            if !t.as_str().is_empty() {
                return t;
            }
        },
        None => {},
    }
    let mut v = chars_of("Capítulo ");
    push_dec(&mut v, (index as u64) + 1);
    string_from_chars(v.as_slice())
}

} // verus!
