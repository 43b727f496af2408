//! Interface languages and the messages that the library itself shows.
use vstd::prelude::*;

verus! {

/// The interface language.
#[derive(Debug, Clone, Copy, PartialEq, Eq, Structural)]
pub enum Language {
    Es,
    En,
}

/// The message shown for `key` in `language`; an unknown key is shown as itself.
pub open spec fn message(language: Language, key: Seq<char>) -> Seq<char> {
    if key == "repeat.none"@ {
        if language == Language::Es { "Sin repetición"@ } else { "No repeat"@ }
    } else if key == "repeat.one"@ {
        if language == Language::Es { "Repetir uno"@ } else { "Repeat one"@ }
    } else if key == "repeat.all"@ {
        if language == Language::Es { "Repetir todo"@ } else { "Repeat all"@ }
    } else {
        key
    }
}

/// Translates a message key.
pub fn tr(language: Language, key: &'static str) -> (r: &'static str)
    ensures
        r@ == message(language, key@),
{
    let k = crate::text::chars_of(key);
    let es = language == Language::Es;
    if crate::text::str_eq_chars("repeat.none", &k) {
        if es { "Sin repetición" } else { "No repeat" }
    } else if crate::text::str_eq_chars("repeat.one", &k) {
        if es { "Repetir uno" } else { "Repeat one" }
    } else if crate::text::str_eq_chars("repeat.all", &k) {
        if es { "Repetir todo" } else { "Repeat all" }
    } else {
        key
    }
}

} // verus!
