//! Subtitle search through the OpenSubtitles REST API: the requests it makes
//! and how its answers become results.
use vstd::prelude::*;
use crate::num::{hex_pad2, is_upper_hex_char, lemma_hex_pad2_upper, push_hex_pad2};
use crate::text::{chars_of, push_all, string_from_chars};
use crate::playlist::opt_view;

verus! {

/// One subtitle that the search found.
#[derive(Debug, Clone)]
pub struct SubResult {
    pub language: String,
    pub title: String,
    pub hearing_impaired: bool,
    pub download_url: String,
    pub release: String,
    pub file_id: u32,
}

/// The progress of a search or a download.
#[derive(Debug, Clone)]
pub enum SubSearchStatus {
    Searching,
    Results(Vec<SubResult>),
    Downloading,
    /// The subtitle was saved at this path.
    Done(String),
    Error(String),
}

/// The key that stands in the sources until a real API key is put there.
pub const API_KEY_PLACEHOLDER: &'static str = "REEMPLAZAR_CON_TU_OPENSUBTITLES_API_KEY";

/// Whether a real API key is set: any key but the placeholder.
pub fn is_configured(api_key: &str) -> (r: bool)
    ensures
        r == (api_key@ != API_KEY_PLACEHOLDER@),
{
    let k = chars_of(api_key);
    !crate::text::str_eq_chars(API_KEY_PLACEHOLDER, &k)
}

/// Characters that stay as they are in a search query.
pub open spec fn is_url_safe(c: char) -> bool {
    ('A' <= c && c <= 'Z') || ('a' <= c && c <= 'z') || ('0' <= c && c <= '9') || c == '-' || c == '_'
        || c == '.' || c == '~'
}

/// One character of a search query: itself when safe, `+` for a space, else
/// `%` and its code point in hexadecimal.
pub open spec fn url_char(c: char) -> Seq<char> {
    if is_url_safe(c) {
        seq![c]
    } else if c == ' ' {
        seq!['+']
    } else {
        seq!['%'] + hex_pad2((c as u32) as nat)
    }
}

pub open spec fn url_encoded(s: Seq<char>) -> Seq<char>
    decreases s.len(),
{
    if s.len() == 0 {
        Seq::empty()
    } else {
        url_encoded(s.drop_last()) + url_char(s.last())
    }
}

/// Encodes a search query for a URL.
pub fn urlenc(s: &str) -> (r: String)
    ensures
        r@ == url_encoded(s@),
{
    let v = chars_of(s);
    let mut out: Vec<char> = Vec::new();
    let mut i: usize = 0;
    while i < v.len()
        invariant
            i <= v.len(),
            out@ == url_encoded(v@.take(i as int)),
        decreases v.len() - i,
    {
        let c = v[i];
        if ('A' <= c && c <= 'Z') || ('a' <= c && c <= 'z') || ('0' <= c && c <= '9') || c == '-' || c
            == '_' || c == '.' || c == '~' {
            out.push(c);
        } else if c == ' ' {
            out.push('+');
        } else {
            out.push('%');
            let code: u64 = c as u32 as u64;
            push_hex_pad2(&mut out, code);
        }
        proof {
            assert(v@.take(i + 1).drop_last() =~= v@.take(i as int));
            assert(v@.take(i + 1).last() == c);
            assert(out@ =~= url_encoded(v@.take(i as int)) + url_char(c));
        }
        i = i + 1;
    }
    proof {
        assert(v@.take(v.len() as int) =~= v@);
    }
    string_from_chars(out.as_slice())
}

/// The search request for a title in a language.
pub open spec fn search_url_text(base: Seq<char>, query: Seq<char>, lang: Seq<char>) -> Seq<char> {
    base + "/subtitles?query="@ + url_encoded(query) + "&languages="@ + lang + "&per_page=20"@
}

pub fn search_url(base: &str, query: &str, lang: &str) -> (r: String)
    ensures
        r@ == search_url_text(base@, query@, lang@),
{
    let mut out = chars_of(base);
    push_all(&mut out, &chars_of("/subtitles?query="));
    push_all(&mut out, &chars_of(urlenc(query).as_str()));
    push_all(&mut out, &chars_of("&languages="));
    push_all(&mut out, &chars_of(lang));
    push_all(&mut out, &chars_of("&per_page=20"));
    string_from_chars(out.as_slice())
}

/// The endpoint that hands out download links.
pub fn download_url(base: &str) -> (r: String)
    ensures
        r@ == base@ + "/download"@,
{
    let mut out = chars_of(base);
    push_all(&mut out, &chars_of("/download"));
    string_from_chars(out.as_slice())
}

/// The name a downloaded subtitle is saved under: the name the server gives,
/// or `subtitle_<lang>.srt`.
pub fn subtitle_file_name(server_name: Option<String>, lang: &str) -> (r: String)
    ensures
        r@ == match opt_view(server_name) {
            Some(n) => n,
            None => "subtitle_"@ + lang@ + ".srt"@,
        },
{
    match server_name {
        Some(n) => n,
        None => {
            let mut out = chars_of("subtitle_");
            push_all(&mut out, &chars_of(lang));
            push_all(&mut out, &chars_of(".srt"));
            string_from_chars(out.as_slice())
        },
    }
}

/// One entry of the search answer, with the fields the results are made of.
pub struct SubEntry {
    pub language: String,
    pub release: Option<String>,
    pub hearing_impaired: Option<bool>,
    pub file_ids: Vec<u32>,
    /// The movie name of the entry's feature details, when given.
    pub movie_name: Option<String>,
}

/// The result that an entry with files becomes.
pub struct SubResultView {
    pub language: Seq<char>,
    pub title: Seq<char>,
    pub hearing_impaired: bool,
    pub download_url: Seq<char>,
    pub release: Seq<char>,
    pub file_id: u32,
}

pub open spec fn result_view(r: SubResult) -> SubResultView {
    SubResultView {
        language: r.language@,
        title: r.title@,
        hearing_impaired: r.hearing_impaired,
        download_url: r.download_url@,
        release: r.release@,
        file_id: r.file_id,
    }
}

/// An entry as a result: titled by its movie name or else by the query, its
/// first file, hearing-impaired only when marked so, release empty when absent.
pub open spec fn entry_result(e: SubEntry, query: Seq<char>, base: Seq<char>) -> SubResultView {
    SubResultView {
        language: e.language@,
        title: match opt_view(e.movie_name) {
            Some(n) => n,
            None => query,
        },
        hearing_impaired: match e.hearing_impaired {
            Some(h) => h,
            None => false,
        },
        download_url: base + "/download"@,
        release: match opt_view(e.release) {
            Some(r) => r,
            None => Seq::empty(),
        },
        file_id: e.file_ids@[0],
    }
}

/// The results of a search answer: the entries that list a file, in order.
pub open spec fn entries_results(es: Seq<SubEntry>, query: Seq<char>, base: Seq<char>) -> Seq<SubResultView>
    decreases es.len(),
{
    if es.len() == 0 {
        Seq::empty()
    } else {
        let rest = entries_results(es.drop_last(), query, base);
        if es.last().file_ids@.len() > 0 {
            rest.push(entry_result(es.last(), query, base))
        } else {
            rest
        }
    }
}

/// Turns the entries of a search answer into results.
pub fn results_from_entries(query: &str, base: &str, entries: &Vec<SubEntry>) -> (r: Vec<SubResult>)
    ensures
        r@.map_values(|x: SubResult| result_view(x)) == entries_results(entries@, query@, base@),
{
    let dl = download_url(base);
    let mut out: Vec<SubResult> = Vec::new();
    let mut i: usize = 0;
    while i < entries.len()
        invariant
            i <= entries.len(),
            dl@ == base@ + "/download"@,
            out@.map_values(|x: SubResult| result_view(x)) == entries_results(
                entries@.take(i as int),
                query@,
                base@,
            ),
        decreases entries.len() - i,
    {
        let e = &entries[i];
        let ghost before = out@;
        if e.file_ids.len() > 0 {
            let title = match &e.movie_name {
                Some(n) => n.clone(),
                None => String::from_str(query),
            };
            let release = match &e.release {
                Some(r) => r.clone(),
                None => String::new(),
            };
            let hearing = match e.hearing_impaired {
                Some(h) => h,
                None => false,
            };
            let res = SubResult {
                language: e.language.clone(),
                title,
                hearing_impaired: hearing,
                download_url: dl.clone(),
                release,
                file_id: e.file_ids[0],
            };
            assert(result_view(res) == entry_result(entries@[i as int], query@, base@));
            out.push(res);
            proof {
                assert(out@ == before.push(res));
                assert(out@.map_values(|x: SubResult| result_view(x)) =~= before.map_values(
                    |x: SubResult| result_view(x),
                ).push(result_view(res)));
            }
        }
        proof {
            assert(entries@.take(i + 1).drop_last() =~= entries@.take(i as int));
            assert(entries@.take(i + 1).last() == entries@[i as int]);
        }
        i = i + 1;
    }
    proof {
        assert(entries@.take(entries.len() as int) =~= entries@);
    }
    out
}

/// The languages offered for search: ISO 639-1 code and name.
pub open spec fn language_table() -> Seq<(Seq<char>, Seq<char>)> {
    seq![
        ("es"@, "Español"@),
        ("en"@, "Inglés"@),
        ("fr"@, "Francés"@),
        ("de"@, "Alemán"@),
        ("pt"@, "Portugués"@),
        ("it"@, "Italiano"@),
        ("ja"@, "Japonés"@),
        ("zh"@, "Chino"@),
        ("ko"@, "Coreano"@),
        ("ru"@, "Ruso"@),
        ("ar"@, "\u{c3}\u{81}rabe"@),
        ("nl"@, "Holandés"@),
    ]
}

/// The languages offered for search, by ISO 639-1 code.
pub fn common_languages() -> (r: &'static [(&'static str, &'static str)])
    ensures
        r@.map_values(|p: (&str, &str)| (p.0@, p.1@)) == language_table(),
{
    &[
        ("es", "Español"),
        ("en", "Inglés"),
        ("fr", "Francés"),
        ("de", "Alemán"),
        ("pt", "Portugués"),
        ("it", "Italiano"),
        ("ja", "Japonés"),
        ("zh", "Chino"),
        ("ko", "Coreano"),
        ("ru", "Ruso"),
        ("ar", "\u{c3}\u{81}rabe"),
        ("nl", "Holandés"),
    ]
}

/// An encoded search query holds only URL-safe characters, `+` and `%` (so no
/// `&`, `=`, `#` or space that would end or split the query value).
pub proof fn url_encoding_is_query_safe(s: Seq<char>)
    ensures
        forall|i: int|
            0 <= i < url_encoded(s).len() ==> is_url_safe(#[trigger] url_encoded(s)[i]) || url_encoded(s)[i] == '+'
                || url_encoded(s)[i] == '%',
    decreases s.len(),
{
    if s.len() > 0 {
        let d = s.drop_last();
        url_encoding_is_query_safe(d);
        let c = s.last();
        let head = url_encoded(d);
        let tail = url_char(c);
        let all = url_encoded(s);
        assert(all == head + tail);
        lemma_hex_pad2_upper((c as u32) as nat);
        assert forall|i: int| 0 <= i < all.len() implies is_url_safe(#[trigger] all[i]) || all[i] == '+' || all[i]
            == '%' by {
            if i < head.len() {
                assert(all[i] == head[i]);
            } else {
                let j = i - head.len();
                assert(all[i] == tail[j]);
                if !is_url_safe(c) && c != ' ' && j > 0 {
                    assert(tail[j] == hex_pad2((c as u32) as nat)[j - 1]);
                    assert(is_upper_hex_char(hex_pad2((c as u32) as nat)[j - 1]));
                }
            }
        }
    }
}

} // verus!
