//! Where a bug report is sent: the report's title and body placed into the
//! configured URL (a web form or a `mailto:` address).
use vstd::prelude::*;
use crate::num::{hex_pad2, is_upper_hex_char, lemma_hex_pad2_upper, push_hex_pad2};
use crate::text::{
    chars_contain, chars_of, chars_start_with_str, contains_seq, push_all, replace_all, replace_chars,
    starts_with, string_from_chars,
};
use vstd::utf8::encode_utf8;

verus! {

/// Bytes that stay as they are in a query value.
pub open spec fn is_unreserved_byte(b: u8) -> bool {
    (48 <= b && b <= 57) || (65 <= b && b <= 90) || (97 <= b && b <= 122) || b == 45 || b == 95 || b
        == 46 || b == 126
}

/// One UTF-8 byte in a query value: itself when unreserved, else `%XX`.
pub open spec fn query_byte(b: u8) -> Seq<char> {
    if is_unreserved_byte(b) {
        seq![b as char]
    } else {
        seq!['%'] + hex_pad2(b as nat)
    }
}

pub open spec fn query_bytes(bs: Seq<u8>) -> Seq<char>
    decreases bs.len(),
{
    if bs.len() == 0 {
        Seq::empty()
    } else {
        query_bytes(bs.drop_last()) + query_byte(bs.last())
    }
}

/// A text percent-encoded byte by byte for a URL query.
pub open spec fn percent_encoded(s: Seq<char>) -> Seq<char> {
    query_bytes(encode_utf8(s))
}

pub fn percent_encode_query_value(value: &str) -> (r: String)
    ensures
        r@ == percent_encoded(value@),
{
    let bytes = value.as_bytes();
    let mut out: Vec<char> = Vec::new();
    let mut i: usize = 0;
    while i < bytes.len()
        invariant
            i <= bytes.len(),
            bytes@ == encode_utf8(value@),
            out@ == query_bytes(bytes@.take(i as int)),
        decreases bytes.len() - i,
    {
        let b = bytes[i];
        let keep = (48 <= b && b <= 57) || (65 <= b && b <= 90) || (97 <= b && b <= 122) || b == 45
            || b == 95 || b == 46 || b == 126;
        if keep {
            out.push(b as char);
        } else {
            out.push('%');
            push_hex_pad2(&mut out, b as u64);
        }
        proof {
            assert(bytes@.take(i + 1).drop_last() =~= bytes@.take(i as int));
            assert(bytes@.take(i + 1).last() == b);
            assert(out@ =~= query_bytes(bytes@.take(i as int)) + query_byte(b));
        }
        i = i + 1;
    }
    proof {
        assert(bytes@.take(bytes.len() as int) =~= bytes@);
    }
    string_from_chars(out.as_slice())
}

/// The address of a bug report: the title and body, percent-encoded, replace
/// `{title}` and `{body}` in `base` when it holds either; otherwise they are
/// appended as query parameters (`subject` for a `mailto:` address, `title`
/// otherwise), after `?` or, when `base` already has a query, after `&`.
pub open spec fn bug_report_target(base: Seq<char>, title: Seq<char>, body: Seq<char>) -> Seq<char> {
    let t = percent_encoded(title);
    let b = percent_encoded(body);
    if contains_seq(base, "{title}"@) || contains_seq(base, "{body}"@) {
        replace_all(replace_all(base, "{title}"@, t), "{body}"@, b)
    } else {
        let sep = if contains_seq(base, "?"@) {
            seq!['&']
        } else {
            seq!['?']
        };
        let name = if starts_with(base, "mailto:"@) {
            "subject="@
        } else {
            "title="@
        };
        base + sep + name + t + "&body="@ + b
    }
}

pub fn build_bug_report_target(base: &str, title: &str, body: &str) -> (r: String)
    ensures
        r@ == bug_report_target(base@, title@, body@),
{
    let t = chars_of(percent_encode_query_value(title).as_str());
    let b = chars_of(percent_encode_query_value(body).as_str());
    let bv = chars_of(base);
    let tp = chars_of("{title}");
    let bp = chars_of("{body}");
    proof {
        reveal_strlit("{title}");
        reveal_strlit("{body}");
    }
    if chars_contain(&bv, &tp) || chars_contain(&bv, &bp) {
        let once = replace_chars(&bv, &tp, &t);
        let twice = replace_chars(&once, &bp, &b);
        return string_from_chars(twice.as_slice());
    }
    let mut out = bv.clone();
    if chars_contain(&bv, &chars_of("?")) {
        out.push('&');
    } else {
        out.push('?');
    }
    if chars_start_with_str(&bv, "mailto:") {
        push_all(&mut out, &chars_of("subject="));
    } else {
        push_all(&mut out, &chars_of("title="));
    }
    push_all(&mut out, &t);
    push_all(&mut out, &chars_of("&body="));
    push_all(&mut out, &b);
    string_from_chars(out.as_slice())
}

/// A character that may stand in a URL query value as it is: an ASCII letter or
/// digit, `-`, `_`, `.` or `~`.
pub open spec fn is_unreserved_char(c: char) -> bool {
    ('0' <= c && c <= '9') || ('A' <= c && c <= 'Z') || ('a' <= c && c <= 'z') || c == '-' || c == '_'
        || c == '.' || c == '~'
}

proof fn lemma_query_bytes_safe(bs: Seq<u8>)
    ensures
        forall|i: int|
            0 <= i < query_bytes(bs).len() ==> is_unreserved_char(#[trigger] query_bytes(bs)[i])
                || query_bytes(bs)[i] == '%',
    decreases bs.len(),
{
    if bs.len() > 0 {
        let d = bs.drop_last();
        lemma_query_bytes_safe(d);
        let b = bs.last();
        let head = query_bytes(d);
        let tail = query_byte(b);
        let all = query_bytes(bs);
        assert(all == head + tail);
        if is_unreserved_byte(b) {
            assert((b as char) as u32 == b as u32);
            assert(is_unreserved_char(b as char));
        } else {
            lemma_hex_pad2_upper(b as nat);
        }
        assert forall|i: int| 0 <= i < all.len() implies is_unreserved_char(#[trigger] all[i]) || all[i] == '%' by {
            if i < head.len() {
                assert(all[i] == head[i]);
            } else {
                let j = i - head.len();
                assert(all[i] == tail[j]);
                if !is_unreserved_byte(b) && j > 0 {
                    assert(tail[j] == hex_pad2(b as nat)[j - 1]);
                    assert(is_upper_hex_char(hex_pad2(b as nat)[j - 1]));
                }
            }
        }
    }
}

/// A percent-encoded value holds only unreserved characters and `%` (so no
/// `&`, `=`, `#` or space that would end or split the query value).
pub proof fn percent_encoding_is_query_safe(s: Seq<char>)
    ensures
        forall|i: int|
            0 <= i < percent_encoded(s).len() ==> is_unreserved_char(#[trigger] percent_encoded(s)[i])
                || percent_encoded(s)[i] == '%',
{
    lemma_query_bytes_safe(encode_utf8(s));
}

} // verus!
