//! Colours written as `#RRGGBB`.
use vstd::prelude::*;
use crate::num::{
    all_hex_digits, hex_char, hex_digits, hex_pad2, hex_value, lemma_hex_char,
    parse_hex_u8, parse_hex_u8_spec, push_hex_pad2, unsigned_digits,
};
use crate::text::{back_ws_to, chars_of, is_ws, skip_ws_from, slice_chars, string_from_chars, trim, trim_chars};
use vstd::utf8::{
    encode_utf8, encode_utf8_valid_utf8, is_char_boundary, is_char_boundary_iff_not_is_continuation_byte,
    is_continuation_byte,
};

verus! {

/// The text with every leading `#` removed (`trim_start_matches('#')`).
pub open spec fn strip_hashes(s: Seq<char>) -> Seq<char>
    decreases s.len(),
{
    if s.len() > 0 && s[0] == '#' {
        strip_hashes(s.skip(1))
    } else {
        s
    }
}

/// The hexadecimal part of a colour setting: trimmed, without leading `#`s.
pub open spec fn hex_part(s: Seq<char>) -> Seq<char> {
    strip_hashes(trim(s))
}

/// The inputs on which reading the colour would cut a character in two: six
/// bytes long, but not split into pairs at character boundaries.
pub open spec fn rgb_split_breaks_char(s: Seq<char>) -> bool {
    let b = encode_utf8(hex_part(s));
    b.len() == 6 && !(is_char_boundary(b, 2) && is_char_boundary(b, 4))
}

/// `#RRGGBB` read as three bytes: after trimming and removing leading `#`s,
/// exactly six bytes, split into three pairs that each read as a number in base
/// 16 (`u8::from_str_radix`, which also takes a `+` before a single digit).
pub open spec fn parse_hex_rgb_spec(s: Seq<char>) -> Option<(u8, u8, u8)> {
    let h = hex_part(s);
    if h.len() == 6 && encode_utf8(h).len() == 6 {
        match (
            parse_hex_u8_spec(h.subrange(0, 2)),
            parse_hex_u8_spec(h.subrange(2, 4)),
            parse_hex_u8_spec(h.subrange(4, 6)),
        ) {
            (Some(r), Some(g), Some(b)) => Some((r, g, b)),
            _ => None,
        }
    } else {
        None
    }
}

/// `#RRGGBB` for a colour, each part two uppercase hexadecimal digits.
pub open spec fn rgb_hex_text(r: u8, g: u8, b: u8) -> Seq<char> {
    seq!['#'] + hex_pad2(r as nat) + hex_pad2(g as nat) + hex_pad2(b as nat)
}

proof fn lemma_utf8_len_bound(cs: Seq<char>)
    ensures
        encode_utf8(cs).len() <= 4 * cs.len(),
    decreases cs.len(),
{
    if cs.len() > 0 {
        lemma_utf8_len_bound(cs.drop_first());
    }
}

fn strip_leading_hashes(v: &Vec<char>) -> (r: Vec<char>)
    ensures
        r@ == strip_hashes(v@),
{
    let mut i: usize = 0;
    assert(v@.skip(0) =~= v@);
    while i < v.len() && v[i] == '#'
        invariant
            i <= v.len(),
            strip_hashes(v@.skip(i as int)) == strip_hashes(v@),
        decreases v.len() - i,
    {
        assert(v@.skip(i as int).skip(1) =~= v@.skip(i + 1));
        i = i + 1;
    }
    let r = slice_chars(v, i, v.len());
    assert(r@ =~= v@.skip(i as int));
    r
}

/// Reads a colour setting such as `#FFFFFF`.
pub fn parse_hex_rgb(s: &str) -> (r: Option<(u8, u8, u8)>)
    requires
        !rgb_split_breaks_char(s@),
    ensures
        r == parse_hex_rgb_spec(s@),
{
    let v = chars_of(s);
    let t = trim_chars(&v);
    let h = strip_leading_hashes(&t);
    let hs = string_from_chars(h.as_slice());
    proof {
        lemma_utf8_len_bound(h@);
    }
    if h.len() != 6 || hs.as_str().len() != 6 {
        return None;
    }
    let a = slice_chars(&h, 0, 2);
    let b = slice_chars(&h, 2, 4);
    let c = slice_chars(&h, 4, 6);
    match (parse_hex_u8(&a), parse_hex_u8(&b), parse_hex_u8(&c)) {
        (Some(x), Some(y), Some(z)) => Some((x, y, z)),
        _ => None,
    }
}

/// The colour as `#RRGGBB`, as mpv's `sub-color` takes it.
pub fn rgb_hex(r: u8, g: u8, b: u8) -> (s: String)
    ensures
        s@ == rgb_hex_text(r, g, b),
{
    let mut v: Vec<char> = Vec::new();
    v.push('#');
    push_hex_pad2(&mut v, r as u64);
    push_hex_pad2(&mut v, g as u64);
    push_hex_pad2(&mut v, b as u64);
    assert(v@ =~= rgb_hex_text(r, g, b));
    string_from_chars(v.as_slice())
}

/// A character that UTF-8 writes as one byte, and that is neither
/// whitespace nor `#`.
spec fn plain_ascii(c: char) -> bool {
    (c as u32) < 0x80 && !is_ws(c) && c != '#' && c != '+'
}

proof fn lemma_hex_pad2(n: nat)
    requires
        n < 256,
    ensures
        hex_pad2(n).len() == 2,
        plain_ascii(hex_pad2(n)[0]),
        plain_ascii(hex_pad2(n)[1]),
        parse_hex_u8_spec(hex_pad2(n)) == Some(n as u8),
{
    let h = hex_pad2(n);
    if n < 16 {
        lemma_hex_char(n);
        assert(h.drop_last() =~= seq!['0']);
        assert(seq!['0'].drop_last() =~= Seq::<char>::empty());
        assert(hex_value(Seq::<char>::empty()) == 0);
        assert(seq!['0'].last() == '0');
        assert(hex_value(seq!['0']) == 0);
    } else {
        lemma_hex_char(n / 16);
        lemma_hex_char(n % 16);
        assert(hex_digits(n / 16) == seq![hex_char(n / 16)]);
        assert(h =~= seq![hex_char(n / 16), hex_char(n % 16)]);
        assert(h.drop_last() =~= seq![hex_char(n / 16)]);
        assert(seq![hex_char(n / 16)].drop_last() =~= Seq::<char>::empty());
        assert(hex_value(Seq::<char>::empty()) == 0);
        assert(seq![hex_char(n / 16)].last() == hex_char(n / 16));
        assert(hex_value(seq![hex_char(n / 16)]) == n / 16);
    }
    assert(unsigned_digits(h) == h);
    assert(all_hex_digits(h));
}

proof fn lemma_ascii_utf8(cs: Seq<char>)
    requires
        forall|i: int| 0 <= i < cs.len() ==> (#[trigger] cs[i] as u32) < 0x80,
    ensures
        encode_utf8(cs).len() == cs.len(),
        forall|i: int| 0 <= i < cs.len() ==> #[trigger] encode_utf8(cs)[i] < 0x80,
    decreases cs.len(),
{
    if cs.len() > 0 {
        let rest = cs.drop_first();
        assert forall|i: int| 0 <= i < rest.len() implies (#[trigger] rest[i] as u32) < 0x80 by {
            assert(rest[i] == cs[i + 1]);
        }
        lemma_ascii_utf8(rest);
        let c = cs[0] as u32;
        assert(c < 0x80);
        let lead = (c & 0x7F) as u8;
        assert(lead < 0x80) by (bit_vector)
            requires
                lead == (c & 0x7F) as u8,
        ;
        assert forall|i: int| 0 <= i < cs.len() implies #[trigger] encode_utf8(cs)[i] < 0x80 by {
            if i > 0 {
                assert(encode_utf8(cs)[i] == encode_utf8(rest)[i - 1]);
            }
        }
    }
}

/// A colour written as `#RRGGBB` reads back as the same colour (and the text
/// is one that may be read).
pub proof fn written_colour_reads_back(r: u8, g: u8, b: u8)
    ensures
        !rgb_split_breaks_char(rgb_hex_text(r, g, b)),
        parse_hex_rgb_spec(rgb_hex_text(r, g, b)) == Some((r, g, b)),
{
    let t = rgb_hex_text(r, g, b);
    let pr = hex_pad2(r as nat);
    let pg = hex_pad2(g as nat);
    let pb = hex_pad2(b as nat);
    lemma_hex_pad2(r as nat);
    lemma_hex_pad2(g as nat);
    lemma_hex_pad2(b as nat);
    let h = pr + pg + pb;
    assert(t =~= seq!['#'] + h);
    assert forall|i: int| 0 <= i < h.len() implies plain_ascii(#[trigger] h[i]) by {
        if i < 2 {
            assert(h[i] == pr[i]);
        } else if i < 4 {
            assert(h[i] == pg[i - 2]);
        } else {
            assert(h[i] == pb[i - 4]);
        }
    }
    // trimming changes nothing
    assert(t[0] == '#');
    assert(!is_ws('#'));
    assert(skip_ws_from(t, 0) == 0);
    assert(t[6] == h[5]);
    assert(back_ws_to(t, 0, 7) == 7);
    assert(trim(t) =~= t);
    // the leading `#` goes
    assert(t.skip(1) =~= h);
    assert(strip_hashes(h) == h);
    assert(hex_part(t) == h);
    // six one-byte characters
    assert forall|i: int| 0 <= i < h.len() implies (#[trigger] h[i] as u32) < 0x80 by {
        assert(plain_ascii(h[i]));
    }
    lemma_ascii_utf8(h);
    let bytes = encode_utf8(h);
    encode_utf8_valid_utf8(h);
    is_char_boundary_iff_not_is_continuation_byte(bytes, 2);
    is_char_boundary_iff_not_is_continuation_byte(bytes, 4);
    let b2 = bytes[2];
    let b4 = bytes[4];
    assert(!is_continuation_byte(b2)) by {
        assert(b2 < 0x80);
        assert(b2 < 0x80 ==> (b2 & 0xC0) != 0x80) by (bit_vector);
    }
    assert(!is_continuation_byte(b4)) by {
        assert(b4 < 0x80);
        assert(b4 < 0x80 ==> (b4 & 0xC0) != 0x80) by (bit_vector);
    }
    assert(h.subrange(0, 2) =~= pr);
    assert(h.subrange(2, 4) =~= pg);
    assert(h.subrange(4, 6) =~= pb);
}

} // verus!
