//! Reading and writing numbers as text.
use vstd::prelude::*;

verus! {

// ───────────────────────────── digits ─────────────────────────────

pub open spec fn is_dec_digit(c: char) -> bool {
    '0' <= c && c <= '9'
}

pub open spec fn dec_digit_val(c: char) -> nat {
    ((c as u32) - ('0' as u32)) as nat
}

pub open spec fn is_hex_digit(c: char) -> bool {
    ('0' <= c && c <= '9') || ('a' <= c && c <= 'f') || ('A' <= c && c <= 'F')
}

pub open spec fn hex_digit_val(c: char) -> nat {
    if '0' <= c && c <= '9' {
        ((c as u32) - ('0' as u32)) as nat
    } else if 'a' <= c && c <= 'f' {
        ((c as u32) - ('a' as u32) + 10) as nat
    } else {
        ((c as u32) - ('A' as u32) + 10) as nat
    }
}

pub open spec fn all_dec_digits(s: Seq<char>) -> bool {
    forall|i: int| 0 <= i < s.len() ==> is_dec_digit(#[trigger] s[i])
}

pub open spec fn all_hex_digits(s: Seq<char>) -> bool {
    forall|i: int| 0 <= i < s.len() ==> is_hex_digit(#[trigger] s[i])
}

/// The value of a run of decimal digits.
pub open spec fn dec_value(s: Seq<char>) -> nat
    decreases s.len(),
{
    if s.len() == 0 {
        0
    } else {
        dec_value(s.drop_last()) * 10 + dec_digit_val(s.last())
    }
}

/// The value of a run of hexadecimal digits.
pub open spec fn hex_value(s: Seq<char>) -> nat
    decreases s.len(),
{
    if s.len() == 0 {
        0
    } else {
        hex_value(s.drop_last()) * 16 + hex_digit_val(s.last())
    }
}

/// The digits of an unsigned number as `FromStr` reads them: an optional `+`, then digits.
pub open spec fn unsigned_digits(s: Seq<char>) -> Seq<char> {
    if s.len() > 0 && s[0] == '+' {
        s.skip(1)
    } else {
        s
    }
}

/// `u32::from_str` (`str::parse::<u32>`): an optional `+`, at least one decimal
/// digit and nothing else, with a value that fits.
pub open spec fn parse_u32_spec(s: Seq<char>) -> Option<u32> {
    let d = unsigned_digits(s);
    if d.len() > 0 && all_dec_digits(d) && dec_value(d) <= u32::MAX {
        Some(dec_value(d) as u32)
    } else {
        None
    }
}

/// `i64::from_str` (`str::parse::<i64>`): an optional sign, at least one
/// decimal digit and nothing else, with a value that fits.
pub open spec fn parse_i64_spec(s: Seq<char>) -> Option<i64> {
    if s.len() > 0 && s[0] == '-' {
        let d = s.skip(1);
        if d.len() > 0 && all_dec_digits(d) && dec_value(d) <= 0x8000_0000_0000_0000 {
            Some((0 - dec_value(d)) as i64)
        } else {
            None
        }
    } else {
        let d = unsigned_digits(s);
        if d.len() > 0 && all_dec_digits(d) && dec_value(d) <= i64::MAX {
            Some(dec_value(d) as i64)
        } else {
            None
        }
    }
}

/// `u8::from_str_radix(s, 16)`: an optional `+`, at least one hexadecimal digit
/// and nothing else, with a value that fits.
pub open spec fn parse_hex_u8_spec(s: Seq<char>) -> Option<u8> {
    let d = unsigned_digits(s);
    if d.len() > 0 && all_hex_digits(d) && hex_value(d) <= u8::MAX {
        Some(hex_value(d) as u8)
    } else {
        None
    }
}

pub proof fn lemma_dec_value_prefix_le(s: Seq<char>, i: int)
    requires
        0 <= i <= s.len(),
    ensures
        dec_value(s.take(i)) <= dec_value(s),
    decreases s.len() - i,
{
    if i < s.len() {
        lemma_dec_value_prefix_le(s, i + 1);
        assert(s.take(i + 1).drop_last() =~= s.take(i));
    } else {
        assert(s.take(i) =~= s);
    }
}

/// Reads the decimal digits of `v[from..]`; `None` when one is not a digit or
/// the value exceeds `bound`.
fn read_dec(v: &Vec<char>, from: usize, bound: u64) -> (r: Option<u64>)
    requires
        from <= v.len(),
        bound >= 9,
    ensures
        match r {
            Some(n) => all_dec_digits(v@.skip(from as int)) && n == dec_value(v@.skip(from as int))
                && n <= bound,
            None => !(all_dec_digits(v@.skip(from as int)) && dec_value(v@.skip(from as int))
                <= bound),
        },
{
    let ghost d = v@.skip(from as int);
    let mut acc: u64 = 0;
    let mut i: usize = from;
    while i < v.len()
        invariant
            from <= i <= v.len(),
            d == v@.skip(from as int),
            all_dec_digits(d.take(i - from)),
            acc == dec_value(d.take(i - from)),
            acc <= bound,
            bound >= 9,
        decreases v.len() - i,
    {
        let c = v[i];
        if !('0' <= c && c <= '9') {
            assert(d[i - from] == c);
            return None;
        }
        let dv = (c as u32 - '0' as u32) as u64;
        proof {
            assert(d.take(i + 1 - from).drop_last() =~= d.take(i - from));
            assert(d.take(i + 1 - from).last() == c);
        }
        if acc > (bound - dv) / 10 {
            proof {
                assert(acc * 10 + dv > bound) by (nonlinear_arith)
                    requires
                        acc > (bound - dv) / 10,
                        dv <= 9,
                        dv <= bound,
                ;
                lemma_dec_value_prefix_le(d, i + 1 - from);
            }
            return None;
        }
        proof {
            assert(acc * 10 + dv <= bound) by (nonlinear_arith)
                requires
                    acc <= (bound - dv) / 10,
                    dv <= bound,
            ;
        }
        acc = acc * 10 + dv;
        i = i + 1;
    }
    proof {
        assert(d.take(i - from) =~= d);
    }
    Some(acc)
}


/// `str::parse::<u32>` on the given characters.
pub fn parse_u32(v: &Vec<char>) -> (r: Option<u32>)
    ensures
        r == parse_u32_spec(v@),
{
    let from: usize = if v.len() > 0 && v[0] == '+' { 1 } else { 0 };
    proof {
        assert(unsigned_digits(v@) == v@.skip(from as int));
    }
    if from >= v.len() {
        return None;
    }
    match read_dec(v, from, 0xFFFF_FFFF) {
        Some(n) => Some(n as u32),
        None => None,
    }
}

/// `str::parse::<i64>` on the given characters.
pub fn parse_i64(v: &Vec<char>) -> (r: Option<i64>)
    ensures
        r == parse_i64_spec(v@),
{
    if v.len() > 0 && v[0] == '-' {
        if v.len() == 1 {
            return None;
        }
        match read_dec(v, 1, 0x8000_0000_0000_0000) {
            Some(n) => {
                if n == 0x8000_0000_0000_0000 {
                    Some(i64::MIN)
                } else {
                    Some(0 - (n as i64))
                }
            },
            None => None,
        }
    } else {
        let from: usize = if v.len() > 0 && v[0] == '+' { 1 } else { 0 };
        proof {
            assert(unsigned_digits(v@) == v@.skip(from as int));
        }
        if from >= v.len() {
            return None;
        }
        match read_dec(v, from, 0x7FFF_FFFF_FFFF_FFFF) {
            Some(n) => Some(n as i64),
            None => None,
        }
    }
}

/// The value of one hexadecimal digit.
pub fn hex_digit(c: char) -> (r: Option<u32>)
    ensures
        match r {
            Some(d) => is_hex_digit(c) && d == hex_digit_val(c),
            None => !is_hex_digit(c),
        },
{
    if '0' <= c && c <= '9' {
        Some(c as u32 - '0' as u32)
    } else if 'a' <= c && c <= 'f' {
        Some(c as u32 - 'a' as u32 + 10)
    } else if 'A' <= c && c <= 'F' {
        Some(c as u32 - 'A' as u32 + 10)
    } else {
        None
    }
}

/// `u8::from_str_radix(s, 16)` on a text of at most two characters.
pub fn parse_hex_u8(v: &Vec<char>) -> (r: Option<u8>)
    requires
        v.len() <= 2,
    ensures
        r == parse_hex_u8_spec(v@),
{
    let from: usize = if v.len() > 0 && v[0] == '+' { 1 } else { 0 };
    let ghost d = v@.skip(from as int);
    proof {
        assert(unsigned_digits(v@) == d);
    }
    if from >= v.len() {
        return None;
    }
    if v.len() - from == 1 {
        match hex_digit(v[from]) {
            Some(x) => {
                proof {
                    assert(d.drop_last().len() == 0);
                    assert(d.last() == v@[from as int]);
                    assert(d.drop_last() =~= Seq::<char>::empty());
                    assert(hex_value(d.drop_last()) == 0);
                    assert(all_hex_digits(d));
                }
                Some(x as u8)
            },
            None => {
                assert(d[0] == v@[from as int]);
                None
            },
        }
    } else {
        let a = hex_digit(v[0]);
        let b = hex_digit(v[1]);
        proof {
            assert(from == 0 && d == v@);
            assert(d.drop_last().drop_last().len() == 0);
            assert(d.drop_last().last() == v@[0]);
            assert(d.last() == v@[1]);
            assert(hex_value(d.drop_last().drop_last()) == 0);
            assert(hex_value(d.drop_last()) == hex_digit_val(v@[0]));
        }
        match (a, b) {
            (Some(x), Some(y)) => {
                assert(all_hex_digits(d)) by {
                    assert forall|i: int| 0 <= i < d.len() implies is_hex_digit(#[trigger] d[i]) by {
                        if i == 0 {
                        } else {
                            assert(i == 1);
                        }
                    }
                }
                assert(hex_value(d) == x * 16 + y);
                Some((x * 16 + y) as u8)
            },
            (None, _) => {
                assert(d[0] == v@[0]);
                None
            },
            (_, None) => {
                assert(d[1] == v@[1]);
                None
            },
        }
    }
}

// ───────────────────────────── formatting ─────────────────────────────

pub open spec fn dec_char(d: nat) -> char {
    (('0' as u32) + d) as char
}

/// The decimal digits of `n`, without leading zeros (`{}`).
pub open spec fn dec_digits(n: nat) -> Seq<char>
    decreases n,
{
    if n < 10 {
        seq![dec_char(n)]
    } else {
        dec_digits(n / 10).push(dec_char(n % 10))
    }
}

/// The decimal digits of `n`, padded with zeros to at least two (`{:02}`).
pub open spec fn dec_pad2(n: nat) -> Seq<char> {
    if n < 10 {
        seq!['0', dec_char(n)]
    } else {
        dec_digits(n)
    }
}

/// A signed number in decimal (`{}` on an integer).
pub open spec fn int_text(n: int) -> Seq<char> {
    if n < 0 {
        seq!['-'] + dec_digits((0 - n) as nat)
    } else {
        dec_digits(n as nat)
    }
}

pub open spec fn hex_char(d: nat) -> char {
    if d < 10 {
        (('0' as u32) + d) as char
    } else {
        (('A' as u32) + d - 10) as char
    }
}

/// The uppercase hexadecimal digits of `n`, without leading zeros (`{:X}`).
pub open spec fn hex_digits(n: nat) -> Seq<char>
    decreases n,
{
    if n < 16 {
        seq![hex_char(n)]
    } else {
        hex_digits(n / 16).push(hex_char(n % 16))
    }
}

/// The uppercase hexadecimal digits of `n`, padded to at least two (`{:02X}`).
pub open spec fn hex_pad2(n: nat) -> Seq<char> {
    if n < 16 {
        seq!['0', hex_char(n)]
    } else {
        hex_digits(n)
    }
}

/// A digit or an uppercase letter from `A` to `F`.
pub open spec fn is_upper_hex_char(c: char) -> bool {
    ('0' <= c && c <= '9') || ('A' <= c && c <= 'F')
}

pub proof fn lemma_hex_char(d: nat)
    requires
        d < 16,
    ensures
        is_upper_hex_char(hex_char(d)),
        is_hex_digit(hex_char(d)),
        hex_digit_val(hex_char(d)) == d,
        (hex_char(d) as u32) < 0x80,
{
    if d < 10 {
        assert((('0' as u32) + d) as char as u32 == 48 + d);
    } else {
        assert((('A' as u32) + d - 10) as char as u32 == 55 + d);
    }
}

pub proof fn lemma_hex_digits_upper(n: nat)
    ensures
        forall|i: int| 0 <= i < hex_digits(n).len() ==> is_upper_hex_char(#[trigger] hex_digits(n)[i]),
    decreases n,
{
    if n < 16 {
        lemma_hex_char(n);
    } else {
        lemma_hex_digits_upper(n / 16);
        lemma_hex_char(n % 16);
        let h = hex_digits(n);
        let d = hex_digits(n / 16);
        assert forall|i: int| 0 <= i < h.len() implies is_upper_hex_char(#[trigger] h[i]) by {
            if i < d.len() {
                assert(h[i] == d[i]);
            }
        }
    }
}

pub proof fn lemma_hex_pad2_upper(n: nat)
    ensures
        forall|i: int| 0 <= i < hex_pad2(n).len() ==> is_upper_hex_char(#[trigger] hex_pad2(n)[i]),
{
    if n < 16 {
        lemma_hex_char(n);
        assert forall|i: int| 0 <= i < hex_pad2(n).len() implies is_upper_hex_char(#[trigger] hex_pad2(n)[i]) by {
            if i == 0 {
                assert(hex_pad2(n)[i] == '0');
            } else {
                assert(hex_pad2(n)[i] == hex_char(n));
            }
        }
    } else {
        lemma_hex_digits_upper(n);
    }
}

pub fn dec_digit_char(d: u64) -> (c: char)
    requires
        d < 10,
    ensures
        c == dec_char(d as nat),
{
    let b = (d as u8) + 48;
    b as char
}

pub fn hex_digit_char(d: u64) -> (c: char)
    requires
        d < 16,
    ensures
        c == hex_char(d as nat),
{
    if d < 10 {
        let b = (d as u8) + 48;
        b as char
    } else {
        let b = (d as u8) + 55;
        b as char
    }
}

/// Appends the decimal digits of `n` (`{}`).
pub fn push_dec(out: &mut Vec<char>, n: u64)
    ensures
        final(out)@ == old(out)@ + dec_digits(n as nat),
    decreases n,
{
    if n < 10 {
        out.push(dec_digit_char(n));
        assert(dec_digits(n as nat) == seq![dec_char(n as nat)]);
    } else {
        push_dec(out, n / 10);
        out.push(dec_digit_char(n % 10));
        assert(old(out)@ + dec_digits(n as nat) =~= old(out)@ + dec_digits((n / 10) as nat) + seq![
            dec_char((n % 10) as nat),
        ]);
    }
}

/// Appends the decimal digits of `n`, padded to two (`{:02}`).
pub fn push_dec_pad2(out: &mut Vec<char>, n: u64)
    ensures
        final(out)@ == old(out)@ + dec_pad2(n as nat),
{
    if n < 10 {
        out.push('0');
    }
    push_dec(out, n);
    proof {
        if n < 10 {
            assert(dec_digits(n as nat) == seq![dec_char(n as nat)]);
            assert(old(out)@.push('0') + dec_digits(n as nat) =~= old(out)@ + dec_pad2(n as nat));
        }
    }
}

/// Appends a signed number in decimal (`{}`).
pub fn push_int(out: &mut Vec<char>, n: i64)
    ensures
        final(out)@ == old(out)@ + int_text(n as int),
{
    if n < 0 {
        out.push('-');
        let m: u64 = if n == i64::MIN {
            0x8000_0000_0000_0000
        } else {
            (0 - n) as u64
        };
        push_dec(out, m);
        assert(old(out)@ + int_text(n as int) =~= old(out)@.push('-') + dec_digits(m as nat));
    } else {
        push_dec(out, n as u64);
    }
}

/// Appends the uppercase hexadecimal digits of `n` (`{:X}`).
pub fn push_hex(out: &mut Vec<char>, n: u64)
    ensures
        final(out)@ == old(out)@ + hex_digits(n as nat),
    decreases n,
{
    if n < 16 {
        out.push(hex_digit_char(n));
        assert(hex_digits(n as nat) == seq![hex_char(n as nat)]);
    } else {
        push_hex(out, n / 16);
        out.push(hex_digit_char(n % 16));
        assert(old(out)@ + hex_digits(n as nat) =~= old(out)@ + hex_digits((n / 16) as nat) + seq![
            hex_char((n % 16) as nat),
        ]);
    }
}

/// Appends the uppercase hexadecimal digits of `n`, padded to two (`{:02X}`).
pub fn push_hex_pad2(out: &mut Vec<char>, n: u64)
    ensures
        final(out)@ == old(out)@ + hex_pad2(n as nat),
{
    if n < 16 {
        out.push('0');
    }
    push_hex(out, n);
    proof {
        if n < 16 {
            assert(hex_digits(n as nat) == seq![hex_char(n as nat)]);
            assert(old(out)@.push('0') + hex_digits(n as nat) =~= old(out)@ + hex_pad2(n as nat));
        }
    }
}

} // verus!
