//! Hex color notation: parsing `#rgb` / `#rrggbb` / `#aarrggbb` into 8-bit
//! channels and formatting channels back as lower-case hex.

use vstd::prelude::*;
use crate::text::{chars_of, trim_chars, string_from_chars, spec_trim, spec_is_whitespace, spec_trim_start, spec_trim_end};

verus! {

/// An 8-bit sRGB color with alpha.
#[derive(Clone, Copy, Debug, PartialEq, Eq, Structural)]
pub struct Rgba8 {
    pub r: u8,
    pub g: u8,
    pub b: u8,
    pub a: u8,
}

/// Value of a hexadecimal digit (either case).
pub open spec fn spec_hex_val(c: char) -> Option<u8> {
    if '0' <= c && c <= '9' {
        Some(((c as u32) - 48) as u8)
    } else if 'a' <= c && c <= 'f' {
        Some(((c as u32) - 87) as u8)
    } else if 'A' <= c && c <= 'F' {
        Some(((c as u32) - 55) as u8)
    } else {
        None
    }
}

/// A byte written as two hex digits, high digit first.
pub open spec fn spec_hex_byte(c0: char, c1: char) -> Option<u8> {
    match (spec_hex_val(c0), spec_hex_val(c1)) {
        (Some(hi), Some(lo)) => Some((hi * 16 + lo) as u8),
        _ => None,
    }
}

/// A one-character nibble expanded to a full byte (`f` → `0xff`).
pub open spec fn spec_hex_nib(c: char) -> Option<u8> {
    match spec_hex_val(c) {
        Some(v) => Some((v * 17) as u8),
        None => None,
    }
}

/// `s` without any leading `#` characters.
pub open spec fn spec_strip_hashes(s: Seq<char>) -> Seq<char>
    decreases s.len(),
{
    if s.len() > 0 && s[0] == '#' { spec_strip_hashes(s.drop_first()) } else { s }
}

/// Every character is ASCII.
pub open spec fn spec_all_ascii(s: Seq<char>) -> bool {
    forall|i: int| 0 <= i < s.len() ==> (s[i] as u32) < 128
}

/// The color a hex string denotes: surrounding white space and leading `#`s
/// are ignored; three digits are nibbles (each doubled), six are opaque
/// `rrggbb`, eight are `aarrggbb`. Anything else is `None`. (Offsets are byte
/// offsets, so any non-ASCII character makes the string unreadable.)
pub open spec fn spec_hex_to_rgba(s: Seq<char>) -> Option<Rgba8> {
    let h = spec_strip_hashes(spec_trim(s));
    if !spec_all_ascii(h) {
        None
    } else if h.len() == 3 {
        match (spec_hex_nib(h[0]), spec_hex_nib(h[1]), spec_hex_nib(h[2])) {
            (Some(r), Some(g), Some(b)) => Some(Rgba8 { r, g, b, a: 255 }),
            _ => None,
        }
    } else if h.len() == 6 {
        match (spec_hex_byte(h[0], h[1]), spec_hex_byte(h[2], h[3]), spec_hex_byte(h[4], h[5])) {
            (Some(r), Some(g), Some(b)) => Some(Rgba8 { r, g, b, a: 255 }),
            _ => None,
        }
    } else if h.len() == 8 {
        match (spec_hex_byte(h[0], h[1]), spec_hex_byte(h[2], h[3]), spec_hex_byte(h[4], h[5]), spec_hex_byte(h[6], h[7])) {
            (Some(a), Some(r), Some(g), Some(b)) => Some(Rgba8 { r, g, b, a }),
            _ => None,
        }
    } else {
        None
    }
}

/// Value of a hexadecimal digit.
pub fn hex_val(c: char) -> (r: Option<u8>)
    ensures
        r == spec_hex_val(c),
{
    if '0' <= c && c <= '9' {
        Some(((c as u32) - 48) as u8)
    } else if 'a' <= c && c <= 'f' {
        Some(((c as u32) - 87) as u8)
    } else if 'A' <= c && c <= 'F' {
        Some(((c as u32) - 55) as u8)
    } else {
        None
    }
}

/// Parse the two characters at offset `i` as two hex digits; `None` when
/// they are not, or when the text ends before them.
pub fn u8h(h: &Vec<char>, i: usize) -> (r: Option<u8>)
    ensures
        r == (if i + 1 < h@.len() { spec_hex_byte(h@[i as int], h@[i + 1]) } else { None }),
{
    if i >= h.len() || h.len() - i < 2 {
        return None;
    }
    let c0 = h[i];
    let j: usize = i + 1;
    let c1 = h[j];
    match (hex_val(c0), hex_val(c1)) {
        (Some(hi), Some(lo)) => Some(hi * 16 + lo),
        _ => None,
    }
}

/// Parse the character at offset `i` as one hex digit, expanded to a byte;
/// `None` when it is not one, or when the text ends before it.
pub fn nib(h: &Vec<char>, i: usize) -> (r: Option<u8>)
    ensures
        r == (if i < h@.len() { spec_hex_nib(h@[i as int]) } else { None }),
{
    if i >= h.len() {
        return None;
    }
    match hex_val(h[i]) {
        Some(v) => Some(v * 17),
        None => None,
    }
}

/// Parse a `"#rgb"` / `"#rrggbb"` / `"#aarrggbb"` hex string into channels.
/// Returns `None` on malformed input.
pub fn hex_to_rgba(s: &str) -> (r: Option<Rgba8>)
    ensures
        r == spec_hex_to_rgba(s@),
{
    let chars = chars_of(s);
    let t = trim_chars(&chars);
    let n = t.len();
    let mut start: usize = 0;
    assert(t@.subrange(0, n as int) =~= t@);
    while start < n && t[start] == '#'
        invariant
            n == t@.len(),
            0 <= start <= n,
            spec_strip_hashes(t@) == spec_strip_hashes(t@.subrange(start as int, n as int)),
        decreases n - start,
    {
        proof {
            let u = t@.subrange(start as int, n as int);
            assert(u.drop_first() =~= t@.subrange(start + 1, n as int));
        }
        start = start + 1;
    }
    let mut h: Vec<char> = Vec::new();
    let mut k: usize = start;
    let mut ascii = true;
    while k < n
        invariant
            n == t@.len(),
            0 <= start <= k <= n,
            h@ == t@.subrange(start as int, k as int),
            ascii == spec_all_ascii(h@),
        decreases n - k,
    {
        let c = t[k];
        let code: u32 = c as u32;
        if code >= 128 {
            ascii = false;
        }
        let ghost before = h@;
        h.push(c);
        proof {
            assert(t@.subrange(start as int, (k + 1) as int) =~= t@.subrange(start as int, k as int).push(c));
            assert(h@ == before.push(c));
            if spec_all_ascii(before) && code < 128 {
                assert forall|i: int| 0 <= i < h@.len() implies (h@[i] as u32) < 128 by {
                    if i < before.len() {
                        assert(h@[i] == before[i]);
                    }
                }
            }
            if !spec_all_ascii(before) {
                let w = choose|i: int| 0 <= i < before.len() && !((before[i] as u32) < 128);
                assert(h@[w] == before[w]);
            }
            if code >= 128 {
                assert(h@[before.len() as int] == c);
            }
        }
        k = k + 1;
    }
    let ghost hs = h@;
    assert(hs == spec_strip_hashes(spec_trim(s@))) by {
        let u = t@.subrange(start as int, n as int);
        assert(u.len() == 0 || u[0] != '#');
    }
    if !ascii {
        return None;
    }
    if h.len() == 3 {
        match (nib(&h, 0), nib(&h, 1), nib(&h, 2)) {
            (Some(r), Some(g), Some(b)) => Some(Rgba8 { r, g, b, a: 255 }),
            _ => None,
        }
    } else if h.len() == 6 {
        match (u8h(&h, 0), u8h(&h, 2), u8h(&h, 4)) {
            (Some(r), Some(g), Some(b)) => Some(Rgba8 { r, g, b, a: 255 }),
            _ => None,
        }
    } else if h.len() == 8 {
        match (u8h(&h, 0), u8h(&h, 2), u8h(&h, 4), u8h(&h, 6)) {
            (Some(a), Some(r), Some(g), Some(b)) => Some(Rgba8 { r, g, b, a }),
            _ => None,
        }
    } else {
        None
    }
}

/// The lower-case hex digit of a nibble.
pub open spec fn spec_hex_digit(v: u8) -> char {
    if v < 10 { ((v as u32) + 48) as char } else { ((v as u32) + 87) as char }
}

/// Two lower-case hex digits of a byte.
pub open spec fn spec_hex2(v: u8) -> Seq<char> {
    seq![spec_hex_digit(v / 16), spec_hex_digit(v % 16)]
}

/// `"#rrggbb"` for an opaque color, else `"#aarrggbb"`, in lower-case hex.
pub open spec fn spec_rgba_to_hex(c: Rgba8) -> Seq<char> {
    if c.a == 255 {
        seq!['#'] + spec_hex2(c.r) + spec_hex2(c.g) + spec_hex2(c.b)
    } else {
        seq!['#'] + spec_hex2(c.a) + spec_hex2(c.r) + spec_hex2(c.g) + spec_hex2(c.b)
    }
}

/// The lower-case hex digit of a nibble.
pub fn hex_digit(v: u8) -> (r: char)
    requires
        v < 16,
    ensures
        r == spec_hex_digit(v),
{
    if v < 10 {
        crate::text::char_from_ascii(v + 48)
    } else {
        crate::text::char_from_ascii(v + 87)
    }
}

/// Append the two hex digits of `v` to `out`.
fn push_hex2(out: &mut Vec<char>, v: u8)
    ensures
        final(out)@ == old(out)@ + spec_hex2(v),
{
    out.push(hex_digit(v / 16));
    out.push(hex_digit(v % 16));
    assert(final(out)@ =~= old(out)@ + spec_hex2(v));
}

/// Format a color as `"#rrggbb"`, or `"#aarrggbb"` when not fully opaque.
pub fn rgba_to_hex(c: Rgba8) -> (r: String)
    ensures
        r@ == spec_rgba_to_hex(c),
{
    let mut out: Vec<char> = Vec::new();
    out.push('#');
    if c.a != 255 {
        push_hex2(&mut out, c.a);
    }
    push_hex2(&mut out, c.r);
    push_hex2(&mut out, c.g);
    push_hex2(&mut out, c.b);
    proof {
        if c.a == 255 {
            assert(out@ =~= spec_rgba_to_hex(c));
        } else {
            assert(out@ =~= spec_rgba_to_hex(c));
        }
    }
    string_from_chars(&out)
}

proof fn lemma_digit_round_trip(v: u8)
    requires
        v < 16,
    ensures
        spec_hex_val(spec_hex_digit(v)) == Some(v),
        (spec_hex_digit(v) as u32) < 128,
        spec_hex_digit(v) != '#',
        spec_hex_digit(v) != '+',
        !spec_is_whitespace(spec_hex_digit(v)),
{
}

proof fn lemma_byte_round_trip(v: u8)
    ensures
        spec_hex_byte(spec_hex2(v)[0], spec_hex2(v)[1]) == Some(v),
{
    lemma_digit_round_trip(v / 16);
    lemma_digit_round_trip(v % 16);
    assert((v / 16) * 16 + v % 16 == v);
}

/// Formatting a color and parsing the text back gives the same color.
pub proof fn law_hex_round_trips(c: Rgba8)
    ensures
        spec_hex_to_rgba(spec_rgba_to_hex(c)) == Some(c),
{
    let s = spec_rgba_to_hex(c);
    let body = s.drop_first();
    lemma_byte_round_trip(c.r);
    lemma_byte_round_trip(c.g);
    lemma_byte_round_trip(c.b);
    lemma_byte_round_trip(c.a);
    lemma_digit_round_trip(c.r / 16);
    lemma_digit_round_trip(c.r % 16);
    lemma_digit_round_trip(c.g / 16);
    lemma_digit_round_trip(c.g % 16);
    lemma_digit_round_trip(c.b / 16);
    lemma_digit_round_trip(c.b % 16);
    lemma_digit_round_trip(c.a / 16);
    lemma_digit_round_trip(c.a % 16);
    assert(!spec_is_whitespace('#'));
    assert(spec_trim_start(s) == s);
    assert(spec_trim_end(s) == s);
    assert(spec_trim(s) == s);
    assert(s[0] == '#');
    assert(spec_strip_hashes(body) == body);
    assert(spec_strip_hashes(s) == spec_strip_hashes(s.drop_first()));
    if c.a == 255 {
        assert(body =~= spec_hex2(c.r) + spec_hex2(c.g) + spec_hex2(c.b));
    } else {
        assert(body =~= spec_hex2(c.a) + spec_hex2(c.r) + spec_hex2(c.g) + spec_hex2(c.b));
    }
    assert(spec_all_ascii(body));
}

/// `a` and `b` are the same character up to ASCII letter case.
pub open spec fn spec_same_letter(a: char, b: char) -> bool {
    ||| a == b
    ||| ('a' <= a && a <= 'z' && (b as u32) + 32 == (a as u32))
    ||| ('a' <= b && b <= 'z' && (a as u32) + 32 == (b as u32))
}

/// `t` is `s` with the letter case of some ASCII letters changed.
pub open spec fn spec_case_variant(s: Seq<char>, t: Seq<char>) -> bool {
    &&& s.len() == t.len()
    &&& forall|i: int| 0 <= i < s.len() ==> spec_same_letter(#[trigger] s[i], t[i])
}

proof fn lemma_case_variant_trim_start(s: Seq<char>, t: Seq<char>)
    requires
        spec_case_variant(s, t),
    ensures
        spec_case_variant(spec_trim_start(s), spec_trim_start(t)),
    decreases s.len(),
{
    if s.len() > 0 {
        assert(spec_same_letter(s[0], t[0]));
        if spec_is_whitespace(s[0]) || spec_is_whitespace(t[0]) {
            assert(s[0] == t[0]);
            assert forall|i: int| 0 <= i < s.drop_first().len() implies
                spec_same_letter(#[trigger] s.drop_first()[i], t.drop_first()[i]) by {
                assert(spec_same_letter(s[i + 1], t[i + 1]));
            }
            lemma_case_variant_trim_start(s.drop_first(), t.drop_first());
        }
    }
}

proof fn lemma_case_variant_trim_end(s: Seq<char>, t: Seq<char>)
    requires
        spec_case_variant(s, t),
    ensures
        spec_case_variant(spec_trim_end(s), spec_trim_end(t)),
    decreases s.len(),
{
    if s.len() > 0 {
        let l = s.len() - 1;
        assert(spec_same_letter(s[l], t[l]));
        if spec_is_whitespace(s.last()) || spec_is_whitespace(t.last()) {
            assert(s[l] == t[l]);
            assert forall|i: int| 0 <= i < s.drop_last().len() implies
                spec_same_letter(#[trigger] s.drop_last()[i], t.drop_last()[i]) by {
                assert(spec_same_letter(s[i], t[i]));
            }
            lemma_case_variant_trim_end(s.drop_last(), t.drop_last());
        }
    }
}

proof fn lemma_case_variant_strip_hashes(s: Seq<char>, t: Seq<char>)
    requires
        spec_case_variant(s, t),
    ensures
        spec_case_variant(spec_strip_hashes(s), spec_strip_hashes(t)),
    decreases s.len(),
{
    if s.len() > 0 {
        assert(spec_same_letter(s[0], t[0]));
        if s[0] == '#' || t[0] == '#' {
            assert(s[0] == t[0]);
            assert forall|i: int| 0 <= i < s.drop_first().len() implies
                spec_same_letter(#[trigger] s.drop_first()[i], t.drop_first()[i]) by {
                assert(spec_same_letter(s[i + 1], t[i + 1]));
            }
            lemma_case_variant_strip_hashes(s.drop_first(), t.drop_first());
        }
    }
}

/// A hex digit has the same value in either letter case.
proof fn lemma_hex_val_ignores_case(a: char, b: char)
    requires
        spec_same_letter(a, b),
    ensures
        spec_hex_val(a) == spec_hex_val(b),
        ((a as u32) < 128) == ((b as u32) < 128),
{
}

/// Hex colors are read without regard to letter case: changing the case of
/// any letters of the text (`#FF00aa` for `#ff00AA`) parses to the same
/// color, or to nothing in both cases.
pub proof fn law_hex_parsing_ignores_case(s: Seq<char>, t: Seq<char>)
    requires
        spec_case_variant(s, t),
    ensures
        spec_hex_to_rgba(s) == spec_hex_to_rgba(t),
{
    lemma_case_variant_trim_start(s, t);
    lemma_case_variant_trim_end(spec_trim_start(s), spec_trim_start(t));
    let hs = spec_strip_hashes(spec_trim(s));
    let ht = spec_strip_hashes(spec_trim(t));
    lemma_case_variant_strip_hashes(spec_trim(s), spec_trim(t));
    assert forall|i: int| 0 <= i < hs.len() implies
        #[trigger] spec_hex_val(hs[i]) == spec_hex_val(ht[i]) && (((hs[i] as u32) < 128) == ((ht[i] as u32) < 128)) by {
        lemma_hex_val_ignores_case(hs[i], ht[i]);
    }
    assert(spec_all_ascii(hs) == spec_all_ascii(ht)) by {
        if spec_all_ascii(hs) {
            assert forall|i: int| 0 <= i < ht.len() implies (ht[i] as u32) < 128 by {
                assert(spec_hex_val(hs[i]) == spec_hex_val(ht[i]));
            }
        }
        if spec_all_ascii(ht) {
            assert forall|i: int| 0 <= i < hs.len() implies (hs[i] as u32) < 128 by {
                assert(spec_hex_val(hs[i]) == spec_hex_val(ht[i]));
            }
        }
    }
    if hs.len() == 3 {
        assert(spec_hex_val(hs[0]) == spec_hex_val(ht[0]));
        assert(spec_hex_val(hs[1]) == spec_hex_val(ht[1]));
        assert(spec_hex_val(hs[2]) == spec_hex_val(ht[2]));
    } else if hs.len() == 6 || hs.len() == 8 {
        assert(spec_hex_val(hs[0]) == spec_hex_val(ht[0]));
        assert(spec_hex_val(hs[1]) == spec_hex_val(ht[1]));
        assert(spec_hex_val(hs[2]) == spec_hex_val(ht[2]));
        assert(spec_hex_val(hs[3]) == spec_hex_val(ht[3]));
        assert(spec_hex_val(hs[4]) == spec_hex_val(ht[4]));
        assert(spec_hex_val(hs[5]) == spec_hex_val(ht[5]));
        if hs.len() == 8 {
            assert(spec_hex_val(hs[6]) == spec_hex_val(ht[6]));
            assert(spec_hex_val(hs[7]) == spec_hex_val(ht[7]));
        }
    }
}

} // verus!
