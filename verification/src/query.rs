//! The browser build's command line: a page query string such as
//! `?bars=32&gui&mode=wave-circle` becomes `bava --bars 32 --gui --mode
//! wave-circle`, so a shareable URL overrides settings exactly as flags do.

use vstd::prelude::*;
use vstd::utf8::{valid_utf8, decode_utf8, encode_utf8};

verus! {

/// What `String::from_utf8_lossy` makes of a byte string.
pub uninterp spec fn spec_utf8_lossy(bytes: Seq<u8>) -> Seq<char>;

/// `String::from_utf8_lossy(..).into_owned()`: the text the bytes encode,
/// with each invalid UTF-8 sequence replaced by U+FFFD. Its documentation
/// states that valid UTF-8 decodes to exactly the characters it encodes,
/// which the contract says; the replacement of invalid sequences is only
/// named.
#[verifier::external_body]
fn utf8_lossy(bytes: &Vec<u8>) -> (r: String)
    ensures
        r@ == spec_utf8_lossy(bytes@),
        valid_utf8(bytes@) ==> r@ == decode_utf8(bytes@),
{
    String::from_utf8_lossy(bytes).into_owned()
}

/// Value of an ASCII hexadecimal digit byte.
pub open spec fn spec_hex_digit(b: u8) -> Option<u8> {
    if 48 <= b <= 57 {
        Some((b - 48) as u8)
    } else if 97 <= b <= 102 {
        Some((b - 87) as u8)
    } else if 65 <= b <= 70 {
        Some((b - 55) as u8)
    } else {
        None
    }
}

/// The byte an escape's two hex digits name, high digit first.
pub open spec fn spec_escape(b1: u8, b2: u8) -> Option<u8> {
    match (spec_hex_digit(b1), spec_hex_digit(b2)) {
        (Some(hi), Some(lo)) => Some((hi * 16 + lo) as u8),
        _ => None,
    }
}

/// Form-urlencoded decoding of bytes: `%XX` escapes become the byte they
/// name, `+` becomes a space, and a `%` that starts no valid escape (as in
/// `100%`) stays literal.
pub open spec fn spec_pct(b: Seq<u8>) -> Seq<u8>
    decreases b.len(),
{
    if b.len() == 0 {
        Seq::empty()
    } else if b[0] == 37 && 2 < b.len() && spec_escape(b[1], b[2]) is Some {
        seq![spec_escape(b[1], b[2])->Some_0] + spec_pct(b.skip(3))
    } else if b[0] == 43 {
        seq![32u8] + spec_pct(b.skip(1))
    } else {
        seq![b[0]] + spec_pct(b.skip(1))
    }
}

fn hex_digit(b: u8) -> (r: Option<u8>)
    ensures
        r == spec_hex_digit(b),
{
    if 48 <= b && b <= 57 {
        Some(b - 48)
    } else if 97 <= b && b <= 102 {
        Some(b - 87)
    } else if 65 <= b && b <= 70 {
        Some(b - 55)
    } else {
        None
    }
}

fn escape(b1: u8, b2: u8) -> (r: Option<u8>)
    ensures
        r == spec_escape(b1, b2),
{
    match (hex_digit(b1), hex_digit(b2)) {
        (Some(hi), Some(lo)) => Some(hi * 16 + lo),
        _ => None,
    }
}

/// Decode `b[lo..hi]`.
fn pct_decode_range(b: &[u8], lo: usize, hi: usize) -> (r: Vec<u8>)
    requires
        lo <= hi <= b@.len(),
    ensures
        r@ == spec_pct(b@.subrange(lo as int, hi as int)),
{
    let ghost whole = b@.subrange(lo as int, hi as int);
    let mut out: Vec<u8> = Vec::new();
    let mut i = lo;
    assert(whole.skip(0) =~= whole);
    while i < hi
        invariant
            lo <= i <= hi <= b@.len(),
            whole == b@.subrange(lo as int, hi as int),
            out@ + spec_pct(b@.subrange(i as int, hi as int)) == spec_pct(whole),
        decreases hi - i,
    {
        let ghost rest = b@.subrange(i as int, hi as int);
        let c = b[i];
        if c == 37 && hi - i > 2 {
            match escape(b[i + 1], b[i + 2]) {
                Some(v) => {
                    assert(rest.skip(3) =~= b@.subrange(i + 3, hi as int));
                    assert(spec_pct(rest) == seq![v] + spec_pct(rest.skip(3)));
                    out.push(v);
                    assert(out@ + spec_pct(b@.subrange(i + 3, hi as int)) =~= spec_pct(whole));
                    i = i + 3;
                },
                None => {
                    assert(rest.skip(1) =~= b@.subrange(i + 1, hi as int));
                    out.push(37);
                    assert(out@ + spec_pct(b@.subrange(i + 1, hi as int)) =~= spec_pct(whole));
                    i = i + 1;
                },
            }
        } else if c == 43 {
            assert(rest.skip(1) =~= b@.subrange(i + 1, hi as int));
            out.push(32);
            assert(out@ + spec_pct(b@.subrange(i + 1, hi as int)) =~= spec_pct(whole));
            i = i + 1;
        } else {
            assert(rest.skip(1) =~= b@.subrange(i + 1, hi as int));
            out.push(c);
            assert(out@ + spec_pct(b@.subrange(i + 1, hi as int)) =~= spec_pct(whole));
            i = i + 1;
        }
    }
    assert(spec_pct(b@.subrange(hi as int, hi as int)) == Seq::<u8>::empty());
    assert(out@ =~= out@ + Seq::<u8>::empty());
    out
}

/// Lower-case hex digit of a value below 16.
pub open spec fn spec_lower_hex(v: u8) -> u8 {
    if v < 10 { (48 + v) as u8 } else { (87 + v) as u8 }
}

/// Every byte written as a `%xx` escape with lower-case digits.
pub open spec fn spec_escape_all_lower(b: Seq<u8>) -> Seq<u8>
    decreases b.len(),
{
    if b.len() == 0 {
        Seq::empty()
    } else {
        seq![37u8, spec_lower_hex(b[0] / 16), spec_lower_hex(b[0] % 16)] + spec_escape_all_lower(b.skip(1))
    }
}

/// Escapes decode whatever the letter case of their digits: writing every
/// byte as a `%xx` escape with lower-case digits decodes to the bytes, just
/// as upper-case `%XX` escapes do.
pub proof fn law_lower_case_escapes_decode(b: Seq<u8>)
    ensures
        spec_pct(spec_escape_all_lower(b)) == b,
        spec_pct(spec_escape_all_lower(b)) == spec_pct(spec_escape_all(b)),
    decreases b.len(),
{
    law_escapes_decode_to_their_bytes(b);
    if b.len() > 0 {
        let e = spec_escape_all_lower(b);
        law_lower_case_escapes_decode(b.skip(1));
        assert(e.skip(3) =~= spec_escape_all_lower(b.skip(1)));
        assert(spec_escape(e[1], e[2]) == Some(b[0]));
        assert(b =~= seq![b[0]] + b.skip(1));
    }
}

/// Any text, written with every UTF-8 byte as a lower-case `%xx` escape,
/// percent-decodes back to itself.
pub proof fn law_lower_escaped_text_decodes_to_itself(s: Seq<char>)
    ensures
        spec_text(spec_escape_all_lower(encode_utf8(s))) == s,
{
    law_lower_case_escapes_decode(encode_utf8(s));
    vstd::utf8::encode_utf8_valid_utf8(s);
    vstd::utf8::encode_utf8_decode_utf8(s);
}

/// Changing the letter case of one escape's hex digits does not change what
/// the text decodes to: `%3d` and `%3D` both stand for `=`.
pub proof fn law_escape_digits_ignore_case(x: u8, y: u8)
    ensures
        ({
            let lx: u8 = if 65 <= x <= 90 { (x + 32) as u8 } else { x };
            let ly: u8 = if 65 <= y <= 90 { (y + 32) as u8 } else { y };
            spec_escape(x, y) == spec_escape(lx, ly)
        }),
{
}

/// Characters of a decoded byte string: exactly the characters valid UTF-8
/// encodes; otherwise what lossy decoding makes of it.
pub open spec fn spec_chars_of_bytes(b: Seq<u8>) -> Seq<char> {
    if valid_utf8(b) { decode_utf8(b) } else { spec_utf8_lossy(b) }
}

/// Read bytes as UTF-8, invalid sequences replaced.
fn chars_of_bytes(bytes: &Vec<u8>) -> (r: String)
    ensures
        r@ == spec_chars_of_bytes(bytes@),
{
    utf8_lossy(bytes)
}

/// Minimal `application/x-www-form-urlencoded` decoding of `s`: `%XX`
/// escapes and `+` for space, then the bytes read as UTF-8 (invalid
/// sequences replaced).
pub fn percent_decode(s: &str) -> (r: String)
    ensures
        r@ == spec_text(encode_utf8(s@)),
{
    let b = s.as_bytes();
    let bytes = pct_decode_range(b, 0, b.len());
    assert(b@.subrange(0, b@.len() as int) =~= b@);
    chars_of_bytes(&bytes)
}

/// Upper-case hex digit of a value below 16.
pub open spec fn spec_upper_hex(v: u8) -> u8 {
    if v < 10 { (48 + v) as u8 } else { (55 + v) as u8 }
}

/// Every byte written as a `%XX` escape with upper-case digits.
pub open spec fn spec_escape_all(b: Seq<u8>) -> Seq<u8>
    decreases b.len(),
{
    if b.len() == 0 {
        Seq::empty()
    } else {
        seq![37u8, spec_upper_hex(b[0] / 16), spec_upper_hex(b[0] % 16)] + spec_escape_all(b.skip(1))
    }
}

/// Escaping every byte as `%XX` and decoding gives the bytes back.
pub proof fn law_escapes_decode_to_their_bytes(b: Seq<u8>)
    ensures
        spec_pct(spec_escape_all(b)) == b,
    decreases b.len(),
{
    if b.len() > 0 {
        let e = spec_escape_all(b);
        law_escapes_decode_to_their_bytes(b.skip(1));
        assert(e.skip(3) =~= spec_escape_all(b.skip(1)));
        assert(spec_escape(e[1], e[2]) == Some(b[0]));
        assert(b =~= seq![b[0]] + b.skip(1));
    }
}

/// Any text, written with every byte of its UTF-8 encoding as a `%XX`
/// escape, percent-decodes back to itself.
pub proof fn law_escaped_text_decodes_to_itself(s: Seq<char>)
    ensures
        spec_text(spec_escape_all(encode_utf8(s))) == s,
{
    law_escapes_decode_to_their_bytes(encode_utf8(s));
    vstd::utf8::encode_utf8_valid_utf8(s);
    vstd::utf8::encode_utf8_decode_utf8(s);
}

/// Bytes without `%` or `+` decode to themselves.
pub proof fn law_plain_bytes_decode_to_themselves(b: Seq<u8>)
    requires
        forall|i: int| 0 <= i < b.len() ==> b[i] != 37 && b[i] != 43,
    ensures
        spec_pct(b) == b,
    decreases b.len(),
{
    if b.len() > 0 {
        law_plain_bytes_decode_to_themselves(b.skip(1));
        assert(b =~= seq![b[0]] + b.skip(1));
    }
}

/// A character other than `%` and `+` encodes to UTF-8 bytes none of which
/// is `%` or `+`: an ASCII character is its own byte, and every byte of a
/// longer encoding has its high bit set.
proof fn lemma_scalar_bytes_plain(c: u32)
    requires
        c != 37,
        c != 43,
    ensures
        forall|k: int| 0 <= k < vstd::utf8::encode_scalar(c).len()
            ==> #[trigger] vstd::utf8::encode_scalar(c)[k] != 37u8 && vstd::utf8::encode_scalar(c)[k] != 43u8,
{
    let l1 = vstd::utf8::leading_byte_width_1(c);
    let l2 = vstd::utf8::leading_byte_width_2(c);
    let l3 = vstd::utf8::leading_byte_width_3(c);
    let l4 = vstd::utf8::leading_byte_width_4(c);
    let c1 = vstd::utf8::last_continuation_byte(c);
    let c2 = vstd::utf8::second_last_continuation_byte(c);
    let c3 = vstd::utf8::third_last_continuation_byte(c);
    assert(c <= 0x7F ==> l1 as u32 == c) by (bit_vector)
        requires l1 == (c & 0x7F) as u8;
    assert(l2 >= 128u8) by (bit_vector)
        requires l2 == 0xC0u8 | ((c >> 6) & 0x1F) as u8;
    assert(l3 >= 128u8) by (bit_vector)
        requires l3 == 0xE0u8 | ((c >> 12) & 0x0F) as u8;
    assert(l4 >= 128u8) by (bit_vector)
        requires l4 == 0xF0u8 | ((c >> 18) & 0x7) as u8;
    assert(c1 >= 128u8) by (bit_vector)
        requires c1 == 0x80u8 | (c & 0x3F) as u8;
    assert(c2 >= 128u8) by (bit_vector)
        requires c2 == 0x80u8 | ((c >> 6) & 0x3F) as u8;
    assert(c3 >= 128u8) by (bit_vector)
        requires c3 == 0x80u8 | ((c >> 12) & 0x3F) as u8;
}

/// The UTF-8 encoding of text without `%` or `+` holds neither byte.
proof fn lemma_plain_text_bytes(s: Seq<char>)
    requires
        !s.contains('%'),
        !s.contains('+'),
    ensures
        forall|k: int| 0 <= k < encode_utf8(s).len() ==> #[trigger] encode_utf8(s)[k] != 37u8 && encode_utf8(s)[k] != 43u8,
    decreases s.len(),
{
    if s.len() > 0 {
        let rest = s.drop_first();
        assert(!rest.contains('%')) by {
            if rest.contains('%') {
                let j = choose|j: int| 0 <= j < rest.len() && rest[j] == '%';
                assert(s[j + 1] == '%');
            }
        }
        assert(!rest.contains('+')) by {
            if rest.contains('+') {
                let j = choose|j: int| 0 <= j < rest.len() && rest[j] == '+';
                assert(s[j + 1] == '+');
            }
        }
        lemma_plain_text_bytes(rest);
        assert(s[0] != '%' && s[0] != '+') by {
            if s[0] == '%' || s[0] == '+' {
                assert(s.contains(s[0]));
            }
        }
        let c = s[0] as u32;
        vstd::utf8::char_u32_cast(s[0], c);
        assert(37u32 as char == '%' && 43u32 as char == '+');
        assert(c != 37 && c != 43);
        lemma_scalar_bytes_plain(c);
        let head = vstd::utf8::encode_scalar(c);
        let tail = encode_utf8(rest);
        assert(encode_utf8(s) == head + tail);
        assert forall|k: int| 0 <= k < encode_utf8(s).len() implies #[trigger] encode_utf8(s)[k] != 37u8 && encode_utf8(s)[k] != 43u8 by {
            if k < head.len() {
                assert(encode_utf8(s)[k] == head[k]);
            } else {
                assert(encode_utf8(s)[k] == tail[k - head.len()]);
            }
        }
    }
}

/// Text holding neither `%` nor `+` percent-decodes to itself.
pub proof fn law_plain_text_decodes_to_itself(s: Seq<char>)
    requires
        !s.contains('%'),
        !s.contains('+'),
    ensures
        spec_text(encode_utf8(s)) == s,
{
    lemma_plain_text_bytes(s);
    law_plain_bytes_decode_to_themselves(encode_utf8(s));
    vstd::utf8::encode_utf8_valid_utf8(s);
    vstd::utf8::encode_utf8_decode_utf8(s);
}

/// Position of the first `x` in `b`, or -1.
pub open spec fn spec_find(b: Seq<u8>, x: u8) -> int
    decreases b.len(),
{
    if b.len() == 0 {
        -1
    } else if b[0] == x {
        0
    } else {
        let r = spec_find(b.drop_first(), x);
        if r < 0 { -1 } else { r + 1 }
    }
}

/// Where the first `x` is: its index, or -1 when `b` holds none.
pub proof fn lemma_find(b: Seq<u8>, x: u8)
    ensures
        -1 <= spec_find(b, x) < b.len(),
        spec_find(b, x) >= 0 ==> b[spec_find(b, x)] == x,
        forall|k: int| 0 <= k < b.len() && (spec_find(b, x) < 0 || k < spec_find(b, x)) ==> b[k] != x,
    decreases b.len(),
{
    if b.len() > 0 && b[0] != x {
        lemma_find(b.drop_first(), x);
        assert forall|k: int| 0 <= k < b.len() && (spec_find(b, x) < 0 || k < spec_find(b, x)) implies b[k] != x by {
            if k > 0 {
                assert(b[k] == b.drop_first()[k - 1]);
            }
        }
    }
}

/// The first `x` in `b` is at `j` (or nowhere, when `j == b.len()`) if no
/// earlier byte is `x`.
proof fn lemma_find_is(b: Seq<u8>, x: u8, j: int)
    requires
        0 <= j <= b.len(),
        j < b.len() ==> b[j] == x,
        forall|k: int| 0 <= k < j ==> b[k] != x,
    ensures
        spec_find(b, x) == (if j == b.len() { -1 } else { j }),
{
    lemma_find(b, x);
    let f = spec_find(b, x);
    if f >= 0 && f < j {
        assert(b[f] != x);
    }
    if j < b.len() && (f < 0 || j < f) {
        assert(b[j] != x);
    }
}

/// `b` without its leading `?` bytes.
pub open spec fn spec_strip_q(b: Seq<u8>) -> Seq<u8>
    decreases b.len(),
{
    if b.len() > 0 && b[0] == 63 { spec_strip_q(b.drop_first()) } else { b }
}

/// The text `s` stands for, as characters.
pub open spec fn spec_text(b: Seq<u8>) -> Seq<char> {
    spec_chars_of_bytes(spec_pct(b))
}

/// Arguments one `key` or `key=value` pair of the query contributes: none
/// for an empty pair, an empty key or the page's own `video` key; else
/// `--key`, followed by the value when there is one. Key and value are both
/// percent-decoded.
pub open spec fn spec_pair_args(p: Seq<u8>) -> Seq<Seq<char>> {
    if p.len() == 0 {
        Seq::empty()
    } else {
        let e = spec_find(p, 61);
        let key = if e < 0 { spec_text(p) } else { spec_text(p.take(e)) };
        if key.len() == 0 || key == "video"@ {
            Seq::empty()
        } else if e < 0 {
            seq!["--"@ + key]
        } else {
            seq!["--"@ + key, spec_text(p.skip(e + 1))]
        }
    }
}

/// Arguments of every `&`-separated pair of `b`, in order.
pub open spec fn spec_pairs_args(b: Seq<u8>) -> Seq<Seq<char>>
    decreases b.len(),
{
    let i = spec_find(b, 38);
    if i < 0 {
        spec_pair_args(b)
    } else {
        proof {
            lemma_find(b, 38);
        }
        spec_pair_args(b.take(i)) + spec_pairs_args(b.skip(i + 1))
    }
}

/// The argument vector a query string stands for: the program name, then
/// the arguments of each pair once leading `?`s are dropped.
pub open spec fn spec_query_args(q: Seq<u8>) -> Seq<Seq<char>> {
    seq!["bava"@] + spec_pairs_args(spec_strip_q(q))
}

/// View of a vector of strings.
pub open spec fn strings_view(v: Seq<String>) -> Seq<Seq<char>> {
    v.map_values(|s: String| s@)
}

/// Append the arguments of the pair `q[lo..hi]`.
fn push_pair_args(q: &[u8], lo: usize, hi: usize, args: &mut Vec<String>)
    requires
        lo <= hi <= q@.len(),
    ensures
        strings_view(final(args)@) == strings_view(old(args)@) + spec_pair_args(q@.subrange(lo as int, hi as int)),
{
    let ghost p = q@.subrange(lo as int, hi as int);
    if lo == hi {
        assert(strings_view(args@) =~= strings_view(args@) + spec_pair_args(p));
        return;
    }
    let mut e = lo;
    while e < hi && q[e] != 61
        invariant
            lo <= e <= hi <= q@.len(),
            forall|k: int| lo <= k < e ==> q@[k] != 61,
        decreases hi - e,
    {
        e = e + 1;
    }
    proof {
        assert forall|k: int| 0 <= k < e - lo implies p[k] != 61 by {
            assert(p[k] == q@[lo + k]);
        }
        lemma_find_is(p, 61, e - lo);
    }
    let key_bytes = pct_decode_range(q, lo, e);
    let key = chars_of_bytes(&key_bytes);
    proof {
        if e == hi {
            assert(q@.subrange(lo as int, e as int) =~= p);
        } else {
            assert(q@.subrange(lo as int, e as int) =~= p.take(e - lo));
        }
    }
    let video = String::from_str("video");
    proof {
        reveal_strlit("video");
    }
    let ghost before = strings_view(args@);
    if key.as_str().is_empty() || key.eq(&video) {
        assert(strings_view(args@) =~= before + spec_pair_args(p));
        return;
    }
    let mut flag = String::from_str("--");
    proof {
        reveal_strlit("--");
    }
    flag.append(key.as_str());
    args.push(flag);
    if e < hi {
        let value_bytes = pct_decode_range(q, e + 1, hi);
        assert(q@.subrange(e + 1, hi as int) =~= p.skip(e - lo + 1));
        let value = chars_of_bytes(&value_bytes);
        args.push(value);
    }
    assert(strings_view(args@) =~= before + spec_pair_args(p));
}

/// `?bars=32&gui&mode=wave-circle` → `["bava", "--bars", "32", "--gui",
/// "--mode", "wave-circle"]`. A bare key becomes a bare flag; a
/// `key=value` pair becomes two arguments, so values holding `=` or spaces
/// survive without quoting rules. Keys the hosting page consumes itself
/// (`video`) are left out, since an unknown flag would fail the whole parse.
pub fn query_to_args(query: &str) -> (r: Vec<String>)
    ensures
        strings_view(r@) == spec_query_args(encode_utf8(query@)),
{
    let q = query.as_bytes();
    let n = q.len();
    let ghost qb = q@;
    let mut start: usize = 0;
    assert(qb.skip(0) =~= qb);
    while start < n && q[start] == 63
        invariant
            n == qb.len(),
            qb == q@,
            0 <= start <= n,
            spec_strip_q(qb) == spec_strip_q(qb.skip(start as int)),
        decreases n - start,
    {
        assert(qb.skip(start as int).drop_first() =~= qb.skip(start + 1));
        start = start + 1;
    }
    let ghost body = qb.skip(start as int);
    assert(spec_strip_q(body) == body);
    let mut args: Vec<String> = Vec::new();
    args.push(String::from_str("bava"));
    proof {
        reveal_strlit("bava");
    }
    assert(strings_view(args@) =~= seq!["bava"@]);
    let mut pos = start;
    let mut done = false;
    assert(body =~= qb.subrange(start as int, n as int));
    while !done
        invariant
            n == qb.len(),
            qb == q@,
            start <= pos <= n,
            body == qb.subrange(start as int, n as int),
            !done ==> seq!["bava"@] + spec_pairs_args(body)
                == strings_view(args@) + spec_pairs_args(qb.subrange(pos as int, n as int)),
            done ==> seq!["bava"@] + spec_pairs_args(body) == strings_view(args@),
        decreases (if done { 0 } else { n + 1 - pos }),
    {
        let mut j = pos;
        while j < n && q[j] != 38
            invariant
                pos <= j <= n,
                n == q@.len(),
                forall|k: int| pos <= k < j ==> q@[k] != 38,
            decreases n - j,
        {
            j = j + 1;
        }
        let ghost rest = qb.subrange(pos as int, n as int);
        proof {
            assert forall|k: int| 0 <= k < j - pos implies rest[k] != 38 by {
                assert(rest[k] == qb[pos + k]);
            }
            lemma_find_is(rest, 38, j - pos);
        }
        let ghost old_args = strings_view(args@);
        push_pair_args(q, pos, j, &mut args);
        if j == n {
            assert(rest =~= qb.subrange(pos as int, j as int));
            assert(spec_pairs_args(rest) == spec_pair_args(rest));
            assert(seq!["bava"@] + spec_pairs_args(body) =~= strings_view(args@));
            done = true;
        } else {
            assert(rest.take(j - pos) =~= qb.subrange(pos as int, j as int));
            assert(rest.skip(j - pos + 1) =~= qb.subrange(j + 1, n as int));
            assert(spec_pairs_args(rest) == spec_pair_args(rest.take(j - pos)) + spec_pairs_args(rest.skip(j - pos + 1)));
            assert(seq!["bava"@] + spec_pairs_args(body)
                =~= strings_view(args@) + spec_pairs_args(qb.subrange(j + 1, n as int)));
            pos = j + 1;
        }
    }
    args
}

} // verus!
