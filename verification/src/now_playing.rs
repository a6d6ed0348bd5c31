//! Now-playing decisions: where album art comes from, when it must be read
//! again, the YouTube thumbnail fallback, and turning encoded art into an
//! RGBA8 image.

use vstd::prelude::*;
use vstd::utf8::encode_utf8;
use base64::Engine;
use crate::config::opt_view;
use crate::text::{chars_of, matches_at, string_from_chars};

verus! {

/// First position at which `p` occurs in `s`, or -1.
pub open spec fn spec_find_seq(s: Seq<char>, p: Seq<char>) -> int
    decreases s.len(),
{
    if s.len() < p.len() {
        -1
    } else if s.take(p.len() as int) == p {
        0
    } else if s.len() == 0 {
        -1
    } else {
        let r = spec_find_seq(s.drop_first(), p);
        if r < 0 { -1 } else { r + 1 }
    }
}

/// `spec_find_seq` is the first occurrence.
pub proof fn lemma_find_seq(s: Seq<char>, p: Seq<char>)
    ensures
        -1 <= spec_find_seq(s, p),
        spec_find_seq(s, p) >= 0 ==> spec_find_seq(s, p) + p.len() <= s.len()
            && s.subrange(spec_find_seq(s, p), spec_find_seq(s, p) + p.len()) == p,
        forall|k: int| 0 <= k && k + p.len() <= s.len() && (spec_find_seq(s, p) < 0 || k < spec_find_seq(s, p))
            ==> #[trigger] s.subrange(k, k + p.len()) != p,
    decreases s.len(),
{
    if s.len() < p.len() {
    } else if s.take(p.len() as int) == p {
        assert(s.subrange(0, p.len() as int) == s.take(p.len() as int));
    } else if s.len() == 0 {
    } else {
        let t = s.drop_first();
        lemma_find_seq(t, p);
        assert(s.subrange(0, p.len() as int) == s.take(p.len() as int));
        assert forall|k: int| 0 <= k && k + p.len() <= s.len() && (spec_find_seq(s, p) < 0 || k < spec_find_seq(s, p))
            implies #[trigger] s.subrange(k, k + p.len()) != p by {
            if k > 0 {
                assert(s.subrange(k, k + p.len()) =~= t.subrange(k - 1, k - 1 + p.len()));
            }
        }
        if spec_find_seq(t, p) >= 0 {
            let r = spec_find_seq(t, p);
            assert(s.subrange(r + 1, r + 1 + p.len()) =~= t.subrange(r, r + p.len()));
        }
    }
}

/// First position of `lit` in `v`, or `None`.
fn find_seq(v: &Vec<char>, lit: &Vec<char>) -> (r: Option<usize>)
    ensures
        match r {
            Some(i) => spec_find_seq(v@, lit@) == i,
            None => spec_find_seq(v@, lit@) == -1,
        },
{
    proof {
        lemma_find_seq(v@, lit@);
    }
    let n = v.len();
    let m = lit.len();
    if n < m {
        return None;
    }
    if m == 0 {
        assert(v@.take(0) =~= lit@);
        return Some(0);
    }
    let mut i: usize = 0;
    while i <= n - m
        invariant
            n == v@.len(),
            m == lit@.len(),
            1 <= m <= n,
            0 <= i <= n - m + 1,
            forall|k: int| 0 <= k < i ==> #[trigger] v@.subrange(k, k + m) != lit@,
        decreases n - m + 1 - i,
    {
        if matches_at(v, i, lit) {
            proof {
                lemma_find_seq(v@, lit@);
                let f = spec_find_seq(v@, lit@);
                assert(v@.subrange(i as int, i + lit@.len()) == lit@);
                if f >= 0 && f < i {
                    assert(v@.subrange(f, f + m) != lit@);
                }
            }
            return Some(i);
        }
        i = i + 1;
    }
    proof {
        let f = spec_find_seq(v@, lit@);
        if f >= 0 {
            assert(v@.subrange(f, f + m) != lit@);
        }
    }
    None
}

/// Last position of `c` in `s`, or -1.
pub open spec fn spec_rfind(s: Seq<char>, c: char) -> int
    decreases s.len(),
{
    if s.len() == 0 {
        -1
    } else if s.last() == c {
        s.len() - 1
    } else {
        spec_rfind(s.drop_last(), c)
    }
}

proof fn lemma_rfind(s: Seq<char>, c: char)
    ensures
        -1 <= spec_rfind(s, c) < s.len(),
        spec_rfind(s, c) >= 0 ==> s[spec_rfind(s, c)] == c,
        forall|k: int| spec_rfind(s, c) < k < s.len() ==> s[k] != c,
    decreases s.len(),
{
    if s.len() > 0 && s.last() != c {
        let t = s.drop_last();
        lemma_rfind(t, c);
        assert forall|k: int| spec_rfind(s, c) < k < s.len() implies s[k] != c by {
            if k < s.len() - 1 {
                assert(s[k] == t[k]);
            }
        }
    }
}

/// Last position of `c` in `v`.
fn rfind(v: &Vec<char>, c: char) -> (r: Option<usize>)
    ensures
        match r {
            Some(i) => spec_rfind(v@, c) == i,
            None => spec_rfind(v@, c) == -1,
        },
{
    proof {
        lemma_rfind(v@, c);
    }
    let mut j = v.len();
    while j > 0
        invariant
            j <= v@.len(),
            forall|k: int| j <= k < v@.len() ==> v@[k] != c,
        decreases j,
    {
        if v[j - 1] == c {
            proof {
                lemma_rfind(v@, c);
                let f = spec_rfind(v@, c);
                assert(v@[j - 1] == c);
                if f >= 0 && f > j - 1 {
                    assert(v@[f] != c);
                }
            }
            return Some(j - 1);
        }
        j = j - 1;
    }
    proof {
        let f = spec_rfind(v@, c);
        if f >= 0 {
            assert(v@[f] != c);
        }
    }
    None
}

/// Characters that end a video id in a URL: `&`, `?` and `#`.
pub open spec fn spec_id_stop(c: char) -> bool {
    c == '&' || c == '?' || c == '#'
}

/// Length of the run of `s` before its first id stop.
pub open spec fn spec_id_len(s: Seq<char>) -> int
    decreases s.len(),
{
    if s.len() == 0 {
        0
    } else if spec_id_stop(s[0]) {
        0
    } else {
        1 + spec_id_len(s.drop_first())
    }
}

proof fn lemma_id_len(s: Seq<char>)
    ensures
        0 <= spec_id_len(s) <= s.len(),
        spec_id_len(s) < s.len() ==> spec_id_stop(s[spec_id_len(s)]),
        forall|k: int| 0 <= k < spec_id_len(s) ==> !spec_id_stop(s[k]),
    decreases s.len(),
{
    if s.len() > 0 && !spec_id_stop(s[0]) {
        lemma_id_len(s.drop_first());
        assert forall|k: int| 0 <= k < spec_id_len(s) implies !spec_id_stop(s[k]) by {
            if k > 0 {
                assert(s[k] == s.drop_first()[k - 1]);
            }
        }
    }
}

/// The video id in a YouTube page URL: what follows the first `v=`, else
/// what follows the last `/`, cut at the first `&`, `?` or `#`.
pub open spec fn spec_video_id(u: Seq<char>) -> Option<Seq<char>> {
    let v = spec_find_seq(u, seq!['v', '=']);
    let slash = spec_rfind(u, '/');
    let rest = if v >= 0 {
        Some(u.skip(v + 2))
    } else if slash >= 0 {
        Some(u.skip(slash + 1))
    } else {
        None::<Seq<char>>
    };
    match rest {
        None => None,
        Some(r) => Some(r.take(spec_id_len(r))),
    }
}

/// The thumbnail URL for a YouTube watch or short URL: `None` unless the
/// URL mentions `youtube.com` or `youtu.be` and carries a non-empty id.
pub open spec fn spec_youtube_thumbnail(u: Seq<char>) -> Option<Seq<char>> {
    if spec_find_seq(u, "youtube.com"@) < 0 && spec_find_seq(u, "youtu.be"@) < 0 {
        None
    } else {
        match spec_video_id(u) {
            Some(id) => if id.len() == 0 {
                None
            } else {
                Some("https://i.ytimg.com/vi/"@ + id + "/hqdefault.jpg"@)
            },
            None => None,
        }
    }
}

/// Copy `v[from..from + len]`.
fn copy_range(v: &Vec<char>, from: usize, len: usize) -> (r: Vec<char>)
    requires
        from + len <= v@.len(),
    ensures
        r@ == v@.subrange(from as int, from + len),
{
    let mut out: Vec<char> = Vec::new();
    let mut i: usize = 0;
    while i < len
        invariant
            from + len <= v@.len(),
            v@.len() == v.len(),
            0 <= i <= len,
            out@ == v@.subrange(from as int, from + i),
        decreases len - i,
    {
        out.push(v[from + i]);
        assert(v@.subrange(from as int, from + i + 1) =~= v@.subrange(from as int, from + i).push(v@[from + i]));
        i = i + 1;
    }
    out
}

/// Derive a thumbnail image URL from a YouTube watch or short URL, so
/// YouTube playback (which exposes no art URL) still gets a backdrop.
/// Handles `…watch?v=ID&…` and `youtu.be/ID?…`.
pub fn youtube_thumbnail(page_url: &str) -> (r: Option<String>)
    ensures
        opt_view(&r) == spec_youtube_thumbnail(page_url@),
{
    let u = chars_of(page_url);
    let yt: Vec<char> = vec!['y', 'o', 'u', 't', 'u', 'b', 'e', '.', 'c', 'o', 'm'];
    let short: Vec<char> = vec!['y', 'o', 'u', 't', 'u', '.', 'b', 'e'];
    proof {
        reveal_strlit("youtube.com");
        reveal_strlit("youtu.be");
        assert(yt@ =~= "youtube.com"@);
        assert(short@ =~= "youtu.be"@);
    }
    if find_seq(&u, &yt).is_none() && find_seq(&u, &short).is_none() {
        return None;
    }
    let ve: Vec<char> = vec!['v', '='];
    assert(ve@.len() == 2);
    assert(u@.len() == u.len());
    let start = match find_seq(&u, &ve) {
        Some(v) => {
            proof {
                lemma_find_seq(u@, ve@);
            }
            v + 2
        },
        None => match rfind(&u, '/') {
            Some(s) => {
                proof {
                    lemma_rfind(u@, '/');
                }
                s + 1
            },
            None => return None,
        },
    };
    let ghost rest = u@.skip(start as int);
    proof {
        lemma_id_len(rest);
    }
    let n = u.len();
    let mut end = start;
    while end < n && u[end] != '&' && u[end] != '?' && u[end] != '#'
        invariant
            n == u@.len(),
            start <= end <= n,
            rest == u@.skip(start as int),
            forall|k: int| start <= k < end ==> !spec_id_stop(u@[k]),
        decreases n - end,
    {
        end = end + 1;
    }
    proof {
        let l = spec_id_len(rest);
        if l < end - start {
            assert(rest[l] == u@[start + l]);
        }
        if end - start < l {
            assert(rest[end - start] == u@[end as int]);
        }
    }
    if end == start {
        return None;
    }
    let id = copy_range(&u, start, end - start);
    assert(id@ =~= rest.take(spec_id_len(rest)));
    let mut out = String::from_str("https://i.ytimg.com/vi/");
    let id_s = string_from_chars(&id);
    out.append(id_s.as_str());
    out.append("/hqdefault.jpg");
    Some(out)
}

/// The art URL to fetch: the player's own, else a thumbnail derived from the
/// page it plays (for players that expose no art URL).
pub fn art_url_for(art_url: Option<String>, page_url: Option<String>) -> (r: Option<String>)
    ensures
        opt_view(&r) == (match art_url {
            Some(a) => Some(a@),
            None => match page_url {
                Some(p) => spec_youtube_thumbnail(p@),
                None => None,
            },
        }),
{
    match art_url {
        Some(a) => Some(a),
        None => match page_url {
            Some(p) => youtube_thumbnail(p.as_str()),
            None => None,
        },
    }
}

/// Where album art is read from.
#[derive(Clone, Debug, PartialEq, Eq)]
pub enum ArtSource {
    /// A local file, by path.
    File(String),
    /// An `http://` or `https://` URL.
    Http,
    /// Anything else: no art.
    Unsupported,
}

/// Whether `s` starts with `p`.
pub open spec fn spec_starts_with(s: Seq<char>, p: Seq<char>) -> bool {
    s.len() >= p.len() && s.take(p.len() as int) == p
}

/// Classify an art URL: `file://` URLs name a local path, `http(s)://` URLs
/// are fetched, everything else has no art.
pub fn art_source(url: &str) -> (r: ArtSource)
    ensures
        spec_starts_with(url@, "file://"@) ==> (r matches ArtSource::File(p) && p@ == url@.skip(7)),
        !spec_starts_with(url@, "file://"@) ==> (r == (if spec_starts_with(url@, "http://"@) || spec_starts_with(url@, "https://"@) {
            ArtSource::Http
        } else {
            ArtSource::Unsupported
        })),
{
    let u = chars_of(url);
    let file: Vec<char> = vec!['f', 'i', 'l', 'e', ':', '/', '/'];
    let http: Vec<char> = vec!['h', 't', 't', 'p', ':', '/', '/'];
    let https: Vec<char> = vec!['h', 't', 't', 'p', 's', ':', '/', '/'];
    proof {
        reveal_strlit("file://");
        reveal_strlit("http://");
        reveal_strlit("https://");
        assert(file@ =~= "file://"@);
        assert(http@ =~= "http://"@);
        assert(https@ =~= "https://"@);
        assert(u@.take(7) =~= u@.subrange(0, 7));
        assert(u@.take(8) =~= u@.subrange(0, 8));
    }
    if matches_at(&u, 0, &file) {
        let path = copy_range(&u, 7, u.len() - 7);
        assert(path@ =~= u@.skip(7));
        return ArtSource::File(string_from_chars(&path));
    }
    if matches_at(&u, 0, &http) || matches_at(&u, 0, &https) {
        ArtSource::Http
    } else {
        ArtSource::Unsupported
    }
}

/// Treat an empty string as absent.
pub fn non_empty(s: Option<String>) -> (r: Option<String>)
    ensures
        opt_view(&r) == (match opt_view(&s) {
            Some(t) => if t.len() == 0 { None } else { Some(t) },
            None => None,
        }),
{
    match s {
        Some(t) => {
            if t.as_str().is_empty() {
                None
            } else {
                Some(t)
            }
        },
        None => None,
    }
}

/// Compare two optional strings.
fn same_opt(a: &Option<String>, b: &Option<String>) -> (r: bool)
    ensures
        r == (opt_view(a) == opt_view(b)),
{
    match (a, b) {
        (None, None) => true,
        (Some(x), Some(y)) => x.eq(y),
        _ => false,
    }
}

/// What identifies a track for album art: its title, artist and album, and
/// whether art is available yet. Art presence is part of the identity
/// because media sessions fill in thumbnails some time after a track starts.
#[derive(Clone, Debug)]
pub struct TrackKey {
    pub title: Option<String>,
    pub artist: Option<String>,
    pub album: Option<String>,
    pub has_art: bool,
}

/// A track identity as values.
pub type KeyView = (Option<Seq<char>>, Option<Seq<char>>, Option<Seq<char>>, bool);

/// View of a track identity.
pub open spec fn key_view(k: &TrackKey) -> KeyView {
    (opt_view(&k.title), opt_view(&k.artist), opt_view(&k.album), k.has_art)
}

/// View of an optional track identity.
pub open spec fn opt_key_view(k: &Option<TrackKey>) -> Option<KeyView> {
    match k {
        Some(t) => Some(key_view(t)),
        None => None,
    }
}

/// Remembers the last track whose art was read, so the (expensive) art read
/// and decode happens once per track rather than on every poll.
#[derive(Clone, Debug)]
pub struct ArtRefresh {
    pub last: Option<TrackKey>,
}

/// Whether art must be read again when `key` is polled after `last`.
pub open spec fn spec_track_changed(last: Option<KeyView>, key: KeyView) -> bool {
    last != Some(key)
}

impl ArtRefresh {
    /// Nothing seen yet.
    pub fn new() -> (r: ArtRefresh)
        ensures
            r.last is None,
    {
        ArtRefresh { last: None }
    }

    /// Note the polled track; true when its art must be read (the track or
    /// its art availability changed).
    pub fn track_changed(&mut self, key: TrackKey) -> (r: bool)
        ensures
            r == spec_track_changed(opt_key_view(&old(self).last), key_view(&key)),
            opt_key_view(&final(self).last) == Some(key_view(&key)),
    {
        let same = match &self.last {
            Some(l) => same_opt(&l.title, &key.title) && same_opt(&l.artist, &key.artist)
                && same_opt(&l.album, &key.album) && l.has_art == key.has_art,
            None => false,
        };
        if same {
            false
        } else {
            self.last = Some(key);
            true
        }
    }

    /// The media session went away: forget the track. True when one was
    /// known, so the display is cleared exactly once.
    pub fn session_lost(&mut self) -> (r: bool)
        ensures
            r == (old(self).last is Some),
            final(self).last is None,
    {
        let had = self.last.is_some();
        self.last = None;
        had
    }
}

/// Polling the same track again never re-reads its art, and a track whose
/// art became available (or anything else changed) is always re-read.
pub proof fn law_art_read_once_per_track(key: KeyView, other: KeyView)
    requires
        other != key,
    ensures
        !spec_track_changed(Some(key), key),
        spec_track_changed(Some(key), other),
        spec_track_changed(None, key),
{
}

/// Remembers the last art URL fetched, for players that publish one.
#[derive(Clone, Debug)]
pub struct ArtUrlWatch {
    pub last: Option<String>,
}

impl ArtUrlWatch {
    /// Nothing fetched yet.
    pub fn new() -> (r: ArtUrlWatch)
        ensures
            r.last is None,
    {
        ArtUrlWatch { last: None }
    }

    /// Note the polled art URL; true when it differs from the last one (art
    /// must be fetched again, or cleared when the URL went away).
    pub fn url_changed(&mut self, url: &Option<String>) -> (r: bool)
        ensures
            r == (opt_view(&old(self).last) != opt_view(url)),
            opt_view(&final(self).last) == opt_view(url),
    {
        if same_opt(&self.last, url) {
            false
        } else {
            self.last = url.clone();
            true
        }
    }

    /// No player is active: forget the URL. True when one was known, so the
    /// display is cleared once.
    pub fn player_gone(&mut self) -> (r: bool)
        ensures
            r == (old(self).last is Some),
            final(self).last is None,
    {
        let had = self.last.is_some();
        self.last = None;
        had
    }
}

/// Pixels of decoded album art: `width * height` RGBA8 texels, row-major.
#[derive(Clone, Debug)]
pub struct RgbaImage {
    pub rgba: Vec<u8>,
    pub width: u32,
    pub height: u32,
}

/// The RGBA8 pixels, width and height the `image` crate decodes from an
/// encoded (JPEG, PNG) byte string, or `None` when it cannot.
pub uninterp spec fn spec_decoded_image(bytes: Seq<u8>) -> Option<(Seq<u8>, u32, u32)>;

/// `image::load_from_memory`, converted with `to_rgba8`, `dimensions` and
/// `into_raw`: the decoded pixels and size, or `None` when the bytes are not
/// a readable image. Decoding depends on the bytes alone; its result is
/// named, not stated.
#[verifier::external_body]
fn decode_image_rgba8(bytes: &[u8]) -> (r: Option<(Vec<u8>, u32, u32)>)
    ensures
        match r {
            Some((p, w, h)) => spec_decoded_image(bytes@) == Some((p@, w, h)),
            None => spec_decoded_image(bytes@) is None,
        },
{
    let img = image::load_from_memory(bytes).ok()?;
    let rgba = img.to_rgba8();
    let (w, h) = rgba.dimensions();
    Some((rgba.into_raw(), w, h))
}

/// The art a decoded image yields: none for a zero-area or empty decode
/// (which would make a degenerate texture).
pub open spec fn spec_art_from(decoded: Option<(Seq<u8>, u32, u32)>) -> Option<(Seq<u8>, u32, u32)> {
    match decoded {
        Some((p, w, h)) => if w == 0 || h == 0 || p.len() == 0 { None } else { Some((p, w, h)) },
        None => None,
    }
}

/// View of decoded art.
pub open spec fn art_view(a: &Option<RgbaImage>) -> Option<(Seq<u8>, u32, u32)> {
    match a {
        Some(img) => Some((img.rgba@, img.width, img.height)),
        None => None,
    }
}

/// Decode encoded image bytes (JPEG/PNG, from any source) to RGBA8, treating
/// a zero-area or empty result as no art.
pub fn decode_art_bytes(bytes: &[u8]) -> (r: Option<RgbaImage>)
    ensures
        art_view(&r) == spec_art_from(spec_decoded_image(bytes@)),
{
    match decode_image_rgba8(bytes) {
        None => None,
        Some((rgba, width, height)) => {
            if width == 0 || height == 0 || rgba.len() == 0 {
                None
            } else {
                Some(RgbaImage { rgba, width, height })
            }
        },
    }
}

/// The bytes `base64`'s standard engine decodes from a text, or `None` when
/// it rejects it.
pub uninterp spec fn spec_base64_standard(text: Seq<char>) -> Option<Seq<u8>>;

/// `base64::engine::general_purpose::STANDARD.decode`: the bytes the
/// standard-alphabet, padded base64 text encodes, or `None` when the text is
/// not such an encoding. The result depends on the text alone and is named,
/// not stated.
#[verifier::external_body]
fn base64_standard_decode(text: &str) -> (r: Option<Vec<u8>>)
    ensures
        match r {
            Some(v) => spec_base64_standard(text@) == Some(v@),
            None => spec_base64_standard(text@) is None,
        },
{
    base64::engine::general_purpose::STANDARD.decode(text).ok()
}

/// Largest base64 artwork field accepted, in bytes.
pub const MAX_ARTWORK_TEXT: usize = 33_554_432;

/// Decode a base64 artwork field to RGBA8 art, ignoring oversized (more than
/// 32 MiB of text) or malformed payloads.
pub fn decode_artwork(b64: &str) -> (r: Option<RgbaImage>)
    ensures
        encode_utf8(b64@).len() > MAX_ARTWORK_TEXT ==> r is None,
        encode_utf8(b64@).len() <= MAX_ARTWORK_TEXT ==> art_view(&r) == (match spec_base64_standard(b64@) {
            Some(bytes) => spec_art_from(spec_decoded_image(bytes)),
            None => None,
        }),
{
    if b64.as_bytes().len() > MAX_ARTWORK_TEXT {
        return None;
    }
    match base64_standard_decode(b64) {
        None => None,
        Some(bytes) => decode_art_bytes(bytes.as_slice()),
    }
}

/// Cover art pushed by a web page: an empty payload clears the cover.
pub fn pushed_art(bytes: &[u8]) -> (r: Option<Vec<u8>>)
    ensures
        bytes@.len() == 0 ==> r is None,
        bytes@.len() > 0 ==> (r matches Some(v) && v@ == bytes@),
{
    if bytes.len() == 0 {
        None
    } else {
        let mut v: Vec<u8> = Vec::new();
        let mut i: usize = 0;
        while i < bytes.len()
            invariant
                0 <= i <= bytes@.len(),
                v@ == bytes@.take(i as int),
            decreases bytes@.len() - i,
        {
            v.push(bytes[i]);
            assert(bytes@.take(i + 1) =~= bytes@.take(i as int).push(bytes@[i as int]));
            i = i + 1;
        }
        assert(bytes@.take(bytes@.len() as int) =~= bytes@);
        Some(v)
    }
}

} // verus!
