//! Capture-side bookkeeping shared by the platform audio backends: error
//! values, sample-format decoding, buffer sizing, and the decisions about
//! which device to follow and when to rebuild the analysis plan.

use vstd::prelude::*;
use crate::text::chars_of;

verus! {

/// Error type shared by capture backends.
#[derive(Debug, Clone, PartialEq, Eq)]
pub enum CaptureError {
    /// The backend could not be initialized (no server, bad device, ...).
    Init(String),
    /// A read failed; usually transient.
    Read(String),
}

impl CaptureError {
    /// The human-readable description of this error.
    pub fn message(&self) -> (r: String)
        ensures
            r@ == (match self {
                CaptureError::Init(m) => "capture init failed: "@ + m@,
                CaptureError::Read(m) => "capture read failed: "@ + m@,
            }),
    {
        match self {
            CaptureError::Init(m) => {
                let mut s = String::from_str("capture init failed: ");
                s.append(m.as_str());
                s
            },
            CaptureError::Read(m) => {
                let mut s = String::from_str("capture read failed: ");
                s.append(m.as_str());
                s
            },
        }
    }
}

/// How captured bytes encode each sample.
#[derive(Clone, Copy, Debug, PartialEq, Eq)]
pub enum SampleKind {
    /// 32-bit IEEE float, already in roughly [-1, 1].
    F32,
    /// 16-bit signed PCM.
    I16,
    /// 24-bit signed PCM, packed in 3 bytes little-endian.
    I24,
    /// 32-bit signed PCM (also 24-in-32 containers, which are MSB-justified).
    I32,
}

impl SampleKind {
    /// Bytes occupied by one sample of this kind.
    pub open spec fn spec_size(self) -> usize {
        match self {
            SampleKind::I16 => 2,
            SampleKind::I24 => 3,
            SampleKind::F32 | SampleKind::I32 => 4,
        }
    }

    /// Bytes occupied by one sample of this kind in the captured stream.
    pub fn size(self) -> (r: usize)
        ensures
            r == self.spec_size(),
    {
        match self {
            SampleKind::I16 => 2,
            SampleKind::I24 => 3,
            SampleKind::F32 | SampleKind::I32 => 4,
        }
    }
}

/// `wFormatTag` for raw IEEE float samples.
pub const WAVE_FORMAT_IEEE_FLOAT: u16 = 0x0003;
/// `wFormatTag` for integer PCM samples.
pub const WAVE_FORMAT_PCM: u16 = 0x0001;
/// `wFormatTag` marking an extensible format whose real encoding is its sub-format.
pub const WAVE_FORMAT_EXTENSIBLE: u16 = 0xFFFE;

/// The effective format tag: an extensible format (with a full extension,
/// `cb_size >= 22`) resolves to float or PCM by its sub-format.
pub open spec fn spec_effective_tag(tag: u16, cb_size: u16, subformat_is_float: bool) -> u16 {
    if tag == WAVE_FORMAT_EXTENSIBLE && cb_size >= 22 {
        if subformat_is_float { WAVE_FORMAT_IEEE_FLOAT } else { WAVE_FORMAT_PCM }
    } else {
        tag
    }
}

/// The sample encoding a device mix format describes, or `None` for formats
/// the converter cannot decode.
pub open spec fn spec_sample_kind(tag: u16, cb_size: u16, subformat_is_float: bool, bits: u16) -> Option<SampleKind> {
    let t = spec_effective_tag(tag, cb_size, subformat_is_float);
    if t == WAVE_FORMAT_IEEE_FLOAT && bits == 32 {
        Some(SampleKind::F32)
    } else if t == WAVE_FORMAT_PCM && bits == 16 {
        Some(SampleKind::I16)
    } else if t == WAVE_FORMAT_PCM && bits == 24 {
        Some(SampleKind::I24)
    } else if t == WAVE_FORMAT_PCM && bits == 32 {
        Some(SampleKind::I32)
    } else {
        None
    }
}

/// Decode the sample encoding of a device mix format from its format tag,
/// extension size, whether its sub-format is IEEE float, and its container
/// bit depth.
pub fn sample_kind(tag: u16, cb_size: u16, subformat_is_float: bool, bits: u16) -> (r: Option<SampleKind>)
    ensures
        r == spec_sample_kind(tag, cb_size, subformat_is_float, bits),
{
    let mut t = tag;
    if tag == WAVE_FORMAT_EXTENSIBLE && cb_size >= 22 {
        t = if subformat_is_float { WAVE_FORMAT_IEEE_FLOAT } else { WAVE_FORMAT_PCM };
    }
    if t == WAVE_FORMAT_IEEE_FLOAT && bits == 32 {
        Some(SampleKind::F32)
    } else if t == WAVE_FORMAT_PCM && bits == 16 {
        Some(SampleKind::I16)
    } else if t == WAVE_FORMAT_PCM && bits == 24 {
        Some(SampleKind::I24)
    } else if t == WAVE_FORMAT_PCM && bits == 32 {
        Some(SampleKind::I32)
    } else {
        None
    }
}

/// `AUDCLNT_E_DEVICE_INVALIDATED` as a signed result code.
pub const AUDCLNT_E_DEVICE_INVALIDATED: i32 = -2004287484i32;
/// `AUDCLNT_E_SERVICE_NOT_RUNNING` as a signed result code.
pub const AUDCLNT_E_SERVICE_NOT_RUNNING: i32 = -2004287472i32;
/// `AUDCLNT_E_DEVICE_IN_USE` as a signed result code.
pub const AUDCLNT_E_DEVICE_IN_USE: i32 = -2004287478i32;

/// Whether a capture-call result code means the stream is dead and must be
/// reopened on the current default endpoint: invalidation, the audio service
/// restarting, or the endpoint being grabbed exclusively.
pub fn is_device_lost(code: i32) -> (r: bool)
    ensures
        r == (code == AUDCLNT_E_DEVICE_INVALIDATED || code == AUDCLNT_E_SERVICE_NOT_RUNNING
            || code == AUDCLNT_E_DEVICE_IN_USE),
{
    code == AUDCLNT_E_DEVICE_INVALIDATED || code == AUDCLNT_E_SERVICE_NOT_RUNNING
        || code == AUDCLNT_E_DEVICE_IN_USE
}

/// The signed value of a 24-bit little-endian sample `lo, mid, hi`.
pub open spec fn spec_i24(lo: u8, mid: u8, hi: u8) -> int {
    let raw = lo as int + 256 * (mid as int) + 65536 * (hi as int);
    if raw < 0x80_0000 { raw } else { raw - 0x100_0000 }
}

/// Sign-extend a packed 24-bit little-endian sample to 32 bits.
pub fn sign_extend_24(lo: u8, mid: u8, hi: u8) -> (r: i32)
    ensures
        r as int == spec_i24(lo, mid, hi),
{
    let l = lo as u32;
    let m = mid as u32;
    let h = hi as u32;
    let raw: u32 = l | (m << 8u32) | (h << 16u32);
    assert(raw == l + 256 * m + 65536 * h) by (bit_vector)
        requires l < 256, m < 256, h < 256, raw == l | (m << 8u32) | (h << 16u32);
    let r: i32 = if raw < 0x80_0000 { raw as i32 } else { (raw as i32) - 0x100_0000 };
    r
}

/// Device channel read for target channel `c`: the same channel when the
/// device has it, else the device's last channel.
pub fn source_channel(c: usize, device_channels: usize) -> (r: usize)
    requires
        device_channels >= 1,
    ensures
        r == (if c < device_channels - 1 { c } else { (device_channels - 1) as usize }),
        r < device_channels,
{
    if c < device_channels - 1 { c } else { device_channels - 1 }
}

/// Capture backlog bound: about a quarter second of audio,
/// `max(rate / 4, 1) * max(channels, 1)` samples.
pub open spec fn spec_ring_capacity(rate: u32, channels: usize) -> nat {
    let frames = if rate / 4 == 0 { 1 } else { rate / 4 };
    let ch = if channels == 0 { 1 } else { channels };
    (frames * ch) as nat
}

/// Samples the capture backlog may hold before the oldest are dropped.
pub fn ring_capacity(rate: u32, channels: usize) -> (r: usize)
    requires
        spec_ring_capacity(rate, channels) <= usize::MAX,
    ensures
        r == spec_ring_capacity(rate, channels),
        r >= 1,
{
    let frames: usize = if rate / 4 == 0 { 1 } else { (rate / 4) as usize };
    let ch: usize = if channels == 0 { 1 } else { channels };
    assert(frames * ch >= 1) by (nonlinear_arith)
        requires frames >= 1, ch >= 1;
    frames * ch
}

/// Interleaved samples per analysis execution:
/// `max(max(frame_samples, 1) * max(channels, 1), 1)`.
pub open spec fn spec_chunk_len(frame_samples: usize, channels: usize) -> nat {
    let f = if frame_samples == 0 { 1 } else { frame_samples };
    let c = if channels == 0 { 1 } else { channels };
    (f * c) as nat
}

/// The fixed chunk size fed to the analyser, so it always sees a steady
/// sample count per execution.
pub fn chunk_len(frame_samples: usize, channels: usize) -> (r: usize)
    requires
        spec_chunk_len(frame_samples, channels) <= usize::MAX,
    ensures
        r == spec_chunk_len(frame_samples, channels),
        r >= 1,
{
    let f = if frame_samples == 0 { 1 } else { frame_samples };
    let c = if channels == 0 { 1 } else { channels };
    assert(f * c >= 1) by (nonlinear_arith)
        requires f >= 1, c >= 1;
    f * c
}

/// How a backlog of `available` samples splits into fixed chunks.
#[derive(Clone, Copy, Debug, PartialEq, Eq)]
pub struct ChunkPlan {
    /// Full chunks to execute now.
    pub chunks: usize,
    /// Samples left over for the next frame.
    pub leftover: usize,
}

/// Execute every complete chunk of the backlog and keep the remainder.
pub fn plan_chunks(available: usize, chunk: usize) -> (r: ChunkPlan)
    requires
        chunk >= 1,
    ensures
        r.chunks == available / chunk,
        r.leftover == available % chunk,
        r.chunks * chunk + r.leftover == available,
        r.leftover < chunk,
{
    proof {
        vstd::arithmetic::div_mod::lemma_fundamental_div_mod(available as int, chunk as int);
        vstd::arithmetic::div_mod::lemma_mod_pos_bound(available as int, chunk as int);
        assert((available / chunk) * chunk == chunk * (available / chunk)) by (nonlinear_arith);
    }
    ChunkPlan { chunks: available / chunk, leftover: available % chunk }
}

/// Most samples the browser capture keeps waiting for the render loop (two
/// seconds of 48 kHz stereo); a hidden tab stops draining, and older samples
/// are dropped rather than replayed.
pub const MAX_WEB_BACKLOG: usize = 192_000;

/// Samples to drop from the front of a queue of `len` so it holds at most `cap`.
pub fn overflow_count(len: usize, cap: usize) -> (r: usize)
    ensures
        r == (if len > cap { len - cap } else { 0 }),
        len - r <= cap || len <= cap,
        r <= len,
{
    if len > cap { len - cap } else { 0 }
}

/// Whether the capture thread follows the actively playing sink: only when no
/// explicit source is pinned and following is enabled.
pub fn follows_active_sink(source: &Option<String>, follow_active_sink: bool) -> (r: bool)
    ensures
        r == (source is None && follow_active_sink),
{
    source.is_none() && follow_active_sink
}

/// The device capture opens first: a pinned source wins; otherwise, when
/// following, the monitor of the sink that is playing (if any); otherwise
/// none, and the backend resolves the default sink's monitor.
pub fn initial_device(source: Option<String>, follow: bool, active: Option<String>) -> (r: Option<String>)
    ensures
        opt_chars(r) == (if source is Some {
            opt_chars(source)
        } else if follow {
            opt_chars(active)
        } else {
            None
        }),
{
    match source {
        Some(s) => Some(s),
        None => if follow { active } else { None },
    }
}

/// View of an optional string.
pub open spec fn opt_chars(o: Option<String>) -> Option<Seq<char>> {
    match o {
        Some(s) => Some(s@),
        None => None,
    }
}

/// Compare two strings character by character.
pub fn same_text(a: &String, b: &String) -> (r: bool)
    ensures
        r == (a@ == b@),
{
    a.eq(b)
}

/// Whether to reopen capture on the actively playing sink: only when some
/// sink is playing and it differs from the current device (when nothing plays
/// the current source is kept, so pausing never yanks capture away).
pub fn should_switch_sink(current: &Option<String>, active: &Option<String>) -> (r: bool)
    ensures
        r == (match (opt_chars(*current), opt_chars(*active)) {
            (_, None) => false,
            (None, Some(_)) => true,
            (Some(c), Some(a)) => c != a,
        }),
{
    match active {
        None => false,
        Some(a) => match current {
            None => true,
            Some(c) => !same_text(c, a),
        },
    }
}

/// The analysis format after capture reported what it actually negotiated.
#[derive(Clone, Copy, Debug, PartialEq, Eq)]
pub struct Reconciled {
    /// Negotiated sample rate.
    pub rate: u32,
    /// Channel count to analyse (the negotiated one when it is 1 or 2).
    pub channels: usize,
    /// High cut-off clamped below the negotiated Nyquist frequency.
    pub high_cutoff: u32,
}

/// The high cut-off kept valid at a new rate:
/// `max(min(high, rate / 2 - 1), low + 1)`, saturating at the ends.
pub open spec fn spec_clamp_high_cutoff(high: u32, low: u32, rate: u32) -> u32 {
    let nyq = rate / 2;
    let top: u32 = if nyq == 0 { 0 } else { (nyq - 1) as u32 };
    let floor: u32 = if low == u32::MAX { u32::MAX } else { (low + 1) as u32 };
    let h = if high < top { high } else { top };
    if h > floor { h } else { floor }
}

/// Whether and how to rebuild the analysis plan once capture reports the
/// format it actually delivers. `None` when nothing was reported yet or the
/// plan already matches.
pub open spec fn spec_reconcile(negotiated_rate: u32, negotiated_channels: u32, plan_rate: u32, plan_channels: usize, low: u32, high: u32) -> Option<Reconciled> {
    let channels: usize = if negotiated_channels == 1 || negotiated_channels == 2 {
        negotiated_channels as usize
    } else {
        plan_channels
    };
    if negotiated_rate == 0 {
        None
    } else if plan_rate == negotiated_rate && plan_channels == channels {
        None
    } else {
        Some(Reconciled { rate: negotiated_rate, channels, high_cutoff: spec_clamp_high_cutoff(high, low, negotiated_rate) })
    }
}

/// Decide the plan rebuild for a negotiated capture format.
pub fn reconcile(negotiated_rate: u32, negotiated_channels: u32, plan_rate: u32, plan_channels: usize, low: u32, high: u32) -> (r: Option<Reconciled>)
    ensures
        r == spec_reconcile(negotiated_rate, negotiated_channels, plan_rate, plan_channels, low, high),
{
    if negotiated_rate == 0 {
        return None;
    }
    let channels: usize = if negotiated_channels == 1 || negotiated_channels == 2 {
        negotiated_channels as usize
    } else {
        plan_channels
    };
    if plan_rate == negotiated_rate && plan_channels == channels {
        return None;
    }
    let nyq = negotiated_rate / 2;
    let top = nyq.saturating_sub(1);
    let floor = low.saturating_add(1);
    let h = if high < top { high } else { top };
    let high_cutoff = if h > floor { h } else { floor };
    Some(Reconciled { rate: negotiated_rate, channels, high_cutoff })
}

/// A rebuild is asked for exactly when capture reported a rate and the plan
/// differs from what it delivers: in rate, or in a supported (mono or
/// stereo) channel count, even when the rate already matches. The rebuilt
/// plan takes the negotiated rate, and the negotiated channel count when it
/// is supported, else keeps the plan's.
pub proof fn law_reconcile_follows_the_negotiated_format(
    negotiated_rate: u32,
    negotiated_channels: u32,
    plan_rate: u32,
    plan_channels: usize,
    low: u32,
    high: u32,
)
    ensures
        ({
            let r = spec_reconcile(negotiated_rate, negotiated_channels, plan_rate, plan_channels, low, high);
            let supported = negotiated_channels == 1 || negotiated_channels == 2;
            &&& r is None <==> (negotiated_rate == 0 || (plan_rate == negotiated_rate
                    && (!supported || negotiated_channels as int == plan_channels as int)))
            &&& negotiated_rate != 0 && plan_rate != negotiated_rate ==> r is Some
            &&& negotiated_rate != 0 && supported && negotiated_channels as int != plan_channels as int ==> r is Some
            &&& r matches Some(x) ==> x.rate == negotiated_rate
                && x.channels as int == (if supported { negotiated_channels as int } else { plan_channels as int })
        }),
{
}

/// A rebuilt plan's cut-off band is valid at the negotiated rate whenever the
/// rate leaves room for it (`low + 1 < rate / 2`).
pub proof fn law_reconciled_cutoff_is_valid(high: u32, low: u32, rate: u32)
    requires
        low > 0,
        (low as int) + 1 < (rate / 2) as int,
    ensures
        crate::dsp::spec_cutoff_ok(low, spec_clamp_high_cutoff(high, low, rate), rate),
{
}

/// PulseAudio record fragment size in bytes for one read of `frame_samples`
/// frames of `channels` 32-bit floats: `max(frame_samples * channels * 4, 1)`,
/// saturating, capped at `u32::MAX`.
pub open spec fn spec_fragment_bytes(frame_samples: usize, channels: u8) -> u32 {
    let a = frame_samples * channels;
    let sat_a: int = if a > usize::MAX { usize::MAX as int } else { a };
    let b = sat_a * 4;
    let sat_b: int = if b > usize::MAX { usize::MAX as int } else { b };
    let m: int = if sat_b < 1 { 1 } else { sat_b };
    if m > u32::MAX { u32::MAX } else { m as u32 }
}

/// Fragment size requested from the server so audio arrives one read at a time.
pub fn fragment_bytes(frame_samples: usize, channels: u8) -> (r: u32)
    ensures
        r == spec_fragment_bytes(frame_samples, channels),
{
    let a = match frame_samples.checked_mul(channels as usize) {
        Some(v) => v,
        None => usize::MAX,
    };
    let b = match a.checked_mul(4) {
        Some(v) => v,
        None => usize::MAX,
    };
    let m = if b < 1 { 1 } else { b };
    if m > u32::MAX as usize { u32::MAX } else { m as u32 }
}

/// One playback stream of a sound server.
#[derive(Clone, Copy, Debug, PartialEq, Eq)]
pub struct SinkInput {
    /// Stream index; later streams have higher indices.
    pub index: u32,
    /// Index of the sink it plays on.
    pub sink: u32,
    /// The stream is paused.
    pub corked: bool,
    /// The stream is muted.
    pub mute: bool,
}

/// A stream actually emits sound: neither paused nor muted.
pub open spec fn spec_playing(s: SinkInput) -> bool {
    !s.corked && !s.mute
}

/// Sink of the most recently started playing stream (the highest index,
/// the last of equal ones), or `None` when nothing plays.
pub fn active_sink(inputs: &Vec<SinkInput>) -> (r: Option<u32>)
    ensures
        r is None <==> (forall|i: int| 0 <= i < inputs@.len() ==> !spec_playing(#[trigger] inputs@[i])),
        r matches Some(sink) ==> exists|i: int| 0 <= i < inputs@.len() && spec_playing(inputs@[i])
            && inputs@[i].sink == sink
            && (forall|j: int| 0 <= j < inputs@.len() && spec_playing(#[trigger] inputs@[j]) ==> inputs@[j].index <= inputs@[i].index)
            && (forall|j: int| i < j < inputs@.len() && spec_playing(#[trigger] inputs@[j]) ==> inputs@[j].index < inputs@[i].index),
{
    let n = inputs.len();
    let mut best: Option<usize> = None;
    let mut i: usize = 0;
    while i < n
        invariant
            n == inputs@.len(),
            0 <= i <= n,
            best is None <==> (forall|k: int| 0 <= k < i ==> !spec_playing(#[trigger] inputs@[k])),
            best matches Some(b) ==> b < i && spec_playing(inputs@[b as int])
                && (forall|j: int| 0 <= j < i && spec_playing(#[trigger] inputs@[j]) ==> inputs@[j].index <= inputs@[b as int].index)
                && (forall|j: int| b < j < i && spec_playing(#[trigger] inputs@[j]) ==> inputs@[j].index < inputs@[b as int].index),
        decreases n - i,
    {
        let s = inputs[i];
        if !s.corked && !s.mute {
            match best {
                None => { best = Some(i); },
                Some(b) => {
                    if s.index >= inputs[b].index {
                        best = Some(i);
                    }
                },
            }
        }
        i = i + 1;
    }
    match best {
        None => None,
        Some(b) => Some(inputs[b].sink),
    }
}

/// The monitor source that records what a sink plays: its name plus `.monitor`.
pub fn monitor_name(sink: &str) -> (r: String)
    ensures
        r@ == sink@ + ".monitor"@,
{
    let mut s = String::from_str(sink);
    s.append(".monitor");
    s
}


/// Whether the default output device changed since the stream was opened:
/// only when the stream knows its device and it differs from the current
/// default.
pub fn endpoint_changed(current: &Option<String>, now: &String) -> (r: bool)
    ensures
        r == (match opt_chars(*current) {
            Some(c) => c != now@,
            None => false,
        }),
{
    match current {
        Some(c) => !same_text(c, now),
        None => false,
    }
}

/// Bound on converted samples kept waiting for the consumer: the most recent
/// two seconds, but never less than one read.
pub open spec fn spec_pending_cap(rate: u32, channels: usize, read_len: usize) -> int {
    let two_s = rate * channels * 2;
    if two_s < read_len { read_len as int } else { two_s }
}

/// How many waiting samples to keep before the oldest are dropped.
pub fn pending_cap(rate: u32, channels: usize, read_len: usize) -> (r: usize)
    requires
        rate * channels * 2 <= usize::MAX,
    ensures
        r == spec_pending_cap(rate, channels, read_len),
{
    assert((rate as usize) * channels <= rate * channels * 2) by (nonlinear_arith)
        requires rate * channels * 2 <= usize::MAX;
    let two_s = (rate as usize) * channels * 2;
    if two_s < read_len { read_len } else { two_s }
}

/// Samples the PipeWire queue may hold: about four seconds of audio at the
/// target format, at least one.
pub open spec fn spec_queue_cap(rate: u32, channels: u8) -> int {
    let ch: int = if channels == 0 { 1 } else { channels as int };
    let c = rate * ch * 4;
    if c < 1 { 1 } else { c }
}

/// Capacity of the PipeWire sample queue.
pub fn queue_cap(rate: u32, channels: u8) -> (r: usize)
    requires
        (rate as int) * (channels as int) * 4 <= usize::MAX,
        (rate as int) * 4 <= usize::MAX,
    ensures
        r == spec_queue_cap(rate, channels),
{
    let ch: usize = if channels == 0 { 1 } else { channels as usize };
    assert((rate as int) * (ch as int) * 4 <= usize::MAX) by (nonlinear_arith)
        requires (rate as int) * (channels as int) * 4 <= usize::MAX, (rate as int) * 4 <= usize::MAX,
            ch == (if channels == 0 { 1 } else { channels as int });
    let c = (rate as usize) * ch * 4;
    if c < 1 { 1 } else { c }
}

/// The node a PipeWire capture stream targets for a configured device: none
/// (follow the default sink) for no device, an empty name, `default` or
/// `auto`; otherwise the name with a Pulse-style `.monitor` suffix removed.
pub open spec fn spec_pipewire_target(device: Option<Seq<char>>) -> Option<Seq<char>> {
    match device {
        None => None,
        Some(d) => if d.len() == 0 || d == "default"@ || d == "auto"@ {
            None
        } else if d.len() >= 8 && d.subrange(d.len() - 8, d.len() as int) == ".monitor"@ {
            Some(d.subrange(0, d.len() - 8))
        } else {
            Some(d)
        },
    }
}

/// Which node to capture from for the configured device.
pub fn pipewire_target(device: &Option<String>) -> (r: Option<String>)
    ensures
        opt_chars(r) == spec_pipewire_target(opt_chars(*device)),
{
    let d = match device {
        None => return None,
        Some(d) => d,
    };
    let def = String::from_str("default");
    let auto = String::from_str("auto");
    if d.as_str().is_empty() || same_text(d, &def) || same_text(d, &auto) {
        return None;
    }
    let c = crate::text::chars_of(d.as_str());
    let n = c.len();
    let suffix: Vec<char> = vec!['.', 'm', 'o', 'n', 'i', 't', 'o', 'r'];
    proof {
        reveal_strlit(".monitor");
        assert(suffix@ =~= ".monitor"@);
    }
    if n >= 8 && crate::text::matches_at(&c, n - 8, &suffix) {
        let mut out: Vec<char> = Vec::new();
        let mut i: usize = 0;
        while i < n - 8
            invariant
                n == c@.len(),
                8 <= n,
                0 <= i <= n - 8,
                out@ == c@.subrange(0, i as int),
            decreases n - 8 - i,
        {
            out.push(c[i]);
            assert(c@.subrange(0, i + 1) =~= c@.subrange(0, i as int).push(c@[i as int]));
            i = i + 1;
        }
        return Some(crate::text::string_from_chars(&out));
    }
    Some(d.clone())
}

} // verus!
