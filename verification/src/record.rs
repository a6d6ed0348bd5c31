//! Offline recording arithmetic: how much audio each video frame consumes.

use vstd::prelude::*;
use vstd::arithmetic::div_mod::{lemma_fundamental_div_mod, lemma_mod_pos_bound, lemma_div_is_ordered};
use vstd::arithmetic::mul::{lemma_mul_inequality};
use std::sync::atomic::AtomicU8;

verus! {

/// Cumulative PCM frames that must have been fed after `frames` video frames:
/// `min(floor(frames * rate / fps), total)`, with a zero `fps` read as one.
pub open spec fn spec_pcm_target(frames: nat, rate: nat, fps: nat, total: nat) -> nat {
    let per = if fps == 0 { 1nat } else { fps };
    let t = (frames * rate) / per;
    if t < total { t } else { total }
}

/// PCM frames (per channel) that must have been fed once `frames` video frames
/// are rendered. The cursor is the cumulative rational `floor(frames·rate/fps)`,
/// clamped to `total`, so it never drifts whatever the rate/fps ratio.
pub fn pcm_target(frames: u64, rate: u32, fps: u32, total: usize) -> (r: usize)
    requires
        frames * rate <= u64::MAX,
    ensures
        r == spec_pcm_target(frames as nat, rate as nat, fps as nat, total as nat),
{
    let per: u64 = if fps == 0 { 1 } else { fps as u64 };
    let t: u64 = frames * (rate as u64) / per;
    if t < total as u64 {
        t as usize
    } else {
        total
    }
}


/// Video frames needed to cover `total` PCM frames at `fps` from a `rate` Hz
/// track: `ceil(total * fps / rate)`, with a zero `rate` read as one.
pub open spec fn spec_total_frames(total: nat, fps: nat, rate: nat) -> nat {
    let per = if rate == 0 { 1nat } else { rate };
    ((total * fps + per - 1) as nat / per) as nat
}

/// Total video frames a recording of `total_pcm` PCM frames will contain.
pub fn total_frames(total_pcm: usize, fps: u32, rate: u32) -> (r: u64)
    requires
        total_pcm * fps <= u64::MAX,
    ensures
        r == spec_total_frames(total_pcm as nat, fps as nat, rate as nat),
{
    let per: u64 = if rate == 0 { 1 } else { rate as u64 };
    let n: u64 = total_pcm as u64 * fps as u64;
    let q: u64 = n / per;
    proof {
        lemma_fundamental_div_mod(n as int, per as int);
        lemma_mod_pos_bound(n as int, per as int);
        lemma_ceil_div(n as int, per as int);
        lemma_floor_bounds(n as int, per as int);
        if n % per != 0 {
            assert(per >= 2);
            assert(q < u64::MAX) by (nonlinear_arith)
                requires q * per <= n, per >= 2, n <= u64::MAX;
        }
    }
    if n % per == 0 {
        q
    } else {
        q + 1
    }
}

proof fn lemma_ceil_div(n: int, d: int)
    requires
        n >= 0,
        d > 0,
    ensures
        (n + d - 1) / d == if n % d == 0 { n / d } else { n / d + 1 },
{
    lemma_fundamental_div_mod(n, d);
    lemma_mod_pos_bound(n, d);
    lemma_fundamental_div_mod(n + d - 1, d);
    lemma_mod_pos_bound(n + d - 1, d);
    let q = n / d;
    let m = n % d;
    let q2 = (n + d - 1) / d;
    let m2 = (n + d - 1) % d;
    assert(n + d - 1 == d * q2 + m2);
    assert(n == d * q + m);
    if m == 0 {
        assert(d * q2 + m2 == d * q + d - 1);
        assert(q2 == q) by (nonlinear_arith)
            requires d * q2 + m2 == d * q + d - 1, 0 <= m2 < d, d > 0;
    } else {
        assert(d * (q + 1) == d * q + d) by (nonlinear_arith);
        assert(d * q2 + m2 == d * (q + 1) + m - 1);
        assert(q2 == q + 1) by (nonlinear_arith)
            requires d * q2 + m2 == d * (q + 1) + m - 1, 0 <= m2 < d, 1 <= m < d, d > 0;
    }
}

/// Floor division brackets its numerator: `q * d <= n < q * d + d`.
proof fn lemma_floor_bounds(n: int, d: int)
    requires
        n >= 0,
        d > 0,
    ensures
        (n / d) * d <= n,
        n < (n / d) * d + d,
        n / d >= 0,
{
    lemma_fundamental_div_mod(n, d);
    lemma_mod_pos_bound(n, d);
    assert((n / d) * d == d * (n / d)) by (nonlinear_arith);
    assert(n / d >= 0) by (nonlinear_arith)
        requires n >= 0, d > 0, n == d * (n / d) + n % d, 0 <= n % d < d;
}

/// The PCM cursor never moves backwards: more video frames never feed less audio.
pub proof fn law_pcm_target_monotone(f1: nat, f2: nat, rate: nat, fps: nat, total: nat)
    requires
        f1 <= f2,
    ensures
        spec_pcm_target(f1, rate, fps, total) <= spec_pcm_target(f2, rate, fps, total),
{
    let per = if fps == 0 { 1nat } else { fps };
    lemma_mul_inequality(f1 as int, f2 as int, rate as int);
    lemma_div_is_ordered((f1 * rate) as int, (f2 * rate) as int, per as int);
}

/// Feeding frame by frame stops exactly on `total`: every frame before
/// `ceil(total * fps / rate)` leaves audio unfed, and that frame feeds the rest.
pub proof fn law_pcm_target_lands_on_total(total: nat, rate: nat, fps: nat, f: nat)
    requires
        rate > 0,
        fps > 0,
    ensures
        spec_pcm_target(spec_total_frames(total, fps, rate), rate, fps, total) == total,
        f < spec_total_frames(total, fps, rate) ==> spec_pcm_target(f, rate, fps, total) < total,
{
    let n = (total * fps) as int;
    let big_t = spec_total_frames(total, fps, rate) as int;
    let r = rate as int;
    let p = fps as int;
    lemma_floor_bounds(n + r - 1, r);
    assert(big_t == (n + r - 1) / r);
    // big_t * r >= n
    assert(big_t * r >= n);
    assert(big_t * r <= n + r - 1);
    // floor(big_t * r / p) >= total
    lemma_floor_bounds(big_t * r, p);
    assert((big_t * r) / p >= total) by (nonlinear_arith)
        requires
            big_t * r >= n,
            n == total * p,
            big_t * r < ((big_t * r) / p) * p + p,
            p > 0,
    ;
    assert((big_t as nat) * rate == big_t * r);
    if f < big_t {
        let fr = (f * rate) as int;
        assert(fr <= (big_t - 1) * r) by (nonlinear_arith)
            requires f < big_t, fr == f * r, r > 0;
        assert(fr < n) by (nonlinear_arith)
            requires fr <= (big_t - 1) * r, big_t * r <= n + r - 1;
        lemma_floor_bounds(fr, p);
        assert(fr / p < total) by (nonlinear_arith)
            requires (fr / p) * p <= fr, fr < n, n == total * p, p > 0;
    }
}

/// Every full video frame feeds the ideal `rate / fps` PCM frames to within
/// one sample: `|chunk - rate / fps| < 1`.
pub proof fn law_pcm_chunk_is_steady(f: nat, rate: nat, fps: nat, total: nat)
    requires
        fps > 0,
        spec_pcm_target(f + 1, rate, fps, total) < total,
    ensures
        spec_pcm_target(f, rate, fps, total) <= spec_pcm_target(f + 1, rate, fps, total),
        ({
            let chunk = spec_pcm_target(f + 1, rate, fps, total) - spec_pcm_target(f, rate, fps, total);
            chunk * fps > rate - fps && chunk * fps < rate + fps
        }),
{
    law_pcm_target_monotone(f, f + 1, rate, fps, total);
    let a = (f * rate) as int;
    let b = ((f + 1) * rate) as int;
    let p = fps as int;
    let r = rate as int;
    assert((f + 1) * rate == f * rate + rate) by (nonlinear_arith);
    assert(b == a + r);
    lemma_floor_bounds(a, p);
    lemma_floor_bounds(b, p);
    let qa = a / p;
    let qb = b / p;
    assert(qa <= qb) by {
        lemma_div_is_ordered(a, b, p);
    }
    assert(spec_pcm_target(f, rate, fps, total) == qa);
    assert(spec_pcm_target(f + 1, rate, fps, total) == qb);
    assert((qb - qa) * p > r - p && (qb - qa) * p < r + p) by (nonlinear_arith)
        requires
            qa * p <= a,
            a < qa * p + p,
            qb * p <= b,
            b < qb * p + p,
            b == a + r,
    ;
}


/// Validated recording parameters that stay fixed for the whole drive loop.
#[derive(Clone, Copy, Debug)]
pub struct RecordPlan {
    /// PCM frames to feed (the whole track, or less under a duration limit).
    pub total_pcm: usize,
    /// Sample rate of the decoded track, in Hz.
    pub rate: u32,
    /// Video framerate.
    pub fps: u32,
    /// Interleaved channels of the decoded track.
    pub channels: usize,
}

impl RecordPlan {
    /// The plan's arithmetic fits the machine: every cursor position times the
    /// channel count is addressable, and every frame count times the rate fits
    /// in 64 bits.
    pub open spec fn fits(self) -> bool {
        &&& self.rate > 0
        &&& self.fps > 0
        &&& self.total_pcm * self.channels <= usize::MAX
        &&& self.total_pcm * self.fps + self.rate <= u64::MAX
    }

    /// Video frames this plan renders.
    pub open spec fn frames(self) -> nat {
        spec_total_frames(self.total_pcm as nat, self.fps as nat, self.rate as nat)
    }
}

/// Progress of the recording drive loop.
#[derive(Clone, Copy, Debug, PartialEq, Eq)]
pub struct RecordState {
    /// One idle update has passed so render targets exist before capturing.
    pub warmed_up: bool,
    /// The encoder has been handed to the capture machinery.
    pub capturing: bool,
    /// Video frames fed so far.
    pub frame: u64,
    /// PCM frames fed so far.
    pub cursor: usize,
    /// Capture was stopped; the loop is waiting for the encoder to finish.
    pub stopped: bool,
}

/// What the drive loop asks its host to do on one update.
#[derive(Clone, Copy, Debug, PartialEq, Eq)]
pub enum RecordAction {
    /// First update: nothing to do yet.
    WarmUp,
    /// The encoder died while frames were still being produced: abort.
    AbortEncoderDied,
    /// All audio was fed: stop capturing so the encoder receives its end of stream.
    StopCapture,
    /// The encoder finished cleanly: exit successfully.
    Finished,
    /// The encoder finished with a failure: exit with an error.
    FinishedFailed,
    /// The encoder is still finalizing the file: check again next update.
    AwaitEncoder,
    /// No encoder was available to start capturing: exit with an error.
    EncoderMissing,
    /// Push interleaved samples `first_sample..end_sample` for this frame,
    /// starting the capture first when `start_capture` is set.
    Feed { start_capture: bool, first_sample: usize, end_sample: usize },
}

impl RecordState {
    /// The state before the first update.
    pub fn new() -> (r: RecordState)
        ensures
            r == (RecordState { warmed_up: false, capturing: false, frame: 0, cursor: 0, stopped: false }),
    {
        RecordState { warmed_up: false, capturing: false, frame: 0, cursor: 0, stopped: false }
    }

    /// The loop invariant: the cursor is exactly the PCM target of the frames fed.
    pub open spec fn tracks(self, plan: RecordPlan) -> bool {
        &&& self.cursor as nat == spec_pcm_target(self.frame as nat, plan.rate as nat, plan.fps as nat, plan.total_pcm as nat)
        &&& self.frame as nat <= plan.frames()
    }
}

/// One update of the recording drive loop, as a function of the current state,
/// the encoder's outcome (`Some(true)` finished cleanly, `Some(false)` failed,
/// `None` running or not started) and whether an encoder is still waiting to be
/// started.
pub open spec fn spec_drive_step(s: RecordState, plan: RecordPlan, finished: Option<bool>, encoder_pending: bool) -> (RecordState, RecordAction) {
    if !s.warmed_up {
        (RecordState { warmed_up: true, ..s }, RecordAction::WarmUp)
    } else if !s.stopped && finished == Some(false) {
        (s, RecordAction::AbortEncoderDied)
    } else if s.cursor >= plan.total_pcm {
        if !s.stopped {
            (RecordState { stopped: true, ..s }, RecordAction::StopCapture)
        } else {
            match finished {
                Some(true) => (s, RecordAction::Finished),
                Some(false) => (s, RecordAction::FinishedFailed),
                None => (s, RecordAction::AwaitEncoder),
            }
        }
    } else if !s.capturing && !encoder_pending {
        (s, RecordAction::EncoderMissing)
    } else {
        let next = spec_pcm_target((s.frame + 1) as nat, plan.rate as nat, plan.fps as nat, plan.total_pcm as nat);
        (
            RecordState { capturing: true, frame: (s.frame + 1) as u64, cursor: next as usize, ..s },
            RecordAction::Feed {
                start_capture: !s.capturing,
                first_sample: (s.cursor * plan.channels) as usize,
                end_sample: (next * plan.channels) as usize,
            },
        )
    }
}

/// Advance the recording drive loop by one update and say what to do.
pub fn drive_step(state: &mut RecordState, plan: &RecordPlan, finished: Option<bool>, encoder_pending: bool) -> (action: RecordAction)
    requires
        plan.fits(),
        old(state).tracks(*plan),
    ensures
        (*final(state), action) == spec_drive_step(*old(state), *plan, finished, encoder_pending),
        final(state).tracks(*plan),
{
    if !state.warmed_up {
        state.warmed_up = true;
        return RecordAction::WarmUp;
    }
    if !state.stopped && finished == Some(false) {
        return RecordAction::AbortEncoderDied;
    }
    if state.cursor >= plan.total_pcm {
        if !state.stopped {
            state.stopped = true;
            return RecordAction::StopCapture;
        }
        return match finished {
            Some(true) => RecordAction::Finished,
            Some(false) => RecordAction::FinishedFailed,
            None => RecordAction::AwaitEncoder,
        };
    }
    if !state.capturing && !encoder_pending {
        return RecordAction::EncoderMissing;
    }
    proof {
        lemma_step_bounds(*state, *plan);
    }
    let start_capture = !state.capturing;
    let next = pcm_target(state.frame + 1, plan.rate, plan.fps, plan.total_pcm);
    let first_sample = state.cursor * plan.channels;
    let end_sample = next * plan.channels;
    state.capturing = true;
    state.frame = state.frame + 1;
    state.cursor = next;
    RecordAction::Feed { start_capture, first_sample, end_sample }
}

/// While audio remains, the next frame is within the plan and its arithmetic fits.
proof fn lemma_step_bounds(s: RecordState, plan: RecordPlan)
    requires
        plan.fits(),
        s.tracks(plan),
        s.cursor < plan.total_pcm,
    ensures
        (s.frame as nat) < plan.frames(),
        (s.frame + 1) * plan.rate <= u64::MAX,
        spec_pcm_target((s.frame + 1) as nat, plan.rate as nat, plan.fps as nat, plan.total_pcm as nat) <= plan.total_pcm,
        s.cursor * plan.channels <= usize::MAX,
        spec_pcm_target((s.frame + 1) as nat, plan.rate as nat, plan.fps as nat, plan.total_pcm as nat) * plan.channels <= usize::MAX,
        s.frame + 1 <= u64::MAX,
{
    let total = plan.total_pcm as nat;
    let r = plan.rate as nat;
    let p = plan.fps as nat;
    law_pcm_target_lands_on_total(total, r, p, s.frame as nat);
    let big_t = plan.frames();
    if (s.frame as nat) >= big_t {
        assert(s.frame as nat == big_t);
    }
    // (frame + 1) * rate <= T * rate <= total * fps + rate - 1
    let n = (total * p) as int;
    lemma_floor_bounds(n + r - 1, r as int);
    assert((s.frame + 1) * r <= big_t * r) by (nonlinear_arith)
        requires s.frame + 1 <= big_t;
    assert(big_t * r <= n + r - 1);
    let next = spec_pcm_target((s.frame + 1) as nat, r, p, total);
    assert(next * plan.channels <= total * plan.channels) by (nonlinear_arith)
        requires next <= total;
    assert(s.cursor * plan.channels <= total * plan.channels) by (nonlinear_arith)
        requires s.cursor <= total;
}

/// Each update keeps the loop invariant, and a feed hands over exactly the
/// samples between the old and the new cursor: every sample of the recording
/// is fed once, in order.
pub proof fn law_drive_step_feeds_contiguously(s: RecordState, plan: RecordPlan, finished: Option<bool>, encoder_pending: bool)
    requires
        plan.fits(),
        s.tracks(plan),
    ensures
        spec_drive_step(s, plan, finished, encoder_pending).0.tracks(plan),
        spec_drive_step(s, plan, finished, encoder_pending).0.cursor >= s.cursor,
        spec_drive_step(s, plan, finished, encoder_pending).1 matches RecordAction::Feed { first_sample, end_sample, .. } ==> {
            &&& first_sample == s.cursor * plan.channels
            &&& end_sample == spec_drive_step(s, plan, finished, encoder_pending).0.cursor * plan.channels
        },
{
    if s.warmed_up && !(!s.stopped && finished == Some(false)) && s.cursor < plan.total_pcm
        && (s.capturing || encoder_pending) {
        lemma_step_bounds(s, plan);
        law_pcm_target_monotone(s.frame as nat, (s.frame + 1) as nat, plan.rate as nat, plan.fps as nat, plan.total_pcm as nat);
    }
}


/// Why a requested video size or framerate cannot be recorded.
#[derive(Clone, Copy, Debug, PartialEq, Eq)]
pub enum VideoSpecError {
    /// A dimension rounds down to zero once made even.
    InvalidSize { width: u32, height: u32 },
    /// The framerate is outside `1..=240`.
    FpsOutOfRange { fps: u32 },
}

/// Video dimensions accepted for encoding.
#[derive(Clone, Copy, Debug, PartialEq, Eq)]
pub struct VideoSize {
    /// Even width in pixels.
    pub width: u32,
    /// Even height in pixels.
    pub height: u32,
    /// The request had an odd dimension and was rounded down.
    pub rounded: bool,
}

/// Largest even number not above `x`.
pub open spec fn spec_even_floor(x: u32) -> u32 {
    (x - x % 2) as u32
}

/// Check a requested recording size and framerate. The encoder needs even
/// dimensions, so each is rounded down to even; a dimension that becomes zero
/// is rejected, as is a framerate outside `1..=240`.
pub fn validate_video(width: u32, height: u32, fps: u32) -> (r: Result<VideoSize, VideoSpecError>)
    ensures
        r == (if spec_even_floor(width) == 0 || spec_even_floor(height) == 0 {
            Err(VideoSpecError::InvalidSize { width, height })
        } else if fps == 0 || fps > 240 {
            Err(VideoSpecError::FpsOutOfRange { fps })
        } else {
            Ok(VideoSize {
                width: spec_even_floor(width),
                height: spec_even_floor(height),
                rounded: spec_even_floor(width) != width || spec_even_floor(height) != height,
            })
        }),
{
    let w = width & !1u32;
    let h = height & !1u32;
    assert(w == spec_even_floor(width)) by (bit_vector)
        requires w == width & !1u32;
    assert(h == spec_even_floor(height)) by (bit_vector)
        requires h == height & !1u32;
    if w == 0 || h == 0 {
        return Err(VideoSpecError::InvalidSize { width, height });
    }
    if fps == 0 || fps > 240 {
        return Err(VideoSpecError::FpsOutOfRange { fps });
    }
    Ok(VideoSize { width: w, height: h, rounded: w != width || h != height })
}

/// A captured frame buffer is shorter than one RGBA frame.
#[derive(Clone, Copy, Debug, PartialEq, Eq)]
pub struct ShortFrame {
    /// Bytes the capture handed back.
    pub len: usize,
    /// Bytes one `width × height` RGBA frame needs.
    pub needed: usize,
}

/// Bytes of exactly one RGBA frame out of a captured buffer of `data_len`
/// bytes: `width × height × 4`. Any trailing readback padding is dropped (the
/// encoder reads fixed-size frames, so padding would shift every later frame);
/// a buffer shorter than one frame is an error rather than a truncated frame.
pub fn frame_payload_len(width: u32, height: u32, data_len: usize) -> (r: Result<usize, ShortFrame>)
    requires
        width * height * 4 <= usize::MAX,
    ensures
        r == (if width * height * 4 <= data_len {
            Ok::<usize, ShortFrame>((width * height * 4) as usize)
        } else {
            Err(ShortFrame { len: data_len, needed: (width * height * 4) as usize })
        }),
{
    proof {
        vstd::arithmetic::mul::lemma_mul_nonnegative(width as int, height as int);
        assert(width * height <= width * height * 4) by (nonlinear_arith)
            requires width * height >= 0;
    }
    let needed = width as usize * height as usize * 4;
    if needed <= data_len {
        Ok(needed)
    } else {
        Err(ShortFrame { len: data_len, needed })
    }
}

/// Encoder outcome code: still running.
pub const ENCODER_RUNNING: u8 = 0;
/// Encoder outcome code: finished cleanly.
pub const ENCODER_FINISHED_OK: u8 = 1;
/// Encoder outcome code: failed.
pub const ENCODER_FAILED: u8 = 2;

/// The outcome a code stands for: `None` while running, `Some(true)` for a
/// clean finish, `Some(false)` for anything else.
pub open spec fn spec_outcome_of(code: u8) -> Option<bool> {
    if code == ENCODER_RUNNING {
        None
    } else if code == ENCODER_FINISHED_OK {
        Some(true)
    } else {
        Some(false)
    }
}

/// Decode an encoder outcome code.
pub fn outcome_of(code: u8) -> (r: Option<bool>)
    ensures
        r == spec_outcome_of(code),
{
    if code == ENCODER_RUNNING {
        None
    } else if code == ENCODER_FINISHED_OK {
        Some(true)
    } else {
        Some(false)
    }
}

/// The code recorded for a finished encoder.
pub fn outcome_code(ok: bool) -> (r: u8)
    ensures
        spec_outcome_of(r) == Some(ok),
{
    if ok { ENCODER_FINISHED_OK } else { ENCODER_FAILED }
}

/// Where the encoder ended up, shared between the encoder (which finishes on
/// another thread) and the recording driver.
pub struct EncoderStatus(AtomicU8);

impl EncoderStatus {
    /// A status that reports "still running".
    pub fn new() -> Self {
        EncoderStatus(AtomicU8::new(ENCODER_RUNNING))
    }

    /// `Some(true)` = finished cleanly, `Some(false)` = the encoder failed,
    /// `None` = still running. The outcome is read from state another thread
    /// writes, so which one a call sees is not stated; the decoding of the
    /// stored code is `outcome_of`'s.
    pub fn finished(&self) -> (r: Option<bool>) {
        outcome_of(self.0.load(std::sync::atomic::Ordering::Acquire))
    }

    /// Record the final outcome, overwriting whatever was there.
    pub fn record(&self, ok: bool) {
        self.0.store(outcome_code(ok), std::sync::atomic::Ordering::Release)
    }

    /// Record the final outcome unless one was already recorded (an earlier
    /// failure is never overwritten by a later finish).
    pub fn settle(&self, ok: bool) {
        let _ = self.0.compare_exchange(
            ENCODER_RUNNING,
            outcome_code(ok),
            std::sync::atomic::Ordering::AcqRel,
            std::sync::atomic::Ordering::Acquire,
        );
    }
}

/// Tag metadata and cover art of an offline input track.
#[derive(Clone, Debug, PartialEq, Eq)]
pub struct OfflineTrack {
    pub title: Option<String>,
    pub artist: Option<String>,
    pub album: Option<String>,
    /// Encoded cover art (JPEG/PNG bytes), if embedded.
    pub art: Option<Vec<u8>>,
}

/// Standard tag keys the decoder cares about; every other key is `Other`.
#[derive(Clone, Copy, Debug, PartialEq, Eq)]
pub enum TagKey {
    TrackTitle,
    Artist,
    AlbumArtist,
    Album,
    Other,
}

/// One tag of a metadata revision: its standard key and its value as text.
#[derive(Clone, Debug)]
pub struct Tag {
    pub key: TagKey,
    pub value: String,
}

/// Tag fields gathered across metadata revisions. Artist and album artist are
/// kept apart until the end, because tag order within a file is arbitrary.
#[derive(Clone, Debug, Default)]
pub struct TagScratch {
    pub title: Option<String>,
    pub artist: Option<String>,
    pub album_artist: Option<String>,
    pub album: Option<String>,
    pub art: Option<Vec<u8>>,
}

/// Fill `slot` with `value` unless it already holds one.
pub open spec fn spec_fill(slot: Option<Seq<char>>, value: Seq<char>) -> Option<Seq<char>> {
    if slot is Some { slot } else { Some(value) }
}

/// View of a string option.
pub open spec fn opt_view(o: Option<String>) -> Option<Seq<char>> {
    match o {
        Some(s) => Some(s@),
        None => None,
    }
}

/// View of a byte-buffer option.
pub open spec fn opt_bytes(o: Option<Vec<u8>>) -> Option<Seq<u8>> {
    match o {
        Some(v) => Some(v@),
        None => None,
    }
}

/// The text fields of a scratch, as `(title, artist, album_artist, album)`.
pub type TagFields = (Option<Seq<char>>, Option<Seq<char>>, Option<Seq<char>>, Option<Seq<char>>);

/// Fold the tags `tags[0..n]` into `acc`: each non-empty value fills its field
/// only if the field is still empty, so the first value seen wins.
pub open spec fn spec_fold_tags(acc: TagFields, tags: Seq<(TagKey, Seq<char>)>, n: int) -> TagFields
    decreases n,
{
    if n <= 0 {
        acc
    } else {
        let prev = spec_fold_tags(acc, tags, n - 1);
        let (key, value) = tags[n - 1];
        if value.len() == 0 {
            prev
        } else {
            match key {
                TagKey::TrackTitle => (spec_fill(prev.0, value), prev.1, prev.2, prev.3),
                TagKey::Artist => (prev.0, spec_fill(prev.1, value), prev.2, prev.3),
                TagKey::AlbumArtist => (prev.0, prev.1, spec_fill(prev.2, value), prev.3),
                TagKey::Album => (prev.0, prev.1, prev.2, spec_fill(prev.3, value)),
                TagKey::Other => prev,
            }
        }
    }
}

impl TagScratch {
    /// The text fields of this scratch.
    pub open spec fn fields(&self) -> TagFields {
        (opt_view(self.title), opt_view(self.artist), opt_view(self.album_artist), opt_view(self.album))
    }

    /// Tags as plain `(key, text)` pairs.
    pub open spec fn tag_pairs(tags: Seq<Tag>) -> Seq<(TagKey, Seq<char>)> {
        tags.map_values(|t: Tag| (t.key, t.value@))
    }

    /// Fold one metadata revision in, filling only missing fields (the first
    /// revision seen wins). The art is taken from the revision's first picture
    /// only if no art was found yet.
    pub fn merge_metadata(&mut self, tags: &Vec<Tag>, first_visual: Option<Vec<u8>>)
        ensures
            final(self).fields() == spec_fold_tags(old(self).fields(), Self::tag_pairs(tags@), tags@.len() as int),
            opt_bytes(final(self).art) == (if old(self).art is Some { opt_bytes(old(self).art) } else { opt_bytes(first_visual) }),
    {
        let n = tags.len();
        let ghost start = self.fields();
        let mut i: usize = 0;
        while i < n
            invariant
                n == tags@.len(),
                0 <= i <= n,
                self.fields() == spec_fold_tags(start, Self::tag_pairs(tags@), i as int),
                opt_bytes(self.art) == opt_bytes(old(self).art),
            decreases n - i,
        {
            let tag = &tags[i];
            assert(Self::tag_pairs(tags@)[i as int] == (tag.key, tag.value@));
            if !tag.value.as_str().is_empty() {
                match tag.key {
                    TagKey::TrackTitle => {
                        if self.title.is_none() {
                            self.title = Some(tag.value.clone());
                        }
                    },
                    TagKey::Artist => {
                        if self.artist.is_none() {
                            self.artist = Some(tag.value.clone());
                        }
                    },
                    TagKey::AlbumArtist => {
                        if self.album_artist.is_none() {
                            self.album_artist = Some(tag.value.clone());
                        }
                    },
                    TagKey::Album => {
                        if self.album.is_none() {
                            self.album = Some(tag.value.clone());
                        }
                    },
                    TagKey::Other => {},
                }
            }
            i = i + 1;
        }
        if self.art.is_none() {
            self.art = first_visual;
        }
    }

    /// The finished track metadata: the performing artist wins, and the album
    /// artist is only a fallback.
    pub fn into_track(self) -> (r: OfflineTrack)
        ensures
            r.title == self.title,
            r.artist == (if self.artist is Some { self.artist } else { self.album_artist }),
            r.album == self.album,
            r.art == self.art,
    {
        OfflineTrack {
            title: self.title,
            artist: match self.artist {
                Some(a) => Some(a),
                None => self.album_artist,
            },
            album: self.album,
            art: self.art,
        }
    }
}

/// PCM frames in `sample_count` interleaved samples of `channels` channels,
/// with zero channels read as one.
pub fn pcm_frames(sample_count: usize, channels: usize) -> (r: usize)
    ensures
        r == sample_count / (if channels == 0 { 1 } else { channels }),
{
    sample_count / if channels == 0 { 1 } else { channels }
}

/// Channels the analysis sees for a decoded source: wider sources are folded
/// down to stereo, and a source reporting zero channels counts as mono.
pub fn analysis_channels(source_channels: usize) -> (r: usize)
    ensures
        r == (if source_channels > 2 { 2 } else if source_channels == 0 { 1 } else { source_channels }),
        1 <= r <= 2,
{
    if source_channels > 2 {
        2
    } else if source_channels == 0 {
        1
    } else {
        source_channels
    }
}

} // verus!
