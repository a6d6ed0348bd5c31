//! Integer geometry of the spectrum analyser: parameter validation, FFT window
//! sizes, buffer capacities and how much of each input chunk is consumed.

use vstd::prelude::*;
use crate::text::{decimal, spec_decimal};

verus! {

/// Highest sample rate the analyser accepts, in Hz.
pub const MAX_RATE: u32 = 384_000;

/// A rejected analyser parameter.
#[derive(Clone, Copy, Debug, PartialEq, Eq)]
pub enum ParamError {
    /// `channels` was not 1 or 2.
    InvalidChannels(u32),
    /// `bars` was 0.
    InvalidBars(u32),
    /// `rate` was 0.
    InvalidRate(u32),
    /// The cut-off band was empty, inverted, or reached the Nyquist frequency.
    InvalidCutoff { low: u32, high: u32, rate: u32 },
    /// The sample rate exceeds [`MAX_RATE`].
    IllegalRate(u32),
    /// More bars than the treble window has bins: `bars > max`.
    TooManyBars { bars: u32, rate: u32, max: usize },
}

/// FFT window size for a sample rate: 512 up to 8125 Hz, doubling per band up
/// to 64× above 300 kHz.
pub open spec fn spec_fft_buffer_size(rate: u32) -> usize {
    if rate <= 8125 {
        512
    } else if rate <= 16250 {
        1024
    } else if rate <= 32500 {
        2048
    } else if rate <= 75000 {
        4096
    } else if rate <= 150000 {
        8192
    } else if rate <= 300000 {
        16384
    } else {
        32768
    }
}

/// Compute the analyser's treble FFT window size for a sample rate.
pub fn fft_buffer_size(rate: u32) -> (r: usize)
    ensures
        r == spec_fft_buffer_size(rate),
{
    let mut size: usize = 512;
    if rate > 8125 && rate <= 16250 {
        size = size * 2;
    } else if rate > 16250 && rate <= 32500 {
        size = size * 4;
    } else if rate > 32500 && rate <= 75000 {
        size = size * 8;
    } else if rate > 75000 && rate <= 150000 {
        size = size * 16;
    } else if rate > 150000 && rate <= 300000 {
        size = size * 32;
    } else if rate > 300000 {
        size = size * 64;
    }
    size
}

/// A higher sample rate never gets a smaller window, and every window is a
/// power-of-two multiple of 512 between 512 and 32768.
pub proof fn law_fft_buffer_size_monotone(r1: u32, r2: u32)
    requires
        r1 <= r2,
    ensures
        spec_fft_buffer_size(r1) <= spec_fft_buffer_size(r2),
        512 <= spec_fft_buffer_size(r1) <= 32768,
        spec_fft_buffer_size(r1) % 512 == 0,
{
}

/// The window follows cava's rate ladder band by band: 512 up to 8125 Hz,
/// then 1024, 2048, 4096, 8192, 16384 and 32768 for the bands ending at
/// 16250, 32500, 75000, 150000 and 300000 Hz and above; common rates land
/// where cava puts them (44.1 kHz and 48 kHz on 4096, 96 kHz on 8192).
/// The plan's bass window is twice the treble one and its input buffer one
/// bass window per channel.
pub proof fn law_fft_buffer_size_ladder(rate: u32, bars: u32, channels: u32)
    ensures
        rate <= 8125 ==> spec_fft_buffer_size(rate) == 512,
        8125 < rate <= 16250 ==> spec_fft_buffer_size(rate) == 1024,
        16250 < rate <= 32500 ==> spec_fft_buffer_size(rate) == 2048,
        32500 < rate <= 75000 ==> spec_fft_buffer_size(rate) == 4096,
        75000 < rate <= 150000 ==> spec_fft_buffer_size(rate) == 8192,
        150000 < rate <= 300000 ==> spec_fft_buffer_size(rate) == 16384,
        300000 < rate ==> spec_fft_buffer_size(rate) == 32768,
        spec_fft_buffer_size(44_100) == 4096 && spec_fft_buffer_size(48_000) == 4096,
        spec_fft_buffer_size(96_000) == 8192,
        1 <= channels <= 2 ==> (spec_plan_geometry(bars, rate, channels) matches Ok(g) ==> {
            &&& g.fft_treble == spec_fft_buffer_size(rate)
            &&& g.fft_bass == 2 * g.fft_treble
            &&& g.input_buffer_size == g.fft_bass * channels
        }),
{
    if 1 <= channels <= 2 {
        let t = spec_fft_buffer_size(rate);
        assert(t * 2 * channels <= 65536 * 2) by (nonlinear_arith)
            requires t <= 32768, channels <= 2;
    }
}

/// The first failing basic check among channel count, bar count and rate, in
/// that order.
pub open spec fn spec_check_shape(bars: u32, rate: u32, channels: u32) -> Result<(), ParamError> {
    if channels < 1 || channels > 2 {
        Err(ParamError::InvalidChannels(channels))
    } else if bars == 0 {
        Err(ParamError::InvalidBars(bars))
    } else if rate == 0 {
        Err(ParamError::InvalidRate(rate))
    } else {
        Ok(())
    }
}

/// Check the channel count (1 or 2), bar count (at least 1) and rate (non-zero).
pub fn check_shape(bars: u32, rate: u32, channels: u32) -> (r: Result<(), ParamError>)
    ensures
        r == spec_check_shape(bars, rate, channels),
{
    if channels < 1 || channels > 2 {
        return Err(ParamError::InvalidChannels(channels));
    }
    if bars == 0 {
        return Err(ParamError::InvalidBars(bars));
    }
    if rate == 0 {
        return Err(ParamError::InvalidRate(rate));
    }
    Ok(())
}

/// The cut-off band is valid when `0 < low < high < rate / 2`.
pub open spec fn spec_cutoff_ok(low: u32, high: u32, rate: u32) -> bool {
    low != 0 && low < high && high < rate / 2
}

/// Check the cut-off band against the Nyquist frequency `rate / 2`.
pub fn check_cutoff(low: u32, high: u32, rate: u32) -> (r: Result<(), ParamError>)
    ensures
        r == (if spec_cutoff_ok(low, high, rate) {
            Ok::<(), ParamError>(())
        } else {
            Err(ParamError::InvalidCutoff { low, high, rate })
        }),
{
    if low == 0 || high <= low || high >= rate / 2 {
        return Err(ParamError::InvalidCutoff { low, high, rate });
    }
    Ok(())
}

/// Buffer geometry of an analysis plan.
#[derive(Clone, Copy, Debug, PartialEq, Eq)]
pub struct PlanGeometry {
    /// Bars per channel.
    pub bars: usize,
    /// Interleaved channels (1 or 2).
    pub channels: usize,
    /// Sample rate in Hz.
    pub rate: u32,
    /// Treble FFT window size.
    pub fft_treble: usize,
    /// Bass FFT window size (twice the treble window).
    pub fft_bass: usize,
    /// Capacity of the input ring buffer, in samples.
    pub input_buffer_size: usize,
}

impl PlanGeometry {
    /// Samples produced per execution: `bars * channels`.
    pub open spec fn spec_output_len(self) -> nat {
        (self.bars * self.channels) as nat
    }

    /// Length of every output slice: all left-channel bars, then (for stereo)
    /// all right-channel bars.
    pub fn output_len(&self) -> (r: usize)
        requires
            self.bars * self.channels <= usize::MAX,
        ensures
            r == self.spec_output_len(),
    {
        self.bars * self.channels
    }

    /// Largest number of new samples one execution consumes.
    pub fn max_input_samples(&self) -> (r: usize)
        ensures
            r == self.input_buffer_size,
    {
        self.input_buffer_size
    }
}

/// The geometry the analyser builds for `bars`, `rate` and `channels`, or why
/// it refuses: a rate above [`MAX_RATE`], or more bars than `fft_treble / 2 + 1`.
pub open spec fn spec_plan_geometry(bars: u32, rate: u32, channels: u32) -> Result<PlanGeometry, ParamError> {
    let treble = spec_fft_buffer_size(rate);
    if rate > MAX_RATE {
        Err(ParamError::IllegalRate(rate))
    } else if bars > treble / 2 + 1 {
        Err(ParamError::TooManyBars { bars, rate, max: (treble / 2 + 1) as usize })
    } else {
        Ok(PlanGeometry {
            bars: bars as usize,
            channels: channels as usize,
            rate,
            fft_treble: treble,
            fft_bass: (treble * 2) as usize,
            input_buffer_size: (treble * 2 * channels) as usize,
        })
    }
}

/// Size the plan's buffers, rejecting rates above [`MAX_RATE`] and more bars
/// than the treble window can resolve.
pub fn plan_geometry(bars: u32, rate: u32, channels: u32) -> (r: Result<PlanGeometry, ParamError>)
    requires
        spec_check_shape(bars, rate, channels) is Ok,
        bars <= i32::MAX,
    ensures
        r == spec_plan_geometry(bars, rate, channels),
{
    if rate > MAX_RATE {
        return Err(ParamError::IllegalRate(rate));
    }
    let treble = fft_buffer_size(rate);
    let max = treble / 2 + 1;
    if bars as usize > max {
        return Err(ParamError::TooManyBars { bars, rate, max });
    }
    let bass = treble * 2;
    assert(bass <= 65536 && channels <= 2);
    assert(bass * channels <= 131072) by (nonlinear_arith)
        requires bass <= 65536, channels <= 2;
    Ok(PlanGeometry {
        bars: bars as usize,
        channels: channels as usize,
        rate,
        fft_treble: treble,
        fft_bass: bass,
        input_buffer_size: bass * channels as usize,
    })
}

/// A built plan never produces more bars than its treble window has bins, and
/// its input buffer holds exactly one bass window per channel.
pub proof fn law_plan_geometry_bounds(bars: u32, rate: u32, channels: u32)
    requires
        spec_check_shape(bars, rate, channels) is Ok,
        spec_plan_geometry(bars, rate, channels) is Ok,
    ensures
        ({
            let g = spec_plan_geometry(bars, rate, channels)->Ok_0;
            &&& 1 <= g.bars <= g.fft_treble / 2 + 1
            &&& g.fft_bass == 2 * g.fft_treble
            &&& g.input_buffer_size == g.fft_bass * g.channels
            &&& g.spec_output_len() <= 2 * (g.fft_treble / 2 + 1)
        }),
{
    let g = spec_plan_geometry(bars, rate, channels)->Ok_0;
    let treble = spec_fft_buffer_size(rate);
    assert(g.bars == bars as usize && g.channels == channels as usize);
    assert(g.fft_treble == treble && g.fft_bass == treble * 2);
    assert(treble * 2 * channels <= 131072) by (nonlinear_arith)
        requires treble <= 32768, channels <= 2;
    assert(g.input_buffer_size == treble * 2 * channels);
    assert(g.bars * g.channels <= 2 * (g.fft_treble / 2 + 1)) by (nonlinear_arith)
        requires g.bars <= g.fft_treble / 2 + 1, 1 <= g.channels <= 2;
}

/// New samples one execution consumes from an `input_len`-sample chunk: whole
/// interleaved frames only (a trailing partial frame is dropped), and no more
/// than the input buffer holds.
pub open spec fn spec_usable_input(input_len: nat, channels: nat, capacity: nat) -> nat {
    let whole = (input_len - input_len % channels) as nat;
    if whole < capacity { whole } else { capacity }
}

/// How many samples of an `input_len`-sample chunk are analysed.
pub fn usable_input(input_len: usize, channels: usize, capacity: usize) -> (r: usize)
    requires
        channels > 0,
    ensures
        r == spec_usable_input(input_len as nat, channels as nat, capacity as nat),
{
    proof {
        vstd::arithmetic::div_mod::lemma_mod_pos_bound(input_len as int, channels as int);
        vstd::arithmetic::div_mod::lemma_fundamental_div_mod(input_len as int, channels as int);
        vstd::arithmetic::mul::lemma_mul_nonnegative(channels as int, input_len as int / channels as int);
    }
    let whole = input_len - input_len % channels;
    if whole < capacity { whole } else { capacity }
}

/// The consumed prefix never exceeds the chunk or the buffer, and a full
/// buffer's worth of whole frames is consumed whole: when the capacity is a
/// multiple of the channel count, only whole interleaved frames are ever fed.
pub proof fn law_usable_input_is_whole_frames(input_len: nat, channels: nat, capacity: nat)
    requires
        channels > 0,
        capacity % channels == 0,
    ensures
        spec_usable_input(input_len, channels, capacity) <= input_len,
        spec_usable_input(input_len, channels, capacity) <= capacity,
        spec_usable_input(input_len, channels, capacity) % channels == 0,
        input_len - spec_usable_input(input_len, channels, capacity) < channels
            || spec_usable_input(input_len, channels, capacity) == capacity,
{
    vstd::arithmetic::div_mod::lemma_mod_pos_bound(input_len as int, channels as int);
    vstd::arithmetic::div_mod::lemma_fundamental_div_mod(input_len as int, channels as int);
    let w = (input_len - input_len % channels) as int;
    assert(w == channels * (input_len as int / channels as int));
    vstd::arithmetic::div_mod::lemma_mod_multiples_basic(input_len as int / channels as int, channels as int);
    assert((input_len as int / channels as int) * channels == channels * (input_len as int / channels as int)) by (nonlinear_arith);
}


/// Shift `new` samples into the front of the analysis ring, newest first:
/// the new samples, reversed, followed by the oldest samples that still fit.
/// The ring keeps its length; whatever falls off the end is dropped.
pub fn shift_in_reversed<T: Copy>(ring: &mut Vec<T>, input: &[T])
    requires
        input@.len() <= old(ring)@.len(),
    ensures
        final(ring)@ == input@.reverse() + old(ring)@.take(old(ring)@.len() - input@.len()),
{
    let n = ring.len();
    let k = input.len();
    let ghost before = ring@;
    let mut out: Vec<T> = Vec::new();
    let mut i: usize = k;
    while i > 0
        invariant
            k == input@.len(),
            i <= k,
            out@ == input@.subrange(i as int, k as int).reverse(),
        decreases i,
    {
        out.push(input[i - 1]);
        assert(input@.subrange(i - 1, k as int).reverse() =~= input@.subrange(i as int, k as int).reverse().push(input@[i - 1]));
        i = i - 1;
    }
    assert(input@.subrange(0, k as int) =~= input@);
    let mut j: usize = 0;
    while j < n - k
        invariant
            ring@ == before,
            n == before.len(),
            k <= n,
            j <= n - k,
            out@ == input@.reverse() + before.take(j as int),
        decreases n - k - j,
    {
        out.push(ring[j]);
        assert(before.take(j + 1) =~= before.take(j as int).push(before[j as int]));
        assert(out@ =~= input@.reverse() + before.take(j + 1));
        j = j + 1;
    }
    *ring = out;
}

/// After a shift the newest sample sits at the front and each earlier input
/// sample follows it; the old contents move back by the number of new
/// samples, and the ring keeps its length.
pub proof fn law_shift_keeps_order<T>(ring: Seq<T>, input: Seq<T>, k: int, m: int)
    requires
        input.len() <= ring.len(),
        0 <= k < input.len(),
        0 <= m < ring.len() - input.len(),
    ensures
        ({
            let after = input.reverse() + ring.take(ring.len() - input.len());
            &&& after.len() == ring.len()
            &&& after[input.len() - 1 - k] == input[k]
            &&& after[input.len() + m] == ring[m]
        }),
{
}

/// Where the first (or only) channel's bars sit in a published buffer of
/// `len` values: `0..min(bars_per_channel, len)`.
pub fn left_range(bars_per_channel: usize, len: usize) -> (r: (usize, usize))
    ensures
        r == (0usize, if bars_per_channel < len { bars_per_channel } else { len }),
{
    (0, if bars_per_channel < len { bars_per_channel } else { len })
}

/// Where the second channel's bars sit: empty for mono, otherwise
/// `min(bars_per_channel, len)..min(2 * bars_per_channel, len)`, so a buffer
/// shorter than declared (mid-resize) never reads out of bounds.
pub fn right_range(bars_per_channel: usize, channels: usize, len: usize) -> (r: (usize, usize))
    requires
        bars_per_channel * 2 <= usize::MAX,
    ensures
        channels < 2 ==> r == (0usize, 0usize),
        channels >= 2 ==> r == (
            (if bars_per_channel < len { bars_per_channel } else { len }),
            (if bars_per_channel * 2 < len { (bars_per_channel * 2) as usize } else { len }),
        ),
        r.0 <= r.1 <= len,
{
    if channels < 2 {
        return (0, 0);
    }
    let start = if bars_per_channel < len { bars_per_channel } else { len };
    let twice = bars_per_channel * 2;
    let end = if twice < len { twice } else { len };
    (start, end)
}

/// The diagnostic the analyser's initialisation gives for a rejection it
/// makes itself (a rate above the maximum, too many bars); `None` for the
/// range checks made before it.
pub open spec fn spec_init_diagnostic(e: ParamError) -> Option<Seq<char>> {
    match e {
        ParamError::IllegalRate(r) => Some(
            "cava_init called with illegal sample rate: "@ + spec_decimal(r as nat) + "\n"@),
        ParamError::TooManyBars { bars, rate, max } => Some(
            "cava_init called with illegal number of bars: "@ + spec_decimal(bars as nat) + ", for "@
                + spec_decimal(rate as nat) + " sample rate number of bars can't be more than "@
                + spec_decimal(max as nat) + "\n"@),
        _ => None,
    }
}

/// The text a rejection is reported with.
pub open spec fn spec_param_message(e: ParamError) -> Seq<char> {
    match e {
        ParamError::InvalidChannels(c) => "channels must be 1 or 2, got "@ + spec_decimal(c as nat),
        ParamError::InvalidBars(b) => "bars must be >= 1, got "@ + spec_decimal(b as nat),
        ParamError::InvalidRate(r) => "rate must be > 0, got "@ + spec_decimal(r as nat),
        ParamError::InvalidCutoff { low, high, rate } =>
            "invalid cut-off band: low="@ + spec_decimal(low as nat) + " high="@ + spec_decimal(high as nat)
                + " (must satisfy 0 < low < high < rate/2 = "@ + spec_decimal((rate / 2) as nat) + ")"@,
        _ => "cavacore rejected parameters: "@ + spec_init_diagnostic(e)->Some_0,
    }
}

impl ParamError {
    /// The initialisation diagnostic of a rejection the analyser's set-up
    /// makes itself, such as `cava_init called with illegal sample rate:
    /// 400000` followed by a newline.
    pub fn init_diagnostic(&self) -> (r: Option<String>)
        ensures
            match spec_init_diagnostic(*self) {
                Some(t) => r matches Some(m) && m@ == t,
                None => r is None,
            },
    {
        match *self {
            ParamError::IllegalRate(rate) => {
                let mut m = String::from_str("cava_init called with illegal sample rate: ");
                let d = decimal(rate as u64);
                m.append(d.as_str());
                m.append("\n");
                Some(m)
            },
            ParamError::TooManyBars { bars, rate, max } => {
                let mut m = String::from_str("cava_init called with illegal number of bars: ");
                let d1 = decimal(bars as u64);
                m.append(d1.as_str());
                m.append(", for ");
                let d2 = decimal(rate as u64);
                m.append(d2.as_str());
                m.append(" sample rate number of bars can't be more than ");
                let d3 = decimal(max as u64);
                m.append(d3.as_str());
                m.append("\n");
                Some(m)
            },
            _ => None,
        }
    }

    /// The human-readable description of this rejection.
    pub fn message(&self) -> (r: String)
        ensures
            r@ == spec_param_message(*self),
    {
        match *self {
            ParamError::InvalidChannels(c) => {
                let mut m = String::from_str("channels must be 1 or 2, got ");
                let d = decimal(c as u64);
                m.append(d.as_str());
                m
            },
            ParamError::InvalidBars(b) => {
                let mut m = String::from_str("bars must be >= 1, got ");
                let d = decimal(b as u64);
                m.append(d.as_str());
                m
            },
            ParamError::InvalidRate(rate) => {
                let mut m = String::from_str("rate must be > 0, got ");
                let d = decimal(rate as u64);
                m.append(d.as_str());
                m
            },
            ParamError::InvalidCutoff { low, high, rate } => {
                let mut m = String::from_str("invalid cut-off band: low=");
                let d1 = decimal(low as u64);
                m.append(d1.as_str());
                m.append(" high=");
                let d2 = decimal(high as u64);
                m.append(d2.as_str());
                m.append(" (must satisfy 0 < low < high < rate/2 = ");
                let d3 = decimal((rate / 2) as u64);
                m.append(d3.as_str());
                m.append(")");
                m
            },
            _ => {
                let mut m = String::from_str("cavacore rejected parameters: ");
                match self.init_diagnostic() {
                    Some(d) => m.append(d.as_str()),
                    None => {},
                }
                m
            },
        }
    }
}

} // verus!
