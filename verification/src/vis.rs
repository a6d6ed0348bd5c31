//! Drawing-mode logic and the integer bookkeeping of the visualizers: which
//! mode drives physics, colour-profile selection, bar resampling indices,
//! entity-pool reconciliation, ball eviction and stroke mesh indices.

use vstd::prelude::*;

verus! {

/// Layout family a drawing mode belongs to: linear (box) or radial (circle).
#[derive(Clone, Copy, PartialEq, Eq, Debug, Structural)]
pub enum VisFamily {
    /// Linear, drawn across an axis.
    Box,
    /// Radial, swept around a center.
    Circle,
}

/// The per-bar shape, independent of layout family.
#[derive(Clone, Copy, PartialEq, Eq, Debug, Structural)]
pub enum VisShape {
    /// Smooth waveform.
    Wave,
    /// Stacked discrete blocks.
    Levels,
    /// One floating item per bar.
    Particles,
    /// Classic spectrum bars.
    Bars,
    /// Centered squares/hearts scaling with level.
    Spine,
    /// Zig-zag around the axis (box only).
    Splitter,
}

/// The eleven drawing modes: a shape laid out in a family. `Splitter` has no
/// circle form.
#[derive(Clone, Copy, PartialEq, Eq, Debug, Structural)]
pub enum DrawingMode {
    WaveBox,
    LevelsBox,
    ParticlesBox,
    BarsBox,
    SpineBox,
    SplitterBox,
    WaveCircle,
    LevelsCircle,
    ParticlesCircle,
    BarsCircle,
    SpineCircle,
}

/// Number of drawing modes.
pub const MODE_COUNT: usize = 11;

/// Position of a mode in the cycling order.
pub open spec fn spec_mode_index(m: DrawingMode) -> int {
    match m {
        DrawingMode::WaveBox => 0,
        DrawingMode::LevelsBox => 1,
        DrawingMode::ParticlesBox => 2,
        DrawingMode::BarsBox => 3,
        DrawingMode::SpineBox => 4,
        DrawingMode::SplitterBox => 5,
        DrawingMode::WaveCircle => 6,
        DrawingMode::LevelsCircle => 7,
        DrawingMode::ParticlesCircle => 8,
        DrawingMode::BarsCircle => 9,
        DrawingMode::SpineCircle => 10,
    }
}

/// The mode at a position of the cycling order (positions taken modulo 11).
pub open spec fn spec_mode_at(i: int) -> DrawingMode {
    let k = i % 11;
    if k == 0 {
        DrawingMode::WaveBox
    } else if k == 1 {
        DrawingMode::LevelsBox
    } else if k == 2 {
        DrawingMode::ParticlesBox
    } else if k == 3 {
        DrawingMode::BarsBox
    } else if k == 4 {
        DrawingMode::SpineBox
    } else if k == 5 {
        DrawingMode::SplitterBox
    } else if k == 6 {
        DrawingMode::WaveCircle
    } else if k == 7 {
        DrawingMode::LevelsCircle
    } else if k == 8 {
        DrawingMode::ParticlesCircle
    } else if k == 9 {
        DrawingMode::BarsCircle
    } else {
        DrawingMode::SpineCircle
    }
}

impl DrawingMode {
    /// Every mode, in cycling order.
    pub fn all() -> (r: Vec<DrawingMode>)
        ensures
            r@.len() == 11,
            forall|i: int| 0 <= i < 11 ==> r@[i] == spec_mode_at(i),
    {
        vec![
            DrawingMode::WaveBox,
            DrawingMode::LevelsBox,
            DrawingMode::ParticlesBox,
            DrawingMode::BarsBox,
            DrawingMode::SpineBox,
            DrawingMode::SplitterBox,
            DrawingMode::WaveCircle,
            DrawingMode::LevelsCircle,
            DrawingMode::ParticlesCircle,
            DrawingMode::BarsCircle,
            DrawingMode::SpineCircle,
        ]
    }

    /// The shape of this mode.
    pub open spec fn spec_shape(self) -> VisShape {
        match self {
            DrawingMode::WaveBox | DrawingMode::WaveCircle => VisShape::Wave,
            DrawingMode::LevelsBox | DrawingMode::LevelsCircle => VisShape::Levels,
            DrawingMode::ParticlesBox | DrawingMode::ParticlesCircle => VisShape::Particles,
            DrawingMode::BarsBox | DrawingMode::BarsCircle => VisShape::Bars,
            DrawingMode::SpineBox | DrawingMode::SpineCircle => VisShape::Spine,
            DrawingMode::SplitterBox => VisShape::Splitter,
        }
    }

    /// The family of this mode: the first six are box modes.
    pub open spec fn spec_family(self) -> VisFamily {
        if spec_mode_index(self) < 6 { VisFamily::Box } else { VisFamily::Circle }
    }

    /// The shape/algorithm of this mode.
    pub fn shape(self) -> (r: VisShape)
        ensures
            r == self.spec_shape(),
    {
        match self {
            DrawingMode::WaveBox | DrawingMode::WaveCircle => VisShape::Wave,
            DrawingMode::LevelsBox | DrawingMode::LevelsCircle => VisShape::Levels,
            DrawingMode::ParticlesBox | DrawingMode::ParticlesCircle => VisShape::Particles,
            DrawingMode::BarsBox | DrawingMode::BarsCircle => VisShape::Bars,
            DrawingMode::SpineBox | DrawingMode::SpineCircle => VisShape::Spine,
            DrawingMode::SplitterBox => VisShape::Splitter,
        }
    }

    /// Whether this mode is linear (box) or radial (circle).
    pub fn family(self) -> (r: VisFamily)
        ensures
            r == self.spec_family(),
    {
        match self {
            DrawingMode::WaveBox | DrawingMode::LevelsBox | DrawingMode::ParticlesBox
            | DrawingMode::BarsBox | DrawingMode::SpineBox | DrawingMode::SplitterBox => VisFamily::Box,
            DrawingMode::WaveCircle | DrawingMode::LevelsCircle | DrawingMode::ParticlesCircle
            | DrawingMode::BarsCircle | DrawingMode::SpineCircle => VisFamily::Circle,
        }
    }

    /// Position of this mode in the cycling order.
    pub fn index(self) -> (r: usize)
        ensures
            r == spec_mode_index(self),
            r < 11,
    {
        match self {
            DrawingMode::WaveBox => 0,
            DrawingMode::LevelsBox => 1,
            DrawingMode::ParticlesBox => 2,
            DrawingMode::BarsBox => 3,
            DrawingMode::SpineBox => 4,
            DrawingMode::SplitterBox => 5,
            DrawingMode::WaveCircle => 6,
            DrawingMode::LevelsCircle => 7,
            DrawingMode::ParticlesCircle => 8,
            DrawingMode::BarsCircle => 9,
            DrawingMode::SpineCircle => 10,
        }
    }

    /// Next mode for live cycling (wraps around after the last).
    pub fn next(self) -> (r: DrawingMode)
        ensures
            r == spec_mode_at(spec_mode_index(self) + 1),
    {
        let all = DrawingMode::all();
        let i = self.index();
        let k = (i + 1) % MODE_COUNT;
        assert(k == (i + 1) % 11);
        assert(k % 11 == k);
        assert(spec_mode_at(k as int) == spec_mode_at(i + 1));
        all[k]
    }
}

/// Cycling visits every mode exactly once before returning: the mode index
/// and the cycling order are inverse, and `next` steps the index by one
/// modulo 11.
pub proof fn law_mode_cycle(m: DrawingMode, i: int)
    ensures
        spec_mode_at(spec_mode_index(m)) == m,
        0 <= i < 11 ==> spec_mode_index(spec_mode_at(i)) == i,
        spec_mode_index(spec_mode_at(spec_mode_index(m) + 1)) == (spec_mode_index(m) + 1) % 11,
{
}

/// Every circle mode has a box twin with the same shape, and `Splitter` is
/// the only shape without a circle form.
pub proof fn law_mode_shapes(m: DrawingMode)
    ensures
        m.spec_family() == VisFamily::Circle ==> spec_mode_at(spec_mode_index(m) - 6).spec_shape() == m.spec_shape()
            && spec_mode_at(spec_mode_index(m) - 6).spec_family() == VisFamily::Box,
        m.spec_shape() == VisShape::Splitter <==> m == DrawingMode::SplitterBox,
{
}

/// Mirroring behaviour.
#[derive(Clone, Copy, PartialEq, Eq, Debug, Structural)]
pub enum MirrorMode {
    /// Single visualization, no mirroring.
    Off,
    /// Whole visualization duplicated and reflected.
    Full,
    /// First half of bars on one side, second half on the mirrored side.
    SplitChannels,
}

/// Orientation of box modes; also steers the gradient of circle modes.
#[derive(Clone, Copy, PartialEq, Eq, Debug, Structural)]
pub enum Direction {
    /// Vertical, origin at the top.
    TopBottom,
    /// Vertical, origin at the bottom.
    BottomTop,
    /// Horizontal, origin at the left.
    LeftRight,
    /// Horizontal, origin at the right.
    RightLeft,
}

/// Whether the spectrum column colliders drive physics: floor-anchored,
/// un-mirrored Bars/Levels box modes.
pub fn columns_active(mode: DrawingMode, mirror: MirrorMode, direction: Direction) -> (r: bool)
    ensures
        r == (mode.spec_family() == VisFamily::Box
            && (mode.spec_shape() == VisShape::Bars || mode.spec_shape() == VisShape::Levels)
            && mirror == MirrorMode::Off && direction == Direction::BottomTop),
{
    let shape = mode.shape();
    mode.family() == VisFamily::Box && (shape == VisShape::Bars || shape == VisShape::Levels)
        && mirror == MirrorMode::Off && direction == Direction::BottomTop
}

/// Whether the wave heightfield drives physics.
pub fn wave_active(mode: DrawingMode, direction: Direction) -> (r: bool)
    ensures
        r == (mode == DrawingMode::WaveBox && direction == Direction::BottomTop),
{
    mode == DrawingMode::WaveBox && direction == Direction::BottomTop
}

/// Whether the planet blob drives physics: only the smooth circle wave has a
/// continuous rim.
pub fn planet_active(mode: DrawingMode) -> (r: bool)
    ensures
        r == (mode == DrawingMode::WaveCircle),
{
    mode == DrawingMode::WaveCircle
}

/// Whether physics is supported at all in this mode (otherwise balls are inert).
pub fn physics_supported(mode: DrawingMode, mirror: MirrorMode, direction: Direction) -> (r: bool)
    ensures
        r == (mode == DrawingMode::WaveCircle
            || (mode.spec_family() == VisFamily::Box
                && (mode.spec_shape() == VisShape::Bars || mode.spec_shape() == VisShape::Levels)
                && mirror == MirrorMode::Off && direction == Direction::BottomTop)
            || (mode == DrawingMode::WaveBox && direction == Direction::BottomTop)),
{
    planet_active(mode) || columns_active(mode, mirror, direction) || wave_active(mode, direction)
}

/// Index of the active colour profile among `count` profiles: the requested
/// one clamped to the last, or `None` when there are none.
pub fn profile_index(active: usize, count: usize) -> (r: Option<usize>)
    ensures
        count == 0 ==> r is None,
        count > 0 ==> r == Some(if active < count - 1 { active } else { (count - 1) as usize }),
        r matches Some(i) ==> i < count,
{
    if count == 0 {
        None
    } else if active < count - 1 {
        Some(active)
    } else {
        Some(count - 1)
    }
}


/// Source index for output slot `i` of `n` when folding `m` bars into a
/// left/right mirrored layout: the center slots take bar 0 (bass) and the
/// edges the last bar, or the reverse when `reverse` is set.
pub open spec fn spec_fold_index(m: nat, n: nat, reverse: bool, i: nat) -> nat {
    let half = (n + 1) / 2;
    let dist: nat = if i < half { (half - 1 - i) as nat } else { (i - (n - half)) as nat };
    let denom: nat = if half >= 2 { (half - 1) as nat } else { 1 };
    let idx: nat = dist * ((m - 1) as nat) / denom;
    let clamped: nat = if idx < m - 1 { idx } else { (m - 1) as nat };
    if reverse { ((m - 1) - clamped) as nat } else { clamped }
}

/// Source indices of a mirrored fold of `m` bars over `n` output slots.
pub fn fold_symmetric_indices(m: usize, n: usize, reverse: bool) -> (r: Vec<usize>)
    requires
        m >= 1,
        n * m <= usize::MAX,
    ensures
        r@.len() == n,
        forall|i: int| 0 <= i < n ==> r@[i] == spec_fold_index(m as nat, n as nat, reverse, i as nat),
        forall|i: int| 0 <= i < n ==> r@[i] < m,
{
    let half = n / 2 + n % 2;
    assert(half == (n + 1) / 2);
    let denom: usize = if half >= 2 { half - 1 } else { 1 };
    let mut out: Vec<usize> = Vec::new();
    let mut i: usize = 0;
    while i < n
        invariant
            m >= 1,
            n * m <= usize::MAX,
            half == (n + 1) / 2,
            denom == (if half >= 2 { (half - 1) as nat } else { 1nat }),
            0 <= i <= n,
            out@.len() == i,
            forall|k: int| 0 <= k < i ==> out@[k] == spec_fold_index(m as nat, n as nat, reverse, k as nat),
            forall|k: int| 0 <= k < i ==> out@[k] < m,
        decreases n - i,
    {
        let dist: usize = if i < half { half - 1 - i } else { i - (n - half) };
        assert(dist <= n);
        assert(dist * (m - 1) <= n * m) by (nonlinear_arith)
            requires dist <= n, m >= 1;
        let idx = dist * (m - 1) / denom;
        let clamped = if idx < m - 1 { idx } else { m - 1 };
        let v = if reverse { (m - 1) - clamped } else { clamped };
        out.push(v);
        i = i + 1;
    }
    out
}

/// The fold is exactly mirror-symmetric: slot `i` and slot `n - 1 - i`
/// take the same bar.
pub proof fn law_fold_is_symmetric(m: nat, n: nat, reverse: bool, i: nat)
    requires
        m >= 1,
        i < n,
    ensures
        spec_fold_index(m, n, reverse, i) == spec_fold_index(m, n, reverse, (n - 1 - i) as nat),
{
}

/// Source index for slot `pos` of `slots` evenly spaced samples of an
/// `m`-bar sequence: `pos * (m - 1) / max(slots - 1, 1)`, clamped to the last bar.
pub open spec fn spec_resample_index(m: nat, pos: nat, slots: nat) -> nat {
    let denom: nat = if slots >= 2 { (slots - 1) as nat } else { 1 };
    let idx = pos * ((m - 1) as nat) / denom;
    if idx < m - 1 { idx } else { (m - 1) as nat }
}

/// Which source bar feeds slot `pos` of `slots` when resampling `m` bars.
pub fn resample_index(m: usize, pos: usize, slots: usize) -> (r: usize)
    requires
        m >= 1,
        pos * m <= usize::MAX,
    ensures
        r == spec_resample_index(m as nat, pos as nat, slots as nat),
        r < m,
{
    let denom: usize = if slots >= 2 { slots - 1 } else { 1 };
    assert(pos * (m - 1) <= pos * m) by (nonlinear_arith)
        requires m >= 1;
    let idx = pos * (m - 1) / denom;
    if idx < m - 1 { idx } else { m - 1 }
}

/// With at least two slots, the first slot takes the first bar and the last
/// slot the last bar.
pub proof fn law_resample_endpoints(m: nat, slots: nat)
    requires
        m >= 1,
        slots >= 2,
    ensures
        spec_resample_index(m, 0, slots) == 0,
        spec_resample_index(m, (slots - 1) as nat, slots) == m - 1,
{
    let d = (slots - 1) as nat;
    let mm = (m - 1) as nat;
    vstd::arithmetic::div_mod::lemma_div_multiples_vanish(mm as int, d as int);
    assert(0 * mm == 0);
}

/// Which half of a split-channel layout slot `i` of `n` belongs to, and its
/// position and slot count within that half: the first `ceil(n / 2)` slots
/// show the first channel mirrored outward from the center, the rest the
/// second channel.
pub fn split_slot(i: usize, n: usize) -> (r: (bool, usize, usize))
    requires
        i < n,
    ensures
        ({
            let half = (n + 1) / 2;
            r == (if i < half { (true, (half - 1 - i) as usize, half as usize) } else { (false, (i - half) as usize, (n - half) as usize) })
        }),
        r.1 < r.2,
{
    let half = n / 2 + n % 2;
    if i < half { (true, half - 1 - i, half) } else { (false, i - half, n - half) }
}

/// How an entity pool must change to hold exactly `max(target, 1)` members
/// indexed `0..`.
#[derive(Clone, Copy, Debug, PartialEq, Eq)]
pub enum PoolChange {
    /// Already the right size.
    Keep,
    /// Spawn members with indices `from..to`.
    Spawn { from: usize, to: usize },
    /// Despawn every member whose index is at least `keep`.
    DespawnFrom { keep: usize },
}

/// Grow or shrink a pool of `current` members to the live bar count, keeping
/// indices contiguous.
pub fn reconcile_pool(current: usize, target: usize) -> (r: PoolChange)
    ensures
        ({
            let t: usize = if target == 0 { 1 } else { target };
            r == (if current < t {
                PoolChange::Spawn { from: current, to: t }
            } else if current > t {
                PoolChange::DespawnFrom { keep: t }
            } else {
                PoolChange::Keep
            })
        }),
{
    let t: usize = if target == 0 { 1 } else { target };
    if current < t {
        PoolChange::Spawn { from: current, to: t }
    } else if current > t {
        PoolChange::DespawnFrom { keep: t }
    } else {
        PoolChange::Keep
    }
}

/// Positions of the `len - max` oldest balls (smallest ids) once the live
/// count exceeds `max`; no positions when within the cap.
pub fn oldest_to_evict(ids: &Vec<u64>, max: usize) -> (r: Vec<usize>)
    ensures
        r@.len() == (if ids@.len() > max { ids@.len() - max } else { 0 }),
        forall|k: int| 0 <= k < r@.len() ==> r@[k] < ids@.len(),
        forall|a: int, b: int| 0 <= a < b < r@.len() ==> r@[a] != r@[b],
        forall|k: int, j: usize| 0 <= k < r@.len() && j < ids@.len() && !r@.contains(j)
            ==> ids@[#[trigger] r@[k] as int] <= #[trigger] ids@[j as int],
{
    let n = ids.len();
    let over: usize = if n > max { n - max } else { 0 };
    let mut chosen: Vec<bool> = Vec::new();
    let mut j: usize = 0;
    while j < n
        invariant
            0 <= j <= n,
            n == ids@.len(),
            chosen@.len() == j,
            forall|k: int| 0 <= k < j ==> !chosen@[k],
        decreases n - j,
    {
        chosen.push(false);
        j = j + 1;
    }
    let mut out: Vec<usize> = Vec::new();
    let mut step: usize = 0;
    while step < over
        invariant
            n == ids@.len(),
            over <= n,
            chosen@.len() == n,
            0 <= step <= over,
            out@.len() == step,
            forall|k: int| 0 <= k < step ==> out@[k] < n,
            forall|a: int, b: int| 0 <= a < b < step ==> out@[a] != out@[b],
            forall|p: int| 0 <= p < n ==> (chosen@[p] <==> out@.contains(p as usize)),
            forall|k: int, q: int| 0 <= k < step && 0 <= q < n && !chosen@[q] ==> ids@[out@[k] as int] <= ids@[q],
        decreases over - step,
    {
        // Some position is still unchosen: fewer than n were chosen.
        proof {
            lemma_all_chosen_means_n_picks(out@, n);
            let p = choose|p: usize| p < n && !out@.contains(p);
            assert(!chosen@[p as int]);
        }
        let mut best: usize = n;
        let mut q: usize = 0;
        while q < n
            invariant
                n == ids@.len(),
                chosen@.len() == n,
                0 <= q <= n,
                best == n || (best < q && !chosen@[best as int]),
                best == n ==> forall|p: int| 0 <= p < q ==> chosen@[p],
                best < n ==> forall|p: int| 0 <= p < q && !chosen@[p] ==> ids@[best as int] <= ids@[p],
            decreases n - q,
        {
            if !chosen[q] {
                if best == n || ids[q] < ids[best] {
                    best = q;
                }
            }
            q = q + 1;
        }
        assert(best < n);
        let ghost old_out = out@;
        let ghost old_chosen = chosen@;
        chosen.set(best, true);
        out.push(best);
        proof {
            assert forall|p: int| 0 <= p < n implies (chosen@[p] <==> out@.contains(p as usize)) by {
                if p == best as int {
                    assert(out@[step as int] == best);
                } else {
                    if old_out.contains(p as usize) {
                        let w = choose|w: int| 0 <= w < old_out.len() && old_out[w] == p as usize;
                        assert(out@[w] == p as usize);
                    }
                    if out@.contains(p as usize) {
                        let w = choose|w: int| 0 <= w < out@.len() && out@[w] == p as usize;
                        assert(w < step);
                        assert(old_out[w] == p as usize);
                    }
                }
            }
            assert forall|a: int, b: int| 0 <= a < b < step + 1 implies out@[a] != out@[b] by {
                if b == step as int {
                    assert(old_chosen[out@[a] as int]);
                    assert(!old_chosen[best as int]);
                }
            }
        }
        step = step + 1;
    }
    proof {
        assert forall|k: int, q: usize| 0 <= k < out@.len() && q < n && !out@.contains(q)
            implies ids@[#[trigger] out@[k] as int] <= #[trigger] ids@[q as int] by {
            assert(!chosen@[q as int]);
        }
    }
    out
}

/// `n` distinct positions below `n` leave nothing unpicked, so while fewer
/// than `n` were picked some position is still free.
proof fn lemma_all_chosen_means_n_picks(out: Seq<usize>, n: usize)
    requires
        out.len() < n,
        forall|k: int| 0 <= k < out.len() ==> out[k] < n,
    ensures
        exists|p: usize| p < n && !out.contains(p),
{
    let img = out.to_set();
    assert(img.len() <= out.len()) by {
        out.lemma_cardinality_of_set();
    }
    let full = vstd::set_lib::set_int_range(0, n as int);
    vstd::set_lib::lemma_int_range(0, n as int);
    let mapped = img.map(|x: usize| x as int);
    if !(exists|p: usize| p < n && !out.contains(p)) {
        assert forall|p: int| full.contains(p) implies mapped.contains(p) by {
            assert(out.contains(p as usize));
            assert(img.contains(p as usize));
            assert((p as usize) as int == p);
        }
        vstd::seq_lib::seq_to_set_is_finite(out);
        vstd::set_lib::lemma_map_size_bound(img, mapped, |x: usize| x as int);
        vstd::set_lib::lemma_len_subset(full, mapped);
        assert(false);
    }
}


/// The value `src` shows at slot `pos` of `slots` (`zero` for no data).
pub open spec fn spec_resample_at<T>(src: Seq<T>, pos: nat, slots: nat, zero: T) -> T {
    if src.len() == 0 { zero } else { src[spec_resample_index(src.len(), pos, slots) as int] }
}

/// `n` slots holding a left/right-symmetric copy of `src` (all `zero` when
/// there is no data).
pub open spec fn spec_fold_layout<T>(src: Seq<T>, n: nat, reverse: bool, zero: T) -> Seq<T> {
    if src.len() == 0 {
        Seq::new(n, |i: int| zero)
    } else {
        Seq::new(n, |i: int| src[spec_fold_index(src.len(), n, reverse, i as nat) as int])
    }
}

/// `n` slots split in two halves: `a` mirrored outward from the center on the
/// first `ceil(n / 2)` slots, `b` on the rest.
pub open spec fn spec_split_layout<T>(a: Seq<T>, b: Seq<T>, n: nat, zero: T) -> Seq<T> {
    let half = (n + 1) / 2;
    Seq::new(n, |i: int| if i < half {
        spec_resample_at(a, (half - 1 - i) as nat, half as nat, zero)
    } else {
        spec_resample_at(b, (i - half) as nat, (n - half) as nat, zero)
    })
}

/// What the bar slots show for a mirroring mode: the spectrum as-is (`Off`),
/// a reflected copy over `n` slots (`Full`; `reverse_mirror` puts the treble
/// at the center), or one channel per half (`SplitChannels`; a mono source
/// shows the same data on both sides, `reverse_mirror` swaps the sides). With
/// `reverse_order` the whole result is reversed.
pub open spec fn spec_mirror_layout<T>(
    mono: Seq<T>,
    left: Seq<T>,
    right: Seq<T>,
    zero: T,
    mirror: MirrorMode,
    reverse_mirror: bool,
    reverse_order: bool,
    n: nat,
) -> Seq<T> {
    let base = match mirror {
        MirrorMode::Off => mono,
        MirrorMode::Full => spec_fold_layout(mono, n, reverse_mirror, zero),
        MirrorMode::SplitChannels => {
            let r = if right.len() == 0 { left } else { right };
            if reverse_mirror { spec_split_layout(r, left, n, zero) } else { spec_split_layout(left, r, n, zero) }
        },
    };
    if reverse_order { base.reverse() } else { base }
}

/// The value of `src` at slot `pos` of `slots`.
fn resample_at<T: Copy>(src: &Vec<T>, pos: usize, slots: usize, zero: T) -> (r: T)
    requires
        pos * src@.len() <= usize::MAX,
    ensures
        r == spec_resample_at(src@, pos as nat, slots as nat, zero),
{
    if src.len() == 0 {
        zero
    } else {
        src[resample_index(src.len(), pos, slots)]
    }
}

/// Lay out one frame of bar values for a mirroring mode (see
/// [`spec_mirror_layout`]). `mono`, `left` and `right` are the already
/// smoothed spectra; `right` is empty for a mono source.
pub fn mirror_layout<T: Copy>(
    mono: &Vec<T>,
    left: &Vec<T>,
    right: &Vec<T>,
    zero: T,
    mirror: MirrorMode,
    reverse_mirror: bool,
    reverse_order: bool,
    n: usize,
) -> (r: Vec<T>)
    requires
        n * mono@.len() <= usize::MAX,
        n * left@.len() <= usize::MAX,
        n * right@.len() <= usize::MAX,
    ensures
        r@ == spec_mirror_layout(mono@, left@, right@, zero, mirror, reverse_mirror, reverse_order, n as nat),
{
    let mut base: Vec<T> = Vec::new();
    match mirror {
        MirrorMode::Off => {
            let mut i: usize = 0;
            while i < mono.len()
                invariant
                    0 <= i <= mono@.len(),
                    base@ == mono@.take(i as int),
                decreases mono@.len() - i,
            {
                base.push(mono[i]);
                assert(mono@.take(i + 1) =~= mono@.take(i as int).push(mono@[i as int]));
                i = i + 1;
            }
            assert(mono@.take(mono@.len() as int) =~= mono@);
        },
        MirrorMode::Full => {
            let m = mono.len();
            if m == 0 {
                let mut i: usize = 0;
                while i < n
                    invariant
                        0 <= i <= n,
                        base@ =~= Seq::new(i as nat, |k: int| zero),
                    decreases n - i,
                {
                    base.push(zero);
                    i = i + 1;
                }
            } else {
                proof {
                    vstd::arithmetic::mul::lemma_mul_is_commutative(n as int, m as int);
                }
                let idx = fold_symmetric_indices(m, n, reverse_mirror);
                let mut i: usize = 0;
                while i < n
                    invariant
                        m == mono@.len(),
                        m >= 1,
                        idx@.len() == n,
                        forall|k: int| 0 <= k < n ==> idx@[k] == spec_fold_index(m as nat, n as nat, reverse_mirror, k as nat),
                        forall|k: int| 0 <= k < n ==> idx@[k] < m,
                        0 <= i <= n,
                        base@ =~= Seq::new(i as nat, |k: int| mono@[spec_fold_index(m as nat, n as nat, reverse_mirror, k as nat) as int]),
                    decreases n - i,
                {
                    base.push(mono[idx[i]]);
                    i = i + 1;
                }
            }
        },
        MirrorMode::SplitChannels => {
            let r = if right.len() == 0 { left } else { right };
            let (a, b) = if reverse_mirror { (r, left) } else { (left, r) };
            let half = n / 2 + n % 2;
            assert(half == (n + 1) / 2);
            let mut i: usize = 0;
            while i < n
                invariant
                    half == (n + 1) / 2,
                    n * a@.len() <= usize::MAX,
                    n * b@.len() <= usize::MAX,
                    0 <= i <= n,
                    base@ =~= spec_split_layout(a@, b@, n as nat, zero).take(i as int),
                decreases n - i,
            {
                let v = if i < half {
                    assert((half - 1 - i) * a@.len() <= n * a@.len()) by (nonlinear_arith)
                        requires half - 1 - i <= n;
                    resample_at(a, half - 1 - i, half, zero)
                } else {
                    assert((i - half) * b@.len() <= n * b@.len()) by (nonlinear_arith)
                        requires i - half <= n;
                    resample_at(b, i - half, n - half, zero)
                };
                base.push(v);
                assert(spec_split_layout(a@, b@, n as nat, zero).take(i + 1)
                    =~= spec_split_layout(a@, b@, n as nat, zero).take(i as int).push(v));
                i = i + 1;
            }
            assert(spec_split_layout(a@, b@, n as nat, zero).take(n as int) =~= spec_split_layout(a@, b@, n as nat, zero));
        },
    }
    if reverse_order {
        let k = base.len();
        let mut out: Vec<T> = Vec::new();
        let mut j: usize = k;
        while j > 0
            invariant
                k == base@.len(),
                j <= k,
                out@ =~= base@.subrange(j as int, k as int).reverse(),
            decreases j,
        {
            out.push(base[j - 1]);
            assert(base@.subrange(j - 1, k as int).reverse() =~= base@.subrange(j as int, k as int).reverse().push(base@[j - 1]));
            j = j - 1;
        }
        assert(base@.subrange(0, k as int) =~= base@);
        out
    } else {
        base
    }
}

/// A full mirror is exactly symmetric: slot `i` and slot `n - 1 - i` show
/// the same value.
pub proof fn law_full_mirror_is_symmetric<T>(mono: Seq<T>, n: nat, reverse_mirror: bool, zero: T, i: int)
    requires
        0 <= i < n,
    ensures
        spec_fold_layout(mono, n, reverse_mirror, zero)[i] == spec_fold_layout(mono, n, reverse_mirror, zero)[n - 1 - i],
{
    if mono.len() > 0 {
        law_fold_is_symmetric(mono.len(), n, reverse_mirror, i as nat);
    }
}

/// Reversing the mirror picks, for every slot, the bar at the opposite end
/// of the spectrum from the one the plain fold picks.
pub proof fn law_reverse_fold_mirrors_the_spectrum(m: nat, n: nat, i: nat)
    requires
        m >= 1,
        i < n,
    ensures
        spec_fold_index(m, n, false, i) < m,
        spec_fold_index(m, n, true, i) == (m - 1) - spec_fold_index(m, n, false, i),
{
}

/// In `Full` mode, `reverse_mirror` lays out the reversed spectrum: the
/// result is what the plain mirror gives for the bars in reverse order, so
/// the treble, not the bass, sits at the center.
pub proof fn law_full_reverse_mirror_reverses_bars<T>(mono: Seq<T>, left: Seq<T>, right: Seq<T>, zero: T, reverse_order: bool, n: nat)
    ensures
        spec_mirror_layout(mono, left, right, zero, MirrorMode::Full, true, reverse_order, n)
            == spec_mirror_layout(mono.reverse(), left, right, zero, MirrorMode::Full, false, reverse_order, n),
        mono.len() >= 1 && n >= 1 ==>
            spec_mirror_layout(mono, left, right, zero, MirrorMode::Full, true, false, n)[(n + 1) / 2 - 1]
                == mono[mono.len() - 1],
        mono.len() >= 1 && n >= 1 ==>
            spec_mirror_layout(mono, left, right, zero, MirrorMode::Full, false, false, n)[(n + 1) / 2 - 1]
                == mono[0],
{
    let m = mono.len();
    let a = spec_fold_layout(mono, n, true, zero);
    let b = spec_fold_layout(mono.reverse(), n, false, zero);
    if m > 0 {
        assert forall|i: int| 0 <= i < n implies a[i] == b[i] by {
            law_reverse_fold_mirrors_the_spectrum(m, n, i as nat);
            let k = spec_fold_index(m, n, false, i as nat);
            assert(mono.reverse()[k as int] == mono[m - 1 - k]);
        }
    }
    assert(a =~= b);
    if m >= 1 && n >= 1 {
        let c = ((n + 1) / 2 - 1) as nat;
        assert(0 * ((m - 1) as nat) == 0);
        assert(spec_fold_index(m, n, false, c) == 0);
        assert(spec_fold_index(m, n, true, c) == m - 1);
    }
}

} // verus!
