//! Triangle-list index bookkeeping for batched meshes: convex fans with a
//! feather ring, and feathered strokes, all rebased onto one shared vertex
//! buffer so every index addresses a real vertex.

use vstd::prelude::*;

verus! {

/// The nine indices of fan segment `i` of a convex shape with `nb` boundary
/// points whose center vertex is `base`: the fan triangle
/// `(center, b_i, b_i+1)` and the feather quad `(b_i, b_i+1, o_i+1, b_i, o_i+1, o_i)`,
/// where the boundary ring starts at `base + 1` and the feather ring at
/// `base + 1 + nb`.
pub open spec fn spec_fan_segment(base: int, nb: int, i: int) -> Seq<int> {
    let i1 = (i + 1) % nb;
    let b0 = base + 1;
    let o0 = base + 1 + nb;
    seq![base, b0 + i, b0 + i1, b0 + i, b0 + i1, o0 + i1, b0 + i, o0 + i1, o0 + i]
}

/// Indices of the first `i` fan segments.
pub open spec fn spec_fan(base: int, nb: int, i: int) -> Seq<int>
    decreases i,
{
    if i <= 0 { Seq::empty() } else { spec_fan(base, nb, i - 1) + spec_fan_segment(base, nb, i - 1) }
}

/// The eighteen indices of stroke segment `s` of an `n`-point stroke whose
/// first vertex is `base`: three quads (left feather, core, right feather)
/// joining the four lanes of point `s` to those of point `(s + 1) % n`.
pub open spec fn spec_stroke_segment(base: int, n: int, s: int) -> Seq<int> {
    let i0 = base + 4 * s;
    let i1 = base + 4 * ((s + 1) % n);
    spec_lane_quad(i0, i1, 0) + spec_lane_quad(i0, i1, 1) + spec_lane_quad(i0, i1, 2)
}

/// The two triangles joining lane `l` and `l + 1` of two consecutive points.
pub open spec fn spec_lane_quad(i0: int, i1: int, l: int) -> Seq<int> {
    seq![i0 + l, i0 + l + 1, i1 + l + 1, i0 + l, i1 + l + 1, i1 + l]
}

/// Indices of the first `s` stroke segments.
pub open spec fn spec_stroke(base: int, n: int, s: int) -> Seq<int>
    decreases s,
{
    if s <= 0 { Seq::empty() } else { spec_stroke(base, n, s - 1) + spec_stroke_segment(base, n, s - 1) }
}

/// Segments of an `n`-point stroke: `n` when closed (the last point joins the
/// first), `n - 1` when open.
pub open spec fn spec_stroke_segments(n: int, closed: bool) -> int {
    if closed { n } else { n - 1 }
}

/// Widen a sequence of `u32` indices to integers.
pub open spec fn widen(s: Seq<u32>) -> Seq<int> {
    s.map_values(|x: u32| x as int)
}

/// Every index of `s` lies in `lo..hi`.
pub open spec fn all_within(s: Seq<int>, lo: int, hi: int) -> bool {
    forall|k: int| 0 <= k < s.len() ==> lo <= #[trigger] s[k] < hi
}

proof fn lemma_fan_within(base: int, nb: int, i: int)
    requires
        nb >= 3,
        0 <= i <= nb,
    ensures
        spec_fan(base, nb, i).len() == 9 * i,
        all_within(spec_fan(base, nb, i), base, base + 1 + 2 * nb),
    decreases i,
{
    if i > 0 {
        lemma_fan_within(base, nb, i - 1);
        let prev = spec_fan(base, nb, i - 1);
        let seg = spec_fan_segment(base, nb, i - 1);
        let i1 = i % nb;
        assert(0 <= i1 < nb) by {
            vstd::arithmetic::div_mod::lemma_mod_pos_bound(i, nb);
        }
        assert(all_within(seg, base, base + 1 + 2 * nb));
        assert forall|k: int| 0 <= k < (prev + seg).len() implies base <= #[trigger] (prev + seg)[k] < base + 1 + 2 * nb by {
            if k < prev.len() {
                assert((prev + seg)[k] == prev[k]);
            } else {
                assert((prev + seg)[k] == seg[k - prev.len()]);
            }
        }
    }
}

proof fn lemma_stroke_within(base: int, n: int, s: int)
    requires
        n >= 2,
        0 <= s <= n,
    ensures
        spec_stroke(base, n, s).len() == 18 * s,
        all_within(spec_stroke(base, n, s), base, base + 4 * n),
    decreases s,
{
    if s > 0 {
        lemma_stroke_within(base, n, s - 1);
        let prev = spec_stroke(base, n, s - 1);
        let seg = spec_stroke_segment(base, n, s - 1);
        let nxt = s % n;
        assert(0 <= nxt < n) by {
            vstd::arithmetic::div_mod::lemma_mod_pos_bound(s, n);
        }
        let i0 = base + 4 * (s - 1);
        let i1 = base + 4 * nxt;
        assert(all_within(spec_lane_quad(i0, i1, 0), base, base + 4 * n));
        assert(all_within(spec_lane_quad(i0, i1, 1), base, base + 4 * n));
        assert(all_within(spec_lane_quad(i0, i1, 2), base, base + 4 * n));
        assert forall|k: int| 0 <= k < seg.len() implies base <= #[trigger] seg[k] < base + 4 * n by {
            let q0 = spec_lane_quad(i0, i1, 0);
            let q1 = spec_lane_quad(i0, i1, 1);
            let q2 = spec_lane_quad(i0, i1, 2);
            assert(seg == q0 + q1 + q2);
            if k < 6 {
                assert(seg[k] == q0[k]);
            } else if k < 12 {
                assert(seg[k] == (q0 + q1)[k]);
                assert((q0 + q1)[k] == q1[k - 6]);
            } else {
                assert(seg[k] == q2[k - 12]);
            }
        }
        assert forall|k: int| 0 <= k < (prev + seg).len() implies base <= #[trigger] (prev + seg)[k] < base + 4 * n by {
            if k < prev.len() {
                assert((prev + seg)[k] == prev[k]);
            } else {
                assert((prev + seg)[k] == seg[k - prev.len()]);
            }
        }
    }
}

/// Index list of a batched triangle mesh, together with the number of
/// vertices pushed so far.
pub struct MeshIndices {
    vertices: usize,
    indices: Vec<u32>,
}

impl MeshIndices {
    /// Vertices pushed so far.
    pub closed spec fn vertex_count(&self) -> nat {
        self.vertices as nat
    }

    /// The accumulated indices.
    pub closed spec fn index_seq(&self) -> Seq<int> {
        widen(self.indices@)
    }

    /// Every index addresses a pushed vertex, and vertex numbers fit in `u32`.
    pub closed spec fn wf(&self) -> bool {
        &&& self.vertices <= u32::MAX
        &&& all_within(widen(self.indices@), 0, self.vertices as int)
    }

    /// An empty batch.
    pub fn new() -> (r: MeshIndices)
        ensures
            r.wf(),
            r.vertex_count() == 0,
            r.index_seq() == Seq::<int>::empty(),
    {
        let r = MeshIndices { vertices: 0, indices: Vec::new() };
        assert(widen(r.indices@) =~= Seq::<int>::empty());
        r
    }

    /// Drop all geometry (keeping the allocation for the next frame).
    pub fn clear(&mut self)
        ensures
            final(self).wf(),
            final(self).vertex_count() == 0,
            final(self).index_seq() == Seq::<int>::empty(),
    {
        self.indices.clear();
        self.vertices = 0;
        assert(widen(self.indices@) =~= Seq::<int>::empty());
    }

    /// Whether nothing has been pushed since the last clear.
    pub fn is_empty(&self) -> (r: bool)
        ensures
            r == (self.vertex_count() == 0),
    {
        self.vertices == 0
    }

    /// Vertices pushed so far.
    pub fn vertices(&self) -> (r: usize)
        ensures
            r == self.vertex_count(),
    {
        self.vertices
    }

    /// Number of indices.
    pub fn len(&self) -> (r: usize)
        ensures
            r == self.index_seq().len(),
    {
        self.indices.len()
    }

    /// A copy of the indices.
    pub fn to_vec(&self) -> (r: Vec<u32>)
        ensures
            widen(r@) == self.index_seq(),
    {
        self.indices.clone()
    }

    /// Append a convex shape of `nb` boundary points: one center vertex, the
    /// boundary ring and a feather ring (`1 + 2 * nb` vertices), filled as a
    /// triangle fan plus a feather quad strip (`9 * nb` indices). Fewer than
    /// three points make no shape and add nothing.
    pub fn push_fan(&mut self, nb: usize)
        requires
            old(self).wf(),
            nb >= 3 ==> old(self).vertex_count() + 1 + 2 * nb <= u32::MAX,
        ensures
            final(self).wf(),
            nb < 3 ==> final(self).vertex_count() == old(self).vertex_count()
                && final(self).index_seq() == old(self).index_seq(),
            nb >= 3 ==> final(self).vertex_count() == old(self).vertex_count() + 1 + 2 * nb,
            nb >= 3 ==> final(self).index_seq() == old(self).index_seq() + spec_fan(old(self).vertex_count() as int, nb as int, nb as int),
    {
        if nb < 3 {
            return;
        }
        let base = self.vertices as u32;
        let nbu = nb as u32;
        let b0 = base + 1;
        let o0 = base + 1 + nbu;
        let ghost start = widen(self.indices@);
        let mut i: u32 = 0;
        while i < nbu
            invariant
                self.vertices == base,
                base as int + 1 + 2 * (nbu as int) <= u32::MAX,
                nbu == nb,
                nb >= 3,
                b0 == base + 1,
                o0 == base + 1 + nbu,
                0 <= i <= nbu,
                widen(self.indices@) == start + spec_fan(base as int, nb as int, i as int),
            decreases nbu - i,
        {
            let i1 = (i + 1) % nbu;
            let bi = b0 + i;
            let bi1 = b0 + i1;
            let oi = o0 + i;
            let oi1 = o0 + i1;
            let ghost before = self.indices@;
            self.indices.push(base);
            self.indices.push(bi);
            self.indices.push(bi1);
            self.indices.push(bi);
            self.indices.push(bi1);
            self.indices.push(oi1);
            self.indices.push(bi);
            self.indices.push(oi1);
            self.indices.push(oi);
            proof {
                assert(widen(self.indices@) =~= widen(before) + spec_fan_segment(base as int, nb as int, i as int));
            }
            i = i + 1;
        }
        self.vertices = self.vertices + 1 + 2 * nb;
        proof {
            lemma_fan_within(base as int, nb as int, nb as int);
            let added = spec_fan(base as int, nb as int, nb as int);
            assert forall|k: int| 0 <= k < widen(self.indices@).len() implies 0 <= #[trigger] widen(self.indices@)[k] < self.vertices as int by {
                if k < start.len() {
                    assert(widen(self.indices@)[k] == start[k]);
                } else {
                    assert(widen(self.indices@)[k] == added[k - start.len()]);
                }
            }
        }
    }

    /// Append an `n`-point feathered stroke: four lanes (outer, core, core,
    /// outer) per point (`4 * n` vertices) and three quads per segment
    /// (`18` indices each), joining the last point back to the first when
    /// `closed`. Fewer than two points make no stroke and add nothing.
    pub fn push_stroke(&mut self, n: usize, closed: bool)
        requires
            old(self).wf(),
            n >= 2 ==> old(self).vertex_count() + 4 * n <= u32::MAX,
        ensures
            final(self).wf(),
            n < 2 ==> final(self).vertex_count() == old(self).vertex_count()
                && final(self).index_seq() == old(self).index_seq(),
            n >= 2 ==> final(self).vertex_count() == old(self).vertex_count() + 4 * n,
            n >= 2 ==> final(self).index_seq() == old(self).index_seq() + spec_stroke(old(self).vertex_count() as int, n as int, spec_stroke_segments(n as int, closed)),
    {
        if n < 2 {
            return;
        }
        let base = self.vertices as u32;
        let nu = n as u32;
        let segs: u32 = if closed { nu } else { nu - 1 };
        let ghost start = widen(self.indices@);
        let mut s: u32 = 0;
        while s < segs
            invariant
                self.vertices == base,
                base as int + 4 * (nu as int) <= u32::MAX,
                nu == n,
                n >= 2,
                segs == spec_stroke_segments(n as int, closed),
                0 <= s <= segs,
                widen(self.indices@) == start + spec_stroke(base as int, n as int, s as int),
            decreases segs - s,
        {
            let nxt = (s + 1) % nu;
            assert(nxt < nu);
            let i0 = base + 4 * s;
            let i1 = base + 4 * nxt;
            let ghost before = self.indices@;
            let mut lane: u32 = 0;
            while lane < 3
                invariant
                    self.vertices == base,
                    widen(before) == start + spec_stroke(base as int, n as int, s as int),
                    i0 == base + 4 * s,
                    i1 == base + 4 * nxt,
                    0 <= lane <= 3,
                    i0 as int + 3 <= u32::MAX,
                    i1 as int + 3 <= u32::MAX,
                    widen(self.indices@) == widen(before) + (if lane == 0 {
                        Seq::<int>::empty()
                    } else if lane == 1 {
                        spec_lane_quad(i0 as int, i1 as int, 0)
                    } else if lane == 2 {
                        spec_lane_quad(i0 as int, i1 as int, 0) + spec_lane_quad(i0 as int, i1 as int, 1)
                    } else {
                        spec_lane_quad(i0 as int, i1 as int, 0) + spec_lane_quad(i0 as int, i1 as int, 1) + spec_lane_quad(i0 as int, i1 as int, 2)
                    }),
                decreases 3 - lane,
            {
                let ghost mid = self.indices@;
                let a0 = i0 + lane;
                let a1 = i0 + lane + 1;
                let b0 = i1 + lane;
                let b1 = i1 + lane + 1;
                self.indices.push(a0);
                self.indices.push(a1);
                self.indices.push(b1);
                self.indices.push(a0);
                self.indices.push(b1);
                self.indices.push(b0);
                proof {
                    assert(widen(self.indices@) =~= widen(mid) + spec_lane_quad(i0 as int, i1 as int, lane as int));
                    if lane == 0 {
                        assert(Seq::<int>::empty() + spec_lane_quad(i0 as int, i1 as int, 0) =~= spec_lane_quad(i0 as int, i1 as int, 0));
                    }
                }
                lane = lane + 1;
            }
            proof {
                assert(spec_stroke_segment(base as int, n as int, s as int)
                    == spec_lane_quad(i0 as int, i1 as int, 0) + spec_lane_quad(i0 as int, i1 as int, 1) + spec_lane_quad(i0 as int, i1 as int, 2));
                assert(spec_stroke(base as int, n as int, s + 1) == spec_stroke(base as int, n as int, s as int) + spec_stroke_segment(base as int, n as int, s as int));
                assert(start + spec_stroke(base as int, n as int, s + 1) =~= (start + spec_stroke(base as int, n as int, s as int)) + spec_stroke_segment(base as int, n as int, s as int));
            }
            s = s + 1;
        }
        self.vertices = self.vertices + 4 * n;
        proof {
            lemma_stroke_within(base as int, n as int, segs as int);
            let added = spec_stroke(base as int, n as int, segs as int);
            assert forall|k: int| 0 <= k < widen(self.indices@).len() implies 0 <= #[trigger] widen(self.indices@)[k] < self.vertices as int by {
                if k < start.len() {
                    assert(widen(self.indices@)[k] == start[k]);
                } else {
                    assert(widen(self.indices@)[k] == added[k - start.len()]);
                }
            }
        }
    }
}

impl MeshIndices {
    /// The geometry of a single stroke mesh of `n` points: the stroke itself,
    /// or, below two points, one degenerate triangle over three vertices
    /// (which draws nothing, since its vertices are transparent) rather than
    /// an empty mesh, which the renderer's allocator rejects.
    pub fn for_stroke(n: usize, closed: bool) -> (r: MeshIndices)
        requires
            4 * n <= u32::MAX,
        ensures
            r.wf(),
            n < 2 ==> r.vertex_count() == 3 && r.index_seq() == seq![0int, 1, 2],
            n >= 2 ==> r.vertex_count() == 4 * n
                && r.index_seq() == spec_stroke(0, n as int, spec_stroke_segments(n as int, closed)),
    {
        if n < 2 {
            let mut v: Vec<u32> = Vec::new();
            v.push(0);
            v.push(1);
            v.push(2);
            let r = MeshIndices { vertices: 3, indices: v };
            assert(widen(r.indices@) =~= seq![0int, 1, 2]);
            return r;
        }
        let mut r = MeshIndices::new();
        r.push_stroke(n, closed);
        assert(Seq::<int>::empty() + spec_stroke(0, n as int, spec_stroke_segments(n as int, closed))
            =~= spec_stroke(0, n as int, spec_stroke_segments(n as int, closed)));
        r
    }
}

/// Batching keeps every index valid: shapes pushed one after another each
/// reference only their own vertices, so the batch's indices always address
/// a vertex that exists, and counts add up shape by shape.
pub proof fn law_batch_indices_are_valid(m: MeshIndices)
    requires
        m.wf(),
    ensures
        forall|k: int| 0 <= k < m.index_seq().len() ==> 0 <= #[trigger] m.index_seq()[k] < m.vertex_count(),
{
}

/// A fan over `nb` boundary points has `9 * nb` indices within its
/// `1 + 2 * nb` vertices; an `n`-point stroke has `18` indices per segment
/// within its `4 * n` vertices.
pub proof fn law_shape_index_counts(base: int, nb: int, n: int, closed: bool)
    requires
        nb >= 3,
        n >= 2,
    ensures
        spec_fan(base, nb, nb).len() == 9 * nb,
        all_within(spec_fan(base, nb, nb), base, base + 1 + 2 * nb),
        spec_stroke(base, n, spec_stroke_segments(n, closed)).len() == 18 * spec_stroke_segments(n, closed),
        all_within(spec_stroke(base, n, spec_stroke_segments(n, closed)), base, base + 4 * n),
{
    lemma_fan_within(base, nb, nb);
    lemma_stroke_within(base, n, spec_stroke_segments(n, closed));
}

} // verus!
