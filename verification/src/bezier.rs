//! The curve engine: evaluates a polynomial curve from an ordered list of
//! control points and produces a tessellated polyline plus its total arc
//! length.
//!
//! All coordinates are fixed-point numbers with `FX_ONE` raw units per game
//! unit. The basis used for interior control points is the engine's own:
//! a point at index `p` of an `l`-point polygon is weighted by
//! `(l-1) * (1-k)^(l-1-p) * k^(p+1)`, which deliberately omits the binomial
//! coefficient of the textbook Bernstein basis; the two endpoint weights are
//! `(1-k)^(l-1)` and `k^(l-1)`.
use vstd::prelude::*;
use vstd::arithmetic::div_mod::{lemma_div_is_ordered, lemma_div_by_multiple};
use crate::mathx::{
    FX_ONE, FX_CLAMP, is_sqrt_floor, sqrt_floor, sqrt_floor_exists, isqrt, sat_cap_add,
    add_capped_i128, clamp_fx, clamp_fx_i128, fx_frac_pow, fx_frac_pow_u64,
    lemma_fx_frac_pow_bounds, fx_unscale, fx_unscale_i128, SUM_CAP,
};

verus! {

/// Most control points one curve will evaluate.
pub const VERT_CAP: usize = 4294967294;

/// Most tessellation segments one curve will be divided into.
pub const SEG_CAP: u64 = 1048576;

/// Largest coordinate magnitude (in raw fixed-point units) a control point
/// may carry: 2^31 game units.
pub const VERT_FX_MAX: i64 = 0x8000_0000_0000;

/// The fixed-point view of a list of control points.
pub open spec fn fx_seq(v: Seq<(i64, i64)>) -> Seq<(int, int)> {
    v.map_values(|p: (i64, i64)| (p.0 as int, p.1 as int))
}

pub open spec fn fx128_seq(v: Seq<(i128, i128)>) -> Seq<(int, int)> {
    v.map_values(|p: (i128, i128)| (p.0 as int, p.1 as int))
}

/// Euclidean distance between two fixed-point points, rounded down to a
/// whole raw unit.
pub open spec fn dist_fx(a: (int, int), b: (int, int)) -> int {
    sqrt_floor((((a.0 - b.0) * (a.0 - b.0) + (a.1 - b.1) * (a.1 - b.1)) as nat)) as int
}

/// Total length of a polyline: the sum of the distances between consecutive
/// points.
pub open spec fn polyline_len(pts: Seq<(int, int)>) -> int
    decreases pts.len(),
{
    if pts.len() < 2 {
        0
    } else {
        polyline_len(pts.drop_last()) + dist_fx(pts[pts.len() - 2], pts[pts.len() - 1])
    }
}

pub proof fn lemma_dist_fx_nonneg(a: (int, int), b: (int, int))
    ensures
        dist_fx(a, b) >= 0,
{
}

/// Distances are bounded by three times the largest coordinate magnitude.
pub proof fn lemma_dist_fx_bound(a: (int, int), b: (int, int), bound: int)
    requires
        bound >= 1,
        -bound <= a.0 <= bound,
        -bound <= a.1 <= bound,
        -bound <= b.0 <= bound,
        -bound <= b.1 <= bound,
    ensures
        0 <= dist_fx(a, b) <= 3 * bound,
{
    let s: int = (a.0 - b.0) * (a.0 - b.0) + (a.1 - b.1) * (a.1 - b.1);
    assert(0 <= s < (3 * bound + 1) * (3 * bound + 1)) by (nonlinear_arith)
        requires
            s == (a.0 - b.0) * (a.0 - b.0) + (a.1 - b.1) * (a.1 - b.1),
            bound >= 1,
            -bound <= a.0 <= bound,
            -bound <= a.1 <= bound,
            -bound <= b.0 <= bound,
            -bound <= b.1 <= bound,
    ;
    let n = s as nat;
    sqrt_floor_exists(n);
    let r = sqrt_floor(n);
    assert(r <= 3 * bound) by (nonlinear_arith)
        requires
            is_sqrt_floor(n, r),
            n < (3 * bound + 1) * (3 * bound + 1),
            bound >= 1,
    ;
}

/// Arc length is non-negative and does not decrease as more points of the
/// polyline are taken into the partial sum.
pub proof fn lemma_polyline_len_monotone(pts: Seq<(int, int)>, i: int, j: int)
    requires
        0 <= i <= j <= pts.len(),
    ensures
        0 <= polyline_len(pts.take(i)) <= polyline_len(pts.take(j)),
    decreases j,
{
    if j == 0 {
    } else if i == j {
        lemma_polyline_len_monotone(pts, i - 1, j - 1);
        assert(pts.take(j).drop_last() =~= pts.take(j - 1));
        if j >= 2 {
            lemma_dist_fx_nonneg(pts.take(j)[j - 2], pts.take(j)[j - 1]);
        }
    } else {
        lemma_polyline_len_monotone(pts, i, j - 1);
        assert(pts.take(j).drop_last() =~= pts.take(j - 1));
        if j >= 2 {
            lemma_dist_fx_nonneg(pts.take(j)[j - 2], pts.take(j)[j - 1]);
        }
    }
}

/// The number of tessellation segments chosen for a curve whose control
/// polygon has the given chord length (in raw fixed-point units): the least
/// integer at or above `sqrt(0.6 * (units/10)^2 + 100)`, with the input and
/// the result capped so that every intermediate product fits in 128 bits.
pub open spec fn tess_segments_of(chord: int) -> int {
    let r = if chord > 0x1000_0000_0000_0000 {
        0x1000_0000_0000_0000
    } else if chord < 0 {
        0
    } else {
        chord
    };
    let num: int = 3 * r * r + 50000 * 65536 * 65536;
    let den: int = (500 * 65536 * 65536) as int;
    let q: int = (num + den - 1) / den;
    let s0 = sqrt_floor(q as nat) as int;
    let s = if s0 * s0 == q {
        s0
    } else {
        s0 + 1
    };
    if s > SEG_CAP {
        SEG_CAP as int
    } else {
        s
    }
}

/// Parameter value of the `j`-th of `n` samples: `j/n` in fixed point,
/// rounded down.
pub open spec fn k_at(j: int, n: int) -> int {
    (j * 65536) / n
}

/// Weight given to control point `p` of an `l`-point polygon at parameter
/// `k` (all in fixed point).
pub open spec fn bez_weight(l: int, p: int, k: int) -> int {
    let nk = FX_ONE - k;
    if p == 0 {
        fx_frac_pow(nk, (l - 1) as nat)
    } else if p == l - 1 {
        fx_frac_pow(k, (l - 1) as nat)
    } else {
        (l - 1) * ((fx_frac_pow(nk, (l - 1 - p) as nat) * fx_frac_pow(k, (p + 1) as nat)) / (
        FX_ONE as int))
    }
}

/// Weighted sum of the first `p` control points, accumulated with capped
/// addition.
pub open spec fn bez_sum(verts: Seq<(int, int)>, k: int, p: int) -> (int, int)
    decreases p,
{
    if p <= 0 {
        (0, 0)
    } else {
        let s = bez_sum(verts, k, p - 1);
        let w = bez_weight(verts.len() as int, p - 1, k);
        (sat_cap_add(s.0, w * verts[p - 1].0), sat_cap_add(s.1, w * verts[p - 1].1))
    }
}

/// One tessellated sample of the curve at parameter `k`.
pub open spec fn bez_sample(verts: Seq<(int, int)>, k: int) -> (int, int) {
    let s = bez_sum(verts, k, verts.len() as int);
    (clamp_fx(fx_unscale(s.0)), clamp_fx(fx_unscale(s.1)))
}

/// The whole tessellated polyline: `n` samples at parameters `0/n` up to
/// `(n-1)/n` where `n` is the segment count for the chord length of the
/// control polygon, then the final control point appended verbatim.
pub open spec fn tess_points_of(verts: Seq<(int, int)>) -> Seq<(int, int)> {
    let n = tess_segments_of(polyline_len(verts));
    Seq::new((n + 1) as nat, |j: int| if j < n {
        bez_sample(verts, k_at(j, n))
    } else {
        verts[verts.len() - 1]
    })
}

/// The curve engine. Vertices are added in order; tessellation runs once on
/// demand and is cached until `clear`.
#[derive(Debug)]
pub struct Bezier {
    vertex_list: Vec<(i64, i64)>,
    interpolated_list: Vec<(i128, i128)>,
    interpolated_len: u128,
    interpolated: bool,
}

impl Bezier {
    /// The control points, as fixed-point coordinates.
    pub closed spec fn verts(self) -> Seq<(int, int)> {
        fx_seq(self.vertex_list@)
    }

    /// The cached tessellated points.
    pub closed spec fn tessellated(self) -> Seq<(int, int)> {
        fx128_seq(self.interpolated_list@)
    }

    pub closed spec fn is_tessellated(self) -> bool {
        self.interpolated
    }

    pub closed spec fn arc_len(self) -> int {
        self.interpolated_len as int
    }

    /// The control points are few enough and small enough for exact
    /// evaluation.
    pub closed spec fn verts_ok(self) -> bool {
        &&& self.vertex_list@.len() <= VERT_CAP
        &&& forall|i: int|
            0 <= i < self.vertex_list@.len() ==> -VERT_FX_MAX <= #[trigger] self.vertex_list@[i].0
                <= VERT_FX_MAX && -VERT_FX_MAX <= self.vertex_list@[i].1 <= VERT_FX_MAX
    }

    pub closed spec fn wf(self) -> bool {
        &&& self.verts_ok()
        &&& self.interpolated ==> 1 <= self.interpolated_list@.len() <= SEG_CAP + 1
            && self.interpolated_len == polyline_len(fx128_seq(self.interpolated_list@))
        &&& !self.interpolated ==> self.interpolated_list@.len() == 0 && self.interpolated_len
            == 0
        &&& forall|i: int|
            0 <= i < self.interpolated_list@.len() ==> -FX_CLAMP
                <= #[trigger] self.interpolated_list@[i].0 <= FX_CLAMP && -FX_CLAMP
                <= self.interpolated_list@[i].1 <= FX_CLAMP
    }

    pub fn new() -> (r: Bezier)
        ensures
            r.wf(),
            r.verts().len() == 0,
            !r.is_tessellated(),
            r.arc_len() == 0,
    {
        Bezier {
            vertex_list: Vec::new(),
            interpolated_list: Vec::new(),
            interpolated_len: 0,
            interpolated: false,
        }
    }

    pub fn clear(&mut self)
        ensures
            final(self).wf(),
            final(self).verts().len() == 0,
            !final(self).is_tessellated(),
            final(self).arc_len() == 0,
    {
        self.interpolated = false;
        self.vertex_list.clear();
        self.interpolated_list.clear();
        self.interpolated_len = 0;
    }

    /// Add one whole-unit control point.
    pub fn add_vertexi(&mut self, point: (i32, i32))
        requires
            old(self).wf(),
            old(self).verts().len() < VERT_CAP,
        ensures
            final(self).wf(),
            final(self).verts() == old(self).verts().push(
                (point.0 as int * 65536, point.1 as int * 65536),
            ),
            final(self).is_tessellated() == old(self).is_tessellated(),
            final(self).tessellated() == old(self).tessellated(),
            final(self).arc_len() == old(self).arc_len(),
    {
        self.vertex_list.push((point.0 as i64 * 65536, point.1 as i64 * 65536));
        proof {
            assert(final(self).verts() =~= old(self).verts().push(
                (point.0 as int * 65536, point.1 as int * 65536),
            ));
            assert forall|i: int| 0 <= i < self.vertex_list@.len() implies -VERT_FX_MAX
                <= #[trigger] self.vertex_list@[i].0 <= VERT_FX_MAX && -VERT_FX_MAX
                <= self.vertex_list@[i].1 <= VERT_FX_MAX by {
                if i < self.vertex_list@.len() - 1 {
                    assert(self.vertex_list@[i] == old(self).vertex_list@[i]);
                }
            }
        }
    }

    /// Add one fixed-point control point.
    pub fn add_vertexf(&mut self, point: (i64, i64))
        requires
            old(self).wf(),
            old(self).verts().len() < VERT_CAP,
            -VERT_FX_MAX <= point.0 <= VERT_FX_MAX,
            -VERT_FX_MAX <= point.1 <= VERT_FX_MAX,
        ensures
            final(self).wf(),
            final(self).verts() == old(self).verts().push((point.0 as int, point.1 as int)),
            final(self).is_tessellated() == old(self).is_tessellated(),
            final(self).tessellated() == old(self).tessellated(),
            final(self).arc_len() == old(self).arc_len(),
    {
        self.vertex_list.push(point);
        proof {
            assert(final(self).verts() =~= old(self).verts().push(
                (point.0 as int, point.1 as int),
            ));
            assert forall|i: int| 0 <= i < self.vertex_list@.len() implies -VERT_FX_MAX
                <= #[trigger] self.vertex_list@[i].0 <= VERT_FX_MAX && -VERT_FX_MAX
                <= self.vertex_list@[i].1 <= VERT_FX_MAX by {
                if i < self.vertex_list@.len() - 1 {
                    assert(self.vertex_list@[i] == old(self).vertex_list@[i]);
                }
            }
        }
    }

    /// Chord-length approximation of the control polygon: the sum of the
    /// consecutive distances between the control points.
    pub fn approx_length(&self) -> (r: u128)
        requires
            self.verts_ok(),
        ensures
            r == polyline_len(self.verts()),
    {
        let mut length: u128 = 0;
        let mut i: usize = 0;
        let n = self.vertex_list.len();
        while i < n
            invariant
                self.verts_ok(),
                n == self.vertex_list@.len(),
                i <= n,
                length == polyline_len(self.verts().take(i as int)),
                length <= i * 0x2_0000_0000_0000,
            decreases n - i,
        {
            if i > 0 {
                let p = self.vertex_list[i - 1];
                let q = self.vertex_list[i];
                let dx: i128 = p.0 as i128 - q.0 as i128;
                let dy: i128 = p.1 as i128 - q.1 as i128;
                proof {
                    assert(0 <= dx * dx <= 0x1_0000_0000_0000i128 * 0x1_0000_0000_0000i128 && 0
                        <= dy * dy <= 0x1_0000_0000_0000i128 * 0x1_0000_0000_0000i128)
                        by (nonlinear_arith)
                        requires
                            -0x1_0000_0000_0000i128 <= dx <= 0x1_0000_0000_0000i128,
                            -0x1_0000_0000_0000i128 <= dy <= 0x1_0000_0000_0000i128,
                    ;
                }
                let sq: u128 = (dx * dx) as u128 + (dy * dy) as u128;
                let d = isqrt(sq);
                proof {
                    let a = self.verts()[i as int - 1];
                    let b = self.verts()[i as int];
                    assert(sq as nat == (((a.0 - b.0) * (a.0 - b.0) + (a.1 - b.1) * (a.1 - b.1))
                        as nat));
                    assert(d == dist_fx(a, b));
                    lemma_dist_fx_bound(a, b, VERT_FX_MAX as int);
                    assert(self.verts().take(i as int + 1).drop_last() =~= self.verts().take(
                        i as int,
                    ));
                }
                length = length + d;
            } else {
                proof {
                    assert(self.verts().take(1).drop_last() =~= self.verts().take(0));
                }
            }
            i = i + 1;
        }
        proof {
            assert(self.verts().take(n as int) =~= self.verts());
        }
        length
    }

    /// Segment count for a curve of the given chord length (raw fixed-point
    /// units): at least 10, growing sub-linearly with the length.
    pub fn tesselation_segments(&self, len: u128) -> (r: u64)
        ensures
            r == tess_segments_of(len as int),
            10 <= r <= SEG_CAP,
    {
        let rc: u128 = if len > 0x1000_0000_0000_0000 {
            0x1000_0000_0000_0000
        } else {
            len
        };
        proof {
            assert(3 * rc * rc <= 3 * 0x1000_0000_0000_0000u128 * 0x1000_0000_0000_0000u128)
                by (nonlinear_arith)
                requires
                    rc <= 0x1000_0000_0000_0000u128,
            ;
        }
        let num: u128 = 3 * rc * rc + 214748364800000;
        let den: u128 = 2147483648000;
        let q: u128 = (num + den - 1) / den;
        let s0: u128 = isqrt(q);
        proof {
            lemma_div_by_multiple(100, den as int);
            lemma_div_is_ordered(100 * (den as int), (num + den - 1) as int, den as int);
            assert(q >= 100);
            assert(s0 >= 10) by (nonlinear_arith)
                requires
                    is_sqrt_floor(q as nat, s0 as nat),
                    q >= 100,
            ;
        }
        let s: u128 = if s0 * s0 == q {
            s0
        } else {
            s0 + 1
        };
        if s > 1048576 {
            1048576
        } else {
            s as u64
        }
    }

    /// The accumulated arc length of the tessellated polyline, in raw
    /// fixed-point units; zero until the curve is tessellated.
    pub fn interpolated_length(&self) -> (r: u128)
        requires
            self.wf(),
        ensures
            r == self.arc_len(),
            self.is_tessellated() ==> r == polyline_len(self.tessellated()),
            !self.is_tessellated() ==> r == 0,
    {
        self.interpolated_len
    }

    /// Tessellate the curve if that has not happened yet, and hand out the
    /// tessellated points.
    pub fn get_tesselated_points(&mut self) -> (r: Vec<(i128, i128)>)
        requires
            old(self).wf(),
            old(self).is_tessellated() || old(self).verts().len() >= 1,
        ensures
            final(self).wf(),
            final(self).verts() == old(self).verts(),
            final(self).is_tessellated(),
            old(self).is_tessellated() ==> final(self).tessellated() == old(self).tessellated()
                && final(self).arc_len() == old(self).arc_len(),
            !old(self).is_tessellated() ==> final(self).tessellated() == tess_points_of(
                old(self).verts(),
            ) && final(self).arc_len() == polyline_len(final(self).tessellated()),
            fx128_seq(r@) == final(self).tessellated(),
    {
        if !self.interpolated {
            self.interpolate();
        }
        let mut out: Vec<(i128, i128)> = Vec::new();
        let mut i: usize = 0;
        let n = self.interpolated_list.len();
        let ghost snapshot = *self;
        while i < n
            invariant
                *self == snapshot,
                n == self.interpolated_list@.len(),
                i <= n,
                out@ == self.interpolated_list@.take(i as int),
            decreases n - i,
        {
            out.push(self.interpolated_list[i]);
            proof {
                assert(out@ =~= self.interpolated_list@.take(i as int + 1));
            }
            i = i + 1;
        }
        proof {
            assert(out@ =~= self.interpolated_list@);
            assert(fx128_seq(out@) =~= final(self).tessellated());
        }
        out
    }

    /// One weighted coordinate sum at parameter `k`, over all control
    /// points.
    fn sample_at(&self, k: u64) -> (r: (i128, i128))
        requires
            self.verts_ok(),
            self.verts().len() >= 1,
            k <= 65536,
        ensures
            (r.0 as int, r.1 as int) == bez_sum(self.verts(), k as int, self.verts().len() as int),
    {
        let l = self.vertex_list.len();
        let nk: u64 = 65536 - k;
        let mut sx: i128 = 0;
        let mut sy: i128 = 0;
        let mut p: usize = 0;
        while p < l
            invariant
                self.verts_ok(),
                l == self.vertex_list@.len(),
                1 <= l <= VERT_CAP,
                p <= l,
                k <= 65536,
                nk == 65536 - k,
                (sx as int, sy as int) == bez_sum(self.verts(), k as int, p as int),
                -SUM_CAP <= sx <= SUM_CAP,
                -SUM_CAP <= sy <= SUM_CAP,
            decreases l - p,
        {
            let e: u64 = (l - 1) as u64;
            let w: i128;
            if p == 0 {
                w = fx_frac_pow_u64(nk, e) as i128;
            } else if p == l - 1 {
                w = fx_frac_pow_u64(k, e) as i128;
            } else {
                let a = fx_frac_pow_u64(nk, (l - 1 - p) as u64);
                let b = fx_frac_pow_u64(k, (p + 1) as u64);
                proof {
                    assert(a * b <= 65536 * 65536u64) by (nonlinear_arith)
                        requires
                            a <= 65536u64,
                            b <= 65536u64,
                    ;
                }
                let t: u64 = (a * b) / 65536;
                proof {
                    assert(t <= 65536) by (nonlinear_arith)
                        requires
                            t as int == (a as int * b as int) / 65536,
                            a as int * b as int <= 65536 * 65536,
                            0 <= a as int * b as int,
                    ;
                    assert(0 <= (l as int - 1) * (t as int) <= 0xFFFF_FFFE * 65536)
                        by (nonlinear_arith)
                        requires
                            1 <= l as int - 1 <= 0xFFFF_FFFE,
                            0 <= t as int <= 65536,
                    ;
                }
                w = (l - 1) as i128 * (t as i128);
            }
            proof {
                lemma_fx_frac_pow_bounds(nk as int, (l - 1) as nat);
                lemma_fx_frac_pow_bounds(k as int, (l - 1) as nat);
                assert(w == bez_weight(l as int, p as int, k as int));
                assert(0 <= w <= 0xFFFF_FFFE_i128 * 65536);
            }
            let vx = self.vertex_list[p].0;
            let vy = self.vertex_list[p].1;
            proof {
                assert(-SUM_CAP <= w * (vx as i128) <= SUM_CAP && -SUM_CAP <= w * (vy as i128)
                    <= SUM_CAP) by (nonlinear_arith)
                    requires
                        0 <= w <= 0xFFFF_FFFE_i128 * 65536,
                        -VERT_FX_MAX <= vx <= VERT_FX_MAX,
                        -VERT_FX_MAX <= vy <= VERT_FX_MAX,
                ;
            }
            sx = add_capped_i128(sx, w * (vx as i128));
            sy = add_capped_i128(sy, w * (vy as i128));
            p = p + 1;
        }
        (sx, sy)
    }

    /// Run the tessellation: sample the curve at `n` evenly spaced
    /// parameters, append the final control point verbatim, and accumulate
    /// the arc length of the resulting polyline.
    fn interpolate(&mut self)
        requires
            old(self).wf(),
            !old(self).is_tessellated(),
            old(self).verts().len() >= 1,
        ensures
            final(self).wf(),
            final(self).verts() == old(self).verts(),
            final(self).is_tessellated(),
            final(self).tessellated() == tess_points_of(old(self).verts()),
            final(self).arc_len() == polyline_len(final(self).tessellated()),
    {
        let chord = self.approx_length();
        let n: u64 = self.tesselation_segments(chord);
        let ghost target = tess_points_of(old(self).verts());
        proof {
            assert(target.len() == n + 1);
        }
        let mut j: u64 = 0;
        while j < n
            invariant
                self.verts_ok(),
                self.vertex_list@ == old(self).vertex_list@,
                !self.interpolated,
                self.interpolated_len == 0,
                10 <= n <= SEG_CAP,
                target == tess_points_of(self.verts()),
                target.len() == n + 1,
                j <= n,
                self.verts().len() >= 1,
                self.interpolated_list@.len() == j,
                fx128_seq(self.interpolated_list@) == target.take(j as int),
                forall|i: int|
                    0 <= i < self.interpolated_list@.len() ==> -FX_CLAMP
                        <= #[trigger] self.interpolated_list@[i].0 <= FX_CLAMP && -FX_CLAMP
                        <= self.interpolated_list@[i].1 <= FX_CLAMP,
            decreases n - j,
        {
            let k: u64 = (j * 65536) / n;
            proof {
                assert((j as int * 65536) / (n as int) <= 65536) by (nonlinear_arith)
                    requires
                        j as int <= n as int,
                        n as int >= 10,
                ;
            }
            let s = self.sample_at(k);
            let px = clamp_fx_i128(fx_unscale_i128(s.0));
            let py = clamp_fx_i128(fx_unscale_i128(s.1));
            self.interpolated_list.push((px, py));
            proof {
                assert(target[j as int] == bez_sample(self.verts(), k_at(j as int, n as int)));
                assert(fx128_seq(self.interpolated_list@) =~= target.take(j as int + 1));
            }
            j = j + 1;
        }
        let ghost pre = self.interpolated_list@;
        let last = self.vertex_list[self.vertex_list.len() - 1];
        proof {
            assert(last == self.vertex_list@[self.vertex_list@.len() - 1]);
            assert(-VERT_FX_MAX <= self.vertex_list@[self.vertex_list@.len() - 1].0
                <= VERT_FX_MAX);
        }
        self.interpolated_list.push((last.0 as i128, last.1 as i128));
        proof {
            let ll = self.interpolated_list@;
            assert(ll.len() == n + 1);
            assert forall|t: int| 0 <= t < ll.len() implies #[trigger] fx128_seq(ll)[t]
                == target[t] by {
                if t < n {
                    assert(ll[t] == pre[t]);
                    assert(fx128_seq(pre)[t] == target.take(n as int)[t]);
                } else {
                    assert(ll[t] == (last.0 as i128, last.1 as i128));
                    assert(target[t] == self.verts()[self.verts().len() - 1]);
                }
            }
            assert(fx128_seq(self.interpolated_list@) =~= target);
            assert forall|t: int| 0 <= t < ll.len() implies -FX_CLAMP <= #[trigger] ll[t].0
                <= FX_CLAMP && -FX_CLAMP <= ll[t].1 <= FX_CLAMP by {
                if t < n {
                    assert(ll[t] == pre[t]);
                }
            }
        }
        // Arc length over the tessellated polyline.
        let mut length: u128 = 0;
        let mut i: usize = 0;
        let m = self.interpolated_list.len();
        while i < m
            invariant
                m == self.interpolated_list@.len(),
                1 <= m <= SEG_CAP + 1,
                i <= m,
                forall|t: int|
                    0 <= t < self.interpolated_list@.len() ==> -FX_CLAMP
                        <= #[trigger] self.interpolated_list@[t].0 <= FX_CLAMP && -FX_CLAMP
                        <= self.interpolated_list@[t].1 <= FX_CLAMP,
                length == polyline_len(fx128_seq(self.interpolated_list@).take(i as int)),
                length <= i * 0xE000_0000_0000_0000,
            decreases m - i,
        {
            if i > 0 {
                let p = self.interpolated_list[i - 1];
                let q = self.interpolated_list[i];
                let dx: i128 = p.0 - q.0;
                let dy: i128 = p.1 - q.1;
                proof {
                    assert(0 <= dx * dx <= 0x8000_0000_0000_0000i128 * 0x8000_0000_0000_0000i128
                        && 0 <= dy * dy <= 0x8000_0000_0000_0000i128 * 0x8000_0000_0000_0000i128)
                        by (nonlinear_arith)
                        requires
                            -0x8000_0000_0000_0000i128 <= dx <= 0x8000_0000_0000_0000i128,
                            -0x8000_0000_0000_0000i128 <= dy <= 0x8000_0000_0000_0000i128,
                    ;
                }
                let sq: u128 = (dx * dx) as u128 + (dy * dy) as u128;
                let d = isqrt(sq);
                proof {
                    let pts = fx128_seq(self.interpolated_list@);
                    let a = pts[i as int - 1];
                    let b = pts[i as int];
                    assert(sq as nat == (((a.0 - b.0) * (a.0 - b.0) + (a.1 - b.1) * (a.1 - b.1))
                        as nat));
                    assert(d == dist_fx(a, b));
                    lemma_dist_fx_bound(a, b, FX_CLAMP as int);
                    assert(pts.take(i as int + 1).drop_last() =~= pts.take(i as int));
                }
                length = length + d;
            } else {
                proof {
                    assert(fx128_seq(self.interpolated_list@).take(1).drop_last() =~= fx128_seq(
                        self.interpolated_list@,
                    ).take(0));
                }
            }
            i = i + 1;
        }
        proof {
            assert(fx128_seq(self.interpolated_list@).take(m as int) =~= fx128_seq(
                self.interpolated_list@,
            ));
        }
        self.interpolated_len = length;
        self.interpolated = true;
    }

    /// Index of the tessellated point nearest to parameter `k`: the product
    /// `(count - 1) * k` rounded to the nearest whole index, never past the
    /// last point.
    pub open spec fn value_index(self, k: int) -> int {
        if k <= 0 {
            0
        } else {
            ((self.tessellated().len() - 1) * k + 32768) / 65536
        }
    }

    /// The tessellated point nearest to parameter `k` (fixed point, one unit
    /// is `k = 1`). Fails exactly when the curve was built from fewer than 3
    /// control points or `k` exceeds one.
    pub fn value(&self, k: i64) -> (r: Result<(i128, i128), ()>)
        requires
            self.wf(),
            self.is_tessellated(),
        ensures
            r is Err <==> (self.verts().len() < 3 || k > 65536),
            r is Ok ==> 0 <= self.value_index(k as int) < self.tessellated().len() && (
            r->Ok_0.0 as int, r->Ok_0.1 as int) == self.tessellated()[self.value_index(k as int)],
    {
        if self.vertex_list.len() < 3 {
            Err(())
        } else if k > 65536 {
            Err(())
        } else {
            let nl = self.interpolated_list.len();
            let idx: usize;
            if k <= 0 {
                idx = 0;
            } else {
                proof {
                    assert((nl as int - 1) * (k as int) <= 1048576 * 65536) by (nonlinear_arith)
                        requires
                            0 <= nl as int - 1 <= 1048576,
                            0 <= k as int <= 65536,
                    ;
                    assert(((nl as int - 1) * (k as int) + 32768) / 65536 < nl as int)
                        by (nonlinear_arith)
                        requires
                            0 < k as int <= 65536,
                            nl >= 1,
                    ;
                }
                let t: u64 = ((nl - 1) as u64) * (k as u64);
                idx = ((t + 32768) / 65536) as usize;
            }
            Ok(self.interpolated_list[idx])
        }
    }
}


proof fn lemma_bez_sum_at_zero(verts: Seq<(int, int)>, p: int)
    requires
        1 <= p <= verts.len(),
        forall|i: int|
            0 <= i < verts.len() ==> -VERT_FX_MAX <= (#[trigger] verts[i]).0 <= VERT_FX_MAX
                && -VERT_FX_MAX <= verts[i].1 <= VERT_FX_MAX,
    ensures
        bez_sum(verts, 0, p) == (65536 * verts[0].0, 65536 * verts[0].1),
    decreases p,
{
    let l = verts.len() as int;
    crate::mathx::lemma_fx_frac_pow_one((l - 1) as nat);
    if p == 1 {
        assert(bez_weight(l, 0, 0) == FX_ONE as int);
        assert(-SUM_CAP <= 65536 * verts[0].0 <= SUM_CAP && -SUM_CAP <= 65536 * verts[0].1
            <= SUM_CAP) by (nonlinear_arith)
            requires
                -VERT_FX_MAX <= verts[0].0 <= VERT_FX_MAX,
                -VERT_FX_MAX <= verts[0].1 <= VERT_FX_MAX,
        ;
        assert(bez_sum(verts, 0, 0) == (0int, 0int));
        assert((FX_ONE as int) * verts[0].0 == 65536 * verts[0].0) by (nonlinear_arith);
        assert((FX_ONE as int) * verts[0].1 == 65536 * verts[0].1) by (nonlinear_arith);
        assert(sat_cap_add(0, 65536 * verts[0].0) == 65536 * verts[0].0);
        assert(sat_cap_add(0, 65536 * verts[0].1) == 65536 * verts[0].1);
    } else {
        lemma_bez_sum_at_zero(verts, p - 1);
        let w = bez_weight(l, p - 1, 0);
        if p - 1 == l - 1 {
            crate::mathx::lemma_fx_frac_pow_zero((l - 1) as nat);
            assert(w == 0);
        } else {
            crate::mathx::lemma_fx_frac_pow_zero(p as nat);
            let pa = fx_frac_pow(FX_ONE as int, (l - 1 - (p - 1)) as nat);
            let pb = fx_frac_pow(0, p as nat);
            assert(pb == 0);
            assert(pa * pb == 0) by (nonlinear_arith)
                requires
                    pb == 0,
            ;
            assert(w == (l - 1) * ((pa * pb) / (FX_ONE as int)));
            assert((l - 1) * ((pa * pb) / (FX_ONE as int)) == 0) by (nonlinear_arith)
                requires
                    pa * pb == 0,
            ;
        }
        assert(w * verts[p - 1].0 == 0 && w * verts[p - 1].1 == 0) by (nonlinear_arith)
            requires
                w == 0,
        ;
        assert(-SUM_CAP <= 65536 * verts[0].0 <= SUM_CAP && -SUM_CAP <= 65536 * verts[0].1
            <= SUM_CAP) by (nonlinear_arith)
            requires
                -VERT_FX_MAX <= verts[0].0 <= VERT_FX_MAX,
                -VERT_FX_MAX <= verts[0].1 <= VERT_FX_MAX,
        ;
        assert(sat_cap_add(65536 * verts[0].0, 0) == 65536 * verts[0].0);
        assert(sat_cap_add(65536 * verts[0].1, 0) == 65536 * verts[0].1);
        assert(bez_sum(verts, 0, p) == (sat_cap_add(bez_sum(verts, 0, p - 1).0, w * verts[p
            - 1].0), sat_cap_add(bez_sum(verts, 0, p - 1).1, w * verts[p - 1].1)));
    }
}

/// The tessellated polyline starts at the curve's value at parameter zero,
/// which is exactly the first control point, and ends at the last control
/// point, appended verbatim.
pub proof fn lemma_tessellation_endpoints(verts: Seq<(int, int)>)
    requires
        verts.len() >= 1,
        forall|i: int|
            0 <= i < verts.len() ==> -VERT_FX_MAX <= (#[trigger] verts[i]).0 <= VERT_FX_MAX
                && -VERT_FX_MAX <= verts[i].1 <= VERT_FX_MAX,
    ensures
        tess_points_of(verts).len() >= 11,
        tess_points_of(verts)[0] == bez_sample(verts, 0),
        tess_points_of(verts)[0] == verts[0],
        tess_points_of(verts).last() == verts[verts.len() - 1],
{
    let n = tess_segments_of(polyline_len(verts));
    assert(n >= 10) by {
        let den: int = (500 * 65536 * 65536) as int;
        lemma_div_by_multiple(100, den);
        let num: int = 3 * (if polyline_len(verts) > 0x1000_0000_0000_0000 {
            0x1000_0000_0000_0000
        } else if polyline_len(verts) < 0 {
            0
        } else {
            polyline_len(verts)
        }) * (if polyline_len(verts) > 0x1000_0000_0000_0000 {
            0x1000_0000_0000_0000
        } else if polyline_len(verts) < 0 {
            0
        } else {
            polyline_len(verts)
        }) + 50000 * 65536 * 65536;
        let q: int = (num + den - 1) / den;
        assert(num >= 100 * den) by (nonlinear_arith)
            requires
                num == 3 * (if polyline_len(verts) > 0x1000_0000_0000_0000 {
                    0x1000_0000_0000_0000
                } else if polyline_len(verts) < 0 {
                    0
                } else {
                    polyline_len(verts)
                }) * (if polyline_len(verts) > 0x1000_0000_0000_0000 {
                    0x1000_0000_0000_0000
                } else if polyline_len(verts) < 0 {
                    0
                } else {
                    polyline_len(verts)
                }) + 50000 * 65536 * 65536,
                den == (500 * 65536 * 65536) as int,
        ;
        lemma_div_is_ordered(100 * den, num + den - 1, den);
        assert(q >= 100);
        crate::mathx::sqrt_floor_exists(q as nat);
        let s0 = sqrt_floor(q as nat) as int;
        assert(s0 >= 10) by (nonlinear_arith)
            requires
                is_sqrt_floor(q as nat, s0 as nat),
                q >= 100,
                s0 >= 0,
        ;
    }
    assert(k_at(0, n) == 0) by {
        vstd::arithmetic::div_mod::lemma_div_of0(n);
    }
    lemma_bez_sum_at_zero(verts, verts.len() as int);
    let sx = 65536 * verts[0].0;
    let sy = 65536 * verts[0].1;
    assert(fx_unscale(sx) == verts[0].0 && fx_unscale(sy) == verts[0].1) by {
        lemma_unscale_of_scaled(verts[0].0);
        lemma_unscale_of_scaled(verts[0].1);
    }
    assert(clamp_fx(verts[0].0) == verts[0].0 && clamp_fx(verts[0].1) == verts[0].1);
    assert(bez_sample(verts, 0) == verts[0]);
    assert(tess_points_of(verts)[0] == bez_sample(verts, k_at(0, n)));
    assert(tess_points_of(verts).last() == verts[verts.len() - 1]);
}

/// Unscaling a whole fixed-point multiple gives the multiplier back.
proof fn lemma_unscale_of_scaled(x: int)
    ensures
        fx_unscale(65536 * x) == x,
{
    if 65536 * x >= 0 {
        lemma_div_by_multiple(x, 65536);
        assert((65536 * x) / 65536 == (x * 65536) / 65536) by (nonlinear_arith);
    } else {
        assert(-(65536 * x) + 65535 == 65536 * (-x) + 65535) by (nonlinear_arith);
        vstd::arithmetic::div_mod::lemma_div_multiples_vanish_fancy(-x, 65535, 65536);
        assert((65536 * (-x) + 65535) / 65536 == -x);
    }
}


} // verus!
