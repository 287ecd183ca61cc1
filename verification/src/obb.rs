use vstd::prelude::*;

use crate::aabb::AABB;
use crate::matrix::Matrix22;
use crate::vector2::{dot_spec, lemma_mul_bound, Vector2};

verus! {

/// Largest axis-component magnitude the exact separating-axis arithmetic
/// accepts.
pub const OBB_AXIS_LIMIT: i64 = 0x10_0000;

/// Largest projection-span magnitude the exact separating-axis arithmetic
/// accepts.
pub const OBB_SPAN_LIMIT: i64 = 0x4000_0000_0000_0000;

/// Least value of `s * c` as `s` ranges over `[lo, hi]`.
pub open spec fn min_scaled(lo: int, hi: int, c: int) -> int {
    if c >= 0 {
        lo * c
    } else {
        hi * c
    }
}

/// Greatest value of `s * c` as `s` ranges over `[lo, hi]`.
pub open spec fn max_scaled(lo: int, hi: int, c: int) -> int {
    if c >= 0 {
        hi * c
    } else {
        lo * c
    }
}

/// A 2D oriented bounding box, exactly on the integer grid.
///
/// `local` holds a pair of orthogonal integer axes (the second is the
/// first rotated a quarter turn counter-clockwise); the box is the set of
/// points whose projections onto the axes fall into `[lo.x, hi.x]` and
/// `[lo.y, hi.y]` respectively, each interval measured in axis-scaled
/// units (the dot product against the unnormalized axis).
#[derive(Debug, Clone)]
pub struct OBB2D {
    local: [Vector2; 2],
    lo: Vector2,
    hi: Vector2,
}

/// Lower end of the projection of the box given by axes `bu`, `bv` and
/// projection intervals `blo`..`bhi` onto axis `a`, scaled by the box's
/// squared axis length.
pub open spec fn proj_lo_raw(bu: Vector2, bv: Vector2, blo: Vector2, bhi: Vector2, a: Vector2) -> int {
    min_scaled(blo.x as int, bhi.x as int, dot_spec(bu, a)) + min_scaled(
        blo.y as int,
        bhi.y as int,
        dot_spec(bv, a),
    )
}

/// Upper end of the same projection.
pub open spec fn proj_hi_raw(bu: Vector2, bv: Vector2, blo: Vector2, bhi: Vector2, a: Vector2) -> int {
    max_scaled(blo.x as int, bhi.x as int, dot_spec(bu, a)) + max_scaled(
        blo.y as int,
        bhi.y as int,
        dot_spec(bv, a),
    )
}

/// The owner's interval `[alo, ahi]` along its own axis `a` and the other
/// box's projection interval onto `a` miss each other; cross-multiplied by
/// the other box's squared axis length to stay in integers.
pub open spec fn axis_separates_raw(
    a: Vector2,
    alo: int,
    ahi: int,
    bu: Vector2,
    bv: Vector2,
    blo: Vector2,
    bhi: Vector2,
) -> bool {
    let l2 = dot_spec(bu, bu);
    ahi * l2 < proj_lo_raw(bu, bv, blo, bhi, a) || proj_hi_raw(bu, bv, blo, bhi, a) < alo * l2
}

/// Lower end of the projection of `b` onto axis `a`, scaled by `b`'s
/// squared axis length.
pub open spec fn proj_lo(b: OBB2D, a: Vector2) -> int {
    proj_lo_raw(b.spec_axis_u(), b.spec_axis_v(), b.spec_lo(), b.spec_hi(), a)
}

/// Upper end of the same projection.
pub open spec fn proj_hi(b: OBB2D, a: Vector2) -> int {
    proj_hi_raw(b.spec_axis_u(), b.spec_axis_v(), b.spec_lo(), b.spec_hi(), a)
}

/// `axis_separates_raw`, with the other box given as a value.
pub open spec fn axis_separates(a: Vector2, alo: int, ahi: int, b: OBB2D) -> bool {
    axis_separates_raw(a, alo, ahi, b.spec_axis_u(), b.spec_axis_v(), b.spec_lo(), b.spec_hi())
}

/// The separating-axis test of an oriented box against an axis-aligned box
/// whose corner bounds are `blo` and `bhi`.
pub open spec fn spec_sat_intersects_aabb(x: OBB2D, other: AABB) -> bool {
    let bu = Vector2 { x: 1, y: 0 };
    let bv = Vector2 { x: 0, y: 1 };
    let blo = Vector2 { x: other.spec_min_x() as i64, y: other.spec_min_y() as i64 };
    let bhi = Vector2 { x: other.spec_max_x() as i64, y: other.spec_max_y() as i64 };
    &&& !axis_separates_raw(x.spec_axis_u(), x.spec_lo().x as int, x.spec_hi().x as int, bu, bv, blo, bhi)
    &&& !axis_separates_raw(x.spec_axis_v(), x.spec_lo().y as int, x.spec_hi().y as int, bu, bv, blo, bhi)
    &&& !axis_separates(bu, blo.x as int, bhi.x as int, x)
    &&& !axis_separates(bv, blo.y as int, bhi.y as int, x)
}

/// The separating-axis test over the face normals of both boxes: the boxes
/// count as intersecting when no face normal separates their projections.
/// In two dimensions these four axes decide exactly.
pub open spec fn spec_sat_intersects(x: OBB2D, y: OBB2D) -> bool {
    &&& !axis_separates(x.spec_axis_u(), x.spec_lo().x as int, x.spec_hi().x as int, y)
    &&& !axis_separates(x.spec_axis_v(), x.spec_lo().y as int, x.spec_hi().y as int, y)
    &&& !axis_separates(y.spec_axis_u(), y.spec_lo().x as int, y.spec_hi().x as int, x)
    &&& !axis_separates(y.spec_axis_v(), y.spec_lo().y as int, y.spec_hi().y as int, x)
}

/// A nonzero integer vector has squared length at least one.
pub proof fn lemma_axis_l2_pos(u: Vector2)
    by (nonlinear_arith)
    requires
        !(u.x == 0 && u.y == 0),
    ensures
        dot_spec(u, u) >= 1,
{
}

impl OBB2D {
    /// The first local axis.
    pub closed spec fn spec_axis_u(self) -> Vector2 {
        self.local@[0]
    }

    /// The second local axis.
    pub closed spec fn spec_axis_v(self) -> Vector2 {
        self.local@[1]
    }

    /// Lower projection bounds onto the two axes.
    pub closed spec fn spec_lo(self) -> Vector2 {
        self.lo
    }

    /// Upper projection bounds onto the two axes.
    pub closed spec fn spec_hi(self) -> Vector2 {
        self.hi
    }

    /// Well-formed: the axes are a nonzero orthogonal pair within the
    /// arithmetic limits, and both projection intervals are nonempty and
    /// within the span limit.
    pub open spec fn wf(self) -> bool {
        &&& self.spec_axis_v().x == -self.spec_axis_u().y
        &&& self.spec_axis_v().y == self.spec_axis_u().x
        &&& !(self.spec_axis_u().x == 0 && self.spec_axis_u().y == 0)
        &&& vstd::math::abs(self.spec_axis_u().x as int) <= OBB_AXIS_LIMIT
        &&& vstd::math::abs(self.spec_axis_u().y as int) <= OBB_AXIS_LIMIT
        &&& self.spec_lo().x <= self.spec_hi().x
        &&& self.spec_lo().y <= self.spec_hi().y
        &&& vstd::math::abs(self.spec_lo().x as int) <= OBB_SPAN_LIMIT
        &&& vstd::math::abs(self.spec_lo().y as int) <= OBB_SPAN_LIMIT
        &&& vstd::math::abs(self.spec_hi().x as int) <= OBB_SPAN_LIMIT
        &&& vstd::math::abs(self.spec_hi().y as int) <= OBB_SPAN_LIMIT
    }

    /// A point lies in the box: its projections onto both axes fall into
    /// the box's intervals.
    pub open spec fn spec_contains_point(self, p: Vector2) -> bool {
        &&& self.spec_lo().x <= dot_spec(p, self.spec_axis_u()) <= self.spec_hi().x
        &&& self.spec_lo().y <= dot_spec(p, self.spec_axis_v()) <= self.spec_hi().y
    }

    /// The projection intervals a box around `center` with half-widths
    /// `extents` (in axis units) has; they must stay within the span limit.
    pub open spec fn new_spans_fit(center: Vector2, u: Vector2, v: Vector2, extents: Vector2) -> bool {
        let l2 = dot_spec(u, u);
        &&& -OBB_SPAN_LIMIT <= dot_spec(center, u) - extents.x * l2
        &&& dot_spec(center, u) + extents.x * l2 <= OBB_SPAN_LIMIT
        &&& -OBB_SPAN_LIMIT <= dot_spec(center, v) - extents.y * l2
        &&& dot_spec(center, v) + extents.y * l2 <= OBB_SPAN_LIMIT
    }

    /// Build a box from a center, an orthogonal axis pair and half-widths
    /// measured in axis units. Fails exactly when a half-width is negative
    /// or a projection leaves the representable span.
    pub fn new(center: Vector2, local: [Vector2; 2], extents: Vector2) -> (r: Option<OBB2D>)
        requires
            local@[1].x == -local@[0].y,
            local@[1].y == local@[0].x,
            !(local@[0].x == 0 && local@[0].y == 0),
            vstd::math::abs(local@[0].x as int) <= OBB_AXIS_LIMIT,
            vstd::math::abs(local@[0].y as int) <= OBB_AXIS_LIMIT,
        ensures
            r is Some <==> (extents.x >= 0 && extents.y >= 0 && Self::new_spans_fit(
                center,
                local@[0],
                local@[1],
                extents,
            )),
            r is Some ==> {
                let b = r.unwrap();
                &&& b.wf()
                &&& b.spec_axis_u() == local@[0]
                &&& b.spec_axis_v() == local@[1]
                &&& b.spec_lo().x == dot_spec(center, local@[0]) - extents.x * dot_spec(
                    local@[0],
                    local@[0],
                )
                &&& b.spec_hi().x == dot_spec(center, local@[0]) + extents.x * dot_spec(
                    local@[0],
                    local@[0],
                )
                &&& b.spec_lo().y == dot_spec(center, local@[1]) - extents.y * dot_spec(
                    local@[0],
                    local@[0],
                )
                &&& b.spec_hi().y == dot_spec(center, local@[1]) + extents.y * dot_spec(
                    local@[0],
                    local@[0],
                )
            },
    {
        if extents.x < 0 || extents.y < 0 {
            return None;
        }
        let u = local[0];
        let v = local[1];
        proof {
            lemma_mul_bound(u.x as int, OBB_AXIS_LIMIT as int, u.x as int, OBB_AXIS_LIMIT as int);
            lemma_mul_bound(u.y as int, OBB_AXIS_LIMIT as int, u.y as int, OBB_AXIS_LIMIT as int);
            lemma_mul_bound(center.x as int, 0x8000_0000_0000_0000, u.x as int, OBB_AXIS_LIMIT as int);
            lemma_mul_bound(center.y as int, 0x8000_0000_0000_0000, u.y as int, OBB_AXIS_LIMIT as int);
            lemma_mul_bound(center.x as int, 0x8000_0000_0000_0000, v.x as int, OBB_AXIS_LIMIT as int);
            lemma_mul_bound(center.y as int, 0x8000_0000_0000_0000, v.y as int, OBB_AXIS_LIMIT as int);
            lemma_axis_l2_pos(u);
        }
        let l2: i128 = (u.x as i128) * (u.x as i128) + (u.y as i128) * (u.y as i128);
        let cu: i128 = (center.x as i128) * (u.x as i128) + (center.y as i128) * (u.y as i128);
        let cv: i128 = (center.x as i128) * (v.x as i128) + (center.y as i128) * (v.y as i128);
        proof {
            lemma_mul_bound(extents.x as int, i64::MAX as int, l2 as int, 0x4_0000_0000_0000);
            lemma_mul_bound(extents.y as int, i64::MAX as int, l2 as int, 0x4_0000_0000_0000);
        }
        let ex: i128 = (extents.x as i128) * l2;
        let ey: i128 = (extents.y as i128) * l2;
        let lo_x: i128 = cu - ex;
        let hi_x: i128 = cu + ex;
        let lo_y: i128 = cv - ey;
        let hi_y: i128 = cv + ey;
        let limit: i128 = OBB_SPAN_LIMIT as i128;
        if -limit <= lo_x && hi_x <= limit && -limit <= lo_y && hi_y <= limit {
            Some(
                OBB2D {
                    local,
                    lo: Vector2 { x: lo_x as i64, y: lo_y as i64 },
                    hi: Vector2 { x: hi_x as i64, y: hi_y as i64 },
                },
            )
        } else {
            None
        }
    }

    /// An axis-aligned box as an oriented box: identity axes, the box's
    /// corner bounds as projection intervals.
    pub fn from_aabb(aabb: &AABB) -> (r: OBB2D)
        requires
            aabb.wf(),
            -OBB_SPAN_LIMIT <= aabb.spec_min_x(),
            aabb.spec_max_x() <= OBB_SPAN_LIMIT,
            -OBB_SPAN_LIMIT <= aabb.spec_min_y(),
            aabb.spec_max_y() <= OBB_SPAN_LIMIT,
        ensures
            r.wf(),
            r.spec_axis_u() == (Vector2 { x: 1, y: 0 }),
            r.spec_axis_v() == (Vector2 { x: 0, y: 1 }),
            r.spec_lo().x == aabb.spec_min_x(),
            r.spec_hi().x == aabb.spec_max_x(),
            r.spec_lo().y == aabb.spec_min_y(),
            r.spec_hi().y == aabb.spec_max_y(),
    {
        let center = aabb.get_center();
        let radius = aabb.get_radius();
        let lo = Vector2 { x: center.x - radius.x, y: center.y - radius.y };
        let hi = Vector2 { x: center.x + radius.x, y: center.y + radius.y };
        OBB2D { local: [Vector2 { x: 1, y: 0 }, Vector2 { x: 0, y: 1 }], lo, hi }
    }

    /// Borrow the local axis pair.
    pub fn get_local(&self) -> (r: &[Vector2; 2])
        ensures
            r@[0] == self.spec_axis_u(),
            r@[1] == self.spec_axis_v(),
    {
        &self.local
    }

    /// Borrow the lower projection bounds.
    pub fn get_lo(&self) -> (r: &Vector2)
        ensures
            *r == self.spec_lo(),
    {
        &self.lo
    }

    /// Borrow the upper projection bounds.
    pub fn get_hi(&self) -> (r: &Vector2)
        ensures
            *r == self.spec_hi(),
    {
        &self.hi
    }

    /// The local axis pair as a fresh 2-by-2 matrix, one axis per row.
    pub fn rotation_matrix(&self) -> (m: Matrix22)
        ensures
            m.wf(),
            m.spec_data() == seq![
                self.spec_axis_u().x,
                self.spec_axis_u().y,
                self.spec_axis_v().x,
                self.spec_axis_v().y,
            ],
    {
        let data = vec![self.local[0].x, self.local[0].y, self.local[1].x, self.local[1].y];
        let m = Matrix22::new(data);
        proof {
            assert(m is Some);
        }
        m.unwrap()
    }

    /// Separating-axis intersection test against another oriented box,
    /// over the face normals of both boxes; in two dimensions those four
    /// axes decide exactly. The arithmetic is exact on wide integers, so
    /// no epsilon guard against near-parallel axes is needed.
    pub fn intersects(&self, other: &OBB2D) -> (r: bool)
        requires
            self.wf(),
            other.wf(),
        ensures
            r == spec_sat_intersects(*self, *other),
    {
        if separated_on_axis(&self.local[0], self.lo.x, self.hi.x, other) {
            return false;
        }
        if separated_on_axis(&self.local[1], self.lo.y, self.hi.y, other) {
            return false;
        }
        if separated_on_axis(&other.local[0], other.lo.x, other.hi.x, self) {
            return false;
        }
        if separated_on_axis(&other.local[1], other.lo.y, other.hi.y, self) {
            return false;
        }
        true
    }

    /// Exact separating-axis intersection test against an axis-aligned box.
    pub fn intersects_aabb(&self, other: &AABB) -> (r: bool)
        requires
            self.wf(),
            other.wf(),
            -OBB_SPAN_LIMIT <= other.spec_min_x(),
            other.spec_max_x() <= OBB_SPAN_LIMIT,
            -OBB_SPAN_LIMIT <= other.spec_min_y(),
            other.spec_max_y() <= OBB_SPAN_LIMIT,
        ensures
            r == spec_sat_intersects_aabb(*self, *other),
    {
        let aligned = OBB2D::from_aabb(other);
        let r = self.intersects(&aligned);
        proof {
            assert(aligned.spec_lo() == (Vector2 {
                x: other.spec_min_x() as i64,
                y: other.spec_min_y() as i64,
            }));
            assert(aligned.spec_hi() == (Vector2 {
                x: other.spec_max_x() as i64,
                y: other.spec_max_y() as i64,
            }));
        }
        r
    }
}

/// Largest point-coordinate magnitude the exact box-fitting arithmetic
/// accepts.
pub const FIT_COORD_LIMIT: i64 = 0x4_0000;

/// A quarter-turn counter-clockwise rotation.
pub open spec fn orth_spec(u: Vector2) -> Vector2 {
    Vector2 { x: (-u.y) as i64, y: u.x }
}

/// The cyclic edge of the point sequence at index `i`: the vector from the
/// next point (wrapping around) back to point `i`.
pub open spec fn edge_axis(ps: Seq<Vector2>, i: int) -> Vector2 {
    let j = if i + 1 < ps.len() {
        i + 1
    } else {
        0
    };
    Vector2 { x: (ps[i].x - ps[j].x) as i64, y: (ps[i].y - ps[j].y) as i64 }
}

/// Least projection of the points onto `a`, in axis-scaled units.
pub open spec fn proj_min(ps: Seq<Vector2>, a: Vector2) -> int
    decreases ps.len(),
{
    if ps.len() <= 1 {
        dot_spec(ps[0], a)
    } else {
        vstd::math::min(proj_min(ps.drop_last(), a), dot_spec(ps.last(), a))
    }
}

/// Greatest projection of the points onto `a`, in axis-scaled units.
pub open spec fn proj_max(ps: Seq<Vector2>, a: Vector2) -> int
    decreases ps.len(),
{
    if ps.len() <= 1 {
        dot_spec(ps[0], a)
    } else {
        vstd::math::max(proj_max(ps.drop_last(), a), dot_spec(ps.last(), a))
    }
}

/// Squared length of the candidate axis at index `i`.
pub open spec fn cand_l2(ps: Seq<Vector2>, i: int) -> int {
    dot_spec(edge_axis(ps, i), edge_axis(ps, i))
}

/// Area of the candidate fit for the axis at index `i`, scaled by that
/// axis' squared length: the product of the two projection spans.
pub open spec fn cand_area_num(ps: Seq<Vector2>, i: int) -> int {
    let u = edge_axis(ps, i);
    let v = orth_spec(u);
    (proj_max(ps, u) - proj_min(ps, u)) * (proj_max(ps, v) - proj_min(ps, v))
}

/// Every point projects between the least and greatest projection.
proof fn lemma_proj_in_range(ps: Seq<Vector2>, a: Vector2, j: int)
    requires
        0 <= j < ps.len(),
    ensures
        proj_min(ps, a) <= dot_spec(ps[j], a) <= proj_max(ps, a),
    decreases ps.len(),
{
    if ps.len() > 1 && j < ps.len() - 1 {
        lemma_proj_in_range(ps.drop_last(), a, j);
    }
}

/// The least and greatest projections are projections of actual points.
proof fn lemma_proj_witness(ps: Seq<Vector2>, a: Vector2)
    requires
        ps.len() >= 1,
    ensures
        exists|j: int| 0 <= j < ps.len() && proj_min(ps, a) == dot_spec(#[trigger] ps[j], a),
        exists|j: int| 0 <= j < ps.len() && proj_max(ps, a) == dot_spec(#[trigger] ps[j], a),
    decreases ps.len(),
{
    if ps.len() <= 1 {
        assert(proj_min(ps, a) == dot_spec(ps[0], a));
        assert(proj_max(ps, a) == dot_spec(ps[0], a));
    } else {
        lemma_proj_witness(ps.drop_last(), a);
        let d = ps.drop_last();
        let jn = choose|j: int| 0 <= j < d.len() && proj_min(d, a) == dot_spec(#[trigger] d[j], a);
        let jx = choose|j: int| 0 <= j < d.len() && proj_max(d, a) == dot_spec(#[trigger] d[j], a);
        assert(d[jn] == ps[jn]);
        assert(d[jx] == ps[jx]);
        assert(ps.last() == ps[ps.len() - 1]);
        if proj_min(d, a) <= dot_spec(ps.last(), a) {
            assert(proj_min(ps, a) == dot_spec(ps[jn], a));
        } else {
            assert(proj_min(ps, a) == dot_spec(ps[ps.len() - 1], a));
        }
        if proj_max(d, a) >= dot_spec(ps.last(), a) {
            assert(proj_max(ps, a) == dot_spec(ps[jx], a));
        } else {
            assert(proj_max(ps, a) == dot_spec(ps[ps.len() - 1], a));
        }
    }
}

/// Ordering of nonnegative-denominator fractions given by cross
/// multiplication is transitive across a strict step.
proof fn lemma_ratio_lt_trans(na: int, la: int, nb: int, lb: int, nt: int, lt: int)
    by (nonlinear_arith)
    requires
        la >= 1,
        lb >= 1,
        lt >= 1,
        na * lb < nb * la,
        nb * lt <= nt * lb,
    ensures
        na * lt < nt * la,
{
}

/// Exact projection of a bounded point onto a bounded axis.
fn proj_dot(p: &Vector2, a: &Vector2) -> (r: i64)
    requires
        vstd::math::abs(p.x as int) <= FIT_COORD_LIMIT,
        vstd::math::abs(p.y as int) <= FIT_COORD_LIMIT,
        vstd::math::abs(a.x as int) <= 2 * FIT_COORD_LIMIT,
        vstd::math::abs(a.y as int) <= 2 * FIT_COORD_LIMIT,
    ensures
        r == dot_spec(*p, *a),
        vstd::math::abs(r as int) <= 4 * FIT_COORD_LIMIT * FIT_COORD_LIMIT,
{
    proof {
        lemma_mul_bound(p.x as int, FIT_COORD_LIMIT as int, a.x as int, 2 * FIT_COORD_LIMIT as int);
        lemma_mul_bound(p.y as int, FIT_COORD_LIMIT as int, a.y as int, 2 * FIT_COORD_LIMIT as int);
    }
    let d: i128 = (p.x as i128) * (a.x as i128) + (p.y as i128) * (a.y as i128);
    d as i64
}

/// The candidate fit for the cyclic edge at index `i`: the edge and its
/// orthogonal as axes, and the exact projection spans of all points.
fn candidate_fit(points: &Vec<Vector2>, i: usize) -> (c: (Vector2, Vector2, i64, i64, i64, i64))
    requires
        points@.len() >= 1,
        i < points@.len(),
        forall|t: int|
            0 <= t < points@.len() ==> vstd::math::abs((#[trigger] points@[t]).x as int)
                <= FIT_COORD_LIMIT && vstd::math::abs(points@[t].y as int) <= FIT_COORD_LIMIT,
    ensures
        c.0 == edge_axis(points@, i as int),
        c.1 == orth_spec(c.0),
        c.2 == proj_min(points@, c.0),
        c.3 == proj_max(points@, c.0),
        c.4 == proj_min(points@, c.1),
        c.5 == proj_max(points@, c.1),
        vstd::math::abs(c.0.x as int) <= 2 * FIT_COORD_LIMIT,
        vstd::math::abs(c.0.y as int) <= 2 * FIT_COORD_LIMIT,
        vstd::math::abs(c.2 as int) <= 4 * FIT_COORD_LIMIT * FIT_COORD_LIMIT,
        vstd::math::abs(c.3 as int) <= 4 * FIT_COORD_LIMIT * FIT_COORD_LIMIT,
        vstd::math::abs(c.4 as int) <= 4 * FIT_COORD_LIMIT * FIT_COORD_LIMIT,
        vstd::math::abs(c.5 as int) <= 4 * FIT_COORD_LIMIT * FIT_COORD_LIMIT,
{
    let n: usize = points.len();
    let j: usize = if i + 1 < n {
        i + 1
    } else {
        0
    };
    let pi = points[i];
    let pj = points[j];
    let u = Vector2 { x: pi.x - pj.x, y: pi.y - pj.y };
    let v = Vector2 { x: -u.y, y: u.x };
    let first = points[0];
    let mut min_u: i64 = proj_dot(&first, &u);
    let mut max_u: i64 = min_u;
    let mut min_v: i64 = proj_dot(&first, &v);
    let mut max_v: i64 = min_v;
    proof {
        assert(points@.take(1).drop_last() =~= points@.take(0));
        assert(points@.take(1).len() == 1);
    }
    for k in 1..n
        invariant
            n == points@.len(),
            u == edge_axis(points@, i as int),
            v == orth_spec(u),
            vstd::math::abs(u.x as int) <= 2 * FIT_COORD_LIMIT,
            vstd::math::abs(u.y as int) <= 2 * FIT_COORD_LIMIT,
            vstd::math::abs(v.x as int) <= 2 * FIT_COORD_LIMIT,
            vstd::math::abs(v.y as int) <= 2 * FIT_COORD_LIMIT,
            forall|t: int|
                0 <= t < points@.len() ==> vstd::math::abs((#[trigger] points@[t]).x as int)
                    <= FIT_COORD_LIMIT && vstd::math::abs(points@[t].y as int) <= FIT_COORD_LIMIT,
            min_u == proj_min(points@.take(k as int), u),
            max_u == proj_max(points@.take(k as int), u),
            min_v == proj_min(points@.take(k as int), v),
            max_v == proj_max(points@.take(k as int), v),
    {
        let p = points[k];
        let du = proj_dot(&p, &u);
        let dv = proj_dot(&p, &v);
        proof {
            assert(points@.take(k + 1).drop_last() =~= points@.take(k as int));
            assert(points@.take(k + 1).last() == points@[k as int]);
        }
        if du < min_u {
            min_u = du;
        }
        if du > max_u {
            max_u = du;
        }
        if dv < min_v {
            min_v = dv;
        }
        if dv > max_v {
            max_v = dv;
        }
    }
    proof {
        assert(points@.take(n as int) =~= points@);
        lemma_span_bounds(points@, u);
        lemma_span_bounds(points@, v);
    }
    (u, v, min_u, max_u, min_v, max_v)
}

impl OBB2D {
    /// Fit a minimum-area oriented box onto the given points, trying every
    /// cyclic edge of the sequence as a box axis and keeping the first fit
    /// of least area (compared exactly, cross-multiplied by the squared
    /// axis lengths). The points are expected to walk a convex polygon's
    /// boundary in order; at least four of them are required, and the fit
    /// contains every point whatever their order.
    pub fn from_points(points: &Vec<Vector2>) -> (r: Option<OBB2D>)
        requires
            forall|t: int|
                0 <= t < points@.len() ==> vstd::math::abs((#[trigger] points@[t]).x as int)
                    <= FIT_COORD_LIMIT && vstd::math::abs(points@[t].y as int) <= FIT_COORD_LIMIT,
            forall|t: int|
                0 <= t < points@.len() ==> !((#[trigger] edge_axis(points@, t)).x == 0 && edge_axis(
                    points@,
                    t,
                ).y == 0),
        ensures
            r is Some <==> points@.len() > 3,
            r is Some ==> {
                let b = r.unwrap();
                let ps = points@;
                &&& b.wf()
                &&& b.spec_axis_v() == orth_spec(b.spec_axis_u())
                &&& b.spec_lo().x == proj_min(ps, b.spec_axis_u())
                &&& b.spec_hi().x == proj_max(ps, b.spec_axis_u())
                &&& b.spec_lo().y == proj_min(ps, b.spec_axis_v())
                &&& b.spec_hi().y == proj_max(ps, b.spec_axis_v())
                &&& (exists|k: int|
                    {
                        &&& 0 <= k < ps.len()
                        &&& (#[trigger] edge_axis(ps, k)) == b.spec_axis_u()
                        &&& (forall|t: int|
                            0 <= t < ps.len() ==> cand_area_num(ps, k) * (#[trigger] cand_l2(
                                ps,
                                t,
                            )) <= cand_area_num(ps, t) * cand_l2(ps, k))
                        &&& (forall|t: int|
                            0 <= t < k ==> cand_area_num(ps, k) * (#[trigger] cand_l2(ps, t))
                                < cand_area_num(ps, t) * cand_l2(ps, k))
                    })
                &&& (forall|j: int| 0 <= j < ps.len() ==> b.spec_contains_point(#[trigger] ps[j]))
            },
    {
        let n: usize = points.len();
        if n <= 3 {
            return None;
        }
        let (mut bu, mut bv, mut blox, mut bhix, mut bloy, mut bhiy) = candidate_fit(points, 0);
        let ghost best_k: int = 0;
        proof {
            lemma_cand_l2_pos(points@, 0);
        }
        for i in 1..n
            invariant
                n == points@.len(),
                n > 3,
                forall|t: int|
                    0 <= t < points@.len() ==> vstd::math::abs((#[trigger] points@[t]).x as int)
                        <= FIT_COORD_LIMIT && vstd::math::abs(points@[t].y as int)
                        <= FIT_COORD_LIMIT,
                forall|t: int|
                    0 <= t < points@.len() ==> !((#[trigger] edge_axis(points@, t)).x == 0
                        && edge_axis(points@, t).y == 0),
                0 <= best_k < i,
                bu == edge_axis(points@, best_k),
                bv == orth_spec(bu),
                vstd::math::abs(bu.x as int) <= 2 * FIT_COORD_LIMIT,
                vstd::math::abs(bu.y as int) <= 2 * FIT_COORD_LIMIT,
                vstd::math::abs(blox as int) <= 4 * FIT_COORD_LIMIT * FIT_COORD_LIMIT,
                vstd::math::abs(bhix as int) <= 4 * FIT_COORD_LIMIT * FIT_COORD_LIMIT,
                vstd::math::abs(bloy as int) <= 4 * FIT_COORD_LIMIT * FIT_COORD_LIMIT,
                vstd::math::abs(bhiy as int) <= 4 * FIT_COORD_LIMIT * FIT_COORD_LIMIT,
                blox == proj_min(points@, bu),
                bhix == proj_max(points@, bu),
                bloy == proj_min(points@, bv),
                bhiy == proj_max(points@, bv),
                forall|t: int|
                    0 <= t < i ==> cand_area_num(points@, best_k) * (#[trigger] cand_l2(
                        points@,
                        t,
                    )) <= cand_area_num(points@, t) * cand_l2(points@, best_k),
                forall|t: int|
                    0 <= t < best_k ==> cand_area_num(points@, best_k) * (#[trigger] cand_l2(
                        points@,
                        t,
                    )) < cand_area_num(points@, t) * cand_l2(points@, best_k),
        {
            let (u, v, lox, hix, loy, hiy) = candidate_fit(points, i);
            proof {
                lemma_cand_l2_pos(points@, i as int);
                lemma_cand_l2_pos(points@, best_k);
                lemma_mul_bound(
                    (hix - lox) as int,
                    0x100_0000_0000,
                    (hiy - loy) as int,
                    0x100_0000_0000,
                );
                lemma_mul_bound(
                    (bhix - blox) as int,
                    0x100_0000_0000,
                    (bhiy - bloy) as int,
                    0x100_0000_0000,
                );
                lemma_mul_bound(u.x as int, OBB_AXIS_LIMIT as int, u.x as int, OBB_AXIS_LIMIT as int);
                lemma_mul_bound(u.y as int, OBB_AXIS_LIMIT as int, u.y as int, OBB_AXIS_LIMIT as int);
                lemma_mul_bound(bu.x as int, OBB_AXIS_LIMIT as int, bu.x as int, OBB_AXIS_LIMIT as int);
                lemma_mul_bound(bu.y as int, OBB_AXIS_LIMIT as int, bu.y as int, OBB_AXIS_LIMIT as int);
            }
            let num_i: i128 = ((hix - lox) as i128) * ((hiy - loy) as i128);
            let l2_i: i128 = (u.x as i128) * (u.x as i128) + (u.y as i128) * (u.y as i128);
            let num_b: i128 = ((bhix - blox) as i128) * ((bhiy - bloy) as i128);
            let l2_b: i128 = (bu.x as i128) * (bu.x as i128) + (bu.y as i128) * (bu.y as i128);
            proof {
                assert(num_i == cand_area_num(points@, i as int));
                assert(l2_i == cand_l2(points@, i as int));
                assert(num_b == cand_area_num(points@, best_k));
                assert(l2_b == cand_l2(points@, best_k));
                lemma_mul_bound(num_i as int, 0x1_0000_0000_0000_0000_0000, l2_b as int, 0x200_0000_0000);
                lemma_mul_bound(num_b as int, 0x1_0000_0000_0000_0000_0000, l2_i as int, 0x200_0000_0000);
            }
            if num_i * l2_b < num_b * l2_i {
                proof {
                    assert forall|t: int|
                        0 <= t < i implies cand_area_num(points@, i as int) * (#[trigger] cand_l2(
                        points@,
                        t,
                    )) < cand_area_num(points@, t) * cand_l2(points@, i as int) by {
                        lemma_cand_l2_pos(points@, t);
                        lemma_ratio_lt_trans(
                            cand_area_num(points@, i as int),
                            cand_l2(points@, i as int),
                            cand_area_num(points@, best_k),
                            cand_l2(points@, best_k),
                            cand_area_num(points@, t),
                            cand_l2(points@, t),
                        );
                    }
                }
                bu = u;
                bv = v;
                blox = lox;
                bhix = hix;
                bloy = loy;
                bhiy = hiy;
                proof {
                    best_k = i as int;
                }
            }
        }
        proof {
            lemma_proj_witness(points@, bu);
            lemma_proj_witness(points@, bv);
            assert forall|j: int| 0 <= j < points@.len() implies vstd::math::abs(dot_spec(
                #[trigger] points@[j],
                bu,
            )) <= OBB_SPAN_LIMIT && vstd::math::abs(dot_spec(points@[j], bv))
                <= OBB_SPAN_LIMIT by {
                lemma_mul_bound(
                    points@[j].x as int,
                    FIT_COORD_LIMIT as int,
                    bu.x as int,
                    2 * FIT_COORD_LIMIT as int,
                );
                lemma_mul_bound(
                    points@[j].y as int,
                    FIT_COORD_LIMIT as int,
                    bu.y as int,
                    2 * FIT_COORD_LIMIT as int,
                );
                lemma_mul_bound(
                    points@[j].x as int,
                    FIT_COORD_LIMIT as int,
                    bv.x as int,
                    2 * FIT_COORD_LIMIT as int,
                );
                lemma_mul_bound(
                    points@[j].y as int,
                    FIT_COORD_LIMIT as int,
                    bv.y as int,
                    2 * FIT_COORD_LIMIT as int,
                );
            }
            assert forall|j: int| 0 <= j < points@.len() implies proj_min(points@, bu) <= dot_spec(
                #[trigger] points@[j],
                bu,
            ) <= proj_max(points@, bu) && proj_min(points@, bv) <= dot_spec(points@[j], bv)
                <= proj_max(points@, bv) by {
                lemma_proj_in_range(points@, bu, j);
                lemma_proj_in_range(points@, bv, j);
            }
            lemma_proj_in_range(points@, bu, 0);
            lemma_proj_in_range(points@, bv, 0);
        }
        let b = OBB2D {
            local: [bu, bv],
            lo: Vector2 { x: blox, y: bloy },
            hi: Vector2 { x: bhix, y: bhiy },
        };
        Some(b)
    }
}

/// Candidate axes are nonzero, so their squared lengths are positive.
proof fn lemma_cand_l2_pos(ps: Seq<Vector2>, i: int)
    requires
        0 <= i < ps.len(),
        !(edge_axis(ps, i).x == 0 && edge_axis(ps, i).y == 0),
    ensures
        cand_l2(ps, i) >= 1,
{
    lemma_axis_l2_pos(edge_axis(ps, i));
}

/// Projection spans of bounded points onto a bounded axis stay bounded.
proof fn lemma_span_bounds(ps: Seq<Vector2>, a: Vector2)
    requires
        ps.len() >= 1,
        forall|t: int|
            0 <= t < ps.len() ==> vstd::math::abs((#[trigger] ps[t]).x as int) <= FIT_COORD_LIMIT
                && vstd::math::abs(ps[t].y as int) <= FIT_COORD_LIMIT,
        vstd::math::abs(a.x as int) <= 2 * FIT_COORD_LIMIT,
        vstd::math::abs(a.y as int) <= 2 * FIT_COORD_LIMIT,
    ensures
        vstd::math::abs(proj_min(ps, a)) <= 4 * FIT_COORD_LIMIT * FIT_COORD_LIMIT,
        vstd::math::abs(proj_max(ps, a)) <= 4 * FIT_COORD_LIMIT * FIT_COORD_LIMIT,
{
    lemma_proj_witness(ps, a);
    let jmin = choose|j: int| 0 <= j < ps.len() && proj_min(ps, a) == dot_spec(#[trigger] ps[j], a);
    let jmax = choose|j: int| 0 <= j < ps.len() && proj_max(ps, a) == dot_spec(#[trigger] ps[j], a);
    lemma_mul_bound(ps[jmin].x as int, FIT_COORD_LIMIT as int, a.x as int, 2 * FIT_COORD_LIMIT as int);
    lemma_mul_bound(ps[jmin].y as int, FIT_COORD_LIMIT as int, a.y as int, 2 * FIT_COORD_LIMIT as int);
    lemma_mul_bound(ps[jmax].x as int, FIT_COORD_LIMIT as int, a.x as int, 2 * FIT_COORD_LIMIT as int);
    lemma_mul_bound(ps[jmax].y as int, FIT_COORD_LIMIT as int, a.y as int, 2 * FIT_COORD_LIMIT as int);
}

/// Whether the axes of two well-formed boxes, one interval given directly,
/// separate their projections; computed exactly in wide integers.
fn separated_on_axis(a: &Vector2, alo: i64, ahi: i64, b: &OBB2D) -> (r: bool)
    requires
        b.wf(),
        vstd::math::abs(a.x as int) <= OBB_AXIS_LIMIT,
        vstd::math::abs(a.y as int) <= OBB_AXIS_LIMIT,
        vstd::math::abs(alo as int) <= OBB_SPAN_LIMIT,
        vstd::math::abs(ahi as int) <= OBB_SPAN_LIMIT,
    ensures
        r == axis_separates(*a, alo as int, ahi as int, *b),
{
    let u = b.local[0];
    let v = b.local[1];
    proof {
        lemma_mul_bound(u.x as int, OBB_AXIS_LIMIT as int, a.x as int, OBB_AXIS_LIMIT as int);
        lemma_mul_bound(u.y as int, OBB_AXIS_LIMIT as int, a.y as int, OBB_AXIS_LIMIT as int);
        lemma_mul_bound(v.x as int, OBB_AXIS_LIMIT as int, a.x as int, OBB_AXIS_LIMIT as int);
        lemma_mul_bound(v.y as int, OBB_AXIS_LIMIT as int, a.y as int, OBB_AXIS_LIMIT as int);
        lemma_mul_bound(u.x as int, OBB_AXIS_LIMIT as int, u.x as int, OBB_AXIS_LIMIT as int);
        lemma_mul_bound(u.y as int, OBB_AXIS_LIMIT as int, u.y as int, OBB_AXIS_LIMIT as int);
    }
    let cu: i128 = (u.x as i128) * (a.x as i128) + (u.y as i128) * (a.y as i128);
    let cv: i128 = (v.x as i128) * (a.x as i128) + (v.y as i128) * (a.y as i128);
    let l2: i128 = (u.x as i128) * (u.x as i128) + (u.y as i128) * (u.y as i128);
    let lox: i128 = b.lo.x as i128;
    let hix: i128 = b.hi.x as i128;
    let loy: i128 = b.lo.y as i128;
    let hiy: i128 = b.hi.y as i128;
    proof {
        lemma_mul_bound(lox as int, OBB_SPAN_LIMIT as int, cu as int, 0x8_0000_0000_0000);
        lemma_mul_bound(hix as int, OBB_SPAN_LIMIT as int, cu as int, 0x8_0000_0000_0000);
        lemma_mul_bound(loy as int, OBB_SPAN_LIMIT as int, cv as int, 0x8_0000_0000_0000);
        lemma_mul_bound(hiy as int, OBB_SPAN_LIMIT as int, cv as int, 0x8_0000_0000_0000);
        lemma_mul_bound(alo as int, OBB_SPAN_LIMIT as int, l2 as int, 0x8_0000_0000_0000);
        lemma_mul_bound(ahi as int, OBB_SPAN_LIMIT as int, l2 as int, 0x8_0000_0000_0000);
    }
    let plo_u: i128 = if cu >= 0 {
        lox * cu
    } else {
        hix * cu
    };
    let phi_u: i128 = if cu >= 0 {
        hix * cu
    } else {
        lox * cu
    };
    let plo_v: i128 = if cv >= 0 {
        loy * cv
    } else {
        hiy * cv
    };
    let phi_v: i128 = if cv >= 0 {
        hiy * cv
    } else {
        loy * cv
    };
    (ahi as i128) * l2 < plo_u + plo_v || phi_u + phi_v < (alo as i128) * l2
}

/// On axis-aligned boxes the separating-axis test agrees exactly with the
/// axis-aligned intersection test: converting two well-formed boxes and
/// running the oriented test decides the same way.
pub proof fn lemma_sat_matches_aabb(x: OBB2D, a: AABB, y: OBB2D, b: AABB)
    requires
        a.wf(),
        b.wf(),
        x.spec_axis_u() == (Vector2 { x: 1, y: 0 }),
        x.spec_axis_v() == (Vector2 { x: 0, y: 1 }),
        x.spec_lo().x == a.spec_min_x(),
        x.spec_hi().x == a.spec_max_x(),
        x.spec_lo().y == a.spec_min_y(),
        x.spec_hi().y == a.spec_max_y(),
        y.spec_axis_u() == (Vector2 { x: 1, y: 0 }),
        y.spec_axis_v() == (Vector2 { x: 0, y: 1 }),
        y.spec_lo().x == b.spec_min_x(),
        y.spec_hi().x == b.spec_max_x(),
        y.spec_lo().y == b.spec_min_y(),
        y.spec_hi().y == b.spec_max_y(),
    ensures
        spec_sat_intersects(x, y) == a.spec_intersects(b),
{
    let u1 = x.spec_axis_u();
    let v1 = x.spec_axis_v();
    let u2 = y.spec_axis_u();
    let v2 = y.spec_axis_v();
    assert(dot_spec(u1, u1) == 1 && dot_spec(u2, u2) == 1 && dot_spec(u2, u1) == 1 && dot_spec(
        v2,
        u1,
    ) == 0 && dot_spec(u2, v1) == 0 && dot_spec(v2, v1) == 1 && dot_spec(u1, u2) == 1 && dot_spec(
        v1,
        u2,
    ) == 0 && dot_spec(u1, v2) == 0 && dot_spec(v1, v2) == 1) by (nonlinear_arith)
        requires
            u1 == (Vector2 { x: 1, y: 0 }),
            v1 == (Vector2 { x: 0, y: 1 }),
            u2 == (Vector2 { x: 1, y: 0 }),
            v2 == (Vector2 { x: 0, y: 1 }),
    ;
    assert forall|lo: int, hi: int| true implies #[trigger] min_scaled(lo, hi, 1) == lo
        && min_scaled(lo, hi, 0) == 0 && max_scaled(lo, hi, 1) == hi && max_scaled(lo, hi, 0)
        == 0 by {
        assert(lo * 1 == lo && lo * 0 == 0 && hi * 1 == hi && hi * 0 == 0) by (nonlinear_arith);
    }
    assert(proj_lo(y, u1) == y.spec_lo().x as int);
    assert(proj_hi(y, u1) == y.spec_hi().x as int);
    assert(proj_lo(y, v1) == y.spec_lo().y as int);
    assert(proj_hi(y, v1) == y.spec_hi().y as int);
    assert(proj_lo(x, u2) == x.spec_lo().x as int);
    assert(proj_hi(x, u2) == x.spec_hi().x as int);
    assert(proj_lo(x, v2) == x.spec_lo().y as int);
    assert(proj_hi(x, v2) == x.spec_hi().y as int);
    assert forall|t: int| true implies #[trigger] (t * 1) == t by {
        assert(t * 1 == t) by (nonlinear_arith);
    }
    assert(axis_separates(u1, x.spec_lo().x as int, x.spec_hi().x as int, y) == (
    x.spec_hi().x < y.spec_lo().x || y.spec_hi().x < x.spec_lo().x));
    assert(axis_separates(v1, x.spec_lo().y as int, x.spec_hi().y as int, y) == (
    x.spec_hi().y < y.spec_lo().y || y.spec_hi().y < x.spec_lo().y));
    assert(axis_separates(u2, y.spec_lo().x as int, y.spec_hi().x as int, x) == (
    y.spec_hi().x < x.spec_lo().x || x.spec_hi().x < y.spec_lo().x));
    assert(axis_separates(v2, y.spec_lo().y as int, y.spec_hi().y as int, x) == (
    y.spec_hi().y < x.spec_lo().y || x.spec_hi().y < y.spec_lo().y));
}

/// Binomial products expand into their four partial products.
proof fn lemma_foil(a: int, b: int, c: int, d: int)
    by (nonlinear_arith)
    ensures
        (a + b) * (c + d) == a * c + a * d + b * c + b * d,
{
}

/// Regrouping a product of four factors around a repeated middle factor.
proof fn lemma_swap_sq(a: int, b: int, c: int)
    by (nonlinear_arith)
    ensures
        (a * b) * (b * c) == (b * b) * (a * c),
{
}

/// Regrouping a product of four distinct factors.
proof fn lemma_swap_mid(a: int, b: int, c: int, d: int)
    by (nonlinear_arith)
    ensures
        (a * b) * (c * d) == (b * c) * (a * d),
        (a * b) * (c * d) == (c * b) * (a * d),
{
}

/// Signs move freely through a product.
proof fn lemma_neg_mul(a: int, b: int)
    by (nonlinear_arith)
    ensures
        (-a) * b == -(a * b),
        a * (-b) == -(a * b),
        (-a) * (-b) == a * b,
{
}

/// Splitting a vector along an orthogonal basis: the projections onto an
/// axis pair recombine, scaled by the pair's squared length.
proof fn lemma_orthogonal_decomposition(p: Vector2, u: Vector2, v: Vector2, a: Vector2)
    requires
        v.x == -u.y,
        v.y == u.x,
    ensures
        dot_spec(u, u) * dot_spec(p, a) == dot_spec(p, u) * dot_spec(u, a) + dot_spec(p, v)
            * dot_spec(v, a),
{
    let px = p.x as int;
    let py = p.y as int;
    let ux = u.x as int;
    let uy = u.y as int;
    let ax = a.x as int;
    let ay = a.y as int;
    assert(dot_spec(u, u) == ux * ux + uy * uy);
    assert(dot_spec(p, a) == px * ax + py * ay);
    assert(dot_spec(p, u) == px * ux + py * uy);
    assert(dot_spec(u, a) == ux * ax + uy * ay);
    lemma_neg_mul(px, uy);
    lemma_neg_mul(uy, ax);
    assert(dot_spec(p, v) == -(px * uy) + py * ux);
    assert(dot_spec(v, a) == -(uy * ax) + ux * ay);
    // the left-hand side, expanded
    lemma_foil(ux * ux, uy * uy, px * ax, py * ay);
    // the projection onto the first axis, expanded and regrouped
    lemma_foil(px * ux, py * uy, ux * ax, uy * ay);
    lemma_swap_sq(px, ux, ax);
    lemma_swap_mid(px, ux, uy, ay);
    lemma_swap_mid(py, uy, ux, ax);
    lemma_swap_sq(py, uy, ay);
    // the projection onto the second axis, expanded and regrouped
    lemma_foil(-(px * uy), py * ux, -(uy * ax), ux * ay);
    lemma_neg_mul(px * uy, uy * ax);
    lemma_neg_mul(px * uy, ux * ay);
    lemma_neg_mul(py * ux, uy * ax);
    lemma_swap_sq(px, uy, ax);
    lemma_swap_mid(px, uy, ux, ay);
    lemma_swap_mid(py, ux, uy, ax);
    lemma_swap_sq(py, ux, ay);
}

/// A scaled value stays between the scaled interval ends.
proof fn lemma_scaled_between(lo: int, hi: int, s: int, c: int)
    by (nonlinear_arith)
    requires
        lo <= s <= hi,
    ensures
        min_scaled(lo, hi, c) <= s * c <= max_scaled(lo, hi, c),
{
}

/// Multiplying by a nonnegative factor preserves order.
proof fn lemma_mul_mono(a: int, b: int, c: int)
    by (nonlinear_arith)
    requires
        a <= b,
        c >= 0,
    ensures
        a * c <= b * c,
{
}

/// A separation found along one axis excludes any common point: a point of
/// the other box never projects into the owner's interval.
proof fn lemma_axis_separation_excludes(a: Vector2, alo: int, ahi: int, b: OBB2D, p: Vector2)
    requires
        b.wf(),
        axis_separates(a, alo, ahi, b),
        b.spec_contains_point(p),
    ensures
        !(alo <= dot_spec(p, a) <= ahi),
{
    if !(alo <= dot_spec(p, a) <= ahi) {
        return;
    }
    let u = b.spec_axis_u();
    let v = b.spec_axis_v();
    let l2 = dot_spec(u, u);
    lemma_axis_l2_pos(u);
    lemma_orthogonal_decomposition(p, u, v, a);
    lemma_scaled_between(
        b.spec_lo().x as int,
        b.spec_hi().x as int,
        dot_spec(p, u),
        dot_spec(u, a),
    );
    lemma_scaled_between(
        b.spec_lo().y as int,
        b.spec_hi().y as int,
        dot_spec(p, v),
        dot_spec(v, a),
    );
    assert(proj_lo(b, a) <= l2 * dot_spec(p, a) <= proj_hi(b, a));
    lemma_mul_mono(dot_spec(p, a), ahi, l2);
    lemma_mul_mono(alo, dot_spec(p, a), l2);
    assert(dot_spec(p, a) * l2 == l2 * dot_spec(p, a)) by (nonlinear_arith);
    assert(alo * l2 == l2 * alo) by (nonlinear_arith);
}

/// Soundness of the separating-axis test: when it reports two well-formed
/// boxes as not intersecting, no point of the grid lies in both.
pub proof fn lemma_sat_separation_sound(x: OBB2D, y: OBB2D, p: Vector2)
    requires
        x.wf(),
        y.wf(),
        !spec_sat_intersects(x, y),
    ensures
        !(x.spec_contains_point(p) && y.spec_contains_point(p)),
{
    if x.spec_contains_point(p) && y.spec_contains_point(p) {
        if axis_separates(x.spec_axis_u(), x.spec_lo().x as int, x.spec_hi().x as int, y) {
            lemma_axis_separation_excludes(
                x.spec_axis_u(),
                x.spec_lo().x as int,
                x.spec_hi().x as int,
                y,
                p,
            );
        } else if axis_separates(x.spec_axis_v(), x.spec_lo().y as int, x.spec_hi().y as int, y) {
            lemma_axis_separation_excludes(
                x.spec_axis_v(),
                x.spec_lo().y as int,
                x.spec_hi().y as int,
                y,
                p,
            );
        } else if axis_separates(y.spec_axis_u(), y.spec_lo().x as int, y.spec_hi().x as int, x) {
            lemma_axis_separation_excludes(
                y.spec_axis_u(),
                y.spec_lo().x as int,
                y.spec_hi().x as int,
                x,
                p,
            );
        } else {
            lemma_axis_separation_excludes(
                y.spec_axis_v(),
                y.spec_lo().y as int,
                y.spec_hi().y as int,
                x,
                p,
            );
        }
    }
}

} // verus!
