use vstd::prelude::*;

use crate::vector2::Vector2;

verus! {

/// Clamp `v` into the interval `[lo, hi]`.
pub open spec fn clamp_spec(v: int, lo: int, hi: int) -> int {
    if v < lo {
        lo
    } else if v > hi {
        hi
    } else {
        v
    }
}

/// Axis-aligned bounding box, stored as a center point and positive
/// half-extents (`radius`) along each axis.
#[derive(Debug, Clone)]
pub struct AABB {
    center: Vector2,
    radius: Vector2,
}

impl AABB {
    /// The box's center point.
    pub closed spec fn spec_center(self) -> Vector2 {
        self.center
    }

    /// The box's half-extents along each axis.
    pub closed spec fn spec_radius(self) -> Vector2 {
        self.radius
    }

    /// Well-formed: strictly positive half-extents and corners that stay on
    /// the `i64` grid, so that derived bounds never overflow.
    pub open spec fn wf(self) -> bool {
        &&& 1 <= self.spec_radius().x
        &&& 1 <= self.spec_radius().y
        &&& i64::MIN <= self.spec_center().x - self.spec_radius().x
        &&& self.spec_center().x + self.spec_radius().x <= i64::MAX
        &&& i64::MIN <= self.spec_center().y - self.spec_radius().y
        &&& self.spec_center().y + self.spec_radius().y <= i64::MAX
    }

    pub open spec fn spec_min_x(self) -> int {
        self.spec_center().x - self.spec_radius().x
    }

    pub open spec fn spec_max_x(self) -> int {
        self.spec_center().x + self.spec_radius().x
    }

    pub open spec fn spec_min_y(self) -> int {
        self.spec_center().y - self.spec_radius().y
    }

    pub open spec fn spec_max_y(self) -> int {
        self.spec_center().y + self.spec_radius().y
    }

    /// A point lies in the box (boundary included).
    pub open spec fn spec_contains(self, p: Vector2) -> bool {
        &&& self.spec_min_x() <= p.x <= self.spec_max_x()
        &&& self.spec_min_y() <= p.y <= self.spec_max_y()
    }

    /// Two boxes overlap on both axes; touching counts as intersecting.
    pub open spec fn spec_intersects(self, other: AABB) -> bool {
        &&& vstd::math::abs(self.spec_center().x - other.spec_center().x)
            <= self.spec_radius().x + other.spec_radius().x
        &&& vstd::math::abs(self.spec_center().y - other.spec_center().y)
            <= self.spec_radius().y + other.spec_radius().y
    }

    /// The point of the box closest to `p`: each coordinate clamped into
    /// the box's bounds.
    pub open spec fn spec_closest_point(self, p: Vector2) -> Vector2 {
        Vector2 {
            x: clamp_spec(p.x as int, self.spec_min_x(), self.spec_max_x()) as i64,
            y: clamp_spec(p.y as int, self.spec_min_y(), self.spec_max_y()) as i64,
        }
    }

    /// The arguments from which `new` builds a well-formed box: positive
    /// size, and the resulting corners representable. The half-extent of an
    /// odd size rounds up, so a positive size always gives a positive radius.
    pub open spec fn new_args_ok(center: Vector2, width: int, height: int) -> bool {
        &&& 1 <= width
        &&& 1 <= height
        &&& i64::MIN <= center.x - (width + 1) / 2
        &&& center.x + (width + 1) / 2 <= i64::MAX
        &&& i64::MIN <= center.y - (height + 1) / 2
        &&& center.y + (height + 1) / 2 <= i64::MAX
    }

    /// Build a box from its center and full width/height. Construction
    /// fails exactly when a size is not positive (or the box would leave
    /// the grid); it never yields a malformed box.
    pub fn new(center: Vector2, width: i64, height: i64) -> (r: Option<AABB>)
        ensures
            r is Some <==> Self::new_args_ok(center, width as int, height as int),
            r is Some ==> {
                &&& r.unwrap().wf()
                &&& r.unwrap().spec_center() == center
                &&& r.unwrap().spec_radius().x == (width + 1) / 2
                &&& r.unwrap().spec_radius().y == (height + 1) / 2
            },
    {
        if width <= 0 || height <= 0 {
            return None;
        }
        let rx: i64 = width / 2 + width % 2;
        let ry: i64 = height / 2 + height % 2;
        let ok_x = i64::MIN as i128 <= center.x as i128 - rx as i128
            && center.x as i128 + rx as i128 <= i64::MAX as i128;
        let ok_y = i64::MIN as i128 <= center.y as i128 - ry as i128
            && center.y as i128 + ry as i128 <= i64::MAX as i128;
        if ok_x && ok_y {
            Some(AABB { center, radius: Vector2 { x: rx, y: ry } })
        } else {
            None
        }
    }

    /// Assemble a box directly from a center and half-extents that are
    /// already known to form a well-formed box.
    pub(crate) fn from_parts(center: Vector2, radius: Vector2) -> (r: AABB)
        requires
            1 <= radius.x,
            1 <= radius.y,
            i64::MIN <= center.x - radius.x,
            center.x + radius.x <= i64::MAX,
            i64::MIN <= center.y - radius.y,
            center.y + radius.y <= i64::MAX,
        ensures
            r.wf(),
            r.spec_center() == center,
            r.spec_radius() == radius,
    {
        AABB { center, radius }
    }

    pub fn get_center(&self) -> (r: &Vector2)
        ensures
            *r == self.spec_center(),
    {
        &self.center
    }

    /// Mutable access to the center. The caller takes over responsibility
    /// for keeping the box well-formed.
    pub fn get_center_mut(&mut self) -> (r: &mut Vector2)
        ensures
            *r == old(self).spec_center(),
            final(self).spec_center() == *final(r),
            final(self).spec_radius() == old(self).spec_radius(),
    {
        &mut self.center
    }

    pub fn get_radius(&self) -> (r: &Vector2)
        ensures
            *r == self.spec_radius(),
    {
        &self.radius
    }

    /// Mutable access to the half-extents. The caller takes over
    /// responsibility for keeping the box well-formed.
    pub fn get_radius_mut(&mut self) -> (r: &mut Vector2)
        ensures
            *r == old(self).spec_radius(),
            final(self).spec_radius() == *final(r),
            final(self).spec_center() == old(self).spec_center(),
    {
        &mut self.radius
    }

    /// Inclusive separating-axis test for two axis-aligned boxes.
    pub fn intersects(&self, other: &AABB) -> (r: bool)
        ensures
            r == self.spec_intersects(*other),
    {
        let dx: i128 = (self.center.x as i128) - (other.center.x as i128);
        let dx: i128 = if dx < 0 { -dx } else { dx };
        let rx: i128 = (self.radius.x as i128) + (other.radius.x as i128);
        let dy: i128 = (self.center.y as i128) - (other.center.y as i128);
        let dy: i128 = if dy < 0 { -dy } else { dy };
        let ry: i128 = (self.radius.y as i128) + (other.radius.y as i128);
        dx <= rx && dy <= ry
    }

    /// The closest point on the box to the given point.
    pub fn closest_point(&self, point: &Vector2) -> (r: Vector2)
        requires
            self.wf(),
        ensures
            r == self.spec_closest_point(*point),
    {
        self.closest_point_mut(point.clone())
    }

    /// The closest point on the box to the given point, consuming the
    /// original point.
    pub fn closest_point_mut(&self, result: Vector2) -> (r: Vector2)
        requires
            self.wf(),
        ensures
            r == self.spec_closest_point(result),
    {
        let min_x: i128 = self.center.x as i128 - self.radius.x as i128;
        let max_x: i128 = self.center.x as i128 + self.radius.x as i128;
        let min_y: i128 = self.center.y as i128 - self.radius.y as i128;
        let max_y: i128 = self.center.y as i128 + self.radius.y as i128;
        let mut out = result;
        if (out.x as i128) < min_x {
            out.x = min_x as i64;
        }
        if (out.x as i128) > max_x {
            out.x = max_x as i64;
        }
        if (out.y as i128) < min_y {
            out.y = min_y as i64;
        }
        if (out.y as i128) > max_y {
            out.y = max_y as i64;
        }
        out
    }

    /// A point lies within or on the boundary of the box; equivalently,
    /// its closest point on the box is the point itself.
    pub fn contains(&self, point: &Vector2) -> (r: bool)
        requires
            self.wf(),
        ensures
            r == self.spec_contains(*point),
    {
        let c = self.closest_point(point);
        proof {
            lemma_closest_point_inside(*self, *point);
        }
        c.x == point.x && c.y == point.y
    }
}

/// The intersection test is symmetric in its two boxes.
pub proof fn lemma_intersects_symmetric(a: AABB, b: AABB)
    ensures
        a.spec_intersects(b) == b.spec_intersects(a),
{
}

/// Every well-formed box intersects itself.
pub proof fn lemma_intersects_self(a: AABB)
    requires
        a.wf(),
    ensures
        a.spec_intersects(a),
{
}

/// A point shared by two boxes witnesses their intersection.
pub proof fn lemma_common_point_intersects(a: AABB, b: AABB, p: Vector2)
    requires
        a.spec_contains(p),
        b.spec_contains(p),
    ensures
        a.spec_intersects(b),
{
}

/// Projecting a point onto a box is the identity exactly on the points
/// the box contains.
pub proof fn lemma_closest_point_inside(a: AABB, p: Vector2)
    requires
        a.wf(),
    ensures
        a.spec_contains(p) <==> a.spec_closest_point(p) == p,
{
}

/// Projecting an outside point lands on the box's boundary: the result is
/// contained in the box and pinned to at least one extreme coordinate.
pub proof fn lemma_closest_point_projects(a: AABB, p: Vector2)
    requires
        a.wf(),
        !a.spec_contains(p),
    ensures
        a.spec_contains(a.spec_closest_point(p)),
        a.spec_closest_point(p).x == a.spec_min_x() || a.spec_closest_point(p).x == a.spec_max_x()
            || a.spec_closest_point(p).y == a.spec_min_y() || a.spec_closest_point(p).y
            == a.spec_max_y(),
{
}

} // verus!
