use vstd::prelude::*;

use crate::vector2::Vector2;

verus! {

/// Coordinate magnitude up to which the squared-distance test is free of
/// overflow.
pub const CIRCLE_COORD_LIMIT: i64 = 0x7fff_ffff;

/// A disc: center plus radius.
#[derive(Debug, Clone)]
pub struct Circle {
    center: Vector2,
    radius: i64,
}

impl Circle {
    pub closed spec fn spec_center(self) -> Vector2 {
        self.center
    }

    pub closed spec fn spec_radius(self) -> int {
        self.radius as int
    }

    /// Center coordinates and radius small enough for the exact
    /// squared-distance comparison.
    pub open spec fn in_range(self) -> bool {
        &&& vstd::math::abs(self.spec_center().x as int) <= CIRCLE_COORD_LIMIT
        &&& vstd::math::abs(self.spec_center().y as int) <= CIRCLE_COORD_LIMIT
        &&& vstd::math::abs(self.spec_radius()) <= CIRCLE_COORD_LIMIT
    }

    /// Two discs overlap: the squared distance of the centers is at most
    /// the square of the radius sum.
    pub open spec fn spec_intersects(self, other: Circle) -> bool {
        let dx = self.spec_center().x - other.spec_center().x;
        let dy = self.spec_center().y - other.spec_center().y;
        let rs = self.spec_radius() + other.spec_radius();
        dx * dx + dy * dy <= rs * rs
    }

    pub fn new(center: Vector2, radius: i64) -> (r: Circle)
        ensures
            r.spec_center() == center,
            r.spec_radius() == radius,
    {
        Circle { center, radius }
    }

    /// Exact intersection test by squared-distance comparison.
    pub fn intersects(&self, other: &Circle) -> (r: bool)
        requires
            self.in_range(),
            other.in_range(),
        ensures
            r == self.spec_intersects(*other),
    {
        let dx: i128 = (self.center.x as i128) - (other.center.x as i128);
        let dy: i128 = (self.center.y as i128) - (other.center.y as i128);
        let rs: i128 = (self.radius as i128) + (other.radius as i128);
        proof {
            crate::vector2::lemma_square_le(dx as int, 0x1_0000_0000);
            crate::vector2::lemma_square_le(dy as int, 0x1_0000_0000);
            crate::vector2::lemma_square_le(rs as int, 0x1_0000_0000);
        }
        dx * dx + dy * dy <= rs * rs
    }
}

} // verus!
