//! One circular segment of the snake's body, with its lazy chase rule and
//! its circle-against-circle intersection test.

use vstd::prelude::*;
use crate::geom::{Vec2, chase, chase_step, dist2, dist2_i64, between, COORD_LIMIT};
use crate::UNIT_RADIUS;

verus! {

/// One circular body segment of radius `UNIT_RADIUS`.
#[derive(Clone, Copy, PartialEq, Eq, Structural, Debug)]
pub struct Unit {
    pub position: Vec2,
}

impl Unit {
    /// Whether a circle of `radius` around `position` touches this segment:
    /// the centers stand strictly closer than the two radii together.
    pub open spec fn intersect_spec(self, position: Vec2, radius: int) -> bool {
        dist2(self.position, position) < (radius + UNIT_RADIUS) * (radius + UNIT_RADIUS)
    }

    /// Follow the leader lazily: stay in place while the leader is within
    /// two radii, otherwise move straight toward it until the gap is two
    /// radii again.
    pub fn go(&mut self, prev_unit_pos: Vec2)
        requires
            old(self).position.wf_within(COORD_LIMIT as int),
            prev_unit_pos.wf_within(COORD_LIMIT as int),
        ensures
            final(self).position == chase(old(self).position, prev_unit_pos),
            dist2(prev_unit_pos, old(self).position) <= (2 * UNIT_RADIUS) * (2 * UNIT_RADIUS)
                ==> *final(self) == *old(self),
            between(
                old(self).position.x as int,
                prev_unit_pos.x as int,
                final(self).position.x as int,
            ),
            between(
                old(self).position.y as int,
                prev_unit_pos.y as int,
                final(self).position.y as int,
            ),
    {
        self.position = chase_step(self.position, prev_unit_pos);
    }

    /// The intersection test, executably.
    pub fn intersect(&self, position: Vec2, radius: i64) -> (r: bool)
        requires
            self.position.wf_within(COORD_LIMIT as int),
            position.wf_within(COORD_LIMIT as int),
            0 <= radius <= COORD_LIMIT,
        ensures
            r == self.intersect_spec(position, radius as int),
    {
        let d2 = dist2_i64(self.position, position);
        let rr = radius + UNIT_RADIUS;
        proof {
            assert(0 <= rr * rr <= 1_100_000 * 1_100_000) by (nonlinear_arith)
                requires
                    0 <= rr <= 1_100_000,
            ;
        }
        d2 < rr * rr
    }
}

} // verus!
