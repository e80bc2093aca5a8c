//! The head of the snake: the one segment that is steered, carrying a
//! heading and a speed.

use vstd::prelude::*;
use crate::arith::{mag, tdiv, div_trunc, lemma_tdiv_mag, lemma_mul_mag_bound};
use crate::geom::{
    Vec2, dir_wf, rot_wf, rotate_dir, rotate_step, lemma_comp_bound, COORD_LIMIT,
};
use crate::unit::Unit;
use crate::DIR_ONE;

verus! {

/// Greatest speed a head may carry, in position steps per second.
pub const SPEED_LIMIT: i64 = 1000;

/// Longest frame a head may be advanced by, in milliseconds.
pub const FRAME_LIMIT: i64 = 1000;

/// Farthest a single frame can carry the head along one axis, in position
/// steps.
pub const STEP_LIMIT: i64 = 1100;

/// The steered segment of the snake: its embedded body segment, the
/// heading it moves along, and its speed.
#[derive(Clone, Copy, PartialEq, Eq, Structural, Debug)]
pub struct Head {
    pub unit: Unit,
    pub direction: Vec2,
    pub speed: i64,
}

impl Head {
    /// A well-formed head: the heading on the unit band, the speed within
    /// its limit.
    pub open spec fn wf(self) -> bool {
        dir_wf(self.direction) && 0 <= self.speed <= SPEED_LIMIT
    }

    /// The head after a rotation of its heading.
    pub open spec fn rotate_spec(self, rotation: Vec2) -> Head {
        Head { unit: self.unit, direction: rotate_dir(self.direction, rotation), speed: self.speed }
    }

    /// The head moved along its heading for `dt` milliseconds: each axis
    /// advances by heading times speed times time, scaled back from the
    /// heading norm and the millisecond to position steps.
    pub open spec fn go_spec(self, dt: int) -> Head {
        Head {
            unit: Unit {
                position: Vec2 {
                    x: (self.unit.position.x + tdiv(
                        self.direction.x * self.speed * dt,
                        (DIR_ONE * 1000) as int,
                    )) as i64,
                    y: (self.unit.position.y + tdiv(
                        self.direction.y * self.speed * dt,
                        (DIR_ONE * 1000) as int,
                    )) as i64,
                },
            },
            direction: self.direction,
            speed: self.speed,
        }
    }

    /// Turn the heading by the given rotation vector.
    pub fn rotate(&mut self, rotation: Vec2)
        requires
            dir_wf(old(self).direction),
            rot_wf(rotation),
        ensures
            *final(self) == old(self).rotate_spec(rotation),
            dir_wf(final(self).direction),
    {
        self.direction = rotate_step(self.direction, rotation);
    }

    /// Advance the head along its heading.
    pub fn go(&mut self, dt: i64)
        requires
            old(self).wf(),
            0 <= dt <= FRAME_LIMIT,
            old(self).unit.position.wf_within(COORD_LIMIT as int),
        ensures
            *final(self) == old(self).go_spec(dt as int),
            mag(final(self).unit.position.x - old(self).unit.position.x) <= STEP_LIMIT,
            mag(final(self).unit.position.y - old(self).unit.position.y) <= STEP_LIMIT,
            final(self).direction == old(self).direction,
            final(self).speed == old(self).speed,
    {
        proof {
            lemma_comp_bound(self.direction, 1006);
            lemma_mul_mag_bound(self.direction.x as int, self.speed as int, 1006, 1000);
            lemma_mul_mag_bound(self.direction.y as int, self.speed as int, 1006, 1000);
            lemma_mul_mag_bound(self.direction.x * self.speed, dt as int, 1_006_000, 1000);
            lemma_mul_mag_bound(self.direction.y * self.speed, dt as int, 1_006_000, 1000);
        }
        let sx = div_trunc(self.direction.x * self.speed * dt, DIR_ONE * 1000);
        let sy = div_trunc(self.direction.y * self.speed * dt, DIR_ONE * 1000);
        proof {
            lemma_tdiv_mag(self.direction.x * self.speed * dt, (DIR_ONE * 1000) as int);
            lemma_tdiv_mag(self.direction.y * self.speed * dt, (DIR_ONE * 1000) as int);
        }
        self.unit.position = Vec2 { x: self.unit.position.x + sx, y: self.unit.position.y + sy };
    }

    /// Where the head stands.
    pub fn position(&self) -> (r: Vec2)
        ensures
            r == self.unit.position,
    {
        self.unit.position
    }

    /// The head intersects a circle exactly when its body segment does.
    pub fn intersect(&self, position: Vec2, radius: i64) -> (r: bool)
        requires
            self.unit.position.wf_within(COORD_LIMIT as int),
            position.wf_within(COORD_LIMIT as int),
            0 <= radius <= COORD_LIMIT,
        ensures
            r == self.unit.intersect_spec(position, radius as int),
    {
        self.unit.intersect(position, radius)
    }
}

} // verus!
