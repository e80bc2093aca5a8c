//! The snake: a head leading an ordered chain of body segments, with
//! growth, movement propagation, and the loss conditions.

use vstd::prelude::*;
use crate::arith::mag;
use crate::geom::{Vec2, chase, rot_wf, COORD_LIMIT};
use crate::head::{Head, FRAME_LIMIT, STEP_LIMIT};
use crate::unit::Unit;
use crate::fruit::Fruit;
use crate::{DIR_ONE, FIELD_HALF, FRUIT_RADIUS, INIT_SPEED, UNIT_RADIUS};

verus! {

/// Bound the head's coordinates keep between frames.
pub const HEAD_BOUND: i64 = 10_000;

/// Bound every body segment's coordinates keep.
pub const BODY_BOUND: i64 = 12_000;

/// Radius of the self-collision test: eight tenths of a segment radius,
/// tightened so the natural slack of the chain is no false loss.
pub const SELF_HIT_RADIUS: i64 = 32;

/// Position of body segment `i` after one frame of chasing: each segment
/// follows the updated position of the one before it, the first follows
/// the head at `leader`.
pub open spec fn chain_unit(units: Seq<Unit>, leader: Vec2, i: int) -> Unit
    decreases i,
{
    if i <= 0 {
        Unit { position: chase(units[0].position, leader) }
    } else {
        Unit { position: chase(units[i].position, chain_unit(units, leader, i - 1).position) }
    }
}

/// The head at `head` touches a body segment past the first, at the
/// tightened self-collision radius.
pub open spec fn tail_hit(head: Head, units: Seq<Unit>) -> bool {
    exists|i: int|
        1 <= i < units.len() && head.unit.intersect_spec(
            units[i].position,
            SELF_HIT_RADIUS as int,
        )
}

/// The head at `head` stands beyond the wall on either axis.
pub open spec fn wall_hit(head: Head) -> bool {
    mag(head.unit.position.x as int) > FIELD_HALF - UNIT_RADIUS || mag(
        head.unit.position.y as int,
    ) > FIELD_HALF - UNIT_RADIUS
}

/// The snake: its steered head and the chain of body segments, ordered
/// from the head to the tail.
pub struct Snake {
    pub head: Head,
    pub units: Vec<Unit>,
}

impl Snake {
    /// A well-formed snake: the head well formed and within its bound,
    /// every body segment within the body bound.
    pub open spec fn wf(self) -> bool {
        &&& self.head.wf()
        &&& self.head.unit.position.wf_within(HEAD_BOUND as int)
        &&& forall|i: int|
            0 <= i < self.units@.len() ==> self.units@[i].position.wf_within(BODY_BOUND as int)
    }

    /// Losing: the head touches the body past the first segment, or it
    /// stands beyond the wall.
    pub open spec fn is_lose_spec(self) -> bool {
        tail_hit(self.head, self.units@) || wall_hit(self.head)
    }

    /// One frame of movement: rotate the head, advance it, then let every
    /// body segment chase the already updated position before it.
    pub fn go(&mut self, dt: i64, rotation: Vec2)
        requires
            old(self).wf(),
            0 <= dt <= FRAME_LIMIT,
            rot_wf(rotation),
        ensures
            final(self).head == old(self).head.rotate_spec(rotation).go_spec(dt as int),
            final(self).units@.len() == old(self).units@.len(),
            forall|i: int|
                0 <= i < old(self).units@.len() ==> final(self).units@[i] == chain_unit(
                    old(self).units@,
                    final(self).head.unit.position,
                    i,
                ),
            final(self).head.wf(),
            final(self).head.unit.position.wf_within((HEAD_BOUND + STEP_LIMIT) as int),
            forall|i: int|
                0 <= i < final(self).units@.len() ==> final(self).units@[i].position.wf_within(
                    BODY_BOUND as int,
                ),
    {
        self.head.rotate(rotation);
        self.head.go(dt);
        let ghost moved = *self;
        let mut prev_unit_pos = self.head.position();
        let n = self.units.len();
        let mut idx: usize = 0;
        while idx < n
            invariant
                self.head == moved.head,
                self.head.unit.position.wf_within((HEAD_BOUND + STEP_LIMIT) as int),
                n == self.units@.len(),
                n == old(self).units@.len(),
                0 <= idx <= n,
                forall|j: int|
                    0 <= j < idx ==> self.units@[j] == chain_unit(
                        old(self).units@,
                        self.head.unit.position,
                        j,
                    ),
                forall|j: int| idx <= j < n ==> self.units@[j] == old(self).units@[j],
                forall|j: int|
                    0 <= j < n ==> self.units@[j].position.wf_within(BODY_BOUND as int),
                prev_unit_pos == if idx == 0 {
                    self.head.unit.position
                } else {
                    chain_unit(old(self).units@, self.head.unit.position, idx - 1).position
                },
                prev_unit_pos.wf_within(BODY_BOUND as int),
            decreases n - idx,
        {
            let mut u = self.units[idx];
            u.go(prev_unit_pos);
            self.units[idx] = u;
            prev_unit_pos = u.position;
            idx = idx + 1;
        }
    }

    /// How many segments the snake has, the head counted in.
    pub fn length(&self) -> (r: u32)
        requires
            self.units@.len() + 1 <= u32::MAX,
        ensures
            r == self.units@.len() + 1,
    {
        (self.units.len() + 1) as u32
    }

    /// The head can eat the fruit exactly when it touches it.
    pub fn can_eat(&self, fruit: &Fruit) -> (r: bool)
        requires
            self.head.unit.position.wf_within(COORD_LIMIT as int),
            fruit.position.wf_within(COORD_LIMIT as int),
        ensures
            r == self.head.unit.intersect_spec(fruit.position, FRUIT_RADIUS as int),
    {
        self.head.intersect(fruit.position, FRUIT_RADIUS)
    }

    /// Append one segment, placed on the current tail — or on the head,
    /// while there is no body yet — to be pulled into place by the coming
    /// frames.
    pub fn add_unit(&mut self)
        requires
            old(self).units@.len() < usize::MAX,
        ensures
            final(self).units@.len() == old(self).units@.len() + 1,
            final(self).units@.last() == if old(self).units@.len() == 0 {
                old(self).head.unit
            } else {
                old(self).units@.last()
            },
            forall|i: int|
                0 <= i < old(self).units@.len() ==> final(self).units@[i] == old(self).units@[i],
            final(self).head == old(self).head,
    {
        let last = if self.units.len() == 0 {
            self.head.unit
        } else {
            self.units[self.units.len() - 1]
        };
        self.units.push(last);
    }

    /// Whether the player has lost: the head touches the body past the
    /// first segment, or stands beyond the wall.
    pub fn is_lose(&self) -> (r: bool)
        requires
            self.head.unit.position.wf_within(COORD_LIMIT as int),
            forall|i: int|
                0 <= i < self.units@.len() ==> self.units@[i].position.wf_within(
                    COORD_LIMIT as int,
                ),
        ensures
            r == self.is_lose_spec(),
    {
        let mut hit = false;
        let mut i: usize = 1;
        while i < self.units.len()
            invariant
                1 <= i,
                self.head.unit.position.wf_within(COORD_LIMIT as int),
                forall|j: int|
                    0 <= j < self.units@.len() ==> self.units@[j].position.wf_within(
                        COORD_LIMIT as int,
                    ),
                hit <==> exists|j: int|
                    1 <= j < i && j < self.units@.len() && self.head.unit.intersect_spec(
                        self.units@[j].position,
                        SELF_HIT_RADIUS as int,
                    ),
            decreases self.units@.len() - i,
        {
            if self.head.intersect(self.units[i].position, SELF_HIT_RADIUS) {
                hit = true;
            }
            i = i + 1;
        }
        assert(hit == tail_hit(self.head, self.units@));
        let px = self.head.unit.position.x;
        let py = self.head.unit.position.y;
        let hx = if px >= 0 {
            px
        } else {
            -px
        };
        let hy = if py >= 0 {
            py
        } else {
            -py
        };
        hit || hx > FIELD_HALF - UNIT_RADIUS || hy > FIELD_HALF - UNIT_RADIUS
    }
}

/// The starting snake: the head alone at the middle of the field, facing
/// along the positive first axis at the initial speed.
impl Default for Snake {
    fn default() -> (r: Snake)
        ensures
            r.head.unit.position == (Vec2 { x: 0, y: 0 }),
            r.head.direction == (Vec2 { x: DIR_ONE, y: 0 }),
            r.head.speed == INIT_SPEED,
            r.units@.len() == 0,
            r.wf(),
            !r.is_lose_spec(),
    {
        let head = Head {
            unit: Unit { position: Vec2 { x: 0, y: 0 } },
            direction: Vec2 { x: DIR_ONE, y: 0 },
            speed: INIT_SPEED,
        };
        proof {
            assert((DIR_ONE - 5) * (DIR_ONE - 5) <= DIR_ONE * DIR_ONE + 0 * 0 <= (DIR_ONE + 5) * (
            DIR_ONE + 5)) by (nonlinear_arith)
                requires
                    DIR_ONE == 1000,
            ;
        }
        Snake { head, units: Vec::new() }
    }
}

/// A snake in its starting state is not losing: it has no body to touch,
/// and its head stands at the middle of the field.
pub proof fn lemma_fresh_snake_not_losing(s: Snake)
    requires
        s.head.unit.position == (Vec2 { x: 0, y: 0 }),
        s.units@.len() == 0,
    ensures
        !s.is_lose_spec(),
{
}

/// Standing at half the field's size from the middle on either axis loses,
/// whatever the body looks like.
pub proof fn lemma_wall_loses(s: Snake)
    requires
        mag(s.head.unit.position.x as int) >= FIELD_HALF || mag(s.head.unit.position.y as int)
            >= FIELD_HALF,
    ensures
        s.is_lose_spec(),
{
}

/// The segment joined to the head is exempt from self-collision: a single
/// body segment lying on the head loses nothing, while a second segment
/// there loses at once.
pub proof fn lemma_first_unit_exempt(s: Snake, t: Snake)
    requires
        s.units@.len() == 1,
        s.units@[0].position == s.head.unit.position,
        !wall_hit(s.head),
        t.units@.len() == 2,
        t.units@[1].position == t.head.unit.position,
    ensures
        !s.is_lose_spec(),
        t.is_lose_spec(),
{
    assert(t.head.unit.intersect_spec(t.units@[1].position, SELF_HIT_RADIUS as int))
        by (nonlinear_arith)
        requires
            t.units@[1].position == t.head.unit.position,
            t.head.unit.intersect_spec(t.units@[1].position, SELF_HIT_RADIUS as int)
                == ((t.head.unit.position.x - t.units@[1].position.x) * (t.head.unit.position.x
                - t.units@[1].position.x) + (t.head.unit.position.y - t.units@[1].position.y) * (
            t.head.unit.position.y - t.units@[1].position.y) < (SELF_HIT_RADIUS + UNIT_RADIUS) * (
            SELF_HIT_RADIUS + UNIT_RADIUS)),
            SELF_HIT_RADIUS == 32,
            UNIT_RADIUS == 40,
    ;
    assert(tail_hit(t.head, t.units@));
}

} // verus!
