//! One frame of the game: the combination of the held keys into a turning
//! direction, and the update step joining movement, eating and the reset
//! on loss.

use vstd::prelude::*;
use crate::geom::{Vec2, rot_wf, COORD_LIMIT};
use crate::head::{Head, FRAME_LIMIT};
use crate::unit::Unit;
use crate::snake::{Snake, chain_unit, tail_hit, wall_hit};
use crate::fruit::Fruit;
use crate::{DIR_ONE, FIELD_HALF, FRUIT_RADIUS, INIT_SPEED};

verus! {

/// Sign of the rotation the held keys ask for: turning left is positive,
/// turning right negative; both held together cancel.
pub fn rotation_dir(left: bool, right: bool) -> (r: i64)
    ensures
        r == if left && !right {
            1int
        } else if right && !left {
            -1int
        } else {
            0int
        },
{
    let mut r: i64 = 0;
    if left {
        r = r + 1;
    }
    if right {
        r = r - 1;
    }
    r
}

/// The head after this frame's rotation and advance.
pub open spec fn advanced_head(s: Snake, dt: int, rotation: Vec2) -> Head {
    s.head.rotate_spec(rotation).go_spec(dt)
}

/// The body after this frame's chase, each segment following the updated
/// position before it.
pub open spec fn advanced_units(s: Snake, dt: int, rotation: Vec2) -> Seq<Unit> {
    Seq::new(
        s.units@.len(),
        |i: int| chain_unit(s.units@, advanced_head(s, dt, rotation).unit.position, i),
    )
}

/// Whether the advanced head reaches the fruit this frame.
pub open spec fn eats(s: Snake, dt: int, rotation: Vec2, fruit: Fruit) -> bool {
    advanced_head(s, dt, rotation).unit.intersect_spec(fruit.position, FRUIT_RADIUS as int)
}

/// The body after this frame's meal, if any: grown by one segment on the
/// tail — or on the head, while there is no body — when the fruit was
/// reached.
pub open spec fn fed_units(s: Snake, dt: int, rotation: Vec2, fruit: Fruit) -> Seq<Unit> {
    let moved = advanced_units(s, dt, rotation);
    if eats(s, dt, rotation, fruit) {
        moved.push(
            if moved.len() == 0 {
                advanced_head(s, dt, rotation).unit
            } else {
                moved.last()
            },
        )
    } else {
        moved
    }
}

/// Whether this frame ends in a loss, judged after movement and meal.
pub open spec fn loses(s: Snake, dt: int, rotation: Vec2, fruit: Fruit) -> bool {
    tail_hit(advanced_head(s, dt, rotation), fed_units(s, dt, rotation, fruit)) || wall_hit(
        advanced_head(s, dt, rotation),
    )
}

/// The whole state the frame loop advances.
pub struct Game {
    pub snake: Snake,
    pub fruit: Fruit,
}

impl Game {
    /// A well-formed game: the snake well formed, the fruit on the field.
    pub open spec fn wf(self) -> bool {
        self.snake.wf() && self.fruit.position.wf_within(FIELD_HALF as int)
    }

    /// A game at its start: the default snake and a fruit somewhere on
    /// the field.
    pub fn new_game() -> (r: Game)
        ensures
            r.wf(),
            r.snake.head.unit.position == (Vec2 { x: 0, y: 0 }),
            r.snake.units@.len() == 0,
    {
        Game { snake: Snake::default(), fruit: Fruit::respawn() }
    }

    /// One frame: move the snake; let it eat and grow, the fruit then
    /// reappearing at random; on a loss, replace snake and fruit afresh.
    pub fn step(&mut self, dt: i64, rotation: Vec2)
        requires
            old(self).wf(),
            0 <= dt <= FRAME_LIMIT,
            rot_wf(rotation),
            old(self).snake.units@.len() < usize::MAX,
        ensures
            final(self).wf(),
            loses(old(self).snake, dt as int, rotation, old(self).fruit) ==> {
                &&& final(self).snake.head.unit.position == (Vec2 { x: 0, y: 0 })
                &&& final(self).snake.head.direction == (Vec2 { x: DIR_ONE, y: 0 })
                &&& final(self).snake.head.speed == INIT_SPEED
                &&& final(self).snake.units@.len() == 0
            },
            !loses(old(self).snake, dt as int, rotation, old(self).fruit) ==> {
                &&& final(self).snake.head == advanced_head(old(self).snake, dt as int, rotation)
                &&& final(self).snake.units@ == fed_units(
                    old(self).snake,
                    dt as int,
                    rotation,
                    old(self).fruit,
                )
            },
            !loses(old(self).snake, dt as int, rotation, old(self).fruit) && !eats(
                old(self).snake,
                dt as int,
                rotation,
                old(self).fruit,
            ) ==> final(self).fruit == old(self).fruit,
    {
        self.snake.go(dt, rotation);
        proof {
            assert(self.snake.units@ =~= advanced_units(old(self).snake, dt as int, rotation));
        }
        let ate = self.snake.can_eat(&self.fruit);
        if ate {
            self.fruit = Fruit::respawn();
            self.snake.add_unit();
            proof {
                assert(self.snake.units@ =~= fed_units(
                    old(self).snake,
                    dt as int,
                    rotation,
                    old(self).fruit,
                ));
            }
        }
        proof {
            assert(self.snake.units@ == fed_units(
                old(self).snake,
                dt as int,
                rotation,
                old(self).fruit,
            ));
            assert forall|i: int| 0 <= i < self.snake.units@.len() implies self.snake.units@[
                i
            ].position.wf_within(COORD_LIMIT as int) by {
                let moved = advanced_units(old(self).snake, dt as int, rotation);
                if i < moved.len() {
                    assert(self.snake.units@[i] == moved[i]);
                } else {
                    assert(self.snake.units@[i] == self.snake.units@.last());
                }
            }
        }
        let lost = self.snake.is_lose();
        if lost {
            self.snake = Snake::default();
            self.fruit = Fruit::respawn();
        }
    }
}

} // verus!
