//! The collectible fruit: a single point that reappears at a random spot
//! of the field when eaten.

use vstd::prelude::*;
use crate::arith::{div_nn, lemma_div_bounds};
use crate::geom::Vec2;
use crate::FIELD_HALF;

verus! {

/// Relies on macroquad's `rand::rand`: a pseudo-random 32-bit number from
/// a global generator; any value may come back.
#[verifier::external_body]
fn rand_u32() -> u32 {
    macroquad::rand::rand()
}

/// A field coordinate drawn from a raw 32-bit random value: the range
/// `0..=u32::MAX` is mapped affinely onto `-FIELD_HALF..=FIELD_HALF`.
pub fn field_coord(r: u32) -> (c: i64)
    ensures
        c == 2 * FIELD_HALF * (r as int) / (u32::MAX as int) - FIELD_HALF,
        -FIELD_HALF <= c <= FIELD_HALF,
{
    let r64: i64 = r as i64;
    proof {
        assert(0 <= 2 * FIELD_HALF * r64 <= 8_589_934_590_000) by (nonlinear_arith)
            requires
                FIELD_HALF == 1000,
                0 <= r64 <= 4_294_967_295,
        ;
    }
    let wide = 2 * FIELD_HALF * r64;
    let q = div_nn(wide, 4_294_967_295);
    proof {
        lemma_div_bounds(wide as int, 4_294_967_295);
        assert(q <= 2 * FIELD_HALF) by (nonlinear_arith)
            requires
                FIELD_HALF == 1000,
                q == wide as int / 4_294_967_295,
                0 <= wide as int <= 2 * FIELD_HALF * 4_294_967_295,
                4_294_967_295 * (wide as int / 4_294_967_295) <= wide as int,
                0 <= q,
        ;
    }
    q - FIELD_HALF
}

/// The one collectible of the game.
#[derive(Clone, Copy, PartialEq, Eq, Structural, Debug)]
pub struct Fruit {
    pub position: Vec2,
}

impl Fruit {
    /// A fruit at a spot drawn at random from the whole square field; the
    /// snake's body is no exclusion zone.
    pub fn respawn() -> (r: Fruit)
        ensures
            r.position.wf_within(FIELD_HALF as int),
    {
        Fruit { position: Vec2 { x: field_coord(rand_u32()), y: field_coord(rand_u32()) } }
    }
}

} // verus!
