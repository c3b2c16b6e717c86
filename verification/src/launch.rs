//! The launch resolver: from a pointer click to a new projectile.
//!
//! The click's displacement from the reference planet (shifted by half the
//! planet's size on both axes) fixes a launch angle; the new projectile
//! starts on a circle of radius 35 around the planet's anchor, shifted by
//! 25 on both axes, with a velocity of fixed magnitude 0.6 along the
//! angle.  The trigonometry reduces to exact integer arithmetic: the
//! cosine and sine of the angle are the displacement components divided by
//! the distance, so each output is a ratio scaled through the integer
//! square root of the squared displacement, rounded toward zero.

use vstd::prelude::*;
use crate::fixed::{
    abs_val, div_trunc, fp_clamp, fp_in_range, isqrt, isqrt_u128, lemma_isqrt_at_least, mul_ratio,
    sq, FP_MAX, FP_MIN,
};
use crate::world::{planet_ok, projectile_ok, Planet, PlanetModel, Projectile, ProjectileModel};

verus! {

/// Launch speed: the fixed force constant `0.00003` times `2.0e4`, that
/// is `0.6` world units per frame.
pub const LAUNCH_SPEED: i64 = 600_000;

/// Radius of the circle around the reference planet's anchor on which a
/// new projectile starts: `35` world units.
pub const START_DISTANCE: i64 = 35_000_000;

/// Constant shift of the start position on both axes: `25` world units.
pub const START_SHIFT: i64 = 25_000_000;

/// The projectile a click at `(cursor_x, cursor_y)` launches from the
/// reference planet.  A click whose displacement is exactly zero has no
/// angle; as an arc tangent of `(0, 0)` conventionally is, the angle is
/// taken as zero and the launch aims along the positive x axis.
pub open spec fn launch_spec(cursor_x: int, cursor_y: int, pl: PlanetModel) -> ProjectileModel {
    let dx = pl.x - cursor_x + pl.size / 2;
    let dy = pl.y - cursor_y + pl.size / 2;
    let r = isqrt(sq(dx) + sq(dy));
    if r == 0 {
        ProjectileModel {
            offset_x: fp_clamp(pl.x + START_DISTANCE + START_SHIFT),
            offset_y: fp_clamp(pl.y + START_SHIFT),
            vector_x: LAUNCH_SPEED as int,
            vector_y: 0,
            collision: false,
        }
    } else {
        ProjectileModel {
            offset_x: fp_clamp(pl.x + div_trunc(START_DISTANCE * dx, r) + START_SHIFT),
            offset_y: fp_clamp(pl.y + div_trunc(START_DISTANCE * dy, r) + START_SHIFT),
            vector_x: div_trunc(LAUNCH_SPEED * dx, r),
            vector_y: div_trunc(LAUNCH_SPEED * dy, r),
            collision: false,
        }
    }
}

/// Resolves a click into a new projectile: a pure computation, the same
/// projectile for the same click and planet every time.
pub fn resolve_launch(cursor_x: i64, cursor_y: i64, reference_planet: &Planet) -> (p: Projectile)
    requires
        planet_ok(reference_planet@),
        fp_in_range(cursor_x as int),
        fp_in_range(cursor_y as int),
    ensures
        p@ == launch_spec(cursor_x as int, cursor_y as int, reference_planet@),
        projectile_ok(p@),
        !p@.collision,
{
    let pl = *reference_planet;
    let half: i64 = ((pl.size as u64) / 2) as i64;
    let dx: i64 = pl.x - cursor_x + half;
    let dy: i64 = pl.y - cursor_y + half;
    let dxa: u128 = if dx < 0 { (-(dx as i128)) as u128 } else { dx as u128 };
    let dya: u128 = if dy < 0 { (-(dy as i128)) as u128 } else { dy as u128 };
    proof {
        assert(half as int == pl@.size / 2);
        assert((dxa as int) * (dxa as int) == (dx as int) * (dx as int)) by (nonlinear_arith)
            requires dxa as int == dx as int || dxa as int == -(dx as int);
        assert((dya as int) * (dya as int) == (dy as int) * (dy as int)) by (nonlinear_arith)
            requires dya as int == dy as int || dya as int == -(dy as int);
        assert((dxa as int) * (dxa as int) + (dya as int) * (dya as int)
            <= 20_000_000_000_000_000_000_000_000_000_000int) by (nonlinear_arith)
            requires
                0 <= dxa as int <= 3_000_000_000_000_000,
                0 <= dya as int <= 3_000_000_000_000_000;
    }
    let raw: u128 = dxa * dxa + dya * dya;
    let ghost dsq = sq(dx as int) + sq(dy as int);
    let r = isqrt_u128(raw);
    proof {
        assert(r as int == isqrt(dsq));
        lemma_isqrt_at_least(dsq, dxa as int);
        lemma_isqrt_at_least(dsq, dya as int);
    }
    let (vector_x, vector_y, reach_x, reach_y): (i64, i64, i64, i64) = if r == 0 {
        (LAUNCH_SPEED, 0, START_DISTANCE, 0)
    } else {
        let vx = mul_ratio(LAUNCH_SPEED as u64, dx, r);
        let vy = mul_ratio(LAUNCH_SPEED as u64, dy, r);
        let rx = mul_ratio(START_DISTANCE as u64, dx, r);
        let ry = mul_ratio(START_DISTANCE as u64, dy, r);
        (vx, vy, rx, ry)
    };
    let sx: i64 = pl.x + reach_x + START_SHIFT;
    let sy: i64 = pl.y + reach_y + START_SHIFT;
    let offset_x: i64 = if sx > FP_MAX { FP_MAX } else if sx < FP_MIN { FP_MIN } else { sx };
    let offset_y: i64 = if sy > FP_MAX { FP_MAX } else if sy < FP_MIN { FP_MIN } else { sy };
    Projectile { offset_x, offset_y, vector_x, vector_y, collision: false }
}

} // verus!
