//! The two kinds of bodies in the world and their mathematical images.
//!
//! A `Planet` is a stationary attractor: fixed position and size, and a
//! `strength` charge that ramps up over time.  A `Projectile` is a moving
//! point mass with a position, a velocity, and a transient collision flag
//! that is set once and never reset; a marked projectile is pruned at the
//! end of the step that marked it.

use vstd::prelude::*;
use crate::fixed::fp_in_range;

verus! {

/// Mathematical image of a planet: unbounded integers in fixed-point ticks.
#[verifier::ext_equal]
pub ghost struct PlanetModel {
    pub x: int,
    pub y: int,
    pub size: int,
    pub strength: int,
}

/// Mathematical image of a projectile.
#[verifier::ext_equal]
pub ghost struct ProjectileModel {
    pub offset_x: int,
    pub offset_y: int,
    pub vector_x: int,
    pub vector_y: int,
    pub collision: bool,
}

/// A stationary attractor.  `x`, `y` locate its centre-anchor, `size` is
/// its diameter and `strength` its current charge, all in fixed-point
/// ticks.  Position and size never change; only `strength` ramps.
#[derive(Clone, Copy, Debug)]
pub struct Planet {
    pub x: i64,
    pub y: i64,
    pub size: i64,
    pub strength: i64,
}

/// A moving point mass: position `offset_*`, velocity `vector_*`, and the
/// write-once collision flag.
#[derive(Clone, Copy, Debug)]
pub struct Projectile {
    pub offset_x: i64,
    pub offset_y: i64,
    pub vector_x: i64,
    pub vector_y: i64,
    pub collision: bool,
}

impl View for Planet {
    type V = PlanetModel;

    open spec fn view(&self) -> PlanetModel {
        PlanetModel {
            x: self.x as int,
            y: self.y as int,
            size: self.size as int,
            strength: self.strength as int,
        }
    }
}

impl View for Projectile {
    type V = ProjectileModel;

    open spec fn view(&self) -> ProjectileModel {
        ProjectileModel {
            offset_x: self.offset_x as int,
            offset_y: self.offset_y as int,
            vector_x: self.vector_x as int,
            vector_y: self.vector_y as int,
            collision: self.collision,
        }
    }
}

/// A planet the world accepts: in-range scalars and a non-negative size.
pub open spec fn planet_ok(p: PlanetModel) -> bool {
    &&& fp_in_range(p.x)
    &&& fp_in_range(p.y)
    &&& fp_in_range(p.size)
    &&& fp_in_range(p.strength)
    &&& 0 <= p.size
}

/// A projectile the world accepts: in-range scalars.
pub open spec fn projectile_ok(p: ProjectileModel) -> bool {
    &&& fp_in_range(p.offset_x)
    &&& fp_in_range(p.offset_y)
    &&& fp_in_range(p.vector_x)
    &&& fp_in_range(p.vector_y)
}

/// The models of a sequence of planets, in order.
pub open spec fn planet_seq(v: Seq<Planet>) -> Seq<PlanetModel> {
    Seq::new(v.len(), |i: int| v[i]@)
}

/// The models of a sequence of projectiles, in order.
pub open spec fn projectile_seq(v: Seq<Projectile>) -> Seq<ProjectileModel> {
    Seq::new(v.len(), |i: int| v[i]@)
}

/// Every planet of the sequence is acceptable.
pub open spec fn planets_ok(s: Seq<PlanetModel>) -> bool {
    forall|i: int| 0 <= i < s.len() ==> planet_ok(#[trigger] s[i])
}

/// Every projectile of the sequence is acceptable.
pub open spec fn projectiles_ok(s: Seq<ProjectileModel>) -> bool {
    forall|i: int| 0 <= i < s.len() ==> projectile_ok(#[trigger] s[i])
}

} // verus!
