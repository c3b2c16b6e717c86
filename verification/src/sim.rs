//! The per-frame simulation step.
//!
//! One step, in order: force accumulation from every planet onto every
//! projectile (from pre-integration positions), the planet strength ramp,
//! Euler integration of positions, collision marking, and pruning of the
//! marked projectiles.  `step_spec` is the mathematical statement of the
//! whole frame; `Simulation::step` is proved to realise it exactly.

use vstd::prelude::*;
use vstd::arithmetic::div_mod::lemma_div_nonincreasing;
use crate::launch::{launch_spec, resolve_launch};
use crate::fixed::{
    fp_clamp, fp_in_range, fp_sat_add, sq, FP_MAX, SCALE,
};
use crate::world::{
    planet_ok, planet_seq, planets_ok, projectile_ok, projectile_seq, projectiles_ok, Planet,
    PlanetModel, Projectile, ProjectileModel,
};

verus! {

/// `G * M1 * M2` of the force law (`1.0 * 2.0 * 3.0 = 6` world units),
/// carried as `6 * SCALE * SCALE` so that dividing by a fixed-point
/// squared distance yields a fixed-point force.
pub const FORCE_NUMERATOR: i64 = 6_000_000_000_000;

/// The ceiling of the planet strength ramp: `100.0` world units.
pub const STRENGTH_CAP: i64 = 100_000_000;

/// A diagnostic trace of the projectile collection is due every 500th frame.
pub const TRACE_INTERVAL: u64 = 500;

/// Squared distance between a planet's anchor and the point `(x, y)`, as a
/// fixed-point scalar (the raw square of ticks carries one scale factor
/// too many, so one is divided away).
pub open spec fn dist_sq(pl: PlanetModel, x: int, y: int) -> int {
    (sq(pl.x - x) + sq(pl.y - y)) / (SCALE as int)
}

/// Magnitude of one planet's pull on a projectile.  A projectile whose
/// squared distance rounds to zero sits on the planet: the simplified
/// force law divides by zero there, and the model answers with the
/// saturated maximal force instead of a float infinity.
pub open spec fn force_mag(pl: PlanetModel, pr: ProjectileModel) -> int {
    let dsq = dist_sq(pl, pr.offset_x, pr.offset_y);
    if dsq == 0 {
        FP_MAX as int
    } else {
        (FORCE_NUMERATOR as int) / dsq
    }
}

/// Signed velocity increment on the x axis: the force is subtracted when
/// the planet's coordinate is the smaller one, added otherwise.  This
/// axis-wise sign rule is the force law's deliberate simplification — not
/// a vector-normalised pull — and it shapes every trajectory.
pub open spec fn force_dx(pl: PlanetModel, pr: ProjectileModel) -> int {
    if pl.x < pr.offset_x {
        -force_mag(pl, pr)
    } else {
        force_mag(pl, pr)
    }
}

/// Signed velocity increment on the y axis; same sign rule as `force_dx`.
pub open spec fn force_dy(pl: PlanetModel, pr: ProjectileModel) -> int {
    if pl.y < pr.offset_y {
        -force_mag(pl, pr)
    } else {
        force_mag(pl, pr)
    }
}

/// One planet's pull folded into a projectile's velocity; position and
/// collision flag are untouched.
pub open spec fn apply_force(pl: PlanetModel, pr: ProjectileModel) -> ProjectileModel {
    ProjectileModel {
        offset_x: pr.offset_x,
        offset_y: pr.offset_y,
        vector_x: fp_clamp(pr.vector_x + force_dx(pl, pr)),
        vector_y: fp_clamp(pr.vector_y + force_dy(pl, pr)),
        collision: pr.collision,
    }
}

/// The projectile after the pull of the first `n` planets, applied in
/// sequence order.
pub open spec fn apply_forces_prefix(
    planets: Seq<PlanetModel>,
    pr: ProjectileModel,
    n: int,
) -> ProjectileModel
    decreases n,
{
    if n <= 0 {
        pr
    } else {
        apply_force(planets[n - 1], apply_forces_prefix(planets, pr, n - 1))
    }
}

/// A projectile after force accumulation from every planet.
pub open spec fn accelerate(planets: Seq<PlanetModel>, pr: ProjectileModel) -> ProjectileModel {
    apply_forces_prefix(planets, pr, planets.len() as int)
}

/// The strength ramp: a planet still under the cap charges by `1.0 * dt`,
/// clipped at the cap so that the strength never exceeds `100.0`; one at
/// the cap stays as it is.
pub open spec fn ramp(pl: PlanetModel, dt: int) -> PlanetModel {
    if pl.strength < STRENGTH_CAP {
        PlanetModel {
            x: pl.x,
            y: pl.y,
            size: pl.size,
            strength: if pl.strength + dt > STRENGTH_CAP {
                STRENGTH_CAP as int
            } else {
                pl.strength + dt
            },
        }
    } else {
        pl
    }
}

/// Pure Euler integration on position: the already-updated velocity is
/// added to the position once per frame, deliberately unscaled by `dt`.
pub open spec fn integrate(pr: ProjectileModel) -> ProjectileModel {
    ProjectileModel {
        offset_x: fp_clamp(pr.offset_x + pr.vector_x),
        offset_y: fp_clamp(pr.offset_y + pr.vector_y),
        vector_x: pr.vector_x,
        vector_y: pr.vector_y,
        collision: pr.collision,
    }
}

/// The collision test: strictly closer to the planet's anchor than a
/// tenth of the planet's size.  Both sides are compared as squares, which
/// is exact and needs no square root; a projectile at exactly the
/// threshold distance is not marked.
pub open spec fn hits(pl: PlanetModel, pr: ProjectileModel) -> bool {
    sq(pl.x - pr.offset_x) + sq(pl.y - pr.offset_y) < sq(pl.size / 10)
}

/// Collision marking: the flag is kept once set, and set as soon as any
/// planet is hit.
pub open spec fn mark(planets: Seq<PlanetModel>, pr: ProjectileModel) -> ProjectileModel {
    ProjectileModel {
        offset_x: pr.offset_x,
        offset_y: pr.offset_y,
        vector_x: pr.vector_x,
        vector_y: pr.vector_y,
        collision: pr.collision || exists|i: int| 0 <= i < planets.len() && hits(planets[i], pr),
    }
}

/// Pruning: the marked projectiles are filtered out; the survivors keep
/// their relative order.
pub open spec fn prune(s: Seq<ProjectileModel>) -> Seq<ProjectileModel>
    decreases s.len(),
{
    if s.len() == 0 {
        s
    } else {
        let rest = prune(s.drop_last());
        if s.last().collision {
            rest
        } else {
            rest.push(s.last())
        }
    }
}

/// Force accumulation over the whole collection.
pub open spec fn accelerated_seq(
    planets: Seq<PlanetModel>,
    prs: Seq<ProjectileModel>,
) -> Seq<ProjectileModel> {
    Seq::new(prs.len(), |i: int| accelerate(planets, prs[i]))
}

/// The strength ramp over the whole collection.
pub open spec fn ramped_seq(planets: Seq<PlanetModel>, dt: int) -> Seq<PlanetModel> {
    Seq::new(planets.len(), |i: int| ramp(planets[i], dt))
}

/// Integration over the whole collection.
pub open spec fn moved_seq(prs: Seq<ProjectileModel>) -> Seq<ProjectileModel> {
    Seq::new(prs.len(), |i: int| integrate(prs[i]))
}

/// Collision marking over the whole collection.
pub open spec fn marked_seq(
    planets: Seq<PlanetModel>,
    prs: Seq<ProjectileModel>,
) -> Seq<ProjectileModel> {
    Seq::new(prs.len(), |i: int| mark(planets, prs[i]))
}

/// Mathematical image of the whole world.
#[verifier::ext_equal]
pub ghost struct SimModel {
    pub planets: Seq<PlanetModel>,
    pub projectiles: Seq<ProjectileModel>,
    pub frame: int,
}

/// One whole frame: forces from pre-integration positions, the strength
/// ramp, integration, collision marking, pruning, and the frame count.
pub open spec fn step_spec(s: SimModel, dt: int) -> SimModel {
    SimModel {
        planets: ramped_seq(s.planets, dt),
        projectiles: prune(
            marked_seq(s.planets, moved_seq(accelerated_seq(s.planets, s.projectiles))),
        ),
        frame: s.frame + 1,
    }
}

/// Magnitude of one planet's pull, as executable fixed-point arithmetic.
fn force_between(pl: &Planet, pr: &Projectile) -> (f: i64)
    requires
        planet_ok(pl@),
        projectile_ok(pr@),
    ensures
        f as int == force_mag(pl@, pr@),
        0 <= f <= FP_MAX,
{
    let dx: i64 = pl.x - pr.offset_x;
    let dy: i64 = pl.y - pr.offset_y;
    let dxa: u128 = if dx < 0 { (-(dx as i128)) as u128 } else { dx as u128 };
    let dya: u128 = if dy < 0 { (-(dy as i128)) as u128 } else { dy as u128 };
    proof {
        let dxi = pl@.x - pr@.offset_x;
        let dyi = pl@.y - pr@.offset_y;
        assert((dxa as int) * (dxa as int) == dxi * dxi) by (nonlinear_arith)
            requires dxa as int == dxi || dxa as int == -dxi;
        assert((dya as int) * (dya as int) == dyi * dyi) by (nonlinear_arith)
            requires dya as int == dyi || dya as int == -dyi;
        assert((dxa as int) * (dxa as int) + (dya as int) * (dya as int)
            <= 8_000_000_000_000_000_000_000_000_000_000int) by (nonlinear_arith)
            requires
                0 <= dxa as int <= 2_000_000_000_000_000,
                0 <= dya as int <= 2_000_000_000_000_000;
    }
    let raw: u128 = dxa * dxa + dya * dya;
    let dsq: u128 = raw / 1_000_000;
    if dsq == 0 {
        FP_MAX
    } else {
        proof {
            lemma_div_nonincreasing(FORCE_NUMERATOR as int, dsq as int);
        }
        let q: u128 = (FORCE_NUMERATOR as u128) / dsq;
        q as i64
    }
}

/// Force accumulation from every planet onto one projectile, in planet
/// order; position and flag are untouched, the velocity saturates.
fn accelerate_one(planets: &Vec<Planet>, pr: &Projectile) -> (r: Projectile)
    requires
        planets_ok(planet_seq(planets@)),
        projectile_ok(pr@),
    ensures
        r@ == accelerate(planet_seq(planets@), pr@),
        projectile_ok(r@),
{
    let ghost pls = planet_seq(planets@);
    let mut cur: Projectile = *pr;
    let n = planets.len();
    for k in 0..n
        invariant
            n == planets@.len(),
            pls == planet_seq(planets@),
            planets_ok(pls),
            projectile_ok(pr@),
            cur@ == apply_forces_prefix(pls, pr@, k as int),
            projectile_ok(cur@),
    {
        let ghost before = cur@;
        assert(planets@[k as int]@ == pls[k as int]);
        let f = force_between(&planets[k], &cur);
        if planets[k].x < cur.offset_x {
            cur.vector_x = fp_sat_add(cur.vector_x, -f);
        } else {
            cur.vector_x = fp_sat_add(cur.vector_x, f);
        }
        if planets[k].y < cur.offset_y {
            cur.vector_y = fp_sat_add(cur.vector_y, -f);
        } else {
            cur.vector_y = fp_sat_add(cur.vector_y, f);
        }
        assert(cur@ == apply_force(pls[k as int], before));
    }
    cur
}

/// Force accumulation over the whole collection.
fn accelerate_all(planets: &Vec<Planet>, projectiles: &mut Vec<Projectile>)
    requires
        planets_ok(planet_seq(planets@)),
        projectiles_ok(projectile_seq(old(projectiles)@)),
    ensures
        projectile_seq(final(projectiles)@)
            == accelerated_seq(planet_seq(planets@), projectile_seq(old(projectiles)@)),
        projectiles_ok(projectile_seq(final(projectiles)@)),
{
    let ghost pls = planet_seq(planets@);
    let ghost prs0 = projectile_seq(projectiles@);
    proof {
        assert forall|j: int| 0 <= j < projectiles@.len()
            implies projectile_ok((#[trigger] projectiles@[j])@) by {
            assert(projectile_ok(prs0[j]));
        }
    }
    let n = projectiles.len();
    for i in 0..n
        invariant
            n == projectiles@.len(),
            prs0.len() == n,
            pls == planet_seq(planets@),
            planets_ok(pls),
            forall|j: int| 0 <= j < i ==> (#[trigger] projectiles@[j])@ == accelerate(pls, prs0[j]),
            forall|j: int| i <= j < n ==> (#[trigger] projectiles@[j])@ == prs0[j],
            forall|j: int| 0 <= j < n ==> projectile_ok((#[trigger] projectiles@[j])@),
    {
        let current = projectiles[i];
        let updated = accelerate_one(planets, &current);
        projectiles.set(i, updated);
    }
    assert(projectile_seq(projectiles@) =~= accelerated_seq(pls, prs0));
}

/// The strength ramp over the whole collection; positions and sizes are
/// untouched.
fn ramp_all(planets: &mut Vec<Planet>, dt: i64)
    requires
        planets_ok(planet_seq(old(planets)@)),
        0 <= dt,
        fp_in_range(dt as int),
    ensures
        planet_seq(final(planets)@) == ramped_seq(planet_seq(old(planets)@), dt as int),
        planets_ok(planet_seq(final(planets)@)),
{
    let ghost pls0 = planet_seq(planets@);
    let n = planets.len();
    for k in 0..n
        invariant
            n == planets@.len(),
            pls0.len() == n,
            planets_ok(pls0),
            0 <= dt,
            fp_in_range(dt as int),
            forall|j: int| 0 <= j < k ==> (#[trigger] planets@[j])@ == ramp(pls0[j], dt as int),
            forall|j: int| k <= j < n ==> (#[trigger] planets@[j])@ == pls0[j],
    {
        if planets[k].strength < STRENGTH_CAP {
            let mut p = planets[k];
            let charged: i64 = p.strength + dt;
            p.strength = if charged > STRENGTH_CAP { STRENGTH_CAP } else { charged };
            planets.set(k, p);
        }
    }
    assert(planet_seq(planets@) =~= ramped_seq(pls0, dt as int));
    assert forall|j: int| 0 <= j < n implies planet_ok(#[trigger] planet_seq(planets@)[j]) by {
        assert(planet_seq(planets@)[j] == ramp(pls0[j], dt as int));
    }
}

/// Integration over the whole collection.
fn integrate_all(projectiles: &mut Vec<Projectile>)
    requires
        projectiles_ok(projectile_seq(old(projectiles)@)),
    ensures
        projectile_seq(final(projectiles)@) == moved_seq(projectile_seq(old(projectiles)@)),
        projectiles_ok(projectile_seq(final(projectiles)@)),
{
    let ghost prs0 = projectile_seq(projectiles@);
    proof {
        assert forall|j: int| 0 <= j < projectiles@.len()
            implies projectile_ok((#[trigger] projectiles@[j])@) by {
            assert(projectile_ok(prs0[j]));
        }
    }
    let n = projectiles.len();
    for i in 0..n
        invariant
            n == projectiles@.len(),
            prs0.len() == n,
            forall|j: int| 0 <= j < i ==> (#[trigger] projectiles@[j])@ == integrate(prs0[j]),
            forall|j: int| i <= j < n ==> (#[trigger] projectiles@[j])@ == prs0[j],
            forall|j: int| 0 <= j < n ==> projectile_ok((#[trigger] projectiles@[j])@),
    {
        let mut p = projectiles[i];
        p.offset_x = fp_sat_add(p.offset_x, p.vector_x);
        p.offset_y = fp_sat_add(p.offset_y, p.vector_y);
        projectiles.set(i, p);
    }
    assert(projectile_seq(projectiles@) =~= moved_seq(prs0));
}

/// The executable collision test; compares squared distances, which is
/// exact where a float square root would round.
fn hits_exec(pl: &Planet, pr: &Projectile) -> (b: bool)
    requires
        planet_ok(pl@),
        projectile_ok(pr@),
    ensures
        b == hits(pl@, pr@),
{
    let dx: i64 = pl.x - pr.offset_x;
    let dy: i64 = pl.y - pr.offset_y;
    let dxa: u128 = if dx < 0 { (-(dx as i128)) as u128 } else { dx as u128 };
    let dya: u128 = if dy < 0 { (-(dy as i128)) as u128 } else { dy as u128 };
    proof {
        let dxi = pl@.x - pr@.offset_x;
        let dyi = pl@.y - pr@.offset_y;
        assert((dxa as int) * (dxa as int) == dxi * dxi) by (nonlinear_arith)
            requires dxa as int == dxi || dxa as int == -dxi;
        assert((dya as int) * (dya as int) == dyi * dyi) by (nonlinear_arith)
            requires dya as int == dyi || dya as int == -dyi;
        assert((dxa as int) * (dxa as int) + (dya as int) * (dya as int)
            <= 8_000_000_000_000_000_000_000_000_000_000int) by (nonlinear_arith)
            requires
                0 <= dxa as int <= 2_000_000_000_000_000,
                0 <= dya as int <= 2_000_000_000_000_000;
    }
    let raw: u128 = dxa * dxa + dya * dya;
    let t: u128 = (pl.size as u128) / 10;
    proof {
        assert((t as int) * (t as int) <= 10_000_000_000_000_000_000_000_000_000int)
            by (nonlinear_arith)
            requires 0 <= t as int <= 100_000_000_000_000;
        assert(sq(pl@.size / 10) == (t as int) * (t as int));
    }
    raw < t * t
}

/// Collision marking of one projectile against every planet.
fn mark_one(planets: &Vec<Planet>, pr: &Projectile) -> (r: Projectile)
    requires
        planets_ok(planet_seq(planets@)),
        projectile_ok(pr@),
    ensures
        r@ == mark(planet_seq(planets@), pr@),
        projectile_ok(r@),
{
    let ghost pls = planet_seq(planets@);
    let mut flagged: bool = pr.collision;
    let n = planets.len();
    for k in 0..n
        invariant
            n == planets@.len(),
            pls == planet_seq(planets@),
            planets_ok(pls),
            projectile_ok(pr@),
            flagged == (pr@.collision || exists|j: int| 0 <= j < k && hits(pls[j], pr@)),
    {
        assert(planets@[k as int]@ == pls[k as int]);
        let h = hits_exec(&planets[k], pr);
        proof {
            if h {
                assert(hits(pls[k as int], pr@));
            } else if exists|j: int| 0 <= j < k + 1 && hits(pls[j], pr@) {
                let j = choose|j: int| 0 <= j < k + 1 && hits(pls[j], pr@);
                assert(0 <= j < k && hits(pls[j], pr@));
            }
        }
        if h {
            flagged = true;
        }
    }
    let r = Projectile {
        offset_x: pr.offset_x,
        offset_y: pr.offset_y,
        vector_x: pr.vector_x,
        vector_y: pr.vector_y,
        collision: flagged,
    };
    r
}

/// Collision marking over the whole collection.
fn mark_all(planets: &Vec<Planet>, projectiles: &mut Vec<Projectile>)
    requires
        planets_ok(planet_seq(planets@)),
        projectiles_ok(projectile_seq(old(projectiles)@)),
    ensures
        projectile_seq(final(projectiles)@)
            == marked_seq(planet_seq(planets@), projectile_seq(old(projectiles)@)),
        projectiles_ok(projectile_seq(final(projectiles)@)),
{
    let ghost pls = planet_seq(planets@);
    let ghost prs0 = projectile_seq(projectiles@);
    proof {
        assert forall|j: int| 0 <= j < projectiles@.len()
            implies projectile_ok((#[trigger] projectiles@[j])@) by {
            assert(projectile_ok(prs0[j]));
        }
    }
    let n = projectiles.len();
    for i in 0..n
        invariant
            n == projectiles@.len(),
            prs0.len() == n,
            pls == planet_seq(planets@),
            planets_ok(pls),
            forall|j: int| 0 <= j < i ==> (#[trigger] projectiles@[j])@ == mark(pls, prs0[j]),
            forall|j: int| i <= j < n ==> (#[trigger] projectiles@[j])@ == prs0[j],
            forall|j: int| 0 <= j < n ==> projectile_ok((#[trigger] projectiles@[j])@),
    {
        let current = projectiles[i];
        let updated = mark_one(planets, &current);
        projectiles.set(i, updated);
    }
    assert(projectile_seq(projectiles@) =~= marked_seq(pls, prs0));
}

/// After pruning, no surviving projectile carries the collision flag,
/// every survivor was already in the collection, and the collection can
/// only have shrunk.
pub proof fn lemma_prune_elements(s: Seq<ProjectileModel>)
    ensures
        forall|i: int| 0 <= i < prune(s).len() ==> !(#[trigger] prune(s)[i]).collision,
        forall|i: int| 0 <= i < prune(s).len() ==> s.contains(#[trigger] prune(s)[i]),
        prune(s).len() <= s.len(),
    decreases s.len(),
{
    if s.len() > 0 {
        lemma_prune_elements(s.drop_last());
        assert forall|i: int| 0 <= i < prune(s).len() implies s.contains(#[trigger] prune(s)[i]) by {
            let rest = prune(s.drop_last());
            if i < rest.len() {
                let j = choose|j: int| 0 <= j < s.drop_last().len() && s.drop_last()[j] == rest[i];
                assert(s[j] == prune(s)[i]);
            } else {
                assert(s[s.len() - 1] == prune(s)[i]);
            }
        }
    }
}

/// Pruning is idempotent: a second pruning pass removes nothing, since
/// the first pass already removed every marked projectile.
pub proof fn lemma_prune_idempotent(s: Seq<ProjectileModel>)
    ensures
        prune(prune(s)) == prune(s),
    decreases s.len(),
{
    if s.len() > 0 {
        lemma_prune_idempotent(s.drop_last());
        if !s.last().collision {
            let rest = prune(s.drop_last());
            assert(prune(s) == rest.push(s.last()));
            assert(rest.push(s.last()).drop_last() =~= rest);
        }
    }
}

/// A collection of unmarked projectiles passes through pruning unchanged.
pub proof fn lemma_prune_no_marks(s: Seq<ProjectileModel>)
    requires
        forall|i: int| 0 <= i < s.len() ==> !(#[trigger] s[i]).collision,
    ensures
        prune(s) == s,
    decreases s.len(),
{
    if s.len() > 0 {
        lemma_prune_no_marks(s.drop_last());
        assert(prune(s.drop_last()).push(s.last()) =~= s);
    }
}

proof fn lemma_prune_ok(s: Seq<ProjectileModel>)
    requires
        projectiles_ok(s),
    ensures
        projectiles_ok(prune(s)),
{
    lemma_prune_elements(s);
    assert forall|i: int| 0 <= i < prune(s).len()
        implies projectile_ok(#[trigger] prune(s)[i]) by {
        let j = choose|j: int| 0 <= j < s.len() && s[j] == prune(s)[i];
        assert(projectile_ok(s[j]));
    }
}

/// Pruning: keep exactly the unmarked projectiles, in order.
fn prune_all(projectiles: &mut Vec<Projectile>)
    requires
        projectiles_ok(projectile_seq(old(projectiles)@)),
    ensures
        projectile_seq(final(projectiles)@) == prune(projectile_seq(old(projectiles)@)),
        projectiles_ok(projectile_seq(final(projectiles)@)),
{
    let ghost prs0 = projectile_seq(projectiles@);
    let mut kept: Vec<Projectile> = Vec::new();
    let n = projectiles.len();
    for i in 0..n
        invariant
            n == projectiles@.len(),
            prs0 == projectile_seq(projectiles@),
            projectiles_ok(prs0),
            projectile_seq(kept@) == prune(prs0.take(i as int)),
    {
        proof {
            assert(prs0.take(i + 1).drop_last() =~= prs0.take(i as int));
            assert(prs0.take(i + 1).last() == prs0[i as int]);
        }
        if !projectiles[i].collision {
            kept.push(projectiles[i]);
            assert(projectile_seq(kept@) =~= prune(prs0.take(i + 1)));
        } else {
            assert(projectile_seq(kept@) =~= prune(prs0.take(i + 1)));
        }
    }
    assert(prs0.take(n as int) =~= prs0);
    proof {
        lemma_prune_ok(prs0);
    }
    *projectiles = kept;
}

/// The collision test reads only position and size, which the strength
/// ramp leaves alone, so marking against ramped planets marks exactly as
/// marking against the planets before the ramp.
proof fn lemma_mark_ramp_commutes(
    planets: Seq<PlanetModel>,
    dt: int,
    prs: Seq<ProjectileModel>,
)
    ensures
        marked_seq(ramped_seq(planets, dt), prs) == marked_seq(planets, prs),
{
    let r = ramped_seq(planets, dt);
    assert forall|i: int| 0 <= i < prs.len()
        implies marked_seq(r, prs)[i] == marked_seq(planets, prs)[i] by {
        let pr = prs[i];
        if exists|j: int| 0 <= j < r.len() && hits(r[j], pr) {
            let j = choose|j: int| 0 <= j < r.len() && hits(r[j], pr);
            assert(hits(planets[j], pr));
        }
        if exists|j: int| 0 <= j < planets.len() && hits(planets[j], pr) {
            let j = choose|j: int| 0 <= j < planets.len() && hits(planets[j], pr);
            assert(hits(r[j], pr));
        }
    }
    assert(marked_seq(r, prs) =~= marked_seq(planets, prs));
}

/// The whole world: the fixed collection of planets, the dynamic
/// collection of projectiles, and the frame counter.
pub struct Simulation {
    planets: Vec<Planet>,
    projectiles: Vec<Projectile>,
    frame: u64,
}

impl View for Simulation {
    type V = SimModel;

    closed spec fn view(&self) -> SimModel {
        SimModel {
            planets: planet_seq(self.planets@),
            projectiles: projectile_seq(self.projectiles@),
            frame: self.frame as int,
        }
    }
}

impl Simulation {
    /// Every body the world holds is acceptable.
    pub open spec fn wf(&self) -> bool {
        planets_ok(self@.planets) && projectiles_ok(self@.projectiles)
    }

    /// A fresh session over a fixed collection of planets: no
    /// projectiles yet, the frame counter at zero.
    pub fn new(planets: Vec<Planet>) -> (s: Simulation)
        requires
            planets_ok(planet_seq(planets@)),
        ensures
            s.wf(),
            s@.planets == planet_seq(planets@),
            s@.projectiles == Seq::<ProjectileModel>::empty(),
            s@.frame == 0,
    {
        let s = Simulation { planets, projectiles: Vec::new(), frame: 0 };
        proof {
            assert(s@.projectiles =~= Seq::<ProjectileModel>::empty());
        }
        s
    }

    /// Appends a projectile to the collection; planets and frame counter
    /// are untouched.
    pub fn add_projectile(&mut self, p: Projectile)
        requires
            old(self).wf(),
            projectile_ok(p@),
        ensures
            final(self).wf(),
            final(self)@.planets == old(self)@.planets,
            final(self)@.frame == old(self)@.frame,
            final(self)@.projectiles == old(self)@.projectiles.push(p@),
    {
        self.projectiles.push(p);
        proof {
            assert(self@.projectiles =~= old(self)@.projectiles.push(p@));
        }
    }

    /// The input edge: a pointer click at `(cursor_x, cursor_y)` launches
    /// a projectile from the first planet — the reference planet — and
    /// appends it to the collection.
    pub fn launch(&mut self, cursor_x: i64, cursor_y: i64)
        requires
            old(self).wf(),
            old(self)@.planets.len() > 0,
            fp_in_range(cursor_x as int),
            fp_in_range(cursor_y as int),
        ensures
            final(self).wf(),
            final(self)@.planets == old(self)@.planets,
            final(self)@.frame == old(self)@.frame,
            final(self)@.projectiles == old(self)@.projectiles.push(
                launch_spec(cursor_x as int, cursor_y as int, old(self)@.planets[0]),
            ),
    {
        assert(self.planets@[0]@ == self@.planets[0]);
        let p = resolve_launch(cursor_x, cursor_y, &self.planets[0]);
        self.projectiles.push(p);
        proof {
            assert(self@.projectiles =~= old(self)@.projectiles.push(p@));
        }
    }

    /// One frame of the simulation, `dt` seconds after the previous one.
    /// The world moves to exactly `step_spec` of its old state; the
    /// returned flag says whether the periodic diagnostic trace of the
    /// projectile collection is due this frame.  Every planet's strength
    /// is non-decreasing across the step and, once at most the cap,
    /// never exceeds it.
    pub fn step(&mut self, dt: i64) -> (trace_due: bool)
        requires
            old(self).wf(),
            0 <= dt,
            fp_in_range(dt as int),
            old(self)@.frame < u64::MAX,
        ensures
            final(self).wf(),
            final(self)@ == step_spec(old(self)@, dt as int),
            trace_due == (final(self)@.frame % (TRACE_INTERVAL as int) == 0),
            final(self)@.planets.len() == old(self)@.planets.len(),
            forall|i: int| 0 <= i < old(self)@.planets.len()
                ==> (#[trigger] final(self)@.planets[i]).strength
                    >= old(self)@.planets[i].strength,
            forall|i: int| 0 <= i < old(self)@.planets.len()
                    && old(self)@.planets[i].strength <= STRENGTH_CAP
                ==> (#[trigger] final(self)@.planets[i]).strength <= STRENGTH_CAP,
    {
        let ghost s0 = self@;
        accelerate_all(&self.planets, &mut self.projectiles);
        ramp_all(&mut self.planets, dt);
        integrate_all(&mut self.projectiles);
        mark_all(&self.planets, &mut self.projectiles);
        proof {
            lemma_mark_ramp_commutes(s0.planets, dt as int, moved_seq(accelerated_seq(s0.planets, s0.projectiles)));
        }
        prune_all(&mut self.projectiles);
        self.frame = self.frame + 1;
        let trace_due = self.frame % TRACE_INTERVAL == 0;
        proof {
            assert(self@ =~= step_spec(s0, dt as int));
            assert forall|i: int| 0 <= i < s0.planets.len()
                implies (#[trigger] self@.planets[i]).strength >= s0.planets[i].strength
                    && (s0.planets[i].strength <= STRENGTH_CAP
                        ==> self@.planets[i].strength <= STRENGTH_CAP) by {
                assert(self@.planets[i] == ramp(s0.planets[i], dt as int));
            }
        }
        trace_due
    }

    /// Read access to the planet collection, for rendering.
    pub fn planets(&self) -> (r: &Vec<Planet>)
        ensures
            planet_seq(r@) == self@.planets,
    {
        &self.planets
    }

    /// Read access to the projectile collection, for rendering and the
    /// diagnostic trace.
    pub fn projectiles(&self) -> (r: &Vec<Projectile>)
        ensures
            projectile_seq(r@) == self@.projectiles,
    {
        &self.projectiles
    }

    /// The number of frames stepped so far.
    pub fn frame(&self) -> (r: u64)
        ensures
            r as int == self@.frame,
    {
        self.frame
    }
}

} // verus!
