//! Global laws of the simulation, stated and proved over the step's
//! mathematical form: pure Euler motion when no net force acts, the
//! strength ramp's monotonicity and cap, the fate of marked projectiles,
//! the strictness of the collision boundary, and the order-independence
//! of force accumulation.

use vstd::prelude::*;
use vstd::arithmetic::div_mod::{lemma_div_nonincreasing, lemma_div_pos_is_pos};
use crate::fixed::{abs_val, fp_in_range, sq, FP_MAX};
use crate::world::{
    projectile_ok, projectiles_ok, PlanetModel, ProjectileModel,
};
use crate::sim::{
    accelerate, accelerated_seq, apply_force, apply_forces_prefix, dist_sq, force_dx, force_dy,
    force_mag, hits, integrate, marked_seq, moved_seq, ramp, lemma_prune_elements,
    lemma_prune_no_marks, step_spec, SimModel, FORCE_NUMERATOR, STRENGTH_CAP,
};

verus! {

/// A planet's pull is never negative and never beyond the saturation
/// bound.
pub proof fn lemma_force_mag_bounds(pl: PlanetModel, pr: ProjectileModel)
    ensures
        0 <= force_mag(pl, pr) <= FP_MAX,
{
    assert(0 <= sq(pl.x - pr.offset_x)) by (nonlinear_arith);
    assert(0 <= sq(pl.y - pr.offset_y)) by (nonlinear_arith);
    let raw = sq(pl.x - pr.offset_x) + sq(pl.y - pr.offset_y);
    lemma_div_pos_is_pos(raw, 1_000_000);
    let dsq = dist_sq(pl, pr.offset_x, pr.offset_y);
    if dsq != 0 {
        lemma_div_pos_is_pos(FORCE_NUMERATOR as int, dsq);
        lemma_div_nonincreasing(FORCE_NUMERATOR as int, dsq);
    }
}

/// Exact (unsaturated) net pull along x of the first `n` planets.
pub open spec fn net_dx_prefix(planets: Seq<PlanetModel>, pr: ProjectileModel, n: int) -> int
    decreases n,
{
    if n <= 0 {
        0
    } else {
        net_dx_prefix(planets, pr, n - 1) + force_dx(planets[n - 1], pr)
    }
}

/// Exact (unsaturated) net pull along y of the first `n` planets.
pub open spec fn net_dy_prefix(planets: Seq<PlanetModel>, pr: ProjectileModel, n: int) -> int
    decreases n,
{
    if n <= 0 {
        0
    } else {
        net_dy_prefix(planets, pr, n - 1) + force_dy(planets[n - 1], pr)
    }
}

/// Total magnitude of the first `n` planets' pulls: a bound on every
/// intermediate accumulation.
pub open spec fn total_force_prefix(planets: Seq<PlanetModel>, pr: ProjectileModel, n: int) -> int
    decreases n,
{
    if n <= 0 {
        0
    } else {
        total_force_prefix(planets, pr, n - 1) + force_mag(planets[n - 1], pr)
    }
}

/// Exact net pull of the whole planet collection.
pub open spec fn net_dx(planets: Seq<PlanetModel>, pr: ProjectileModel) -> int {
    net_dx_prefix(planets, pr, planets.len() as int)
}

/// Exact net pull of the whole planet collection.
pub open spec fn net_dy(planets: Seq<PlanetModel>, pr: ProjectileModel) -> int {
    net_dy_prefix(planets, pr, planets.len() as int)
}

/// Total magnitude of the whole planet collection's pulls.
pub open spec fn total_force(planets: Seq<PlanetModel>, pr: ProjectileModel) -> int {
    total_force_prefix(planets, pr, planets.len() as int)
}

proof fn lemma_accelerate_prefix_exact(planets: Seq<PlanetModel>, pr: ProjectileModel, n: int)
    requires
        0 <= n <= planets.len(),
        projectile_ok(pr),
        abs_val(pr.vector_x) + total_force_prefix(planets, pr, n) <= FP_MAX,
        abs_val(pr.vector_y) + total_force_prefix(planets, pr, n) <= FP_MAX,
    ensures
        apply_forces_prefix(planets, pr, n) == (ProjectileModel {
            offset_x: pr.offset_x,
            offset_y: pr.offset_y,
            vector_x: pr.vector_x + net_dx_prefix(planets, pr, n),
            vector_y: pr.vector_y + net_dy_prefix(planets, pr, n),
            collision: pr.collision,
        }),
        abs_val(pr.vector_x + net_dx_prefix(planets, pr, n))
            <= abs_val(pr.vector_x) + total_force_prefix(planets, pr, n),
        abs_val(pr.vector_y + net_dy_prefix(planets, pr, n))
            <= abs_val(pr.vector_y) + total_force_prefix(planets, pr, n),
    decreases n,
{
    if n > 0 {
        lemma_force_mag_bounds(planets[n - 1], pr);
        lemma_accelerate_prefix_exact(planets, pr, n - 1);
        let before = apply_forces_prefix(planets, pr, n - 1);
        assert(apply_forces_prefix(planets, pr, n) == apply_force(planets[n - 1], before));
        assert(force_mag(planets[n - 1], before) == force_mag(planets[n - 1], pr));
        assert(force_dx(planets[n - 1], before) == force_dx(planets[n - 1], pr));
        assert(force_dy(planets[n - 1], before) == force_dy(planets[n - 1], pr));
    }
}

/// Where no intermediate accumulation can saturate, force accumulation is
/// exactly the addition of the net pull: position and flag are untouched
/// and the velocity gains the sum of the planets' signed contributions.
pub proof fn lemma_accelerate_exact(planets: Seq<PlanetModel>, pr: ProjectileModel)
    requires
        projectile_ok(pr),
        abs_val(pr.vector_x) + total_force(planets, pr) <= FP_MAX,
        abs_val(pr.vector_y) + total_force(planets, pr) <= FP_MAX,
    ensures
        accelerate(planets, pr) == (ProjectileModel {
            offset_x: pr.offset_x,
            offset_y: pr.offset_y,
            vector_x: pr.vector_x + net_dx(planets, pr),
            vector_y: pr.vector_y + net_dy(planets, pr),
            collision: pr.collision,
        }),
{
    lemma_accelerate_prefix_exact(planets, pr, planets.len() as int);
}

/// Peeling the last planet off the net pull.
proof fn lemma_net_unfold(u: Seq<PlanetModel>, pr: ProjectileModel)
    requires
        u.len() > 0,
    ensures
        net_dx(u, pr) == net_dx(u.drop_last(), pr) + force_dx(u.last(), pr),
        net_dy(u, pr) == net_dy(u.drop_last(), pr) + force_dy(u.last(), pr),
        total_force(u, pr) == total_force(u.drop_last(), pr) + force_mag(u.last(), pr),
{
    lemma_net_prefix_agree(u.drop_last(), u, pr, u.len() - 1);
}

/// The net pull over a prefix reads only the prefix.
proof fn lemma_net_prefix_agree(
    s1: Seq<PlanetModel>,
    s2: Seq<PlanetModel>,
    pr: ProjectileModel,
    n: int,
)
    requires
        0 <= n <= s1.len(),
        n <= s2.len(),
        forall|k: int| 0 <= k < n ==> s1[k] == s2[k],
    ensures
        net_dx_prefix(s1, pr, n) == net_dx_prefix(s2, pr, n),
        net_dy_prefix(s1, pr, n) == net_dy_prefix(s2, pr, n),
        total_force_prefix(s1, pr, n) == total_force_prefix(s2, pr, n),
    decreases n,
{
    if n > 0 {
        lemma_net_prefix_agree(s1, s2, pr, n - 1);
    }
}

/// Removing one planet removes exactly its contribution from the nets.
proof fn lemma_net_remove(s: Seq<PlanetModel>, pr: ProjectileModel, i: int)
    requires
        0 <= i < s.len(),
    ensures
        net_dx(s.remove(i), pr) == net_dx(s, pr) - force_dx(s[i], pr),
        net_dy(s.remove(i), pr) == net_dy(s, pr) - force_dy(s[i], pr),
        total_force(s.remove(i), pr) == total_force(s, pr) - force_mag(s[i], pr),
    decreases s.len(),
{
    lemma_net_unfold(s, pr);
    if i == s.len() - 1 {
        assert(s.remove(i) =~= s.drop_last());
    } else {
        let t = s.drop_last();
        lemma_net_remove(t, pr, i);
        lemma_net_unfold(s.remove(i), pr);
        assert(s.remove(i).drop_last() =~= t.remove(i));
        assert(s.remove(i).last() == s.last());
        assert(t[i] == s[i]);
    }
}

/// Order independence of force accumulation, in general: two planet
/// collections that are permutations of one another produce the same
/// exact net pull and the same total magnitude, for every projectile.
pub proof fn lemma_net_force_permutation(
    s1: Seq<PlanetModel>,
    s2: Seq<PlanetModel>,
    pr: ProjectileModel,
)
    requires
        s1.to_multiset() == s2.to_multiset(),
    ensures
        net_dx(s1, pr) == net_dx(s2, pr),
        net_dy(s1, pr) == net_dy(s2, pr),
        total_force(s1, pr) == total_force(s2, pr),
    decreases s1.len(),
{
    s1.to_multiset_ensures();
    s2.to_multiset_ensures();
    assert(s1.len() == s2.len());
    if s1.len() > 0 {
        let x = s1.last();
        assert(s1.contains(x)) by {
            assert(s1[s1.len() - 1] == x);
        }
        assert(s1.to_multiset().count(x) > 0);
        assert(s2.to_multiset().count(x) > 0);
        assert(s2.contains(x));
        let j = choose|j: int| 0 <= j < s2.len() && s2[j] == x;
        lemma_net_unfold(s1, pr);
        lemma_net_remove(s2, pr, j);
        assert(s1.drop_last() =~= s1.remove(s1.len() - 1));
        assert(s1.drop_last().to_multiset() == s2.remove(j).to_multiset()) by {
            assert(s1.remove(s1.len() - 1).to_multiset() =~= s1.to_multiset().remove(x));
            assert(s2.remove(j).to_multiset() =~= s2.to_multiset().remove(x));
        }
        lemma_net_force_permutation(s1.drop_last(), s2.remove(j), pr);
    }
}

/// Order independence through the saturating accumulation, in general:
/// permuting the planet collection leaves the accumulated projectile
/// identical, as long as the pulls and the starting velocity cannot
/// reach the saturation bound together.
pub proof fn lemma_accelerate_permutation(
    s1: Seq<PlanetModel>,
    s2: Seq<PlanetModel>,
    pr: ProjectileModel,
)
    requires
        s1.to_multiset() == s2.to_multiset(),
        projectile_ok(pr),
        abs_val(pr.vector_x) + total_force(s1, pr) <= FP_MAX,
        abs_val(pr.vector_y) + total_force(s1, pr) <= FP_MAX,
    ensures
        accelerate(s1, pr) == accelerate(s2, pr),
{
    lemma_net_force_permutation(s1, s2, pr);
    lemma_accelerate_exact(s1, pr);
    lemma_accelerate_exact(s2, pr);
}

/// Order independence of force accumulation: over the three planets of a
/// session, the exact net pull is the same sum in every one of the six
/// orders, on both axes.
pub proof fn lemma_net_force_order_three(
    a: PlanetModel,
    b: PlanetModel,
    c: PlanetModel,
    pr: ProjectileModel,
)
    ensures
        net_dx(seq![a, b, c], pr) == force_dx(a, pr) + force_dx(b, pr) + force_dx(c, pr),
        net_dy(seq![a, b, c], pr) == force_dy(a, pr) + force_dy(b, pr) + force_dy(c, pr),
        net_dx(seq![a, c, b], pr) == net_dx(seq![a, b, c], pr),
        net_dx(seq![b, a, c], pr) == net_dx(seq![a, b, c], pr),
        net_dx(seq![b, c, a], pr) == net_dx(seq![a, b, c], pr),
        net_dx(seq![c, a, b], pr) == net_dx(seq![a, b, c], pr),
        net_dx(seq![c, b, a], pr) == net_dx(seq![a, b, c], pr),
        net_dy(seq![a, c, b], pr) == net_dy(seq![a, b, c], pr),
        net_dy(seq![b, a, c], pr) == net_dy(seq![a, b, c], pr),
        net_dy(seq![b, c, a], pr) == net_dy(seq![a, b, c], pr),
        net_dy(seq![c, a, b], pr) == net_dy(seq![a, b, c], pr),
        net_dy(seq![c, b, a], pr) == net_dy(seq![a, b, c], pr),
{
    lemma_net_three(a, b, c, pr);
    lemma_net_three(a, c, b, pr);
    lemma_net_three(b, a, c, pr);
    lemma_net_three(b, c, a, pr);
    lemma_net_three(c, a, b, pr);
    lemma_net_three(c, b, a, pr);
}

proof fn lemma_net_three(a: PlanetModel, b: PlanetModel, c: PlanetModel, pr: ProjectileModel)
    ensures
        net_dx(seq![a, b, c], pr) == force_dx(a, pr) + force_dx(b, pr) + force_dx(c, pr),
        net_dy(seq![a, b, c], pr) == force_dy(a, pr) + force_dy(b, pr) + force_dy(c, pr),
        total_force(seq![a, b, c], pr)
            == force_mag(a, pr) + force_mag(b, pr) + force_mag(c, pr),
{
    let s = seq![a, b, c];
    assert(s.len() == 3);
    assert(s[0] == a && s[1] == b && s[2] == c);
    assert(net_dx_prefix(s, pr, 0) == 0);
    assert(net_dx_prefix(s, pr, 1) == force_dx(a, pr));
    assert(net_dx_prefix(s, pr, 2) == force_dx(a, pr) + force_dx(b, pr));
    assert(net_dx_prefix(s, pr, 3) == force_dx(a, pr) + force_dx(b, pr) + force_dx(c, pr));
    assert(net_dy_prefix(s, pr, 0) == 0);
    assert(net_dy_prefix(s, pr, 1) == force_dy(a, pr));
    assert(net_dy_prefix(s, pr, 2) == force_dy(a, pr) + force_dy(b, pr));
    assert(net_dy_prefix(s, pr, 3) == force_dy(a, pr) + force_dy(b, pr) + force_dy(c, pr));
    assert(total_force_prefix(s, pr, 0) == 0);
    assert(total_force_prefix(s, pr, 1) == force_mag(a, pr));
    assert(total_force_prefix(s, pr, 2) == force_mag(a, pr) + force_mag(b, pr));
    assert(total_force_prefix(s, pr, 3)
        == force_mag(a, pr) + force_mag(b, pr) + force_mag(c, pr));
}

/// Order independence through the saturating accumulation itself: as long
/// as the three pulls and the starting velocity cannot reach the
/// saturation bound together, accumulating in any of the six orders
/// leaves the projectile identical.
pub proof fn lemma_accelerate_order_three(
    a: PlanetModel,
    b: PlanetModel,
    c: PlanetModel,
    pr: ProjectileModel,
)
    requires
        projectile_ok(pr),
        abs_val(pr.vector_x) + force_mag(a, pr) + force_mag(b, pr) + force_mag(c, pr) <= FP_MAX,
        abs_val(pr.vector_y) + force_mag(a, pr) + force_mag(b, pr) + force_mag(c, pr) <= FP_MAX,
    ensures
        accelerate(seq![a, c, b], pr) == accelerate(seq![a, b, c], pr),
        accelerate(seq![b, a, c], pr) == accelerate(seq![a, b, c], pr),
        accelerate(seq![b, c, a], pr) == accelerate(seq![a, b, c], pr),
        accelerate(seq![c, a, b], pr) == accelerate(seq![a, b, c], pr),
        accelerate(seq![c, b, a], pr) == accelerate(seq![a, b, c], pr),
{
    lemma_net_force_order_three(a, b, c, pr);
    lemma_net_three(a, b, c, pr);
    lemma_accelerate_exact(seq![a, b, c], pr);
    lemma_net_three(a, c, b, pr);
    lemma_accelerate_exact(seq![a, c, b], pr);
    lemma_net_three(b, a, c, pr);
    lemma_accelerate_exact(seq![b, a, c], pr);
    lemma_net_three(b, c, a, pr);
    lemma_accelerate_exact(seq![b, c, a], pr);
    lemma_net_three(c, a, b, pr);
    lemma_accelerate_exact(seq![c, a, b], pr);
    lemma_net_three(c, b, a, pr);
    lemma_accelerate_exact(seq![c, b, a], pr);
}

/// Pure Euler motion: with no planets there is no pull and nothing to
/// hit, so one step moves every projectile by exactly its velocity, the
/// velocity is unchanged, and nothing is pruned.
pub proof fn lemma_step_pure_euler(s: SimModel, dt: int)
    requires
        s.planets.len() == 0,
        projectiles_ok(s.projectiles),
        forall|i: int| 0 <= i < s.projectiles.len()
            ==> !(#[trigger] s.projectiles[i]).collision,
        forall|i: int| 0 <= i < s.projectiles.len()
            ==> fp_in_range((#[trigger] s.projectiles[i]).offset_x + s.projectiles[i].vector_x),
        forall|i: int| 0 <= i < s.projectiles.len()
            ==> fp_in_range((#[trigger] s.projectiles[i]).offset_y + s.projectiles[i].vector_y),
    ensures
        step_spec(s, dt).projectiles.len() == s.projectiles.len(),
        forall|i: int| 0 <= i < s.projectiles.len()
            ==> (#[trigger] step_spec(s, dt).projectiles[i]) == (ProjectileModel {
                offset_x: s.projectiles[i].offset_x + s.projectiles[i].vector_x,
                offset_y: s.projectiles[i].offset_y + s.projectiles[i].vector_y,
                vector_x: s.projectiles[i].vector_x,
                vector_y: s.projectiles[i].vector_y,
                collision: false,
            }),
{
    let marked = marked_seq(s.planets, moved_seq(accelerated_seq(s.planets, s.projectiles)));
    assert forall|i: int| 0 <= i < s.projectiles.len()
        implies (#[trigger] marked[i]) == (ProjectileModel {
            offset_x: s.projectiles[i].offset_x + s.projectiles[i].vector_x,
            offset_y: s.projectiles[i].offset_y + s.projectiles[i].vector_y,
            vector_x: s.projectiles[i].vector_x,
            vector_y: s.projectiles[i].vector_y,
            collision: false,
        }) by {
        let pr = s.projectiles[i];
        assert(accelerate(s.planets, pr) == pr);
    }
    assert forall|i: int| 0 <= i < marked.len()
        implies !(#[trigger] marked[i]).collision by {}
    lemma_prune_no_marks(marked);
}

/// Pure Euler motion under zero net force: a projectile whose pulls
/// cancel exactly — symmetrically placed planets, or none — and whose
/// accumulation cannot saturate moves by exactly its velocity, with the
/// velocity unchanged; and where no planet's collision zone contains the
/// moved position, the whole collection survives the step that way.
pub proof fn lemma_step_zero_net_force(s: SimModel, dt: int)
    requires
        projectiles_ok(s.projectiles),
        forall|i: int| 0 <= i < s.projectiles.len()
            ==> !(#[trigger] s.projectiles[i]).collision,
        forall|i: int| 0 <= i < s.projectiles.len()
            ==> net_dx(s.planets, #[trigger] s.projectiles[i]) == 0,
        forall|i: int| 0 <= i < s.projectiles.len()
            ==> net_dy(s.planets, #[trigger] s.projectiles[i]) == 0,
        forall|i: int| 0 <= i < s.projectiles.len()
            ==> abs_val((#[trigger] s.projectiles[i]).vector_x)
                + total_force(s.planets, s.projectiles[i]) <= FP_MAX,
        forall|i: int| 0 <= i < s.projectiles.len()
            ==> abs_val((#[trigger] s.projectiles[i]).vector_y)
                + total_force(s.planets, s.projectiles[i]) <= FP_MAX,
        forall|i: int| 0 <= i < s.projectiles.len()
            ==> fp_in_range((#[trigger] s.projectiles[i]).offset_x + s.projectiles[i].vector_x),
        forall|i: int| 0 <= i < s.projectiles.len()
            ==> fp_in_range((#[trigger] s.projectiles[i]).offset_y + s.projectiles[i].vector_y),
        forall|i: int, j: int|
            0 <= i < s.projectiles.len() && 0 <= j < s.planets.len()
                ==> sq((#[trigger] s.planets[j]).x
                        - ((#[trigger] s.projectiles[i]).offset_x + s.projectiles[i].vector_x))
                    + sq(s.planets[j].y
                        - (s.projectiles[i].offset_y + s.projectiles[i].vector_y))
                    >= sq(s.planets[j].size / 10),
    ensures
        step_spec(s, dt).projectiles.len() == s.projectiles.len(),
        forall|i: int| 0 <= i < s.projectiles.len()
            ==> (#[trigger] step_spec(s, dt).projectiles[i]) == (ProjectileModel {
                offset_x: s.projectiles[i].offset_x + s.projectiles[i].vector_x,
                offset_y: s.projectiles[i].offset_y + s.projectiles[i].vector_y,
                vector_x: s.projectiles[i].vector_x,
                vector_y: s.projectiles[i].vector_y,
                collision: false,
            }),
{
    let marked = marked_seq(s.planets, moved_seq(accelerated_seq(s.planets, s.projectiles)));
    assert forall|i: int| 0 <= i < s.projectiles.len()
        implies (#[trigger] marked[i]) == (ProjectileModel {
            offset_x: s.projectiles[i].offset_x + s.projectiles[i].vector_x,
            offset_y: s.projectiles[i].offset_y + s.projectiles[i].vector_y,
            vector_x: s.projectiles[i].vector_x,
            vector_y: s.projectiles[i].vector_y,
            collision: false,
        }) by {
        let pr = s.projectiles[i];
        lemma_accelerate_exact(s.planets, pr);
        assert(accelerate(s.planets, pr) == pr);
        let moved = integrate(pr);
        assert(moved.offset_x == pr.offset_x + pr.vector_x);
        assert(moved.offset_y == pr.offset_y + pr.vector_y);
        if exists|j: int| 0 <= j < s.planets.len() && hits(s.planets[j], moved) {
            let j = choose|j: int| 0 <= j < s.planets.len() && hits(s.planets[j], moved);
            assert(false);
        }
    }
    assert forall|i: int| 0 <= i < marked.len()
        implies !(#[trigger] marked[i]).collision by {}
    lemma_prune_no_marks(marked);
}

/// Symmetric cancellation: two planets mirrored through a projectile's
/// position pull with equal magnitude in opposite directions on both
/// axes, so accumulating both leaves the velocity unchanged, provided the
/// first pull alone cannot saturate.
pub proof fn lemma_mirrored_pair_cancels(
    a: PlanetModel,
    b: PlanetModel,
    pr: ProjectileModel,
)
    requires
        projectile_ok(pr),
        a.x < pr.offset_x,
        a.y < pr.offset_y,
        b.x == 2 * pr.offset_x - a.x,
        b.y == 2 * pr.offset_y - a.y,
        fp_in_range(pr.vector_x - force_mag(a, pr)),
        fp_in_range(pr.vector_y - force_mag(a, pr)),
    ensures
        accelerate(seq![a, b], pr) == pr,
{
    let s = seq![a, b];
    assert(sq(b.x - pr.offset_x) == sq(a.x - pr.offset_x)) by (nonlinear_arith)
        requires b.x - pr.offset_x == -(a.x - pr.offset_x);
    assert(sq(b.y - pr.offset_y) == sq(a.y - pr.offset_y)) by (nonlinear_arith)
        requires b.y - pr.offset_y == -(a.y - pr.offset_y);
    assert(force_mag(b, pr) == force_mag(a, pr));
    assert(s[0] == a && s[1] == b);
    assert(apply_forces_prefix(s, pr, 0) == pr);
    let one = apply_forces_prefix(s, pr, 1);
    assert(one == apply_force(a, pr));
    assert(one.vector_x == pr.vector_x - force_mag(a, pr));
    assert(one.vector_y == pr.vector_y - force_mag(a, pr));
    assert(force_mag(b, one) == force_mag(b, pr));
    let two = apply_forces_prefix(s, pr, 2);
    assert(two == apply_force(b, one));
    assert(accelerate(s, pr) == two);
    assert(two =~= pr);
}

/// The strength ramp across one step: no planet's strength decreases,
/// and none moves, shrinks, or grows.
pub proof fn lemma_strength_monotone(s: SimModel, dt: int)
    requires
        0 <= dt,
    ensures
        step_spec(s, dt).planets.len() == s.planets.len(),
        forall|i: int| 0 <= i < s.planets.len()
            ==> (#[trigger] step_spec(s, dt).planets[i]).strength >= s.planets[i].strength,
        forall|i: int| 0 <= i < s.planets.len()
            ==> (#[trigger] step_spec(s, dt).planets[i]).x == s.planets[i].x
                && step_spec(s, dt).planets[i].y == s.planets[i].y
                && step_spec(s, dt).planets[i].size == s.planets[i].size,
{
    assert forall|i: int| 0 <= i < s.planets.len()
        implies (#[trigger] step_spec(s, dt).planets[i]).strength >= s.planets[i].strength by {
        assert(step_spec(s, dt).planets[i] == ramp(s.planets[i], dt));
    }
}

/// The strength cap: a strength at most the cap stays at most the cap
/// across every step — the ramp clips its charge at the cap exactly, so
/// no planet's strength ever exceeds `100.0`.
pub proof fn lemma_strength_cap(s: SimModel, dt: int)
    requires
        forall|i: int| 0 <= i < s.planets.len()
            ==> (#[trigger] s.planets[i]).strength <= STRENGTH_CAP,
    ensures
        forall|i: int| 0 <= i < s.planets.len()
            ==> (#[trigger] step_spec(s, dt).planets[i]).strength <= STRENGTH_CAP,
{
    assert forall|i: int| 0 <= i < s.planets.len()
        implies (#[trigger] step_spec(s, dt).planets[i]).strength <= STRENGTH_CAP by {
        assert(step_spec(s, dt).planets[i] == ramp(s.planets[i], dt));
    }
}

/// Marked projectiles are gone and stay gone: after any step every
/// projectile still in the collection is unmarked — one marked during a
/// step is pruned by that same step — and the collection cannot have
/// grown.  Together with the unmarked flag of every launched projectile,
/// a pruned projectile never reappears.
pub proof fn lemma_step_survivors_unmarked(s: SimModel, dt: int)
    ensures
        forall|i: int| 0 <= i < step_spec(s, dt).projectiles.len()
            ==> !(#[trigger] step_spec(s, dt).projectiles[i]).collision,
        step_spec(s, dt).projectiles.len() <= s.projectiles.len(),
{
    lemma_prune_elements(marked_seq(s.planets, moved_seq(accelerated_seq(s.planets, s.projectiles))));
}

/// The collision boundary is strict: a projectile at squared distance
/// exactly the squared threshold is not marked; strictly inside it is.
pub proof fn lemma_collision_boundary(pl: PlanetModel, pr: ProjectileModel)
    ensures
        sq(pl.x - pr.offset_x) + sq(pl.y - pr.offset_y) == sq(pl.size / 10) ==> !hits(pl, pr),
        sq(pl.x - pr.offset_x) + sq(pl.y - pr.offset_y) < sq(pl.size / 10) ==> hits(pl, pr),
{
}

} // verus!
