use crate::flock::{
    boid_within, flock_wf, flock_within, Boid, Bounds, Config, COORD_LIMIT, HEADING_LIMIT,
    RANGE_LIMIT,
};
use crate::geometry::{abs, normalize, normalized, scaled, within, Vec2, ONE};
use crate::random::{chaos_fits, draw_chaos};
use crate::steering::{
    aligned, alignment, cohered, cohesion, no_wider, separated, separation, steered_within,
};
use vstd::arithmetic::div_mod::{
    lemma_div_by_multiple, lemma_div_is_ordered, lemma_div_is_ordered_by_denominator,
};
use vstd::prelude::*;

verus! {

/// One axis of the boundary rule: below zero re-enters one unit short of the far
/// edge, at or past the far edge re-enters at zero.
pub open spec fn wrap(v: int, bound: int) -> int {
    if v < 0 {
        bound - ONE
    } else if v >= bound {
        0
    } else {
        v
    }
}

/// `h` plus the perturbation `c`.
pub open spec fn perturbed(h: Vec2, c: Vec2) -> Vec2 {
    Vec2 { x: (h.x + c.x) as i64, y: (h.y + c.y) as i64 }
}

/// An agent after one integration step with the perturbation `chaos`: the
/// perturbed heading is normalized, the agent moves along it by `velocity`, and
/// each axis wraps.
pub open spec fn integrated_boid(b: Boid, chaos: Vec2, bounds: Bounds, cfg: Config) -> Boid {
    let h = normalized(perturbed(b.direction, chaos));
    Boid {
        position: Vec2 {
            x: wrap(b.position.x + scaled(h.x as int, cfg.velocity as int), bounds.width as int)
                as i64,
            y: wrap(b.position.y + scaled(h.y as int, cfg.velocity as int), bounds.height as int)
                as i64,
        },
        direction: h,
    }
}

/// The flock after one integration step, agent `i` perturbed by `chaos[i]`.
pub open spec fn integrated(s: Seq<Boid>, chaos: Seq<Vec2>, bounds: Bounds, cfg: Config) -> Seq<
    Boid,
> {
    Seq::new(s.len(), |i: int| integrated_boid(s[i], chaos[i], bounds, cfg))
}

/// Every agent of `s` lies on the plane of `bounds`.
pub open spec fn on_plane(s: Seq<Boid>, bounds: Bounds) -> bool {
    forall|i: int|
        0 <= i < s.len() ==> {
            &&& 0 <= (#[trigger] s[i]).position.x < bounds.width
            &&& 0 <= s[i].position.y < bounds.height
        }
}

/// The flock after a whole tick: separation, alignment, cohesion, then integration
/// with the perturbations `chaos`.
pub open spec fn ticked(s: Seq<Boid>, chaos: Seq<Vec2>, bounds: Bounds, cfg: Config) -> Seq<
    Boid,
> {
    integrated(cohered(aligned(separated(s, cfg), cfg), cfg), chaos, bounds, cfg)
}

/// How far a unit heading component `h` carries an agent at `velocity`.
fn displacement(h: i64, velocity: i64) -> (r: i64)
    requires
        abs(h as int) <= ONE,
        0 <= velocity <= RANGE_LIMIT,
    ensures
        r == scaled(h as int, velocity as int),
        abs(r as int) <= velocity,
{
    let m: i64 = if h >= 0 { h } else { -h };
    assert(0 <= m * velocity <= ONE * velocity) by (nonlinear_arith)
        requires
            0 <= m <= ONE,
            0 <= velocity,
    ;
    assert(ONE * velocity <= ONE * RANGE_LIMIT) by (nonlinear_arith)
        requires
            0 <= velocity <= RANGE_LIMIT,
    ;
    let q: i64 = (m * velocity) / ONE;
    proof {
        lemma_div_is_ordered(m * velocity, ONE * velocity, ONE as int);
        lemma_div_by_multiple(velocity as int, ONE as int);
        assert(ONE * velocity == velocity * ONE) by (nonlinear_arith);
        lemma_div_is_ordered_by_denominator(m * velocity, 1, ONE as int);
        assert((h as int) * velocity == if h >= 0 { m * velocity } else { -(m * velocity) })
            by (nonlinear_arith)
            requires
                m == abs(h as int),
        ;
    }
    if h >= 0 {
        q
    } else {
        -q
    }
}

/// Applies the boundary rule to one axis.
fn wrap_axis(v: i64, bound: i64) -> (r: i64)
    requires
        ONE <= bound,
    ensures
        r == wrap(v as int, bound as int),
        0 <= r < bound,
{
    if v < 0 {
        bound - ONE
    } else if v >= bound {
        0
    } else {
        v
    }
}

/// The integration step with given perturbations: each agent's heading is
/// perturbed by its entry of `chaos` and normalized; the agent then moves along
/// the new heading by `velocity` and wraps across the plane's edges. Every agent
/// reads the flock as it was before the step.
pub fn integrate(boids: &mut Vec<Boid>, bounds: &Bounds, cfg: &Config, chaos: &Vec<Vec2>)
    requires
        flock_wf(old(boids)@),
        cfg.wf(),
        bounds.wf(),
        chaos_fits(chaos@, old(boids)@.len() as int, cfg.chaos as int),
    ensures
        final(boids)@ == integrated(old(boids)@, chaos@, *bounds, *cfg),
        on_plane(final(boids)@, *bounds),
        flock_within(final(boids)@, COORD_LIMIT as int, ONE as int),
{
    let mut next: Vec<Boid> = Vec::new();
    let mut i: usize = 0;
    while i < boids.len()
        invariant
            i <= boids.len(),
            flock_wf(boids@),
            cfg.wf(),
            bounds.wf(),
            chaos_fits(chaos@, boids@.len() as int, cfg.chaos as int),
            next@.len() == i,
            forall|k: int|
                0 <= k < i ==> next@[k] == #[trigger] integrated(boids@, chaos@, *bounds, *cfg)[k],
            on_plane(next@, *bounds),
            flock_within(next@, COORD_LIMIT as int, ONE as int),
        decreases boids.len() - i,
    {
        let b = boids[i];
        let c = chaos[i];
        assert(boid_within(boids@[i as int], COORD_LIMIT as int, HEADING_LIMIT as int));
        assert(within(chaos@[i as int], cfg.chaos as int));
        let h = normalize(Vec2 { x: b.direction.x + c.x, y: b.direction.y + c.y });
        let px = wrap_axis(b.position.x + displacement(h.x, cfg.velocity), bounds.width);
        let py = wrap_axis(b.position.y + displacement(h.y, cfg.velocity), bounds.height);
        next.push(Boid { position: Vec2 { x: px, y: py }, direction: h });
        i = i + 1;
    }
    assert(next@ =~= integrated(boids@, chaos@, *bounds, *cfg));
    std::mem::swap(boids, &mut next);
}

/// The integration step, with each perturbation component drawn uniformly from
/// `-chaos..=chaos`.
pub fn simulate(boids: &mut Vec<Boid>, bounds: &Bounds, cfg: &Config)
    requires
        flock_wf(old(boids)@),
        cfg.wf(),
        bounds.wf(),
    ensures
        exists|chaos: Seq<Vec2>|
            chaos_fits(chaos, old(boids)@.len() as int, cfg.chaos as int) && final(boids)@
                == #[trigger] integrated(old(boids)@, chaos, *bounds, *cfg),
        on_plane(final(boids)@, *bounds),
        flock_within(final(boids)@, COORD_LIMIT as int, ONE as int),
{
    let chaos = draw_chaos(boids.len(), cfg.chaos);
    integrate(boids, bounds, cfg, &chaos);
}

/// A flock within the given limits stays within them, one `step` wider on
/// headings, after steering by at most `step`.
proof fn lemma_steered_within(s: Seq<Boid>, t: Seq<Boid>, step: int, pl: int, hl: int)
    requires
        flock_within(s, pl, hl),
        steered_within(s, t, step),
    ensures
        flock_within(t, pl, hl + step),
{
    assert forall|i: int| 0 <= i < t.len() implies boid_within(#[trigger] t[i], pl, hl + step) by {
        assert(boid_within(s[i], pl, hl));
    }
}

/// One tick of the simulation: separation, alignment, cohesion, each reading the
/// previous stage's output, then the integration step with random perturbations.
pub fn tick(boids: &mut Vec<Boid>, bounds: &Bounds, cfg: &Config)
    requires
        flock_within(old(boids)@, COORD_LIMIT as int, COORD_LIMIT as int),
        cfg.wf(),
        bounds.wf(),
    ensures
        exists|chaos: Seq<Vec2>|
            chaos_fits(chaos, old(boids)@.len() as int, cfg.chaos as int) && final(boids)@
                == #[trigger] ticked(old(boids)@, chaos, *bounds, *cfg),
        final(boids)@.len() == old(boids)@.len(),
        on_plane(final(boids)@, *bounds),
        flock_within(final(boids)@, COORD_LIMIT as int, ONE as int),
{
    let ghost s0 = boids@;
    separation(boids, cfg);
    proof {
        lemma_steered_within(s0, boids@, ONE as int, COORD_LIMIT as int, COORD_LIMIT as int);
    }
    let ghost s1 = boids@;
    alignment(boids, cfg);
    let ghost s2 = boids@;
    assert(flock_within(s2, COORD_LIMIT as int, COORD_LIMIT + ONE)) by {
        assert forall|i: int| 0 <= i < s2.len() implies boid_within(
            #[trigger] s2[i],
            COORD_LIMIT as int,
            COORD_LIMIT + ONE,
        ) by {
            assert(boid_within(s1[i], COORD_LIMIT as int, COORD_LIMIT + ONE));
            assert(no_wider(s1[i].direction, s2[i].direction));
        }
    }
    cohesion(boids, cfg);
    proof {
        lemma_steered_within(s2, boids@, ONE as int, COORD_LIMIT as int, COORD_LIMIT + ONE);
    }
    let ghost s3 = boids@;
    simulate(boids, bounds, cfg);
    let ghost chaos = choose|chaos: Seq<Vec2>|
        chaos_fits(chaos, s3.len() as int, cfg.chaos as int) && boids@ == #[trigger] integrated(
            s3,
            chaos,
            *bounds,
            *cfg,
        );
    assert(ticked(s0, chaos, *bounds, *cfg) == boids@);
}

} // verus!
