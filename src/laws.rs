//! What holds of the simulation across its stages and for every input.
use crate::flock::{
    boid_within, centroid, direction_sum, flock_wf, group, in_range, mean_heading, position_sum,
    Boid, Bounds, Config, COORD_LIMIT, HEADING_LIMIT,
};
use crate::geometry::{
    div_trunc, fine_length, lemma_floor_sqrt_unique, lemma_normalized_bounded,
    lemma_scaled_bounded, length_squared, normalized, scaled, Vec2, ONE, ONE_SQUARED,
};
use crate::integrator::{integrated, on_plane, ticked};
use crate::projector::{projected, Vertex};
use crate::steering::{
    aligned, alignment_heading, cohered, cohesion_heading, offset, separated,
    separation_heading,
};
use vstd::prelude::*;

verus! {

/// No agent other than agent `i` lies within `range` of agent `i`.
pub open spec fn alone(s: Seq<Boid>, i: int, range: int) -> bool {
    forall|j: int| 0 <= j < s.len() && j != i ==> !in_range(#[trigger] s[j].position, s[i].position, range)
}

/// Every stage keeps the population: as many agents leave a tick as entered it.
pub proof fn lemma_population_fixed(s: Seq<Boid>, chaos: Seq<Vec2>, bounds: Bounds, cfg: Config)
    ensures
        separated(s, cfg).len() == s.len(),
        aligned(s, cfg).len() == s.len(),
        cohered(s, cfg).len() == s.len(),
        integrated(s, chaos, bounds, cfg).len() == s.len(),
        ticked(s, chaos, bounds, cfg).len() == s.len(),
{
}

/// After the integration step, and so after every tick, each agent lies on the
/// plane: `0 <= position < bound` on both axes, whatever the flock, the
/// perturbations and the configuration.
pub proof fn lemma_positions_bounded(s: Seq<Boid>, chaos: Seq<Vec2>, bounds: Bounds, cfg: Config)
    requires
        bounds.wf(),
    ensures
        on_plane(integrated(s, chaos, bounds, cfg), bounds),
        on_plane(ticked(s, chaos, bounds, cfg), bounds),
{
    let t = integrated(s, chaos, bounds, cfg);
    assert(on_plane(t, bounds));
    let u = cohered(aligned(separated(s, cfg), cfg), cfg);
    assert(on_plane(integrated(u, chaos, bounds, cfg), bounds));
}

proof fn lemma_group_empty(s: Seq<Boid>, center: Vec2, range: int)
    requires
        forall|j: int| 0 <= j < s.len() ==> !in_range(#[trigger] s[j].position, center, range),
    ensures
        group(s, center, range) == Seq::<Boid>::empty(),
    decreases s.len(),
{
    if s.len() > 0 {
        assert forall|j: int| 0 <= j < s.drop_last().len() implies !in_range(
            #[trigger] s.drop_last()[j].position,
            center,
            range,
        ) by {
            assert(s.drop_last()[j] == s[j]);
        }
        lemma_group_empty(s.drop_last(), center, range);
        assert(!in_range(s[s.len() - 1].position, center, range));
    }
}

/// An agent alone within `range` forms its group by itself.
proof fn lemma_alone_group(s: Seq<Boid>, i: int, range: int)
    requires
        0 <= i < s.len(),
        range >= 0,
        alone(s, i, range),
    ensures
        group(s, s[i].position, range) == seq![s[i]],
    decreases s.len(),
{
    let c = s[i].position;
    let d = s.drop_last();
    crate::flock::lemma_in_own_range(c, range);
    if i == s.len() - 1 {
        assert forall|j: int| 0 <= j < d.len() implies !in_range(#[trigger] d[j].position, c, range) by {
            assert(d[j] == s[j]);
        }
        lemma_group_empty(d, c, range);
        assert(group(s, c, range) =~= seq![s[i]]);
    } else {
        assert(d[i] == s[i]);
        assert forall|j: int| 0 <= j < d.len() && j != i implies !in_range(
            #[trigger] d[j].position,
            d[i].position,
            range,
        ) by {
            assert(d[j] == s[j]);
        }
        lemma_alone_group(d, i, range);
        assert(!in_range(s[s.len() - 1].position, c, range));
    }
}

proof fn lemma_single_sums(b: Boid)
    ensures
        centroid(seq![b]) == b.position,
        mean_heading(seq![b]) == b.direction,
{
    let g = seq![b];
    assert(g.drop_last() =~= Seq::<Boid>::empty());
    assert(g.last() == b);
    assert(position_sum(Seq::<Boid>::empty()) == (0int, 0int));
    assert(direction_sum(Seq::<Boid>::empty()) == (0int, 0int));
    assert(position_sum(g) == (b.position.x as int, b.position.y as int));
    assert(direction_sum(g) == (b.direction.x as int, b.direction.y as int));
}

proof fn lemma_normalized_zero()
    ensures
        normalized(Vec2 { x: 0, y: 0 }) == (Vec2 { x: 0, y: 0 }),
{
    let z = Vec2 { x: 0, y: 0 };
    assert(length_squared(z) * ONE_SQUARED == 0);
    assert(0nat * 0nat <= 0nat < 1nat * 1nat) by (nonlinear_arith);
    lemma_floor_sqrt_unique(0, 0);
    assert(fine_length(z) == 0);
}

/// An agent with no other agent within a stage's range is not turned by
/// separation or cohesion: the centroid of its group is its own position. Under
/// alignment the mean heading of its group is its own, so it keeps its heading
/// when that heading is already normalized.
pub proof fn lemma_isolated_unsteered(s: Seq<Boid>, i: int, cfg: Config)
    requires
        0 <= i < s.len(),
        cfg.wf(),
        alone(s, i, cfg.separation_range as int),
        alone(s, i, cfg.cohesion_range as int),
        alone(s, i, cfg.alignment_range as int),
    ensures
        separation_heading(s, i, cfg) == s[i].direction,
        cohesion_heading(s, i, cfg) == s[i].direction,
        alignment_heading(s, i, cfg) == (Vec2 {
            x: (s[i].direction.x + scaled(
                normalized(s[i].direction).x - s[i].direction.x,
                cfg.alignment_rate as int,
            )) as i64,
            y: (s[i].direction.y + scaled(
                normalized(s[i].direction).y - s[i].direction.y,
                cfg.alignment_rate as int,
            )) as i64,
        }),
        normalized(s[i].direction) == s[i].direction ==> alignment_heading(s, i, cfg)
            == s[i].direction,
{
    let b = s[i];
    lemma_alone_group(s, i, cfg.separation_range as int);
    lemma_alone_group(s, i, cfg.cohesion_range as int);
    lemma_alone_group(s, i, cfg.alignment_range as int);
    lemma_single_sums(b);
    lemma_normalized_zero();
    assert(offset(b.position, b.position) == (Vec2 { x: 0, y: 0 }));
    assert(scaled(0, cfg.separation_rate as int) == 0);
    assert(scaled(0, cfg.cohesion_rate as int) == 0);
    assert(scaled(0, cfg.alignment_rate as int) == 0);
}

proof fn lemma_div_trunc_sign(a: int, d: int)
    requires
        d > 0,
    ensures
        a >= 0 ==> div_trunc(a, d) >= 0,
        a <= 0 ==> div_trunc(a, d) <= 0,
{
    if a >= 0 {
        assert(a / d >= 0) by (nonlinear_arith)
            requires
                a >= 0,
                d > 0,
        ;
    } else {
        assert((-a) / d >= 0) by (nonlinear_arith)
            requires
                -a >= 0,
                d > 0,
        ;
    }
}

proof fn lemma_scaled_sign(a: int, rate: int)
    requires
        rate >= 0,
    ensures
        a >= 0 ==> scaled(a, rate) >= 0,
        a <= 0 ==> scaled(a, rate) <= 0,
{
    assert(a >= 0 ==> a * rate >= 0) by (nonlinear_arith)
        requires
            rate >= 0,
    ;
    assert(a <= 0 ==> a * rate <= 0) by (nonlinear_arith)
        requires
            rate >= 0,
    ;
    lemma_div_trunc_sign(a * rate, ONE as int);
}

/// Normalizing keeps the sign of each component.
proof fn lemma_normalized_sign(v: Vec2)
    ensures
        v.x >= 0 ==> normalized(v).x >= 0,
        v.x <= 0 ==> normalized(v).x <= 0,
        v.y >= 0 ==> normalized(v).y >= 0,
        v.y <= 0 ==> normalized(v).y <= 0,
{
    lemma_normalized_bounded(v);
    let len = fine_length(v);
    if len != 0 {
        assert(v.x >= 0 ==> v.x * ONE_SQUARED >= 0) by (nonlinear_arith);
        assert(v.x <= 0 ==> v.x * ONE_SQUARED <= 0) by (nonlinear_arith);
        assert(v.y >= 0 ==> v.y * ONE_SQUARED >= 0) by (nonlinear_arith);
        assert(v.y <= 0 ==> v.y * ONE_SQUARED <= 0) by (nonlinear_arith);
        lemma_div_trunc_sign(v.x * ONE_SQUARED, len as int);
        lemma_div_trunc_sign(v.y * ONE_SQUARED, len as int);
    }
}

/// Separation acts only on a crowded disc. With more than `max_neighbors` agents
/// within the separation range, the heading moves by `separation_rate` times the
/// normalized vector toward their centroid, subtracted: on each axis, against
/// the direction of the centroid. Otherwise the heading is unchanged.
pub proof fn lemma_separation_gating(s: Seq<Boid>, i: int, cfg: Config)
    requires
        flock_wf(s),
        cfg.wf(),
        0 <= i < s.len(),
    ensures
        ({
            let b = s[i];
            let g = group(s, b.position, cfg.separation_range as int);
            let o = offset(centroid(g), b.position);
            let d = normalized(o);
            let h = separation_heading(s, i, cfg);
            &&& g.len() > cfg.max_neighbors ==> {
                &&& h.x == b.direction.x - scaled(d.x as int, cfg.separation_rate as int)
                &&& h.y == b.direction.y - scaled(d.y as int, cfg.separation_rate as int)
                &&& (h.x - b.direction.x) * o.x <= 0
                &&& (h.y - b.direction.y) * o.y <= 0
            }
            &&& g.len() <= cfg.max_neighbors ==> h == b.direction
        }),
{
    let b = s[i];
    let g = group(s, b.position, cfg.separation_range as int);
    let o = offset(centroid(g), b.position);
    let d = normalized(o);
    let rate = cfg.separation_rate as int;
    assert(boid_within(s[i], COORD_LIMIT as int, HEADING_LIMIT as int));
    lemma_normalized_bounded(o);
    lemma_normalized_sign(o);
    lemma_scaled_sign(d.x as int, rate);
    lemma_scaled_sign(d.y as int, rate);
    lemma_scaled_bounded(d.x as int, rate);
    lemma_scaled_bounded(d.y as int, rate);
    let sx = scaled(d.x as int, rate);
    let sy = scaled(d.y as int, rate);
    assert(-sx * o.x <= 0) by (nonlinear_arith)
        requires
            o.x >= 0 ==> sx >= 0,
            o.x <= 0 ==> sx <= 0,
    ;
    assert(-sy * o.y <= 0) by (nonlinear_arith)
        requires
            o.y >= 0 ==> sy >= 0,
            o.y <= 0 ==> sy <= 0,
    ;
}

/// The projector is a function of the flock and the agent size alone: two calls on
/// the same flock give the same triangles, whatever the buffers held before.
pub proof fn lemma_projection_repeatable(
    s: Seq<Boid>,
    size: int,
    first: Seq<Vertex>,
    second: Seq<Vertex>,
)
    requires
        first == projected(s, size),
        second == projected(s, size),
    ensures
        first == second,
{
}

} // verus!
