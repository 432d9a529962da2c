use crate::flock::{
    boid_within, centroid, flock_wf, get_group, group, lemma_group_within,
    mean_direction, mean_heading, mean_position, Boid, Config, COORD_LIMIT, HEADING_LIMIT,
};
use crate::geometry::{abs, normalize, normalized, scale, scaled, within, Vec2, ONE};
use vstd::prelude::*;

verus! {

/// The vector from `from` to `to`.
pub open spec fn offset(to: Vec2, from: Vec2) -> Vec2 {
    Vec2 { x: (to.x - from.x) as i64, y: (to.y - from.y) as i64 }
}

/// Agent `i`'s heading after separation: when more than `max_neighbors` agents
/// share its separation disc, it turns away from their centroid.
pub open spec fn separation_heading(s: Seq<Boid>, i: int, cfg: Config) -> Vec2 {
    let b = s[i];
    let g = group(s, b.position, cfg.separation_range as int);
    if g.len() > cfg.max_neighbors {
        let d = normalized(offset(centroid(g), b.position));
        Vec2 {
            x: (b.direction.x - scaled(d.x as int, cfg.separation_rate as int)) as i64,
            y: (b.direction.y - scaled(d.y as int, cfg.separation_rate as int)) as i64,
        }
    } else {
        b.direction
    }
}

/// Agent `i`'s heading after cohesion: it turns toward the centroid of the agents
/// within the cohesion range.
pub open spec fn cohesion_heading(s: Seq<Boid>, i: int, cfg: Config) -> Vec2 {
    let b = s[i];
    let g = group(s, b.position, cfg.cohesion_range as int);
    let d = normalized(offset(centroid(g), b.position));
    Vec2 {
        x: (b.direction.x + scaled(d.x as int, cfg.cohesion_rate as int)) as i64,
        y: (b.direction.y + scaled(d.y as int, cfg.cohesion_rate as int)) as i64,
    }
}

/// Agent `i`'s heading after alignment: it turns toward the normalized mean
/// heading of the agents within the alignment range.
pub open spec fn alignment_heading(s: Seq<Boid>, i: int, cfg: Config) -> Vec2 {
    let b = s[i];
    let g = group(s, b.position, cfg.alignment_range as int);
    let a = normalized(mean_heading(g));
    Vec2 {
        x: (b.direction.x + scaled(a.x - b.direction.x, cfg.alignment_rate as int)) as i64,
        y: (b.direction.y + scaled(a.y - b.direction.y, cfg.alignment_rate as int)) as i64,
    }
}

/// `s` with agent `i`'s heading given by `h(i)`; positions stay.
pub open spec fn with_headings(s: Seq<Boid>, h: spec_fn(int) -> Vec2) -> Seq<Boid> {
    Seq::new(s.len(), |i: int| Boid { position: s[i].position, direction: h(i) })
}

/// The flock after the separation stage.
pub open spec fn separated(s: Seq<Boid>, cfg: Config) -> Seq<Boid> {
    with_headings(s, |i: int| separation_heading(s, i, cfg))
}

/// The flock after the cohesion stage.
pub open spec fn cohered(s: Seq<Boid>, cfg: Config) -> Seq<Boid> {
    with_headings(s, |i: int| cohesion_heading(s, i, cfg))
}

/// The flock after the alignment stage.
pub open spec fn aligned(s: Seq<Boid>, cfg: Config) -> Seq<Boid> {
    with_headings(s, |i: int| alignment_heading(s, i, cfg))
}

/// `t` keeps the agents of `s` in place, and no heading component moved by more
/// than `step`.
pub open spec fn steered_within(s: Seq<Boid>, t: Seq<Boid>, step: int) -> bool {
    &&& t.len() == s.len()
    &&& forall|i: int|
        0 <= i < s.len() ==> {
            &&& (#[trigger] t[i]).position == s[i].position
            &&& abs(t[i].direction.x - s[i].direction.x) <= step
            &&& abs(t[i].direction.y - s[i].direction.y) <= step
        }
}

/// Each component of `after` is at most that of `before`, or at most `ONE`, in
/// magnitude.
pub open spec fn no_wider(before: Vec2, after: Vec2) -> bool {
    &&& abs(after.x as int) <= abs(before.x as int) || abs(after.x as int) <= ONE
    &&& abs(after.y as int) <= abs(before.y as int) || abs(after.y as int) <= ONE
}

/// Separation: each agent in a crowded separation disc turns away from the disc's
/// centroid by `separation_rate`. Every agent reads the flock as it was before
/// the stage.
pub fn separation(boids: &mut Vec<Boid>, cfg: &Config)
    requires
        flock_wf(old(boids)@),
        cfg.wf(),
    ensures
        final(boids)@ == separated(old(boids)@, *cfg),
        steered_within(old(boids)@, final(boids)@, ONE as int),
{
    let mut next: Vec<Boid> = Vec::new();
    let mut i: usize = 0;
    while i < boids.len()
        invariant
            i <= boids.len(),
            flock_wf(boids@),
            cfg.wf(),
            next@.len() == i,
            forall|k: int| 0 <= k < i ==> next@[k] == #[trigger] separated(boids@, *cfg)[k],
            steered_within(boids@.take(i as int), next@, ONE as int),
        decreases boids.len() - i,
    {
        let b = boids[i];
        assert(boid_within(boids@[i as int], COORD_LIMIT as int, HEADING_LIMIT as int));
        let g = get_group(boids, b.position, cfg.separation_range);
        let mut d = b.direction;
        if g.len() as u64 > cfg.max_neighbors {
            proof {
                lemma_group_within(
                    boids@,
                    b.position,
                    cfg.separation_range as int,
                    COORD_LIMIT as int,
                    HEADING_LIMIT as int,
                );
            }
            let c = mean_position(&g);
            let delta = normalize(Vec2 { x: c.x - b.position.x, y: c.y - b.position.y });
            d =
            Vec2 {
                x: b.direction.x - scale(delta.x, cfg.separation_rate),
                y: b.direction.y - scale(delta.y, cfg.separation_rate),
            };
        }
        next.push(Boid { position: b.position, direction: d });
        i = i + 1;
    }
    assert(boids@.take(boids.len() as int) =~= boids@);
    assert(next@ =~= separated(boids@, *cfg));
    std::mem::swap(boids, &mut next);
}

/// Cohesion: each agent turns toward the centroid of the agents within the
/// cohesion range by `cohesion_rate`. Every agent reads the flock as it was before
/// the stage.
pub fn cohesion(boids: &mut Vec<Boid>, cfg: &Config)
    requires
        flock_wf(old(boids)@),
        cfg.wf(),
    ensures
        final(boids)@ == cohered(old(boids)@, *cfg),
        steered_within(old(boids)@, final(boids)@, ONE as int),
{
    let mut next: Vec<Boid> = Vec::new();
    let mut i: usize = 0;
    while i < boids.len()
        invariant
            i <= boids.len(),
            flock_wf(boids@),
            cfg.wf(),
            next@.len() == i,
            forall|k: int| 0 <= k < i ==> next@[k] == #[trigger] cohered(boids@, *cfg)[k],
            steered_within(boids@.take(i as int), next@, ONE as int),
        decreases boids.len() - i,
    {
        let b = boids[i];
        assert(boid_within(boids@[i as int], COORD_LIMIT as int, HEADING_LIMIT as int));
        let g = get_group(boids, b.position, cfg.cohesion_range);
        proof {
            lemma_group_within(
                boids@,
                b.position,
                cfg.cohesion_range as int,
                COORD_LIMIT as int,
                HEADING_LIMIT as int,
            );
            crate::flock::lemma_in_own_range(b.position, cfg.cohesion_range as int);
            crate::flock::lemma_group_not_empty(
                boids@,
                b.position,
                cfg.cohesion_range as int,
                i as int,
            );
        }
        let c = mean_position(&g);
        let delta = normalize(Vec2 { x: c.x - b.position.x, y: c.y - b.position.y });
        let d = Vec2 {
            x: b.direction.x + scale(delta.x, cfg.cohesion_rate),
            y: b.direction.y + scale(delta.y, cfg.cohesion_rate),
        };
        next.push(Boid { position: b.position, direction: d });
        i = i + 1;
    }
    assert(boids@.take(boids.len() as int) =~= boids@);
    assert(next@ =~= cohered(boids@, *cfg));
    std::mem::swap(boids, &mut next);
}

/// Alignment: each agent turns toward the normalized mean heading of the agents
/// within the alignment range by `alignment_rate`. Every agent reads the flock as
/// it was before the stage. A heading component ends between its old value and
/// the mean's, so it grows past neither that old value nor `ONE`.
pub fn alignment(boids: &mut Vec<Boid>, cfg: &Config)
    requires
        flock_wf(old(boids)@),
        cfg.wf(),
    ensures
        final(boids)@ == aligned(old(boids)@, *cfg),
        final(boids)@.len() == old(boids)@.len(),
        forall|i: int|
            0 <= i < old(boids)@.len() ==> {
                &&& (#[trigger] final(boids)@[i]).position == old(boids)@[i].position
                &&& no_wider(old(boids)@[i].direction, final(boids)@[i].direction)
            },
{
    let mut next: Vec<Boid> = Vec::new();
    let mut i: usize = 0;
    while i < boids.len()
        invariant
            i <= boids.len(),
            flock_wf(boids@),
            cfg.wf(),
            next@.len() == i,
            forall|k: int| 0 <= k < i ==> next@[k] == #[trigger] aligned(boids@, *cfg)[k],
            forall|k: int|
                0 <= k < i ==> {
                    &&& (#[trigger] next@[k]).position == boids@[k].position
                    &&& no_wider(boids@[k].direction, next@[k].direction)
                },
        decreases boids.len() - i,
    {
        let b = boids[i];
        assert(boid_within(boids@[i as int], COORD_LIMIT as int, HEADING_LIMIT as int));
        let g = get_group(boids, b.position, cfg.alignment_range);
        proof {
            lemma_group_within(
                boids@,
                b.position,
                cfg.alignment_range as int,
                COORD_LIMIT as int,
                HEADING_LIMIT as int,
            );
            crate::flock::lemma_in_own_range(b.position, cfg.alignment_range as int);
            crate::flock::lemma_group_not_empty(
                boids@,
                b.position,
                cfg.alignment_range as int,
                i as int,
            );
        }
        let m = mean_direction(&g);
        let a = normalize(m);
        let d = Vec2 {
            x: b.direction.x + scale(a.x - b.direction.x, cfg.alignment_rate),
            y: b.direction.y + scale(a.y - b.direction.y, cfg.alignment_rate),
        };
        next.push(Boid { position: b.position, direction: d });
        i = i + 1;
    }
    assert(next@ =~= aligned(boids@, *cfg));
    std::mem::swap(boids, &mut next);
}

} // verus!
