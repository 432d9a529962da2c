use crate::geometry::{abs, div_trunc, within, Vec2, ONE};
use vstd::arithmetic::div_mod::{lemma_div_by_multiple, lemma_div_is_ordered};
use vstd::prelude::*;

verus! {

/// Largest magnitude of a position component, and of a heading component at the
/// start of a tick.
pub const COORD_LIMIT: i64 = 1099511627776;

/// Largest magnitude of a heading component that a steering stage accepts.
pub const HEADING_LIMIT: i64 = 2199023255552;

/// Largest radius, speed or agent size that a configuration may hold.
pub const RANGE_LIMIT: i64 = 1099511627776;

/// Nominal speed: two units per tick.
pub const BOIDS_VELOCITY: i64 = 131072;

/// Nominal alignment radius: 25 units.
pub const BOIDS_ALIGNMENT_RANGE: i64 = 1638400;

/// Nominal cohesion radius: 100 units.
pub const BOIDS_COHESION_RANGE: i64 = 6553600;

/// Nominal separation radius: 20 units.
pub const BOIDS_SEPARATION_RANGE: i64 = 1310720;

/// Nominal separation rate: a quarter of a unit heading.
pub const BOIDS_SEPARATION_RATE: i64 = 16384;

/// Nominal cohesion rate: 0.005 of a unit heading, rounded to the nearest step.
pub const BOIDS_COHESION_RATE: i64 = 328;

/// Nominal alignment rate: 0.1 of a unit heading, rounded to the nearest step.
pub const BOIDS_ALIGNMENT_RATE: i64 = 6554;

/// Nominal density threshold: five agents per separation disc.
pub const BOIDS_MAX_NEIGHBORS: u64 = 5;

/// Nominal chaos magnitude: 0.01 of a unit heading, rounded to the nearest step.
pub const BOIDS_CHAOS: i64 = 655;

/// Nominal agent size: ten units.
pub const BOIDS_SIZE: i64 = 655360;

/// Nominal population.
pub const BOIDS_NUMBER: usize = 300;

/// One agent: where it is and where it is heading, in fixed-point steps.
#[derive(Clone, Copy, PartialEq, Eq, Structural, Debug)]
pub struct Boid {
    pub position: Vec2,
    pub direction: Vec2,
}

impl Default for Boid {
    fn default() -> (r: Boid)
        ensures
            r == (Boid { position: Vec2 { x: 0, y: 0 }, direction: Vec2 { x: 0, y: 0 } }),
    {
        Boid { position: Vec2 { x: 0, y: 0 }, direction: Vec2 { x: 0, y: 0 } }
    }
}

/// The tunable parameters of the simulation. Ranges, speed and size are in
/// fixed-point units; rates and chaos are fractions of `ONE`.
#[derive(Clone, Copy, PartialEq, Eq, Structural, Debug)]
pub struct Config {
    pub velocity: i64,
    pub alignment_range: i64,
    pub cohesion_range: i64,
    pub separation_range: i64,
    pub separation_rate: i64,
    pub cohesion_rate: i64,
    pub alignment_rate: i64,
    /// Separation acts when more than this many agents share a separation disc,
    /// the agent itself included: the density threshold times the disc's area.
    pub max_neighbors: u64,
    pub chaos: i64,
    pub size: i64,
}

impl Config {
    pub open spec fn wf(self) -> bool {
        &&& 0 <= self.velocity <= RANGE_LIMIT
        &&& 0 <= self.alignment_range <= RANGE_LIMIT
        &&& 0 <= self.cohesion_range <= RANGE_LIMIT
        &&& 0 <= self.separation_range <= RANGE_LIMIT
        &&& 0 <= self.separation_rate <= ONE
        &&& 0 <= self.cohesion_rate <= ONE
        &&& 0 <= self.alignment_rate <= ONE
        &&& 0 <= self.chaos <= ONE
        &&& 0 <= self.size <= RANGE_LIMIT
    }

    /// The nominal parameters.
    pub fn nominal() -> (r: Config)
        ensures
            r.wf(),
            r.velocity == BOIDS_VELOCITY,
            r.alignment_range == BOIDS_ALIGNMENT_RANGE,
            r.cohesion_range == BOIDS_COHESION_RANGE,
            r.separation_range == BOIDS_SEPARATION_RANGE,
            r.separation_rate == BOIDS_SEPARATION_RATE,
            r.cohesion_rate == BOIDS_COHESION_RATE,
            r.alignment_rate == BOIDS_ALIGNMENT_RATE,
            r.max_neighbors == BOIDS_MAX_NEIGHBORS,
            r.chaos == BOIDS_CHAOS,
            r.size == BOIDS_SIZE,
    {
        Config {
            velocity: BOIDS_VELOCITY,
            alignment_range: BOIDS_ALIGNMENT_RANGE,
            cohesion_range: BOIDS_COHESION_RANGE,
            separation_range: BOIDS_SEPARATION_RANGE,
            separation_rate: BOIDS_SEPARATION_RATE,
            cohesion_rate: BOIDS_COHESION_RATE,
            alignment_rate: BOIDS_ALIGNMENT_RATE,
            max_neighbors: BOIDS_MAX_NEIGHBORS,
            chaos: BOIDS_CHAOS,
            size: BOIDS_SIZE,
        }
    }
}

/// The extent of the wrap-around plane, in fixed-point steps.
#[derive(Clone, Copy, PartialEq, Eq, Structural, Debug)]
pub struct Bounds {
    pub width: i64,
    pub height: i64,
}

impl Bounds {
    /// The plane holds at least one unit on each axis, since an agent leaving it
    /// below zero re-enters one unit short of the far edge.
    pub open spec fn wf(self) -> bool {
        ONE <= self.width <= COORD_LIMIT && ONE <= self.height <= COORD_LIMIT
    }
}

/// Turns a screen size in whole pixels into plane bounds.
pub fn cast_tuple(width: u32, height: u32) -> (r: Bounds)
    requires
        1 <= width <= 16777216,
        1 <= height <= 16777216,
    ensures
        r.width == width * ONE,
        r.height == height * ONE,
        r.wf(),
{
    Bounds { width: width as i64 * ONE, height: height as i64 * ONE }
}

/// Position and heading components lie within the given limits.
pub open spec fn boid_within(b: Boid, position_limit: int, heading_limit: int) -> bool {
    within(b.position, position_limit) && within(b.direction, heading_limit)
}

/// Every agent of `s` lies within the given limits.
pub open spec fn flock_within(s: Seq<Boid>, position_limit: int, heading_limit: int) -> bool {
    forall|i: int| 0 <= i < s.len() ==> boid_within(#[trigger] s[i], position_limit, heading_limit)
}

/// A flock that a steering stage accepts.
pub open spec fn flock_wf(s: Seq<Boid>) -> bool {
    flock_within(s, COORD_LIMIT as int, HEADING_LIMIT as int)
}

pub open spec fn distance_squared_spec(a: Vec2, b: Vec2) -> int {
    (a.x - b.x) * (a.x - b.x) + (a.y - b.y) * (a.y - b.y)
}

/// `p` lies at Euclidean distance at most `range` from `center`.
pub open spec fn in_range(p: Vec2, center: Vec2, range: int) -> bool {
    distance_squared_spec(p, center) <= range * range
}

/// The agents of `s` within `range` of `center`, in flock order.
pub open spec fn group(s: Seq<Boid>, center: Vec2, range: int) -> Seq<Boid>
    decreases s.len(),
{
    if s.len() == 0 {
        Seq::empty()
    } else {
        let g = group(s.drop_last(), center, range);
        if in_range(s.last().position, center, range) {
            g.push(s.last())
        } else {
            g
        }
    }
}

/// The sums of the positions of `g`, per axis.
pub open spec fn position_sum(g: Seq<Boid>) -> (int, int)
    decreases g.len(),
{
    if g.len() == 0 {
        (0, 0)
    } else {
        let t = position_sum(g.drop_last());
        (t.0 + g.last().position.x, t.1 + g.last().position.y)
    }
}

/// The sums of the headings of `g`, per axis.
pub open spec fn direction_sum(g: Seq<Boid>) -> (int, int)
    decreases g.len(),
{
    if g.len() == 0 {
        (0, 0)
    } else {
        let t = direction_sum(g.drop_last());
        (t.0 + g.last().direction.x, t.1 + g.last().direction.y)
    }
}

/// The mean of a sum over `n` items, per axis, rounded toward zero.
pub open spec fn mean(sum: (int, int), n: int) -> Vec2 {
    Vec2 { x: div_trunc(sum.0, n) as i64, y: div_trunc(sum.1, n) as i64 }
}

/// The centroid of the positions of `g`.
pub open spec fn centroid(g: Seq<Boid>) -> Vec2 {
    mean(position_sum(g), g.len() as int)
}

/// The mean heading of `g`.
pub open spec fn mean_heading(g: Seq<Boid>) -> Vec2 {
    mean(direction_sum(g), g.len() as int)
}

/// The squared distance between `a` and `b`.
pub fn distance_squared(a: Vec2, b: Vec2) -> (r: u128)
    requires
        within(a, HEADING_LIMIT as int),
        within(b, HEADING_LIMIT as int),
    ensures
        r == distance_squared_spec(a, b),
{
    let dx = a.x as i128 - b.x as i128;
    let dy = a.y as i128 - b.y as i128;
    assert(0 <= dx * dx <= 0x1000_0000_0000_0000_0000_0000int) by (nonlinear_arith)
        requires
            -0x400_0000_0000 <= dx <= 0x400_0000_0000,
    ;
    assert(0 <= dy * dy <= 0x1000_0000_0000_0000_0000_0000int) by (nonlinear_arith)
        requires
            -0x400_0000_0000 <= dy <= 0x400_0000_0000,
    ;
    (dx * dx + dy * dy) as u128
}

/// Every agent of `boids` within `range` of `center` (boundary included), in flock
/// order.
pub fn get_group(boids: &Vec<Boid>, center: Vec2, range: i64) -> (r: Vec<Boid>)
    requires
        flock_wf(boids@),
        within(center, COORD_LIMIT as int),
        0 <= range <= RANGE_LIMIT,
    ensures
        r@ == group(boids@, center, range as int),
{
    let mut result: Vec<Boid> = Vec::new();
    assert(range * range <= 0x1_0000_0000_0000_0000_0000int) by (nonlinear_arith)
        requires
            0 <= range <= RANGE_LIMIT,
    ;
    let r2: u128 = (range as u128) * (range as u128);
    let mut i: usize = 0;
    while i < boids.len()
        invariant
            i <= boids.len(),
            flock_wf(boids@),
            within(center, COORD_LIMIT as int),
            r2 == range * range,
            result@ == group(boids@.take(i as int), center, range as int),
        decreases boids.len() - i,
    {
        let b = boids[i];
        assert(boids@.take(i + 1).drop_last() =~= boids@.take(i as int));
        assert(boid_within(boids@[i as int], COORD_LIMIT as int, HEADING_LIMIT as int));
        if distance_squared(b.position, center) <= r2 {
            result.push(b);
        }
        i = i + 1;
    }
    assert(boids@.take(boids.len() as int) =~= boids@);
    result
}

/// A group drawn from a flock holds only agents of that flock's limits.
pub proof fn lemma_group_within(s: Seq<Boid>, center: Vec2, range: int, pl: int, hl: int)
    requires
        flock_within(s, pl, hl),
    ensures
        flock_within(group(s, center, range), pl, hl),
        group(s, center, range).len() <= s.len(),
    decreases s.len(),
{
    if s.len() > 0 {
        assert(flock_within(s.drop_last(), pl, hl)) by {
            assert forall|i: int| 0 <= i < s.drop_last().len() implies boid_within(
                #[trigger] s.drop_last()[i],
                pl,
                hl,
            ) by {
                assert(s.drop_last()[i] == s[i]);
            }
        }
        lemma_group_within(s.drop_last(), center, range, pl, hl);
        assert(boid_within(s[s.len() - 1], pl, hl));
    }
}

/// An agent within range of the center belongs to the group, which is then not
/// empty.
pub proof fn lemma_group_not_empty(s: Seq<Boid>, center: Vec2, range: int, i: int)
    requires
        0 <= i < s.len(),
        in_range(s[i].position, center, range),
    ensures
        group(s, center, range).len() >= 1,
    decreases s.len(),
{
    if i < s.len() - 1 {
        assert(s.drop_last()[i] == s[i]);
        lemma_group_not_empty(s.drop_last(), center, range, i);
    }
}

/// An agent is within any non-negative range of its own position.
pub proof fn lemma_in_own_range(p: Vec2, range: int)
    requires
        range >= 0,
    ensures
        in_range(p, p, range),
{
    assert(range * range >= 0) by (nonlinear_arith);
}

/// `sum / n` rounded toward zero, where the sum is over `n` values of at most
/// `limit` in magnitude.
fn mean_component(sum: i128, n: usize, limit: i64) -> (r: i64)
    requires
        n >= 1,
        0 <= limit <= HEADING_LIMIT,
        abs(sum as int) <= n * limit,
    ensures
        r == div_trunc(sum as int, n as int),
        abs(r as int) <= limit,
{
    assert(n * limit <= 0x1_0000_0000_0000_0000 * HEADING_LIMIT) by (nonlinear_arith)
        requires
            1 <= n <= usize::MAX,
            0 <= limit <= HEADING_LIMIT,
    ;
    let a: u128 = if sum >= 0 { sum as u128 } else { (-sum) as u128 };
    let q: u128 = a / (n as u128);
    proof {
        lemma_div_is_ordered(a as int, n * limit, n as int);
        lemma_div_by_multiple(limit as int, n as int);
        assert(n * limit == limit * n) by (nonlinear_arith);
    }
    if sum >= 0 {
        q as i64
    } else {
        -(q as i64)
    }
}

/// The centroid of a non-empty group's positions.
pub fn mean_position(g: &Vec<Boid>) -> (r: Vec2)
    requires
        g@.len() >= 1,
        flock_wf(g@),
    ensures
        r == centroid(g@),
        within(r, COORD_LIMIT as int),
{
    let mut sx: i128 = 0;
    let mut sy: i128 = 0;
    let mut i: usize = 0;
    while i < g.len()
        invariant
            i <= g.len(),
            flock_wf(g@),
            (sx as int, sy as int) == position_sum(g@.take(i as int)),
            abs(sx as int) <= i * COORD_LIMIT,
            abs(sy as int) <= i * COORD_LIMIT,
        decreases g.len() - i,
    {
        assert(g@.take(i + 1).drop_last() =~= g@.take(i as int));
        assert(boid_within(g@[i as int], COORD_LIMIT as int, HEADING_LIMIT as int));
        sx = sx + g[i].position.x as i128;
        sy = sy + g[i].position.y as i128;
        i = i + 1;
    }
    assert(g@.take(g.len() as int) =~= g@);
    Vec2 { x: mean_component(sx, g.len(), COORD_LIMIT), y: mean_component(sy, g.len(), COORD_LIMIT) }
}

/// The mean of a non-empty group's headings.
pub fn mean_direction(g: &Vec<Boid>) -> (r: Vec2)
    requires
        g@.len() >= 1,
        flock_wf(g@),
    ensures
        r == mean_heading(g@),
        within(r, HEADING_LIMIT as int),
{
    let mut sx: i128 = 0;
    let mut sy: i128 = 0;
    let mut i: usize = 0;
    while i < g.len()
        invariant
            i <= g.len(),
            flock_wf(g@),
            (sx as int, sy as int) == direction_sum(g@.take(i as int)),
            abs(sx as int) <= i * HEADING_LIMIT,
            abs(sy as int) <= i * HEADING_LIMIT,
        decreases g.len() - i,
    {
        assert(g@.take(i + 1).drop_last() =~= g@.take(i as int));
        assert(boid_within(g@[i as int], COORD_LIMIT as int, HEADING_LIMIT as int));
        sx = sx + g[i].direction.x as i128;
        sy = sy + g[i].direction.y as i128;
        i = i + 1;
    }
    assert(g@.take(g.len() as int) =~= g@);
    Vec2 {
        x: mean_component(sx, g.len(), HEADING_LIMIT),
        y: mean_component(sy, g.len(), HEADING_LIMIT),
    }
}

} // verus!
