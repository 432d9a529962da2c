use crate::flock::{Boid, Bounds};
use crate::geometry::{within, Vec2, ONE};
use rand::Rng;
use vstd::prelude::*;

verus! {

/// Relies on `rand::Rng::gen_range` on the thread-local generator of
/// `rand::thread_rng`: a value drawn from the inclusive range `low..=high`, which
/// must not be empty.
#[verifier::external_body]
fn random_between(low: i64, high: i64) -> (r: i64)
    requires
        low <= high,
    ensures
        low <= r <= high,
{
    rand::thread_rng().gen_range(low..=high)
}

/// `chaos` holds `n` perturbations, each component at most `magnitude` in size.
pub open spec fn chaos_fits(chaos: Seq<Vec2>, n: int, magnitude: int) -> bool {
    &&& chaos.len() == n
    &&& forall|i: int| 0 <= i < n ==> within(#[trigger] chaos[i], magnitude)
}

/// Draws `n` heading perturbations, each component uniform over
/// `-magnitude..=magnitude`.
pub fn draw_chaos(n: usize, magnitude: i64) -> (r: Vec<Vec2>)
    requires
        0 <= magnitude <= ONE,
    ensures
        chaos_fits(r@, n as int, magnitude as int),
{
    let mut r: Vec<Vec2> = Vec::new();
    let mut i: usize = 0;
    while i < n
        invariant
            i <= n,
            0 <= magnitude <= ONE,
            chaos_fits(r@, i as int, magnitude as int),
        decreases n - i,
    {
        let x = random_between(-magnitude, magnitude);
        let y = random_between(-magnitude, magnitude);
        r.push(Vec2 { x, y });
        i = i + 1;
    }
    r
}

/// A flock of `n` agents placed uniformly over the plane, with heading components
/// drawn uniformly from `-ONE..=ONE` (not normalized).
pub fn random_flock(n: usize, bounds: &Bounds) -> (r: Vec<Boid>)
    requires
        bounds.wf(),
    ensures
        r@.len() == n,
        forall|i: int|
            0 <= i < n ==> {
                &&& 0 <= (#[trigger] r@[i]).position.x < bounds.width
                &&& 0 <= r@[i].position.y < bounds.height
                &&& within(r@[i].direction, ONE as int)
            },
{
    let mut r: Vec<Boid> = Vec::new();
    let mut i: usize = 0;
    while i < n
        invariant
            i <= n,
            bounds.wf(),
            r@.len() == i,
            forall|k: int|
                0 <= k < i ==> {
                    &&& 0 <= (#[trigger] r@[k]).position.x < bounds.width
                    &&& 0 <= r@[k].position.y < bounds.height
                    &&& within(r@[k].direction, ONE as int)
                },
        decreases n - i,
    {
        let px = random_between(0, bounds.width - 1);
        let py = random_between(0, bounds.height - 1);
        let hx = random_between(-ONE, ONE);
        let hy = random_between(-ONE, ONE);
        r.push(Boid { position: Vec2 { x: px, y: py }, direction: Vec2 { x: hx, y: hy } });
        i = i + 1;
    }
    r
}

} // verus!
