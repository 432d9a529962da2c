use crate::flock::{boid_within, flock_wf, Boid, COORD_LIMIT, HEADING_LIMIT, RANGE_LIMIT};
use crate::geometry::{abs, div_toward_zero, div_trunc, normalize, normalized, within, Vec2, ONE};
use vstd::arithmetic::div_mod::lemma_fundamental_div_mod_converse;
use vstd::prelude::*;

verus! {

/// Half the square root of three, in fixed-point steps: how far behind an agent's
/// tip its triangle turns.
pub const HALF_SQRT3: i64 = 56756;

/// One corner of an agent's triangle.
#[derive(Clone, Copy, PartialEq, Eq, Structural, Debug)]
pub struct Vertex {
    pub position: Vec2,
}

impl Default for Vertex {
    fn default() -> (r: Vertex)
        ensures
            r == (Vertex { position: Vec2 { x: 0, y: 0 } }),
    {
        Vertex { position: Vec2 { x: 0, y: 0 } }
    }
}

/// The cosine and sine, times `ONE`, of the angle of heading `h` from the positive
/// x-axis; the zero heading has angle zero.
pub open spec fn heading_unit(h: Vec2) -> Vec2 {
    if h == (Vec2 { x: 0, y: 0 }) {
        Vec2 { x: ONE, y: 0 }
    } else {
        normalized(h)
    }
}

/// `p` turned about `c` by the angle whose cosine and sine, times `ONE`, are `u`.
pub open spec fn rotated(p: Vec2, c: Vec2, u: Vec2) -> Vec2 {
    let dx = p.x - c.x;
    let dy = p.y - c.y;
    Vec2 {
        x: (div_trunc(u.x * dx - u.y * dy, ONE as int) + c.x) as i64,
        y: (div_trunc(u.y * dx + u.x * dy, ONE as int) + c.y) as i64,
    }
}

/// Corner `j` of agent `b`'s triangle: the tip (`j == 0`) or one of the two back
/// corners, turned to the agent's heading about a point just behind the tip.
pub open spec fn corner(b: Boid, j: int, size: int) -> Vec2 {
    let p = b.position;
    let c = Vec2 { x: (p.x - HALF_SQRT3) as i64, y: p.y };
    let q = if j == 0 {
        p
    } else if j == 1 {
        Vec2 { x: (p.x - size) as i64, y: (p.y - size / 2) as i64 }
    } else {
        Vec2 { x: (p.x - size) as i64, y: (p.y + size / 2) as i64 }
    };
    rotated(q, c, heading_unit(b.direction))
}

/// The triangles of all agents, three corners each, in flock order.
pub open spec fn projected(s: Seq<Boid>, size: int) -> Seq<Vertex> {
    Seq::new(3 * s.len(), |k: int| Vertex { position: corner(s[k / 3], k % 3, size) })
}

/// Turns `p` about `center` by the angle whose cosine and sine, times `ONE`, are
/// `unit`.
pub fn rotate_point(p: Vec2, center: Vec2, unit: Vec2) -> (r: Vec2)
    requires
        within(p, HEADING_LIMIT as int),
        within(center, HEADING_LIMIT as int),
        within(unit, ONE as int),
    ensures
        r == rotated(p, center, unit),
{
    let dx = p.x as i128 - center.x as i128;
    let dy = p.y as i128 - center.y as i128;
    let ux = unit.x as i128;
    let uy = unit.y as i128;
    assert(abs(ux * dx) <= ONE * 0x400_0000_0000 && abs(uy * dy) <= ONE * 0x400_0000_0000
        && abs(uy * dx) <= ONE * 0x400_0000_0000 && abs(ux * dy) <= ONE * 0x400_0000_0000)
        by (nonlinear_arith)
        requires
            abs(dx as int) <= 0x400_0000_0000,
            abs(dy as int) <= 0x400_0000_0000,
            abs(ux as int) <= ONE,
            abs(uy as int) <= ONE,
    ;
    let rx = div_toward_zero(ux * dx - uy * dy, ONE as u128);
    let ry = div_toward_zero(uy * dx + ux * dy, ONE as u128);
    proof {
        vstd::arithmetic::div_mod::lemma_div_is_ordered(
            abs(ux * dx - uy * dy),
            ONE * 0x800_0000_0000,
            ONE as int,
        );
        vstd::arithmetic::div_mod::lemma_div_is_ordered(
            abs(uy * dx + ux * dy),
            ONE * 0x800_0000_0000,
            ONE as int,
        );
        vstd::arithmetic::div_mod::lemma_div_by_multiple(0x800_0000_0000, ONE as int);
    }
    Vec2 { x: (rx + center.x as i128) as i64, y: (ry + center.y as i128) as i64 }
}

/// Replaces `vertices` with the triangles of all agents, three corners per agent
/// in flock order; what `vertices` held before does not matter.
pub fn update_vertices(boids: &Vec<Boid>, vertices: &mut Vec<Vertex>, size: i64)
    requires
        flock_wf(boids@),
        0 <= size <= RANGE_LIMIT,
        3 * boids@.len() <= usize::MAX,
    ensures
        final(vertices)@ == projected(boids@, size as int),
{
    let mut out: Vec<Vertex> = Vec::new();
    let mut i: usize = 0;
    while i < boids.len()
        invariant
            i <= boids.len(),
            flock_wf(boids@),
            0 <= size <= RANGE_LIMIT,
            3 * boids@.len() <= usize::MAX,
            out@.len() == 3 * i,
            forall|k: int|
                0 <= k < 3 * i ==> out@[k] == #[trigger] projected(boids@, size as int)[k],
        decreases boids.len() - i,
    {
        let b = boids[i];
        assert(boid_within(boids@[i as int], COORD_LIMIT as int, HEADING_LIMIT as int));
        let unit = if b.direction.x == 0 && b.direction.y == 0 {
            Vec2 { x: ONE, y: 0 }
        } else {
            normalize(b.direction)
        };
        let p = b.position;
        let center = Vec2 { x: p.x - HALF_SQRT3, y: p.y };
        let half = size / 2;
        let back_left = Vec2 { x: p.x - size, y: p.y - half };
        let back_right = Vec2 { x: p.x - size, y: p.y + half };
        out.push(Vertex { position: rotate_point(p, center, unit) });
        out.push(Vertex { position: rotate_point(back_left, center, unit) });
        out.push(Vertex { position: rotate_point(back_right, center, unit) });
        proof {
            let t = 3 * i;
            lemma_fundamental_div_mod_converse(t, 3, i as int, 0);
            lemma_fundamental_div_mod_converse(t + 1, 3, i as int, 1);
            lemma_fundamental_div_mod_converse(t + 2, 3, i as int, 2);
            assert(out@[t] == projected(boids@, size as int)[t]);
            assert(out@[t + 1] == projected(boids@, size as int)[t + 1]);
            assert(out@[t + 2] == projected(boids@, size as int)[t + 2]);
        }
        i = i + 1;
    }
    assert(out@ =~= projected(boids@, size as int));
    std::mem::swap(vertices, &mut out);
}

} // verus!
