use boids::flock::{
    cast_tuple, distance_squared, get_group, mean_direction, mean_position, Boid, Bounds, Config,
    BOIDS_ALIGNMENT_RATE, BOIDS_CHAOS, BOIDS_COHESION_RANGE, BOIDS_COHESION_RATE,
    BOIDS_SEPARATION_RATE, BOIDS_SIZE,
};
use boids::geometry::{isqrt, normalize, scale, Vec2, ONE};
use boids::integrator::{integrate, simulate, tick};
use boids::projector::{rotate_point, update_vertices, Vertex, HALF_SQRT3};
use boids::random::{draw_chaos, random_flock};
use boids::steering::{alignment, cohesion, separation};

fn v(x: i64, y: i64) -> Vec2 {
    Vec2 { x, y }
}

fn boid(px: i64, py: i64, hx: i64, hy: i64) -> Boid {
    Boid { position: v(px, py), direction: v(hx, hy) }
}

fn zero_chaos(n: usize) -> Vec<Vec2> {
    vec![v(0, 0); n]
}

#[test]
fn isqrt_rounds_down() {
    assert_eq!(isqrt(0), 0);
    assert_eq!(isqrt(1), 1);
    assert_eq!(isqrt(15), 3);
    assert_eq!(isqrt(16), 4);
    assert_eq!(isqrt(17), 4);
    assert_eq!(isqrt(u128::MAX), u64::MAX as u128);
}

#[test]
fn normalize_zero_is_zero() {
    assert_eq!(normalize(v(0, 0)), v(0, 0));
}

#[test]
fn normalize_axis_and_triangle() {
    assert_eq!(normalize(v(3 * ONE, 0)), v(ONE, 0));
    assert_eq!(normalize(v(0, -7)), v(0, -ONE));
    assert_eq!(normalize(v(3 * ONE, 4 * ONE)), v(39321, 52428));
    assert_eq!(normalize(v(-3 * ONE, -4 * ONE)), v(-39321, -52428));
    assert_eq!(normalize(v(1, 1)), v(46341, 46341));
}

#[test]
fn scale_rounds_toward_zero() {
    assert_eq!(scale(3, ONE / 2), 1);
    assert_eq!(scale(-3, ONE / 2), -1);
    assert_eq!(scale(ONE, BOIDS_COHESION_RATE), BOIDS_COHESION_RATE);
    assert_eq!(scale(-ONE, ONE), -ONE);
}

#[test]
fn distance_squared_exact() {
    assert_eq!(distance_squared(v(0, 0), v(3, 4)), 25);
    assert_eq!(distance_squared(v(-3, -4), v(0, 0)), 25);
}

#[test]
fn neighbor_query_includes_boundary_and_keeps_order() {
    let flock = vec![
        boid(10 * ONE, 0, 0, 0),
        boid(0, 0, 0, 0),
        boid(11 * ONE, 0, 0, 0),
        boid(0, -10 * ONE, 0, 0),
    ];
    let g = get_group(&flock, v(0, 0), 10 * ONE);
    assert_eq!(g, vec![flock[0], flock[1], flock[3]]);
    let g = get_group(&flock, v(5 * ONE, 0), 0);
    assert!(g.is_empty());
    let g = get_group(&flock, v(0, 0), 0);
    assert_eq!(g, vec![flock[1]]);
}

#[test]
fn means_round_toward_zero() {
    let g = vec![boid(-1, 3, -5, 7), boid(0, 4, 0, 0)];
    assert_eq!(mean_position(&g), v(0, 3));
    assert_eq!(mean_direction(&g), v(-2, 3));
}

#[test]
fn two_agent_cohesion_scenario() {
    let cfg = Config::nominal();
    assert_eq!(cfg.cohesion_range, BOIDS_COHESION_RANGE);
    assert_eq!(BOIDS_COHESION_RANGE, 100 * ONE);
    let mut flock = vec![boid(0, 0, ONE, 0), boid(10 * ONE, 0, ONE, 0)];
    cohesion(&mut flock, &cfg);
    assert_eq!(flock[0].direction, v(ONE + BOIDS_COHESION_RATE, 0));
    assert_eq!(flock[1].direction, v(ONE - BOIDS_COHESION_RATE, 0));
    assert_eq!(flock[0].position, v(0, 0));
    assert_eq!(flock[1].position, v(10 * ONE, 0));
}

#[test]
fn wrap_low_edge_scenario() {
    let bounds = cast_tuple(800, 600);
    let cfg = Config::nominal();
    let mut flock = vec![boid(-ONE / 2, 300 * ONE, 0, 0)];
    integrate(&mut flock, &bounds, &cfg, &zero_chaos(1));
    assert_eq!(flock[0].position, v(799 * ONE, 300 * ONE));
    assert_eq!(flock[0].direction, v(0, 0));
}

#[test]
fn wrap_high_edge_resets_to_zero() {
    let bounds = cast_tuple(800, 600);
    let cfg = Config::nominal();
    let mut flock = vec![boid(800 * ONE - 1, 600 * ONE - 1, ONE, ONE)];
    integrate(&mut flock, &bounds, &cfg, &zero_chaos(1));
    assert_eq!(flock[0].position, v(0, 0));
    assert_eq!(flock[0].direction, v(46340, 46340));
}

#[test]
fn integrate_normalizes_perturbed_heading_and_moves_along_it() {
    let bounds = cast_tuple(800, 600);
    let cfg = Config::nominal();
    let mut flock = vec![boid(100 * ONE, 100 * ONE, 3 * ONE - 10, 4 * ONE + 10)];
    integrate(&mut flock, &bounds, &cfg, &vec![v(10, -10)]);
    assert_eq!(flock[0].direction, v(39321, 52428));
    assert_eq!(flock[0].position, v(100 * ONE + 78642, 100 * ONE + 104856));
}

#[test]
fn separation_pushes_crowded_agents_apart() {
    let cfg = Config::nominal();
    let mut flock: Vec<Boid> = (0..6).map(|i| boid((100 + i) * ONE, 100 * ONE, 0, 0)).collect();
    separation(&mut flock, &cfg);
    assert_eq!(flock[0].direction, v(-BOIDS_SEPARATION_RATE, 0));
    assert_eq!(flock[2].direction, v(-BOIDS_SEPARATION_RATE, 0));
    assert_eq!(flock[3].direction, v(BOIDS_SEPARATION_RATE, 0));
    assert_eq!(flock[5].direction, v(BOIDS_SEPARATION_RATE, 0));
    for i in 0..6 {
        assert_eq!(flock[i].position, v((100 + i as i64) * ONE, 100 * ONE));
    }
}

#[test]
fn separation_leaves_sparse_agents_alone() {
    let cfg = Config::nominal();
    let mut flock: Vec<Boid> = (0..5).map(|i| boid((100 + i) * ONE, 100 * ONE, ONE, 7)).collect();
    let before = flock.clone();
    separation(&mut flock, &cfg);
    assert_eq!(flock, before);
}

#[test]
fn isolated_agent_is_not_steered() {
    let cfg = Config::nominal();
    let start = vec![boid(10 * ONE, 10 * ONE, ONE, 0), boid(500 * ONE, 500 * ONE, 0, -ONE)];
    let mut flock = start.clone();
    separation(&mut flock, &cfg);
    assert_eq!(flock, start);
    cohesion(&mut flock, &cfg);
    assert_eq!(flock, start);
    alignment(&mut flock, &cfg);
    assert_eq!(flock, start);
}

#[test]
fn alignment_turns_toward_mean_heading() {
    let cfg = Config::nominal();
    assert_eq!(cfg.alignment_rate, BOIDS_ALIGNMENT_RATE);
    let mut flock = vec![boid(0, 0, ONE, 0), boid(ONE, 0, 0, ONE)];
    alignment(&mut flock, &cfg);
    assert_eq!(flock[0].direction, v(63617, 4634));
    assert_eq!(flock[1].direction, v(4634, 63617));
}

#[test]
fn rotate_point_quarter_turn() {
    assert_eq!(rotate_point(v(ONE, 0), v(0, 0), v(0, ONE)), v(0, ONE));
    assert_eq!(rotate_point(v(5, 7), v(5, 7), v(0, ONE)), v(5, 7));
    assert_eq!(rotate_point(v(2 * ONE, ONE), v(ONE, ONE), v(-ONE, 0)), v(0, ONE));
}

#[test]
fn projector_triangle_for_plain_heading() {
    let flock = vec![boid(100 * ONE, 50 * ONE, ONE, 0)];
    let mut vertices = Vec::new();
    update_vertices(&flock, &mut vertices, BOIDS_SIZE);
    let p = v(100 * ONE, 50 * ONE);
    assert_eq!(
        vertices,
        vec![
            Vertex { position: p },
            Vertex { position: v(p.x - BOIDS_SIZE, p.y - BOIDS_SIZE / 2) },
            Vertex { position: v(p.x - BOIDS_SIZE, p.y + BOIDS_SIZE / 2) },
        ]
    );
}

#[test]
fn projector_turns_with_heading() {
    let flock = vec![boid(100 * ONE, 50 * ONE, 0, 3 * ONE), boid(7 * ONE, 8 * ONE, 0, 0)];
    let mut vertices = vec![Vertex::default(); 1];
    update_vertices(&flock, &mut vertices, BOIDS_SIZE);
    assert_eq!(vertices.len(), 6);
    let p = v(100 * ONE, 50 * ONE);
    assert_eq!(vertices[0].position, v(p.x - HALF_SQRT3, p.y + HALF_SQRT3));
    assert_eq!(
        vertices[1].position,
        v(p.x - HALF_SQRT3 + BOIDS_SIZE / 2, p.y + HALF_SQRT3 - BOIDS_SIZE)
    );
    assert_eq!(vertices[3].position, v(7 * ONE, 8 * ONE));
    assert_eq!(vertices[5].position, v(7 * ONE - BOIDS_SIZE, 8 * ONE + BOIDS_SIZE / 2));
}

#[test]
fn projector_is_repeatable() {
    let bounds = cast_tuple(640, 480);
    let flock = random_flock(40, &bounds);
    let mut first = Vec::new();
    let mut second = vec![Vertex::default(); 7];
    update_vertices(&flock, &mut first, BOIDS_SIZE);
    update_vertices(&flock, &mut second, BOIDS_SIZE);
    assert_eq!(first, second);
    assert_eq!(first.len(), 120);
}

#[test]
fn ticks_keep_population_and_bounds() {
    let bounds = cast_tuple(320, 240);
    let cfg = Config::nominal();
    let mut flock = random_flock(60, &bounds);
    for _ in 0..15 {
        tick(&mut flock, &bounds, &cfg);
        assert_eq!(flock.len(), 60);
        for b in &flock {
            assert!(0 <= b.position.x && b.position.x < bounds.width);
            assert!(0 <= b.position.y && b.position.y < bounds.height);
            assert!(b.direction.x.abs() <= ONE && b.direction.y.abs() <= ONE);
        }
    }
}

#[test]
fn simulate_keeps_agents_on_plane() {
    let bounds = Bounds { width: 10 * ONE, height: 10 * ONE };
    let cfg = Config::nominal();
    let mut flock = vec![boid(0, 0, -ONE, -ONE), boid(10 * ONE - 1, 5 * ONE, ONE, 0)];
    simulate(&mut flock, &bounds, &cfg);
    assert_eq!(flock.len(), 2);
    assert_eq!(flock[0].position, v(9 * ONE, 9 * ONE));
    assert_eq!(flock[1].position.x, 0);
}

#[test]
fn random_flock_lies_on_plane() {
    let bounds = cast_tuple(800, 600);
    let flock = random_flock(200, &bounds);
    assert_eq!(flock.len(), 200);
    for b in &flock {
        assert!(0 <= b.position.x && b.position.x < bounds.width);
        assert!(0 <= b.position.y && b.position.y < bounds.height);
        assert!(b.direction.x.abs() <= ONE && b.direction.y.abs() <= ONE);
    }
    assert!(flock.iter().any(|b| b.position != flock[0].position));
}

#[test]
fn chaos_stays_within_magnitude() {
    let chaos = draw_chaos(500, BOIDS_CHAOS);
    assert_eq!(chaos.len(), 500);
    for c in &chaos {
        assert!(c.x.abs() <= BOIDS_CHAOS && c.y.abs() <= BOIDS_CHAOS);
    }
    assert!(chaos.iter().any(|c| *c != v(-BOIDS_CHAOS, -BOIDS_CHAOS)));
    assert_eq!(draw_chaos(3, 0), zero_chaos(3));
}

#[test]
fn nominal_configuration_and_defaults() {
    let cfg = Config::nominal();
    assert_eq!(cfg.velocity, 2 * ONE);
    assert_eq!(cfg.separation_range, 20 * ONE);
    assert_eq!(cfg.alignment_range, 25 * ONE);
    assert_eq!(cfg.separation_rate, ONE / 4);
    assert_eq!(cfg.max_neighbors, 5);
    assert_eq!(cfg.size, 10 * ONE);
    assert_eq!(Boid::default(), boid(0, 0, 0, 0));
    assert_eq!(Vertex::default().position, v(0, 0));
    let b = cast_tuple(1920, 1080);
    assert_eq!(b, Bounds { width: 1920 * ONE, height: 1080 * ONE });
}
