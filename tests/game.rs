use asteroids::{
    contains_handle, draw_asteroid, laser_out_of_bounds, sat_add, wrap_axis, wrap_position, Asteroid,
    AsteroidSize, Body, Cull, Dimensions, FireTimer, GameState, Laser, Level, Point, Role, Ship,
    Stopwatch, World, Wrapper, FIRE_COOLDOWN_MICROS,
};

fn laser_at(entity: u64, x: i64, y: i64) -> Body {
    Body {
        entity,
        role: Role::Laser(Laser),
        position: Point { x, y },
        velocity: Point { x: 0, y: 1000 },
        spin: 0,
        dimensions: Dimensions { width: 2, height: 10 },
        wrapper: None,
    }
}

fn asteroid_at(entity: u64, size: AsteroidSize, x: i64, y: i64) -> Body {
    let d = size.dimension();
    Body {
        entity,
        role: Role::Asteroid(Asteroid(size)),
        position: Point { x, y },
        velocity: Point { x: 0, y: 0 },
        spin: 400,
        dimensions: Dimensions { width: d, height: d },
        wrapper: Some(Wrapper),
    }
}

fn asteroids_of(w: &World, size: AsteroidSize) -> Vec<Body> {
    w.bodies
        .iter()
        .copied()
        .filter(|b| b.role == Role::Asteroid(Asteroid(size)))
        .collect()
}

fn playing_world(bodies: Vec<Body>, level: u32) -> World {
    let mut w = World::new();
    w.state = GameState::Playing;
    w.level = Level(level);
    w.next_entity = 100;
    w.bodies = bodies;
    w
}

fn in_band(c: i64) -> bool {
    (-1000..-100).contains(&c) || (100..1000).contains(&c)
}

#[test]
fn size_chain_and_fragments() {
    assert_eq!(AsteroidSize::Large.next(), AsteroidSize::Medium);
    assert_eq!(AsteroidSize::Medium.next(), AsteroidSize::Small);
    assert_eq!(AsteroidSize::Small.next(), AsteroidSize::Dead);
    assert_eq!(AsteroidSize::Dead.next(), AsteroidSize::Dead);
    assert_eq!(AsteroidSize::Large.fragment_count(), 4);
    assert_eq!(AsteroidSize::Medium.fragment_count(), 4);
    assert_eq!(AsteroidSize::Small.fragment_count(), 0);
    assert_eq!(AsteroidSize::Large.dimension(), 80);
    assert_eq!(AsteroidSize::Medium.dimension(), 60);
    assert_eq!(AsteroidSize::Small.dimension(), 20);
    assert_eq!(AsteroidSize::Dead.dimension(), 0);
}

#[test]
fn wave_size_is_level_plus_one() {
    assert_eq!(Level::default().0, 1);
    assert_eq!(Level(1).wave_count(), 2);
    assert_eq!(Level(7).wave_count(), 8);
    assert_eq!(Level(u32::MAX).wave_count(), u32::MAX as u64 + 1);
    let mut rng = rand::thread_rng();
    let mut w = playing_world(vec![], 4);
    w.spawn_asteroids(&mut rng);
    assert_eq!(asteroids_of(&w, AsteroidSize::Large).len(), 5);
}

#[test]
fn drawn_asteroids_stay_in_range() {
    let mut rng = rand::thread_rng();
    for _ in 0..200 {
        let d = draw_asteroid(&mut rng);
        assert!((-100..100).contains(&d.velocity.x));
        assert!((-100..100).contains(&d.velocity.y));
        assert!(in_band(d.position.x));
        assert!(in_band(d.position.y));
    }
}

#[test]
fn fragments_appear_at_the_destroyed_position() {
    let mut rng = rand::thread_rng();
    let mut w = playing_world(
        vec![asteroid_at(1, AsteroidSize::Medium, 30, -40), asteroid_at(2, AsteroidSize::Large, 500, 500), laser_at(3, 30, -40)],
        1,
    );
    let hits = w.check_for_laser_collision(&mut rng, &vec![(3, 1)]);
    assert_eq!(hits, vec![(3, 1)]);
    let small = asteroids_of(&w, AsteroidSize::Small);
    assert_eq!(small.len(), 4);
    for b in &small {
        assert_eq!(b.position, Point { x: 30, y: -40 });
        assert_eq!(b.dimensions, Dimensions { width: 20, height: 20 });
        assert_eq!(b.spin, 400);
        assert!((-100..100).contains(&b.velocity.x));
    }
    assert!(w.bodies.iter().all(|b| b.entity != 1 && b.entity != 3));
    assert_eq!(w.level.0, 1);
}

#[test]
fn level_scenario() {
    let mut rng = rand::thread_rng();
    let mut w = World::new();
    w.enter_game_over();
    assert!(w.instructions_input(&mut rng, true));
    assert_eq!(w.state, GameState::Playing);
    assert_eq!(w.level.0, 1);
    let large = asteroids_of(&w, AsteroidSize::Large);
    assert_eq!(large.len(), 2);
    for b in &large {
        assert!(in_band(b.position.x) && in_band(b.position.y));
    }
    assert!(w.bodies.iter().all(|b| !matches!(b.role, Role::Instructions(_))));

    // Destroy one Large asteroid, not the last one.
    let target = large[0];
    w.bodies.push(laser_at(900, 0, 0));
    let hits = w.check_for_laser_collision(&mut rng, &vec![(target.entity, 900)]);
    assert_eq!(hits, vec![(900, target.entity)]);
    let medium = asteroids_of(&w, AsteroidSize::Medium);
    assert_eq!(medium.len(), 4);
    assert!(medium.iter().all(|b| b.position == target.position));
    assert_eq!(w.count_asteroids(), 5);
    assert_eq!(w.level.0, 1);

    // Destroy the last asteroid on the field, a Small one.
    w.cull(Cull::Asteroids);
    w.bodies.push(asteroid_at(950, AsteroidSize::Small, 10, 10));
    w.bodies.push(laser_at(951, 10, 10));
    let hits = w.check_for_laser_collision(&mut rng, &vec![(951, 950)]);
    assert_eq!(hits, vec![(951, 950)]);
    assert_eq!(w.level.0, 2);
    assert_eq!(w.count_asteroids(), 3);
    assert_eq!(asteroids_of(&w, AsteroidSize::Large).len(), 3);
}

#[test]
fn small_asteroid_not_last_gives_no_level() {
    let mut rng = rand::thread_rng();
    let mut w = playing_world(
        vec![asteroid_at(1, AsteroidSize::Small, 0, 0), asteroid_at(2, AsteroidSize::Small, 50, 50), laser_at(3, 0, 0)],
        3,
    );
    let hits = w.check_for_laser_collision(&mut rng, &vec![(1, 3)]);
    assert_eq!(hits, vec![(3, 1)]);
    assert_eq!(w.count_asteroids(), 1);
    assert_eq!(w.level.0, 3);
}

#[test]
fn one_projectile_destroys_one_asteroid() {
    let mut rng = rand::thread_rng();
    let mut w = playing_world(
        vec![
            asteroid_at(1, AsteroidSize::Small, 0, 0),
            asteroid_at(2, AsteroidSize::Small, 5, 5),
            asteroid_at(4, AsteroidSize::Small, 90, 90),
            laser_at(3, 2, 2),
        ],
        1,
    );
    let hits = w.check_for_laser_collision(&mut rng, &vec![(1, 3), (3, 2), (2, 3)]);
    assert_eq!(hits, vec![(3, 1)]);
    assert_eq!(w.count_asteroids(), 2);
    assert!(w.bodies.iter().any(|b| b.entity == 2));
}

#[test]
fn unrelated_events_change_nothing() {
    let mut rng = rand::thread_rng();
    let bodies = vec![asteroid_at(1, AsteroidSize::Large, 0, 0), asteroid_at(2, AsteroidSize::Large, 5, 5), laser_at(3, 2, 2)];
    let mut w = playing_world(bodies.clone(), 1);
    let hits = w.check_for_laser_collision(&mut rng, &vec![(1, 2), (3, 77), (77, 3)]);
    assert!(hits.is_empty());
    assert_eq!(w.bodies, bodies);
}

#[test]
fn ship_collision_ends_the_game() {
    for size in [AsteroidSize::Large, AsteroidSize::Medium, AsteroidSize::Small] {
        let mut w = playing_world(vec![asteroid_at(1, size, 0, 0), laser_at(2, 0, 0)], 2);
        let ship = w.spawn_ship();
        assert!(w.check_for_collision(&vec![(1, ship)]));
        assert_eq!(w.state, GameState::GameOver);
        assert_eq!(w.count_asteroids(), 0);
        assert!(w.bodies.iter().all(|b| !matches!(b.role, Role::Laser(_))));
        assert_eq!(w.bodies.iter().filter(|b| matches!(b.role, Role::Ship(_))).count(), 1);
        assert!(w.bodies.iter().any(|b| matches!(b.role, Role::Instructions(_))));
    }
}

#[test]
fn ship_and_projectile_is_no_strike() {
    let mut w = playing_world(vec![asteroid_at(1, AsteroidSize::Large, 0, 0), laser_at(2, 0, 0)], 2);
    let ship = w.spawn_ship();
    assert!(!w.check_for_collision(&vec![(2, ship), (1, 2)]));
    assert_eq!(w.state, GameState::Playing);
    let mut over = playing_world(vec![asteroid_at(1, AsteroidSize::Large, 0, 0)], 2);
    let ship = over.spawn_ship();
    over.state = GameState::GameOver;
    assert!(!over.check_for_collision(&vec![(ship, 1)]));
    assert_eq!(over.count_asteroids(), 1);
}

#[test]
fn spawn_ship_replaces_the_old_one() {
    let mut w = World::new();
    let first = w.spawn_ship();
    let second = w.spawn_ship();
    assert_ne!(first, second);
    let ships: Vec<&Body> = w.bodies.iter().filter(|b| matches!(b.role, Role::Ship(_))).collect();
    assert_eq!(ships.len(), 1);
    assert_eq!(ships[0].entity, second);
    assert_eq!(ships[0].dimensions, Dimensions { width: 30, height: 45 });
    assert_eq!(ships[0].position, Point { x: 0, y: 0 });
    assert_eq!(ships[0].role, Role::Ship(Ship));
}

#[test]
fn state_inputs() {
    let mut rng = rand::thread_rng();
    let mut w = World::new();
    assert_eq!(w.state, GameState::GameOver);
    assert!(!w.playing_input(true));
    assert!(!w.instructions_input(&mut rng, false));
    assert!(w.instructions_input(&mut rng, true));
    assert!(!w.instructions_input(&mut rng, true));
    w.level = Level(6);
    assert!(!w.playing_input(false));
    assert!(w.playing_input(true));
    assert_eq!(w.state, GameState::GameOver);
    assert_eq!(w.count_asteroids(), 0);
    assert!(w.instructions_input(&mut rng, true));
    assert_eq!(w.level.0, 1);
    assert_eq!(w.count_asteroids(), 2);
}

#[test]
fn wrap_is_settled_inside_and_mirrors_outside() {
    // viewport 800 wide, body 30 wide: the border is at 415.
    assert_eq!(wrap_axis(415, 800, 30), 415);
    assert_eq!(wrap_axis(-415, 800, 30), -415);
    assert_eq!(wrap_axis(416, 800, 30), -415);
    assert_eq!(wrap_axis(-416, 800, 30), 415);
    assert_eq!(wrap_axis(wrap_axis(416, 800, 30), 800, 30), -415);
    // an odd sum: 800 + 45 = 845, border at 422.5
    assert_eq!(wrap_axis(422, 800, 45), 422);
    assert_eq!(wrap_axis(423, 800, 45), -422);
    assert_eq!(wrap_axis(-423, 800, 45), 422);
    let p = wrap_position(Point { x: 500, y: -400 }, Dimensions { width: 800, height: 600 }, Dimensions { width: 80, height: 80 });
    assert_eq!(p, Point { x: -440, y: 340 });
}

#[test]
fn wrap_mover_moves_wrapping_bodies_only() {
    let mut w = playing_world(vec![asteroid_at(1, AsteroidSize::Large, 500, 0), laser_at(2, 500, 0)], 1);
    w.wrap_mover(Dimensions { width: 800, height: 600 });
    assert_eq!(w.bodies[0].position, Point { x: -440, y: 0 });
    assert_eq!(w.bodies[1].position, Point { x: 500, y: 0 });
}

#[test]
fn projectile_leaving_the_left_edge_is_culled() {
    let view = Dimensions { width: 800, height: 600 };
    let dims = Dimensions { width: 2, height: 10 };
    assert!(laser_out_of_bounds(Point { x: -5, y: 100 }, dims, view));
    assert!(!laser_out_of_bounds(Point { x: -2, y: 100 }, dims, view));
    assert!(!laser_out_of_bounds(Point { x: 802, y: 100 }, dims, view));
    assert!(laser_out_of_bounds(Point { x: 803, y: 100 }, dims, view));
    assert!(laser_out_of_bounds(Point { x: 0, y: -11 }, dims, view));
    assert!(laser_out_of_bounds(Point { x: 0, y: 611 }, dims, view));
    let mut w = playing_world(vec![laser_at(1, -5, 100), laser_at(2, 10, 10), asteroid_at(3, AsteroidSize::Small, -900, 0)], 1);
    let removed = w.destroy_laser(view);
    assert_eq!(removed, vec![1]);
    assert_eq!(w.bodies.len(), 2);
    assert_eq!(w.bodies[0].entity, 2);
}

#[test]
fn fire_throttle() {
    let mut t = FireTimer::default();
    assert!(!t.try_fire(true, 100_000));
    assert!(t.try_fire(true, 100_000));
    assert_eq!(t.0.elapsed, 0);
    assert!(!t.try_fire(true, 199_999));
    assert!(t.try_fire(true, 1));
    assert!(!t.try_fire(false, 500_000));
    assert!(t.try_fire(true, 0));
    let mut paused = FireTimer(Stopwatch { elapsed: 0, paused: true });
    assert!(paused.try_fire(true, 0));
    assert!(!paused.0.paused);
    assert_eq!(paused.0.elapsed, 0);
    assert!(!paused.try_fire(true, 100_000));
    assert!(paused.try_fire(true, 100_000));
    assert_eq!(FIRE_COOLDOWN_MICROS, 200_000);
}

#[test]
fn stopwatch_ticks_and_resets() {
    let mut s = Stopwatch::new();
    s.tick(5);
    assert_eq!(s.elapsed, 5);
    s.pause();
    s.tick(5);
    assert_eq!(s.elapsed, 5);
    s.unpause();
    s.tick(u64::MAX);
    assert_eq!(s.elapsed, u64::MAX);
    s.reset();
    assert_eq!(s.elapsed, 0);
    assert!(!s.paused);
}

#[test]
fn lasers_spawn_ahead_of_the_ship() {
    let mut w = playing_world(vec![], 1);
    w.fire_timer = FireTimer(Stopwatch { elapsed: 200_000, paused: false });
    assert_eq!(w.spawn_laser(true, 0, Point { x: 0, y: 1000 }), None);
    assert_eq!(w.fire_timer.0.elapsed, 0);
    let ship = w.spawn_ship();
    w.bodies[0].position = Point { x: 10, y: 20 };
    assert_eq!(w.spawn_laser(true, 50_000, Point { x: 0, y: 1000 }), None);
    let e = w.spawn_laser(true, 150_000, Point { x: -707, y: 707 }).unwrap();
    assert_ne!(e, ship);
    let laser = *w.bodies.last().unwrap();
    assert_eq!(laser.entity, e);
    assert_eq!(laser.role, Role::Laser(Laser));
    assert_eq!(laser.position, Point { x: 10 - 31, y: 20 + 31 });
    assert_eq!(laser.velocity, Point { x: -707, y: 707 });
    assert_eq!(laser.dimensions, Dimensions { width: 2, height: 10 });
    assert_eq!(w.spawn_laser(true, 100_000, Point { x: 0, y: 1000 }), None);
}

#[test]
fn saturating_coordinates() {
    assert_eq!(sat_add(3, -5), -2);
    assert_eq!(sat_add(i64::MAX, 1), i64::MAX);
    assert_eq!(sat_add(i64::MIN, -1), i64::MIN);
}

#[test]
fn draws_vary() {
    let mut rng = rand::thread_rng();
    let draws: Vec<_> = (0..200).map(|_| draw_asteroid(&mut rng)).collect();
    assert!(draws.iter().any(|d| d.velocity.x != -100));
    assert!(draws.iter().any(|d| d.position.x < 0) && draws.iter().any(|d| d.position.x > 0));
    assert!(draws.iter().any(|d| d.position.y < 0) && draws.iter().any(|d| d.position.y > 0));
}

#[test]
fn destroy_and_remove_asteroids() {
    let mut rng = rand::thread_rng();
    let mut w = playing_world(vec![asteroid_at(1, AsteroidSize::Large, 7, 8), laser_at(2, 0, 0)], 1);
    let idx = w.find_tagged(1, true).unwrap();
    assert_eq!(w.find_tagged(1, false), None);
    assert_eq!(w.find_tagged(2, false), Some(1));
    w.destroy_asteroid(&mut rng, 2, idx);
    assert_eq!(asteroids_of(&w, AsteroidSize::Medium).len(), 4);
    assert_eq!(w.bodies.len(), 4);
    assert_eq!(w.level.0, 1);
    w.remove_asteroids();
    assert!(w.bodies.is_empty());
    assert!(contains_handle(&vec![4, 5], 5));
    assert!(!contains_handle(&vec![4, 5], 6));
}

#[test]
fn play_frame_runs_only_while_playing() {
    let mut rng = rand::thread_rng();
    let view = Dimensions { width: 800, height: 600 };
    let mut over = World::new();
    over.enter_game_over();
    let before = over.bodies.clone();
    assert_eq!(over.play_frame(&mut rng, &vec![], true, 300_000, Point { x: 0, y: 1000 }, view), None);
    assert_eq!(over.bodies, before);

    let mut w = playing_world(vec![asteroid_at(1, AsteroidSize::Large, 50, 50), laser_at(2, 50, 50), laser_at(3, -9, 0)], 1);
    let ship = w.spawn_ship();
    let hits = w.play_frame(&mut rng, &vec![(2, 1)], true, 300_000, Point { x: 0, y: 1000 }, view).unwrap();
    assert_eq!(hits, vec![(2, 1)]);
    assert_eq!(asteroids_of(&w, AsteroidSize::Medium).len(), 4);
    assert!(w.bodies.iter().all(|b| b.entity != 3));
    assert_eq!(w.bodies.iter().filter(|b| matches!(b.role, Role::Laser(_))).count(), 1);
    // the surviving bodies keep their order: the ship, four fragments, the new shot
    assert_eq!(w.bodies.len(), 6);
    assert_eq!(w.bodies[0].entity, ship);
    for b in &w.bodies[1..5] {
        assert_eq!(b.role, Role::Asteroid(Asteroid(AsteroidSize::Medium)));
        assert_eq!(b.position, Point { x: 50, y: 50 });
    }
    let shot = w.bodies[5];
    assert_eq!(shot.role, Role::Laser(Laser));
    assert_eq!(shot.position, Point { x: 0, y: 45 });
    assert_eq!(shot.velocity, Point { x: 0, y: 1000 });
    assert_eq!(shot.dimensions, Dimensions { width: 2, height: 10 });
    assert!(w.bodies.iter().all(|b| b.entity != 1 && b.entity != 2));
    assert_eq!(w.fire_timer.0.elapsed, 0);
    assert_eq!(w.state, GameState::Playing);

    let medium = asteroids_of(&w, AsteroidSize::Medium)[0].entity;
    assert_eq!(w.play_frame(&mut rng, &vec![(ship, medium)], false, 1, Point { x: 0, y: 1000 }, view), None);
    assert_eq!(w.state, GameState::GameOver);
}

#[test]
fn one_asteroid_hit_by_two_projectiles_fragments_once() {
    let mut rng = rand::thread_rng();
    let mut w = playing_world(
        vec![asteroid_at(1, AsteroidSize::Large, 0, 0), asteroid_at(4, AsteroidSize::Small, 300, 300), laser_at(2, 0, 0), laser_at(3, 0, 0)],
        1,
    );
    let hits = w.check_for_laser_collision(&mut rng, &vec![(2, 1), (1, 3)]);
    assert_eq!(hits, vec![(2, 1)]);
    assert_eq!(asteroids_of(&w, AsteroidSize::Medium).len(), 4);
    assert!(w.bodies.iter().any(|b| b.entity == 3));
}
