use tilephys::{
    mostly_eq, shared, step_rb_sim, BodyArena, BodyHandle, CollisionDebugDraw, RigidBody, Vec2, SCALE,
};

/// World units to fixed-point ticks.
fn fx(v: f32) -> i64 {
    (v * SCALE as f32).round() as i64
}

fn pt(x: f32, y: f32) -> Vec2 {
    Vec2::new(fx(x), fx(y))
}

#[test]
fn test_collision() {
    let rb_a = RigidBody::new(pt(0.0, 0.0), pt(1., 1.), Some(fx(1.)));
    let rb_b = RigidBody::new(pt(0.6, 0.5), pt(1., 1.), Some(fx(1.)));

    let disp = RigidBody::get_collision_displacement(&rb_a, &rb_b).expect("no overlap detected");

    assert!(mostly_eq(disp.x, fx(-0.4), fx(0.01)));
    assert!(mostly_eq(disp.y, fx(-0.5), fx(0.01)));
}

#[test]
fn displacement_exact_values() {
    let a = RigidBody::new(pt(0.0, 0.0), pt(1., 1.), Some(1000));
    let b = RigidBody::new(pt(0.6, 0.5), pt(1., 1.), Some(1000));
    assert_eq!(RigidBody::get_collision_displacement(&a, &b), Some(Vec2::new(-400, -500)));
    // seen from the other body the shift points the other way
    assert_eq!(RigidBody::get_collision_displacement(&b, &a), Some(Vec2::new(400, 500)));
}

#[test]
fn apart_boxes_have_no_displacement() {
    let a = RigidBody::new(pt(0.0, 0.0), pt(1., 1.), Some(1000));
    let b = RigidBody::new(pt(3.0, 0.0), pt(1., 1.), Some(1000));
    assert_eq!(RigidBody::get_collision_displacement(&a, &b), None);
    let c = RigidBody::new(pt(0.0, -5.0), pt(1., 1.), None);
    assert_eq!(RigidBody::get_collision_displacement(&a, &c), None);
}

#[test]
fn touching_boxes_do_not_collide() {
    let a = RigidBody::new(pt(0.0, 0.0), pt(1., 1.), Some(1000));
    let edge = RigidBody::new(pt(1.0, 0.5), pt(1., 1.), Some(1000));
    let corner = RigidBody::new(pt(1.0, 1.0), pt(1., 1.), Some(1000));
    assert_eq!(RigidBody::get_collision_displacement(&a, &edge), None);
    assert_eq!(RigidBody::get_collision_displacement(&a, &corner), None);
}

#[test]
fn new_body_is_at_rest() {
    let b = RigidBody::new(pt(2.0, 3.0), pt(1.5, 0.5), None);
    assert_eq!(b.get_top_left(), Vec2::new(2000, 3000));
    assert_eq!(b.get_velocity(), Vec2::new(0, 0));
    assert_eq!(b.elasticity, SCALE);
    let r = b.get_transformed_rect();
    assert_eq!((r.x, r.y, r.w, r.h), (2000, 3000, 1500, 500));
    let d = b.get_dimensions_rect();
    assert_eq!((d.x, d.y, d.w, d.h), (0, 0, 1500, 500));
}

#[test]
fn static_body_velocity_forced_to_zero() {
    let mut b = RigidBody::new(pt(2.0, 3.0), pt(1., 1.), None);
    b.set_velocity(Vec2::new(5000, -7000));
    b.integrate(16);
    assert_eq!(b.get_velocity(), Vec2::new(0, 0));
    assert_eq!(b.get_top_left(), Vec2::new(2000, 3000));
}

#[test]
fn free_fall_damps_then_adds_gravity_then_moves() {
    let mut b = RigidBody::new(pt(0.0, 0.0), pt(1., 1.), Some(1000));
    b.set_velocity(Vec2::new(1000, 2000));
    b.integrate(100);
    // 1000 * (1 - 0.1 * 0.5) = 950; 2000 * 0.95 + 0.1 * 9 units/s = 2800
    assert_eq!(b.get_velocity(), Vec2::new(950, 2800));
    // moved by the new velocity over 0.1 s
    assert_eq!(b.get_top_left(), Vec2::new(95, 280));
}

#[test]
fn gravity_from_rest_is_exact() {
    let mut b = RigidBody::new(pt(0.0, 0.0), pt(1., 1.), Some(1000));
    b.integrate(1000);
    assert_eq!(b.get_velocity(), Vec2::new(0, 9000));
    assert_eq!(b.get_top_left(), Vec2::new(0, 9000));
}

#[test]
fn push_adds_velocity() {
    let mut b = RigidBody::new(pt(0.0, 0.0), pt(1., 1.), Some(1000));
    b.push(Vec2::new(300, -12000));
    b.push(Vec2::new(300, 0));
    assert_eq!(b.get_velocity(), Vec2::new(600, -12000));
}

#[test]
fn resolve_two_dynamic_bodies_splits_correction() {
    let mut a = RigidBody::new(pt(0.0, 0.0), pt(1., 1.), Some(1000));
    let mut b = RigidBody::new(pt(0.6, 0.5), pt(1., 1.), Some(1000));
    a.set_velocity(Vec2::new(1000, 300));
    b.set_velocity(Vec2::new(-2000, 0));
    let d = RigidBody::get_collision_displacement(&a, &b).unwrap();
    RigidBody::resolve_collision(&mut a, &mut b, d);
    // x has the smaller shift (0.4 < 0.5): x velocities bounce at half speed
    assert_eq!(a.get_velocity(), Vec2::new(-500, 300));
    assert_eq!(b.get_velocity(), Vec2::new(1000, 0));
    // y shift dropped, x shift split 50/50
    assert_eq!(a.get_top_left(), Vec2::new(-200, 0));
    assert_eq!(b.get_top_left(), Vec2::new(800, 500));
}

#[test]
fn resolve_odd_overlap_separates_both_bodies() {
    let mut a = RigidBody::new(Vec2::new(0, 0), Vec2::new(1000, 1000), Some(1000));
    let mut b = RigidBody::new(Vec2::new(601, 500), Vec2::new(1000, 1000), Some(1000));
    let d = RigidBody::get_collision_displacement(&a, &b).unwrap();
    assert_eq!(d, Vec2::new(-399, -500));
    RigidBody::resolve_collision(&mut a, &mut b, d);
    // a takes half the shift rounded toward zero, b the rest
    assert_eq!(a.get_top_left(), Vec2::new(-199, 0));
    assert_eq!(b.get_top_left(), Vec2::new(801, 500));
    assert_eq!(RigidBody::get_collision_displacement(&a, &b), None);
}

#[test]
fn long_step_stays_within_limits() {
    let mut b = RigidBody::new(Vec2::new(0, 0), Vec2::new(1000, 1000), Some(1000));
    b.set_velocity(Vec2::new(5000, 0));
    b.integrate(i64::MAX);
    assert!(b.get_velocity().x.abs() <= tilephys::COORD_LIMIT);
    assert_eq!(b.get_velocity().y, tilephys::COORD_LIMIT);
    assert_eq!(b.get_top_left().y, tilephys::COORD_LIMIT);
}

#[test]
fn resolve_against_static_moves_only_dynamic() {
    let mut a = RigidBody::new(pt(0.0, 0.0), pt(1., 1.), Some(1000));
    let mut ground = RigidBody::new(pt(-2.0, 0.8), pt(5., 1.), None);
    a.set_velocity(Vec2::new(0, 4000));
    let d = RigidBody::get_collision_displacement(&a, &ground).unwrap();
    assert_eq!(d, Vec2::new(-3000, -200));
    RigidBody::resolve_collision(&mut a, &mut ground, d);
    assert_eq!(a.get_velocity(), Vec2::new(0, -2000));
    assert_eq!(a.get_top_left(), Vec2::new(0, -200));
    assert_eq!(ground.get_top_left(), Vec2::new(-2000, 800));
    assert_eq!(ground.get_velocity(), Vec2::new(0, 0));
}

#[test]
fn impulse_swaps_equal_masses_head_on() {
    let mut a = RigidBody::new(pt(0.0, 0.0), pt(1., 1.), Some(1000));
    let mut b = RigidBody::new(pt(0.9, 0.0), pt(1., 1.), Some(1000));
    a.set_velocity(Vec2::new(1000, 0));
    b.set_velocity(Vec2::new(-1000, 0));
    RigidBody::resolve_collision_impulse(&mut a, &mut b, Vec2::new(1000, 0));
    assert_eq!(a.get_velocity(), Vec2::new(-1000, 0));
    assert_eq!(b.get_velocity(), Vec2::new(1000, 0));
}

#[test]
fn impulse_ignores_separating_bodies() {
    let mut a = RigidBody::new(pt(0.0, 0.0), pt(1., 1.), Some(1000));
    let mut b = RigidBody::new(pt(0.9, 0.0), pt(1., 1.), Some(1000));
    a.set_velocity(Vec2::new(-1000, 0));
    b.set_velocity(Vec2::new(1000, 0));
    RigidBody::resolve_collision_impulse(&mut a, &mut b, Vec2::new(1000, 0));
    assert_eq!(a.get_velocity(), Vec2::new(-1000, 0));
    assert_eq!(b.get_velocity(), Vec2::new(1000, 0));
}

#[test]
fn impulse_against_static_uses_elasticity() {
    let mut a = RigidBody::new(pt(0.0, 0.0), pt(1., 1.), Some(2000));
    let mut wall = RigidBody::new(pt(0.9, -5.0), pt(1., 10.), None);
    a.set_velocity(Vec2::new(3000, 100));
    a.elasticity = 500;
    RigidBody::resolve_collision_impulse(&mut a, &mut wall, Vec2::new(1000, 0));
    // v_n = -3, j/m = 1.5 * 3: velocity along x becomes 3 - 4.5
    assert_eq!(a.get_velocity(), Vec2::new(-1500, 100));
    assert_eq!(wall.get_velocity(), Vec2::new(0, 0));
}

#[test]
fn mostly_eq_bounds_are_strict() {
    assert!(mostly_eq(100, 105, 10));
    assert!(mostly_eq(105, 100, 10));
    assert!(!mostly_eq(100, 110, 10));
    assert!(!mostly_eq(110, 100, 10));
    assert!(mostly_eq(-7, -7, 1));
    assert!(!mostly_eq(i64::MIN, i64::MAX, i64::MAX));
}

#[test]
fn step_drops_destroyed_bodies_keeping_order() {
    let mut bodies = BodyArena::new();
    let mut list: Vec<BodyHandle> = Vec::new();
    for i in 0..4 {
        let rb = RigidBody::new(pt(10.0 * i as f32, 0.0), pt(1., 1.), Some(1000));
        list.push(shared(&mut bodies, rb));
    }
    let mut events: Vec<CollisionDebugDraw> = Vec::new();
    step_rb_sim(&mut bodies, &mut list, 16, &mut events);
    assert_eq!(list.len(), 4);

    let gone = list[1];
    bodies.remove(gone);
    assert!(!bodies.is_live(gone));
    assert_eq!(bodies.get(gone), None);
    step_rb_sim(&mut bodies, &mut list, 16, &mut events);
    assert_eq!(list, vec![BodyHandle { index: 0 }, BodyHandle { index: 2 }, BodyHandle { index: 3 }]);
    assert!(events.is_empty());
}

#[test]
fn step_resolves_falling_body_on_static_ground() {
    let mut bodies = BodyArena::new();
    let ground = shared(&mut bodies, RigidBody::new(pt(-5.0, 1.0), pt(10., 1.), None));
    let body = shared(&mut bodies, RigidBody::new(pt(0.0, 0.0), pt(1., 1.), Some(1000)));
    let mut ground_rb = bodies.get(ground).unwrap();
    ground_rb.set_velocity(Vec2::new(0, 3000));
    assert!(bodies.update(ground, ground_rb));
    let mut list = vec![ground, body];
    let mut events: Vec<CollisionDebugDraw> = Vec::new();
    // after 100 ms the body has fallen 0.09 units into the ground
    step_rb_sim(&mut bodies, &mut list, 100, &mut events);
    let g = bodies.get(ground).unwrap();
    assert_eq!(g.get_velocity(), Vec2::new(0, 0));
    assert_eq!(g.get_top_left(), Vec2::new(-5000, 1000));
    assert_eq!(events.len(), 1);
    // the event sits at the ground's corner (first body of the pair) and
    // carries the ground's shift out of the body
    assert_eq!(events[0].world_pos, Vec2::new(-5000, 1000));
    assert_eq!(events[0].displacement, Vec2::new(-5000, 90));
    let b = bodies.get(body).unwrap();
    // the body was pushed back up by the whole overlap and bounced
    assert_eq!(b.get_top_left(), Vec2::new(0, 0));
    assert_eq!(b.get_velocity(), Vec2::new(0, -450));
}

#[test]
fn step_skips_pairs_of_static_bodies() {
    let mut bodies = BodyArena::new();
    let a = shared(&mut bodies, RigidBody::new(pt(0.0, 0.0), pt(1., 1.), None));
    let b = shared(&mut bodies, RigidBody::new(pt(0.5, 0.5), pt(1., 1.), None));
    let mut list = vec![a, b];
    let mut events: Vec<CollisionDebugDraw> = Vec::new();
    step_rb_sim(&mut bodies, &mut list, 16, &mut events);
    assert!(events.is_empty());
    assert_eq!(bodies.get(b).unwrap().get_top_left(), Vec2::new(500, 500));
}
