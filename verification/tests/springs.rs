use springs2d::evaluator::{spring_impulse_on_b, tick, world_anchor};
use springs2d::fixed::{fx_div, fx_mul, isqrt, scale_down};
use springs2d::spring::{AnchoredSpring, CoupledSpring, SpringError};
use springs2d::vec2::{Rot2Fx, Vec2Fx};
use springs2d::world::BodyDirectory;

fn v(x: i64, y: i64) -> Vec2Fx {
    Vec2Fx::new(x, y)
}

fn two_body_world(pa: Vec2Fx, va: Vec2Fx, pb: Vec2Fx, vb: Vec2Fx) -> BodyDirectory {
    let mut dir = BodyDirectory::new();
    assert!(dir.spawn(1, pa, Rot2Fx::identity(), va));
    assert!(dir.spawn(2, pb, Rot2Fx::identity(), vb));
    dir
}

#[test]
fn fixed_point_ops_are_exact() {
    assert_eq!(fx_mul(1500, 2000), 3000); // 1.5 * 2.0 == 3.0
    assert_eq!(fx_mul(-1500, 2000), -3000);
    assert_eq!(scale_down(1999), 1); // truncation toward zero
    assert_eq!(scale_down(-1999), -1);
    assert_eq!(fx_div(500, 1000), 500); // 0.5 of a unit
    assert_eq!(fx_div(-500, 1000), -500);
    assert_eq!(isqrt(49), 7);
    assert_eq!(isqrt(48), 6);
    assert_eq!(isqrt(0), 0);
}

#[test]
fn rotation_turns_the_local_anchor() {
    let quarter = Rot2Fx::new(0, 1000).unwrap();
    let w = world_anchor(v(1000, 1000), quarter, v(500, 0));
    assert_eq!(w, v(1000, 1500));
    let w2 = world_anchor(v(0, 0), Rot2Fx::identity(), v(250, -750));
    assert_eq!(w2, v(250, -750));
}

#[test]
fn rotation_rejects_out_of_range_trig() {
    assert!(Rot2Fx::new(1001, 0).is_none());
    assert!(Rot2Fx::new(0, -1001).is_none());
    assert!(Rot2Fx::new(-1000, 1000).is_some());
}

#[test]
fn coupled_spring_rejects_bad_parameters() {
    let bad = CoupledSpring::new(1, 2, v(0, 0), v(0, 0), -1, 0, 0);
    assert_eq!(bad.unwrap_err(), SpringError::InvalidParameter);
    let bad = CoupledSpring::new(1, 2, v(0, 0), v(0, 0), 0, -7, 0);
    assert_eq!(bad.unwrap_err(), SpringError::InvalidParameter);
    let bad = CoupledSpring::new(1, 2, v(0, 0), v(0, 0), 0, 0, -1000);
    assert_eq!(bad.unwrap_err(), SpringError::InvalidParameter);
    let same_body = CoupledSpring::new(3, 3, v(0, 0), v(0, 0), 1000, 1000, 1000);
    assert_eq!(same_body.unwrap_err(), SpringError::InvalidParameter);
    let ok = CoupledSpring::new(1, 2, v(10, 20), v(-10, -20), 1000, 500, 2000).unwrap();
    assert_eq!(ok.stiffness, 1000);
    assert_eq!(ok.rest_length, 2000);
    assert!(!ok.orphaned);
}

#[test]
fn anchored_spring_rejects_bad_parameters() {
    let bad = AnchoredSpring::new(1, v(0, 0), v(0, 0), 0, -1, 0);
    assert_eq!(bad.unwrap_err(), SpringError::InvalidParameter);
    let ok = AnchoredSpring::new(1, v(0, 0), v(3000, 0), 1000, 0, 1000).unwrap();
    assert_eq!(ok.world_anchor, v(3000, 0));
    assert!(!ok.orphaned);
}

#[test]
fn retuning_validates_and_takes_effect() {
    let mut s = CoupledSpring::new(1, 2, v(0, 0), v(0, 0), 1000, 0, 1000).unwrap();
    assert!(s.set_stiffness(2500).is_ok());
    assert_eq!(s.stiffness, 2500);
    assert_eq!(s.set_stiffness(-1).unwrap_err(), SpringError::InvalidParameter);
    assert_eq!(s.stiffness, 2500);
    assert!(s.set_damping(42).is_ok());
    assert_eq!(s.damping, 42);
    assert!(s.set_rest_length(9000).is_ok());
    assert_eq!(s.rest_length, 9000);
    let mut a = AnchoredSpring::new(1, v(0, 0), v(0, 0), 0, 0, 0).unwrap();
    assert_eq!(a.set_rest_length(-3).unwrap_err(), SpringError::InvalidParameter);
    assert!(a.set_stiffness(7).is_ok());
    assert_eq!(a.stiffness, 7);
}

#[test]
fn directory_spawn_remove_resolve() {
    let mut dir = BodyDirectory::new();
    assert_eq!(dir.len(), 0);
    assert!(dir.spawn(5, v(1, 2), Rot2Fx::identity(), v(3, 4)));
    assert!(!dir.spawn(5, v(0, 0), Rot2Fx::identity(), v(0, 0)));
    assert_eq!(dir.len(), 1);
    let b = dir.resolve(5).unwrap();
    assert_eq!(b.position, v(1, 2));
    assert_eq!(b.velocity, v(3, 4));
    assert_eq!(b.impulse, v(0, 0));
    assert!(dir.resolve(6).is_none());
    assert!(!dir.remove(6));
    assert!(dir.remove(5));
    assert_eq!(dir.len(), 0);
    assert!(dir.resolve(5).is_none());
}

#[test]
fn accumulation_is_additive_and_cleared_once() {
    let mut dir = BodyDirectory::new();
    assert!(dir.spawn(9, v(0, 0), Rot2Fx::identity(), v(0, 0)));
    assert!(dir.accumulate_impulse(9, v(5, 6)));
    assert!(dir.accumulate_impulse(9, v(7, -2)));
    assert!(!dir.accumulate_impulse(8, v(100, 100)));
    assert_eq!(dir.resolve(9).unwrap().impulse, v(12, 4));
    dir.clear_impulses();
    assert_eq!(dir.resolve(9).unwrap().impulse, v(0, 0));
}

#[test]
fn at_rest_length_no_force_for_any_parameters() {
    // Anchors one unit apart, rest length one unit, equal velocities.
    let r = spring_impulse_on_b(
        v(0, 0),
        v(50, -70),
        v(0, 1000),
        v(50, -70),
        123_456,
        654_321,
        1000,
        10,
    );
    assert_eq!(r.unwrap(), v(0, 0));
}

#[test]
fn stretched_spring_pulls_exactly_hooke() {
    // k = 3.0, rest = 1.0, separation 2.5 along y, so F = 3.0 * 1.5 = 4.5;
    // dt = 0.1 gives impulse 0.45 on B toward A.
    let r = spring_impulse_on_b(v(0, 0), v(0, 0), v(0, 2500), v(0, 0), 3000, 0, 1000, 100);
    assert_eq!(r.unwrap(), v(0, -450));
}

#[test]
fn compressed_spring_pushes_apart() {
    // Separation 0.5 below rest 1.0: force is negative, B is pushed away.
    let r = spring_impulse_on_b(v(0, 0), v(0, 0), v(500, 0), v(0, 0), 2000, 0, 1000, 100);
    // F = 2.0 * (0.5 - 1.0) = -1.0; impulse on B = +0.1 along x.
    assert_eq!(r.unwrap(), v(100, 0));
}

#[test]
fn damping_only_force_follows_axial_velocity() {
    // k = 0, c = 2.0; B separates at 1.5 units/s along the axis:
    // F = 2.0 * 1.5 = 3.0, impulse on B at dt = 0.01 is -0.03.
    let r = spring_impulse_on_b(v(0, 0), v(0, 0), v(3000, 0), v(1500, 0), 0, 2000, 1000, 10);
    assert_eq!(r.unwrap(), v(-30, 0));
    // Velocity orthogonal to the axis: no axial motion, no force,
    // whatever the separation and rest length.
    let r = spring_impulse_on_b(v(0, 0), v(0, 0), v(3000, 0), v(0, 1500), 0, 2000, 9999, 10);
    assert_eq!(r.unwrap(), v(0, 0));
}

#[test]
fn coincident_anchors_apply_nothing() {
    let r = spring_impulse_on_b(
        v(1234, -500),
        v(0, 0),
        v(1234, -500),
        v(0, 0),
        1000,
        1000,
        1000,
        10,
    );
    assert!(r.is_none());
}

#[test]
fn tick_applies_equal_and_opposite_impulses() {
    let mut dir = two_body_world(v(0, 0), v(0, 0), v(0, 2500), v(0, 0));
    let mut coupled =
        vec![CoupledSpring::new(1, 2, v(0, 0), v(0, 0), 3000, 0, 1000).unwrap()];
    let mut anchored: Vec<AnchoredSpring> = Vec::new();
    tick(&mut dir, &mut coupled, &mut anchored, 100);
    let a = dir.resolve(1).unwrap().impulse;
    let b = dir.resolve(2).unwrap().impulse;
    assert_eq!(b, v(0, -450));
    assert_eq!(a, v(0, 450));
    assert_eq!(a.x, -b.x);
    assert_eq!(a.y, -b.y);
    assert!(!coupled[0].orphaned);
}

#[test]
fn tick_preserves_other_contributions() {
    let mut dir = two_body_world(v(0, 0), v(0, 0), v(0, 2500), v(0, 0));
    assert!(dir.accumulate_impulse(2, v(11, 22)));
    let mut coupled =
        vec![CoupledSpring::new(1, 2, v(0, 0), v(0, 0), 3000, 0, 1000).unwrap()];
    let mut anchored: Vec<AnchoredSpring> = Vec::new();
    tick(&mut dir, &mut coupled, &mut anchored, 100);
    assert_eq!(dir.resolve(2).unwrap().impulse, v(11, 22 - 450));
}

#[test]
fn anchored_spring_moves_only_the_body_side() {
    let mut dir = BodyDirectory::new();
    assert!(dir.spawn(7, v(0, 0), Rot2Fx::identity(), v(0, 0)));
    assert!(dir.spawn(8, v(-5000, 0), Rot2Fx::identity(), v(0, 0)));
    let spring = AnchoredSpring::new(7, v(0, 0), v(3000, 0), 1000, 0, 1000).unwrap();
    let mut coupled: Vec<CoupledSpring> = Vec::new();
    let mut anchored = vec![spring];
    tick(&mut dir, &mut coupled, &mut anchored, 10);
    // L = 3.0, x = 2.0, F = 1.0 * 2.0 = 2.0; the body is pulled toward the
    // world anchor: +0.02 along x at dt = 0.01.
    assert_eq!(dir.resolve(7).unwrap().impulse, v(20, 0));
    // The bystander body and the fixed anchor are untouched.
    assert_eq!(dir.resolve(8).unwrap().impulse, v(0, 0));
    assert_eq!(anchored[0].world_anchor, v(3000, 0));
    assert!(!anchored[0].orphaned);
}

#[test]
fn degenerate_coupled_spring_is_skipped_not_faulted() {
    let mut dir = two_body_world(v(1234, -500), v(0, 0), v(1234, -500), v(0, 0));
    let mut coupled =
        vec![CoupledSpring::new(1, 2, v(0, 0), v(0, 0), 1000, 1000, 1000).unwrap()];
    let mut anchored: Vec<AnchoredSpring> = Vec::new();
    tick(&mut dir, &mut coupled, &mut anchored, 10);
    assert_eq!(dir.resolve(1).unwrap().impulse, v(0, 0));
    assert_eq!(dir.resolve(2).unwrap().impulse, v(0, 0));
    assert!(!coupled[0].orphaned);
}

#[test]
fn orphaned_spring_is_skipped_and_marked() {
    let mut dir = two_body_world(v(0, 0), v(0, 0), v(0, 2500), v(0, 0));
    let mut coupled =
        vec![CoupledSpring::new(1, 2, v(0, 0), v(0, 0), 3000, 0, 1000).unwrap()];
    let mut anchored: Vec<AnchoredSpring> = Vec::new();
    assert!(dir.remove(2));
    tick(&mut dir, &mut coupled, &mut anchored, 100);
    assert!(coupled[0].orphaned);
    assert_eq!(dir.resolve(1).unwrap().impulse, v(0, 0));
    // Ticking again still cannot fault and accumulates nothing.
    tick(&mut dir, &mut coupled, &mut anchored, 100);
    assert!(coupled[0].orphaned);
    assert_eq!(dir.resolve(1).unwrap().impulse, v(0, 0));
}

#[test]
fn orphaned_anchored_spring_is_marked() {
    let mut dir = BodyDirectory::new();
    let mut coupled: Vec<CoupledSpring> = Vec::new();
    let mut anchored =
        vec![AnchoredSpring::new(3, v(0, 0), v(1000, 0), 1000, 0, 0).unwrap()];
    tick(&mut dir, &mut coupled, &mut anchored, 10);
    assert!(anchored[0].orphaned);
}

#[test]
fn end_to_end_scenario_matches_the_numbers() {
    // One coupled spring, stiffness 10, damping 0, rest length 5; bodies 7
    // units apart on the x axis, dt = 0.01: force magnitude 10 * 2 = 20,
    // impulse magnitude 0.2, directed to reduce the separation.
    let mut dir = two_body_world(v(0, 0), v(0, 0), v(7000, 0), v(0, 0));
    let mut coupled =
        vec![CoupledSpring::new(1, 2, v(0, 0), v(0, 0), 10_000, 0, 5000).unwrap()];
    let mut anchored: Vec<AnchoredSpring> = Vec::new();
    tick(&mut dir, &mut coupled, &mut anchored, 10);
    let imp_a = dir.resolve(1).unwrap().impulse;
    let imp_b = dir.resolve(2).unwrap().impulse;
    assert_eq!(imp_b, v(-200, 0)); // 0.2 toward A
    assert_eq!(imp_a, v(200, 0)); // 0.2 toward B
}

#[test]
fn tick_resolves_anchors_through_the_body_transform() {
    // Body 2 is turned half a revolution, so its local anchor (1, 0)
    // points back toward body 1: the spring spans 4 units, not 5.
    let mut dir = BodyDirectory::new();
    assert!(dir.spawn(1, v(0, 0), Rot2Fx::identity(), v(0, 0)));
    let half_turn = Rot2Fx::new(-1000, 0).unwrap();
    assert!(dir.spawn(2, v(5000, 0), half_turn, v(0, 0)));
    let mut coupled =
        vec![CoupledSpring::new(1, 2, v(0, 0), v(1000, 0), 1000, 0, 3000).unwrap()];
    let mut anchored: Vec<AnchoredSpring> = Vec::new();
    tick(&mut dir, &mut coupled, &mut anchored, 10);
    // L = 4.0, x = 1.0, F = 1.0; impulse 0.01 pulling the bodies together.
    assert_eq!(dir.resolve(2).unwrap().impulse, v(-10, 0));
    assert_eq!(dir.resolve(1).unwrap().impulse, v(10, 0));
}

#[test]
fn coupled_and_anchored_springs_share_a_tick() {
    let mut dir = two_body_world(v(0, 0), v(0, 0), v(7000, 0), v(0, 0));
    let mut coupled =
        vec![CoupledSpring::new(1, 2, v(0, 0), v(0, 0), 10_000, 0, 5000).unwrap()];
    let mut anchored =
        vec![AnchoredSpring::new(1, v(0, 0), v(-3000, 0), 1000, 0, 1000).unwrap()];
    tick(&mut dir, &mut coupled, &mut anchored, 10);
    // Body 1 takes 0.2 toward body 2 and 0.02 toward the world anchor.
    assert_eq!(dir.resolve(1).unwrap().impulse, v(200 - 20, 0));
    assert_eq!(dir.resolve(2).unwrap().impulse, v(-200, 0));
}

#[test]
fn two_springs_on_one_body_accumulate() {
    let mut dir = BodyDirectory::new();
    assert!(dir.spawn(1, v(0, 0), Rot2Fx::identity(), v(0, 0)));
    assert!(dir.spawn(2, v(7000, 0), Rot2Fx::identity(), v(0, 0)));
    assert!(dir.spawn(3, v(-7000, 0), Rot2Fx::identity(), v(0, 0)));
    let mut coupled = vec![
        CoupledSpring::new(2, 1, v(0, 0), v(0, 0), 10_000, 0, 5000).unwrap(),
        CoupledSpring::new(3, 1, v(0, 0), v(0, 0), 10_000, 0, 5000).unwrap(),
    ];
    let mut anchored: Vec<AnchoredSpring> = Vec::new();
    tick(&mut dir, &mut coupled, &mut anchored, 10);
    // The two pulls on body 1 cancel exactly; the outer bodies are each
    // pulled inward by 0.2.
    assert_eq!(dir.resolve(1).unwrap().impulse, v(0, 0));
    assert_eq!(dir.resolve(2).unwrap().impulse, v(-200, 0));
    assert_eq!(dir.resolve(3).unwrap().impulse, v(200, 0));
}
