use libtrace::integrator::{may_scatter, next_step, Interaction, PathStep, MAX_DEPTH};
use libtrace::texture::{clamp, texel_coords};

#[test]
fn depth_limit_is_fifty() {
    assert_eq!(MAX_DEPTH, 50);
    assert!(may_scatter(0));
    assert!(may_scatter(49));
    assert!(!may_scatter(50));
}

#[test]
fn path_at_depth_limit_ends_with_emission() {
    assert_eq!(next_step(50, Interaction::Scattered), PathStep::Emit);
    assert_eq!(next_step(50, Interaction::Absorbed), PathStep::Emit);
    assert_eq!(next_step(50, Interaction::Miss), PathStep::Background);
    assert_eq!(next_step(i32::MAX, Interaction::Scattered), PathStep::Emit);
}

#[test]
fn path_below_limit_bounces_one_level_deeper() {
    assert_eq!(next_step(0, Interaction::Scattered), PathStep::Bounce { depth: 1 });
    assert_eq!(next_step(49, Interaction::Scattered), PathStep::Bounce { depth: 50 });
    assert_eq!(next_step(3, Interaction::Absorbed), PathStep::Emit);
    assert_eq!(next_step(3, Interaction::Miss), PathStep::Background);
}

#[test]
fn path_from_camera_bounces_at_most_fifty_times() {
    let mut depth = 0;
    let mut bounces = 0;
    while let PathStep::Bounce { depth: d } = next_step(depth, Interaction::Scattered) {
        depth = d;
        bounces += 1;
    }
    assert_eq!(bounces, 50);
    assert_eq!(depth, 50);
}

#[test]
fn clamp_limits_to_range() {
    assert_eq!(clamp(-3, 0, 10), 0);
    assert_eq!(clamp(4, 0, 10), 4);
    assert_eq!(clamp(11, 0, 10), 10);
    assert_eq!(clamp(7, 7, 7), 7);
}

#[test]
fn texel_is_inside_bitmap() {
    assert_eq!(texel_coords(0, 0, 4, 3), (0, 0));
    assert_eq!(texel_coords(4, 3, 4, 3), (3, 2));
    assert_eq!(texel_coords(-1, -5, 4, 3), (0, 0));
    assert_eq!(texel_coords(2, 1, 4, 3), (2, 1));
    assert_eq!(texel_coords(i64::MAX, i64::MIN, 1, 1), (0, 0));
}
