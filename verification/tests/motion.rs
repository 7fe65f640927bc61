use mouse_engine::{get_cursor_pos, plan_smooth_move, return_leg_ms, step_count_of, CurvePlan};

#[test]
fn cursor_position_defaults_to_origin() {
    assert_eq!(get_cursor_pos(Some((-5, 700))), (-5, 700));
    assert_eq!(get_cursor_pos(None), (0, 0));
}

#[test]
fn step_counts_follow_duration() {
    assert_eq!(step_count_of(0), 1);
    assert_eq!(step_count_of(3), 1);
    assert_eq!(step_count_of(9), 3);
    assert_eq!(step_count_of(12), 4);
    assert_eq!(step_count_of(13), 4);
    assert_eq!(step_count_of(40), 5);
    assert_eq!(step_count_of(100), 12);
    assert_eq!(step_count_of(600), 75);
    assert_eq!(step_count_of(u64::MAX), 75);
}

#[test]
fn step_counts_never_decrease() {
    let mut previous = step_count_of(0);
    for d in 1..2000u64 {
        let now = step_count_of(d);
        assert!(now >= previous);
        previous = now;
    }
}

#[test]
fn short_or_instant_moves_are_direct() {
    assert_eq!(plan_smooth_move(10, 10, 500, 500, 2, true), None);
    assert_eq!(plan_smooth_move(10, 10, 10, 10, 200, true), None);
    assert_eq!(plan_smooth_move(10, 10, 12, 12, 200, true), None);
    assert_eq!(plan_smooth_move(10, 10, 7, 10, 200, true).is_some(), true);
    assert_eq!(plan_smooth_move(10, 10, 12, 13, 200, true).is_some(), true);
}

#[test]
fn far_moves_are_extreme_coordinates_safe() {
    assert!(plan_smooth_move(i32::MIN, i32::MIN, i32::MAX, i32::MAX, 100, true).is_some());
}

#[test]
fn curve_plan_values() {
    assert_eq!(
        plan_smooth_move(0, 0, 300, 400, 100, true),
        Some(CurvePlan { steps: 12, wobble_step: 6, wobble_allowed: true, overshoot_allowed: true })
    );
    assert_eq!(
        plan_smooth_move(0, 0, 300, 400, 20, true),
        Some(CurvePlan { steps: 4, wobble_step: 2, wobble_allowed: false, overshoot_allowed: true })
    );
    assert_eq!(
        plan_smooth_move(0, 0, 300, 400, 100, false),
        Some(CurvePlan { steps: 12, wobble_step: 6, wobble_allowed: true, overshoot_allowed: false })
    );
    assert_eq!(
        plan_smooth_move(0, 0, 300, 400, 16, true),
        Some(CurvePlan { steps: 4, wobble_step: 2, wobble_allowed: false, overshoot_allowed: false })
    );
}

#[test]
fn return_leg_is_two_thirds_but_at_least_three() {
    assert_eq!(return_leg_ms(4), 3);
    assert_eq!(return_leg_ms(30), 20);
    assert_eq!(return_leg_ms(5), 3);
    assert_eq!(return_leg_ms(6), 4);
}
