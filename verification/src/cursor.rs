use vstd::prelude::*;

verus! {

/// The cursor position, or the origin when it could not be read.
pub fn get_cursor_pos(queried: Option<(i32, i32)>) -> (pos: (i32, i32))
    ensures
        pos == match queried {
            Some(p) => p,
            None => (0i32, 0i32),
        },
{
    match queried {
        Some(p) => p,
        None => (0, 0),
    }
}

pub open spec fn clamp(v: int, lo: int, hi: int) -> int {
    if v < lo {
        lo
    } else if v > hi {
        hi
    } else {
        v
    }
}

/// The number of intermediate steps of a smooth move lasting `duration_ms`: a third of
/// the duration between 1 and 4 for moves of up to 12 ms, else an eighth of it
/// (counted in `usize`) between 4 and 75.
pub open spec fn step_count(duration_ms: u64) -> int {
    if duration_ms <= 12 {
        clamp((duration_ms / 3) as int, 1, 4)
    } else {
        clamp(((duration_ms / 8) as usize) as int, 4, 75)
    }
}

/// The squared distance between two points.
pub open spec fn squared_distance(start_x: i32, start_y: i32, end_x: i32, end_y: i32) -> int {
    (end_x - start_x) * (end_x - start_x) + (end_y - start_y) * (end_y - start_y)
}

/// A move jumps straight to its target when it is nearly instant or shorter than
/// three pixels.
pub open spec fn moves_directly(start_x: i32, start_y: i32, end_x: i32, end_y: i32, duration_ms: u64) -> bool {
    duration_ms < 3 || squared_distance(start_x, start_y, end_x, end_y) < 9
}

/// The integer shape of a curved move: how many steps it takes, at which step a wobble
/// may happen, and whether a wobble or an overshoot may be drawn at all.
#[derive(Clone, Copy, Debug, PartialEq, Eq, Structural)]
pub struct CurvePlan {
    pub steps: usize,
    pub wobble_step: usize,
    pub wobble_allowed: bool,
    pub overshoot_allowed: bool,
}

/// Whether `|a - b| < 3`.
fn within_two(a: i32, b: i32) -> (r: bool)
    ensures
        r == (-3 < b - a < 3),
{
    let d = b as i64 - a as i64;
    -3 < d && d < 3
}

/// Plans a smooth move: `None` when the cursor should jump straight to the target,
/// else the steps of the curve.
pub fn plan_smooth_move(
    start_x: i32,
    start_y: i32,
    end_x: i32,
    end_y: i32,
    duration_ms: u64,
    allow_overshoot: bool,
) -> (plan: Option<CurvePlan>)
    ensures
        plan is None <==> moves_directly(start_x, start_y, end_x, end_y, duration_ms),
        plan matches Some(p) ==> {
            &&& p.steps == step_count(duration_ms)
            &&& p.wobble_step == p.steps / 2
            &&& p.wobble_allowed == (duration_ms > 22)
            &&& p.overshoot_allowed == (allow_overshoot && duration_ms > 16)
        },
{
    if duration_ms < 3 || (start_x == end_x && start_y == end_y) {
        proof {
            lemma_move_to_same_point_is_direct(start_x, start_y, duration_ms);
        }
        return None;
    }
    let dx = end_x as i64 - start_x as i64;
    let dy = end_y as i64 - start_y as i64;
    if within_two(start_x, end_x) && within_two(start_y, end_y) {
        assert(0 <= dx * dx <= 4 && 0 <= dy * dy <= 4) by (nonlinear_arith)
            requires
                -3 < dx < 3,
                -3 < dy < 3,
        ;
        if dx * dx + dy * dy < 9 {
            return None;
        }
    } else {
        assert(dx * dx + dy * dy >= 9) by (nonlinear_arith)
            requires
                dx <= -3 || dx >= 3 || dy <= -3 || dy >= 3,
        ;
    }
    let steps = step_count_of(duration_ms);
    Some(CurvePlan {
        steps,
        wobble_step: steps / 2,
        wobble_allowed: duration_ms > 22,
        overshoot_allowed: allow_overshoot && duration_ms > 16,
    })
}

/// The number of steps of a curved move lasting `duration_ms`.
pub fn step_count_of(duration_ms: u64) -> (steps: usize)
    ensures
        steps == step_count(duration_ms),
        1 <= steps <= 75,
        duration_ms > 12 ==> steps >= 4,
{
    if duration_ms <= 12 {
        let third = duration_ms / 3;
        if third < 1 {
            1
        } else if third > 4 {
            4
        } else {
            third as usize
        }
    } else {
        #[verifier::truncate]
        let eighth = (duration_ms / 8) as usize;
        if eighth < 4 {
            4
        } else if eighth > 75 {
            75
        } else {
            eighth
        }
    }
}

/// The duration of the leg that returns from an overshoot: two thirds of the
/// correction time, and at least 3 ms.
pub fn return_leg_ms(correction_ms: u64) -> (ms: u64)
    requires
        correction_ms <= u64::MAX / 2,
    ensures
        ms == if correction_ms * 2 / 3 > 3 { correction_ms * 2 / 3 } else { 3 },
{
    let two_thirds = correction_ms * 2 / 3;
    if two_thirds > 3 {
        two_thirds
    } else {
        3
    }
}

/// A longer move never takes fewer steps (as long as an eighth of it is a `usize`).
pub proof fn lemma_step_count_monotone(shorter: u64, longer: u64)
    requires
        shorter <= longer,
        longer / 8 <= usize::MAX,
    ensures
        step_count(shorter) <= step_count(longer),
{
    assert(shorter / 8 <= longer / 8) by (nonlinear_arith)
        requires
            shorter <= longer,
    ;
    assert(shorter / 3 <= longer / 3) by (nonlinear_arith)
        requires
            shorter <= longer,
    ;
}

/// A move is direct exactly when it is nearly instant or within a 3-pixel radius; in
/// particular a move to the starting point is always direct.
pub proof fn lemma_move_to_same_point_is_direct(x: i32, y: i32, duration_ms: u64)
    ensures
        moves_directly(x, y, x, y, duration_ms),
{
    assert(squared_distance(x, y, x, y) == 0) by (nonlinear_arith);
}

} // verus!
