//! Mouse automation engine: screen geometry, monitor layout, click sequencing and
//! cursor-motion planning, with the operating-system calls kept outside.

pub mod batch;
pub mod click_cycle;
pub mod click_run;
pub mod cursor;
pub mod monitors;
pub mod mouse_event;
pub mod run_laws;
pub mod screen;

pub use batch::{batch_events, send_batch};
pub use click_cycle::{dispatch_click, ClickAction, ClickCycle, ClickFeedback, CycleStage};
pub use click_run::{click_state_for, send_clicks, ClickRun, RunStage};
pub use cursor::{get_cursor_pos, plan_smooth_move, return_leg_ms, step_count_of, CurvePlan};
pub use monitors::{
    current_monitor_rects, current_virtual_screen_rect, keep_visible, monitor_from_bounds,
    sort_by_position, spans_fit, virtual_screen_from_metrics,
};
pub use mouse_event::{get_button_flags, MouseEventSpec};
pub use screen::VirtualScreenRect;
