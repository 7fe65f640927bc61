use std::cell::{Cell, RefCell};
use std::time::Duration;

use mouse_engine::{
    batch_events, click_state_for, get_button_flags, send_batch, send_clicks, ClickAction,
    ClickCycle, ClickFeedback, ClickRun, MouseEventSpec, RunStage,
};

use MouseEventSpec::{LeftDown, LeftUp, MiddleDown, MiddleUp, RightDown, RightUp};

#[test]
fn button_numbers_map_to_press_and_release() {
    assert_eq!(get_button_flags(1), (LeftDown, LeftUp));
    assert_eq!(get_button_flags(2), (RightDown, RightUp));
    assert_eq!(get_button_flags(3), (MiddleDown, MiddleUp));
    assert_eq!(get_button_flags(0), (LeftDown, LeftUp));
    assert_eq!(get_button_flags(-4), (LeftDown, LeftUp));
    assert_eq!(get_button_flags(99), (LeftDown, LeftUp));
}

#[test]
fn click_state_counts_clicks_only_for_multi_clicks() {
    assert_eq!(click_state_for(0, true), 1);
    assert_eq!(click_state_for(2, true), 3);
    assert_eq!(click_state_for(2, false), 1);
}

fn drive_cycle(mut cycle: ClickCycle, answers: &[bool]) -> Vec<ClickAction> {
    let mut trace = Vec::new();
    let mut next_answer = 0;
    loop {
        let action = cycle.action();
        trace.push(action);
        let feedback = match action {
            ClickAction::Finish { .. } => return trace,
            ClickAction::CheckActive => {
                let a = answers[next_answer];
                next_answer += 1;
                ClickFeedback::Active(a)
            }
            _ => ClickFeedback::Performed,
        };
        cycle = cycle.advance(feedback);
    }
}

#[test]
fn click_cycle_with_hold_checks_again_before_release() {
    let trace = drive_cycle(ClickCycle::start(LeftDown, LeftUp, 20, 3), &[true, false]);
    assert_eq!(
        trace,
        vec![
            ClickAction::CheckActive,
            ClickAction::Send { event: LeftDown, click_state: 3 },
            ClickAction::Sleep { ms: 20 },
            ClickAction::CheckActive,
            ClickAction::Send { event: LeftUp, click_state: 3 },
            ClickAction::Finish { completed: false },
        ]
    );
}

#[test]
fn click_cycle_stops_before_pressing_when_inactive() {
    let trace = drive_cycle(ClickCycle::start(LeftDown, LeftUp, 20, 1), &[false]);
    assert_eq!(trace, vec![ClickAction::CheckActive, ClickAction::Finish { completed: false }]);
}

#[test]
fn click_run_of_zero_clicks_is_done_at_once() {
    let run = ClickRun::start(LeftDown, LeftUp, 0, 10, true, 50);
    assert_eq!(run.action(), ClickAction::Finish { completed: true });
}

#[test]
fn click_run_of_several_quick_clicks_is_one_batch() {
    let run = ClickRun::start(RightDown, RightUp, 5, 0, false, 50);
    assert_eq!(run.stage, RunStage::Batch);
    assert_eq!(
        run.action(),
        ClickAction::Batch { down: RightDown, up: RightUp, count: 5, hold_ms: 0 }
    );
    let run = run.advance(ClickFeedback::Performed);
    assert_eq!(run.action(), ClickAction::Finish { completed: true });
}

#[derive(Debug, PartialEq)]
enum Effect {
    Batch(MouseEventSpec, MouseEventSpec, usize, u32),
    Send(MouseEventSpec, i64),
    Sleep(Duration),
}

fn record_clicks(
    down: MouseEventSpec,
    up: MouseEventSpec,
    count: usize,
    hold_ms: u32,
    gap: bool,
    delay_ms: u32,
    active_checks: usize,
) -> Vec<Effect> {
    let effects = RefCell::new(Vec::new());
    let checks = Cell::new(0usize);
    let mut batch = |d, u, n, h| effects.borrow_mut().push(Effect::Batch(d, u, n, h));
    let mut send = |e, s| effects.borrow_mut().push(Effect::Send(e, s));
    let mut sleep = |d| effects.borrow_mut().push(Effect::Sleep(d));
    let is_active = || {
        checks.set(checks.get() + 1);
        checks.get() <= active_checks
    };
    send_clicks(down, up, count, hold_ms, gap, delay_ms, &mut batch, &mut send, &mut sleep, &is_active);
    effects.into_inner()
}

#[test]
fn send_clicks_with_no_clicks_does_nothing() {
    assert!(record_clicks(LeftDown, LeftUp, 0, 0, false, 0, usize::MAX).is_empty());
}

#[test]
fn send_clicks_batches_quick_single_clicks() {
    assert_eq!(
        record_clicks(LeftDown, LeftUp, 4, 0, false, 80, usize::MAX),
        vec![Effect::Batch(LeftDown, LeftUp, 4, 0)]
    );
}

#[test]
fn send_clicks_single_click_is_not_batched() {
    assert_eq!(
        record_clicks(LeftDown, LeftUp, 1, 0, false, 80, usize::MAX),
        vec![Effect::Send(LeftDown, 1), Effect::Send(LeftUp, 1)]
    );
}

#[test]
fn send_clicks_double_click_counts_and_pauses_between() {
    assert_eq!(
        record_clicks(LeftDown, LeftUp, 2, 0, true, 30, usize::MAX),
        vec![
            Effect::Send(LeftDown, 1),
            Effect::Send(LeftUp, 1),
            Effect::Sleep(Duration::from_millis(30)),
            Effect::Send(LeftDown, 2),
            Effect::Send(LeftUp, 2),
        ]
    );
}

#[test]
fn send_clicks_double_click_without_delay_does_not_pause() {
    assert_eq!(
        record_clicks(MiddleDown, MiddleUp, 3, 0, true, 0, usize::MAX),
        vec![
            Effect::Send(MiddleDown, 1),
            Effect::Send(MiddleUp, 1),
            Effect::Send(MiddleDown, 2),
            Effect::Send(MiddleUp, 2),
            Effect::Send(MiddleDown, 3),
            Effect::Send(MiddleUp, 3),
        ]
    );
}

#[test]
fn send_clicks_with_hold_stops_after_the_run_ends() {
    // Active for the first click's two checks, inactive at the second click's first check.
    assert_eq!(
        record_clicks(RightDown, RightUp, 3, 10, false, 0, 2),
        vec![
            Effect::Send(RightDown, 1),
            Effect::Sleep(Duration::from_millis(10)),
            Effect::Send(RightUp, 1),
        ]
    );
}

#[test]
fn send_clicks_releases_when_stopped_during_hold() {
    assert_eq!(
        record_clicks(LeftDown, LeftUp, 3, 10, false, 0, 1),
        vec![
            Effect::Send(LeftDown, 1),
            Effect::Sleep(Duration::from_millis(10)),
            Effect::Send(LeftUp, 1),
        ]
    );
}

#[test]
fn batch_alternates_press_and_release() {
    assert_eq!(batch_events(LeftDown, LeftUp, 3), vec![LeftDown, LeftUp, LeftDown, LeftUp, LeftDown, LeftUp]);
    assert!(batch_events(LeftDown, LeftUp, 0).is_empty());
}

#[test]
fn send_batch_sends_pairs_with_click_state_one() {
    let sent = RefCell::new(Vec::new());
    let mut send = |e, s| sent.borrow_mut().push((e, s));
    send_batch(RightDown, RightUp, 2, 15, &mut send);
    assert_eq!(
        sent.into_inner(),
        vec![(RightDown, 1), (RightUp, 1), (RightDown, 1), (RightUp, 1)]
    );
}
