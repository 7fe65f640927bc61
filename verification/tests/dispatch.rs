use std::cell::{Cell, RefCell};
use std::time::Duration;

use mouse_engine::{dispatch_click, MouseEventSpec};

#[test]
fn dispatch_click_skips_events_when_run_is_already_stopped() {
    let events = RefCell::new(Vec::new());
    let mut send_event = |event, click_state| events.borrow_mut().push((event, click_state));
    let mut sleep_for = |_| {};
    let is_active = || false;

    let sent = dispatch_click(
        MouseEventSpec::LeftDown,
        MouseEventSpec::LeftUp,
        5,
        1,
        &mut send_event,
        &mut sleep_for,
        &is_active,
    );

    assert!(!sent);
    assert!(events.borrow().is_empty());
}

#[test]
fn dispatch_click_releases_button_when_run_stops_during_hold() {
    let events = RefCell::new(Vec::new());
    let mut send_event = |event, click_state| events.borrow_mut().push((event, click_state));
    let active = Cell::new(true);
    let mut sleep_for = |_| active.set(false);
    let is_active = || active.get();

    let sent = dispatch_click(
        MouseEventSpec::LeftDown,
        MouseEventSpec::LeftUp,
        5,
        1,
        &mut send_event,
        &mut sleep_for,
        &is_active,
    );

    assert!(!sent);
    assert_eq!(
        &*events.borrow(),
        &[(MouseEventSpec::LeftDown, 1), (MouseEventSpec::LeftUp, 1)]
    );
}

#[test]
fn dispatch_click_sends_normal_down_and_up_when_run_stays_active() {
    let events = RefCell::new(Vec::new());
    let mut send_event = |event, click_state| events.borrow_mut().push((event, click_state));
    let mut sleep_for = |_| {};
    let is_active = || true;

    let sent = dispatch_click(
        MouseEventSpec::LeftDown,
        MouseEventSpec::LeftUp,
        5,
        2,
        &mut send_event,
        &mut sleep_for,
        &is_active,
    );

    assert!(sent);
    assert_eq!(
        &*events.borrow(),
        &[(MouseEventSpec::LeftDown, 2), (MouseEventSpec::LeftUp, 2)]
    );
}

#[test]
fn dispatch_click_without_hold_neither_sleeps_nor_checks_twice() {
    let events = RefCell::new(Vec::new());
    let mut send_event = |event, click_state| events.borrow_mut().push((event, click_state));
    let sleeps = Cell::new(0u32);
    let mut sleep_for = |_| sleeps.set(sleeps.get() + 1);
    let checks = Cell::new(0u32);
    let is_active = || {
        checks.set(checks.get() + 1);
        true
    };

    let sent = dispatch_click(
        MouseEventSpec::RightDown,
        MouseEventSpec::RightUp,
        0,
        1,
        &mut send_event,
        &mut sleep_for,
        &is_active,
    );

    assert!(sent);
    assert_eq!(sleeps.get(), 0);
    assert_eq!(checks.get(), 1);
    assert_eq!(
        &*events.borrow(),
        &[(MouseEventSpec::RightDown, 1), (MouseEventSpec::RightUp, 1)]
    );
}

#[test]
fn dispatch_click_holds_for_the_requested_milliseconds() {
    let slept = RefCell::new(Vec::new());
    let mut send_event = |_, _| {};
    let mut sleep_for = |d: Duration| slept.borrow_mut().push(d);
    let is_active = || true;

    let sent = dispatch_click(
        MouseEventSpec::MiddleDown,
        MouseEventSpec::MiddleUp,
        37,
        1,
        &mut send_event,
        &mut sleep_for,
        &is_active,
    );

    assert!(sent);
    assert_eq!(&*slept.borrow(), &[Duration::from_millis(37)]);
}
