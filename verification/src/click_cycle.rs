use vstd::prelude::*;
use std::time::Duration;
use crate::mouse_event::MouseEventSpec;

verus! {

/// What a click sequence asks its caller to do next.
#[derive(Clone, Copy, Debug, PartialEq, Eq, Structural)]
pub enum ClickAction {
    /// Report whether the run is still active.
    CheckActive,
    /// Inject one button event.
    Send { event: MouseEventSpec, click_state: i64 },
    /// Wait (interruptibly) for the given number of milliseconds.
    Sleep { ms: u32 },
    /// Inject `count` press/release pairs at once.
    Batch { down: MouseEventSpec, up: MouseEventSpec, count: usize, hold_ms: u32 },
    /// Nothing is left to do; `completed` is false when the run stopped early.
    Finish { completed: bool },
}

/// What the caller reports back after carrying out an action.
#[derive(Clone, Copy, Debug, PartialEq, Eq, Structural)]
pub enum ClickFeedback {
    /// A send, sleep or batch was carried out.
    Performed,
    /// The answer to `CheckActive`.
    Active(bool),
}

/// Where a single click stands; each stage names the action it is waiting on.
#[derive(Clone, Copy, Debug, PartialEq, Eq, Structural)]
pub enum CycleStage {
    /// Waiting for the first activity check.
    CheckingStart,
    /// The press has been requested.
    Pressed,
    /// The hold sleep has been requested.
    Holding,
    /// Waiting for the activity check after the hold.
    CheckingHold,
    /// The release has been requested.
    Released { completed: bool },
    /// The click is over.
    Finished { completed: bool },
}

/// One click: check that the run is active, press, optionally hold and check again,
/// then release.
#[derive(Clone, Copy, Debug, PartialEq, Eq, Structural)]
pub struct ClickCycle {
    pub down: MouseEventSpec,
    pub up: MouseEventSpec,
    pub hold_ms: u32,
    pub click_state: i64,
    pub stage: CycleStage,
}

impl ClickCycle {
    pub open spec fn with_stage(self, stage: CycleStage) -> ClickCycle {
        ClickCycle {
            down: self.down,
            up: self.up,
            hold_ms: self.hold_ms,
            click_state: self.click_state,
            stage,
        }
    }

    pub open spec fn starting(
        down: MouseEventSpec,
        up: MouseEventSpec,
        hold_ms: u32,
        click_state: i64,
    ) -> ClickCycle {
        ClickCycle { down, up, hold_ms, click_state, stage: CycleStage::CheckingStart }
    }

    /// The action that the current stage is waiting on.
    pub open spec fn pending(self) -> ClickAction {
        match self.stage {
            CycleStage::CheckingStart => ClickAction::CheckActive,
            CycleStage::Pressed => ClickAction::Send { event: self.down, click_state: self.click_state },
            CycleStage::Holding => ClickAction::Sleep { ms: self.hold_ms },
            CycleStage::CheckingHold => ClickAction::CheckActive,
            CycleStage::Released { .. } => ClickAction::Send { event: self.up, click_state: self.click_state },
            CycleStage::Finished { completed } => ClickAction::Finish { completed },
        }
    }

    /// The pending action is an activity check, so the feedback must be an answer.
    pub open spec fn wants_answer(self) -> bool {
        self.stage is CheckingStart || self.stage is CheckingHold
    }

    /// The press has been sent and the release not yet.
    pub open spec fn button_held(self) -> bool {
        ||| self.stage is Pressed
        ||| self.stage is Holding
        ||| self.stage is CheckingHold
    }

    pub open spec fn is_finished(self) -> bool {
        self.stage is Finished
    }

    /// The number of steps left before the click is over.
    pub open spec fn rank(self) -> nat {
        match self.stage {
            CycleStage::CheckingStart => 5,
            CycleStage::Pressed => 4,
            CycleStage::Holding => 3,
            CycleStage::CheckingHold => 2,
            CycleStage::Released { .. } => 1,
            CycleStage::Finished { .. } => 0,
        }
    }

    /// The feedback is of the kind that the pending action produces.
    pub open spec fn accepts(self, feedback: ClickFeedback) -> bool {
        self.wants_answer() == (feedback is Active)
    }

    /// The stage after the pending action was carried out with the given feedback.
    pub open spec fn next(self, feedback: ClickFeedback) -> ClickCycle {
        let stage = match self.stage {
            CycleStage::CheckingStart => match feedback {
                ClickFeedback::Active(true) => CycleStage::Pressed,
                _ => CycleStage::Finished { completed: false },
            },
            CycleStage::Pressed => if self.hold_ms > 0 {
                CycleStage::Holding
            } else {
                CycleStage::Released { completed: true }
            },
            CycleStage::Holding => CycleStage::CheckingHold,
            CycleStage::CheckingHold => match feedback {
                ClickFeedback::Active(active) => CycleStage::Released { completed: active },
                _ => CycleStage::Released { completed: false },
            },
            CycleStage::Released { completed } => CycleStage::Finished { completed },
            CycleStage::Finished { completed } => CycleStage::Finished { completed },
        };
        self.with_stage(stage)
    }

    /// The actions of a click run to its end, the activity checks answered in turn by
    /// `answers` (a missing answer counts as inactive).
    pub open spec fn run(self, answers: Seq<bool>) -> Seq<ClickAction>
        decreases self.rank(),
    {
        if self.is_finished() {
            seq![self.pending()]
        } else if self.wants_answer() {
            let answer = answers.len() > 0 && answers[0];
            let rest = if answers.len() > 0 { answers.drop_first() } else { answers };
            seq![self.pending()] + self.next(ClickFeedback::Active(answer)).run(rest)
        } else {
            seq![self.pending()] + self.next(ClickFeedback::Performed).run(answers)
        }
    }

    pub fn start(down: MouseEventSpec, up: MouseEventSpec, hold_ms: u32, click_state: i64) -> (c: Self)
        ensures
            c == Self::starting(down, up, hold_ms, click_state),
    {
        ClickCycle { down, up, hold_ms, click_state, stage: CycleStage::CheckingStart }
    }

    pub fn action(&self) -> (a: ClickAction)
        ensures
            a == self.pending(),
    {
        match self.stage {
            CycleStage::CheckingStart => ClickAction::CheckActive,
            CycleStage::Pressed => ClickAction::Send { event: self.down, click_state: self.click_state },
            CycleStage::Holding => ClickAction::Sleep { ms: self.hold_ms },
            CycleStage::CheckingHold => ClickAction::CheckActive,
            CycleStage::Released { .. } => ClickAction::Send { event: self.up, click_state: self.click_state },
            CycleStage::Finished { completed } => ClickAction::Finish { completed },
        }
    }

    pub fn advance(self, feedback: ClickFeedback) -> (n: Self)
        requires
            self.accepts(feedback),
        ensures
            n == self.next(feedback),
    {
        let stage = match self.stage {
            CycleStage::CheckingStart => match feedback {
                ClickFeedback::Active(true) => CycleStage::Pressed,
                _ => CycleStage::Finished { completed: false },
            },
            CycleStage::Pressed => if self.hold_ms > 0 {
                CycleStage::Holding
            } else {
                CycleStage::Released { completed: true }
            },
            CycleStage::Holding => CycleStage::CheckingHold,
            CycleStage::CheckingHold => match feedback {
                ClickFeedback::Active(active) => CycleStage::Released { completed: active },
                _ => CycleStage::Released { completed: false },
            },
            CycleStage::Released { completed } => CycleStage::Finished { completed },
            CycleStage::Finished { completed } => CycleStage::Finished { completed },
        };
        ClickCycle { stage, ..self }
    }
}

/// Every step of an unfinished click brings it closer to its end.
pub proof fn lemma_cycle_step_decreases(c: ClickCycle, feedback: ClickFeedback)
    requires
        !c.is_finished(),
    ensures
        c.next(feedback).rank() < c.rank(),
{
}

/// A click never ends while its button is down, releases only a button it pressed,
/// and presses only right after a positive first activity check.
pub proof fn lemma_cycle_step_keeps_button_balanced(c: ClickCycle, feedback: ClickFeedback)
    ensures
        c.button_held() ==> !c.next(feedback).is_finished(),
        c.next(feedback).stage is Released ==> c.button_held(),
        !c.button_held() && c.next(feedback).button_held() ==> c.stage is CheckingStart
            && feedback == ClickFeedback::Active(true),
{
}

/// The whole run of a click for every pair of activity answers: nothing is sent when
/// the first check fails; otherwise the press is always followed by its release, and
/// the click completes only if every check succeeded.
pub proof fn lemma_click_run(
    down: MouseEventSpec,
    up: MouseEventSpec,
    hold_ms: u32,
    click_state: i64,
    answers: Seq<bool>,
)
    requires
        answers.len() >= checks_made(hold_ms, answers[0]),
    ensures
        ({
            let run = ClickCycle::starting(down, up, hold_ms, click_state).run(answers);
            let press = ClickAction::Send { event: down, click_state };
            let release = ClickAction::Send { event: up, click_state };
            &&& !answers[0] ==> run == seq![ClickAction::CheckActive, ClickAction::Finish { completed: false }]
            &&& answers[0] && hold_ms == 0 ==> run == seq![
                ClickAction::CheckActive,
                press,
                release,
                ClickAction::Finish { completed: true },
            ]
            &&& answers[0] && hold_ms > 0 ==> run == seq![
                ClickAction::CheckActive,
                press,
                ClickAction::Sleep { ms: hold_ms },
                ClickAction::CheckActive,
                release,
                ClickAction::Finish { completed: answers[1] },
            ]
        }),
{
    let c0 = ClickCycle::starting(down, up, hold_ms, click_state);
    let rest = answers.drop_first();
    let c1 = c0.next(ClickFeedback::Active(answers[0]));
    reveal_with_fuel(ClickCycle::run, 7);
    if answers[0] {
        let c2 = c1.next(ClickFeedback::Performed);
        if hold_ms > 0 {
            let c3 = c2.next(ClickFeedback::Performed);
            let c4 = c3.next(ClickFeedback::Active(rest[0]));
            let c5 = c4.next(ClickFeedback::Performed);
            assert(c5.run(rest.drop_first()) == seq![c5.pending()]);
            assert(c4.run(rest.drop_first()) == seq![c4.pending()] + seq![c5.pending()]);
            assert(c3.run(rest) == seq![c3.pending()] + c4.run(rest.drop_first()));
            assert(c2.run(rest) == seq![c2.pending()] + c3.run(rest));
            assert(c1.run(rest) == seq![c1.pending()] + c2.run(rest));
        } else {
            let c3 = c2.next(ClickFeedback::Performed);
            assert(c3.run(rest) == seq![c3.pending()]);
            assert(c2.run(rest) == seq![c2.pending()] + c3.run(rest));
            assert(c1.run(rest) == seq![c1.pending()] + c2.run(rest));
        }
    } else {
        assert(c1.run(rest) == seq![c1.pending()]);
    }
}

/// The `Duration` that `std::time::Duration::from_millis` gives for `ms`.
pub uninterp spec fn millis_duration(ms: u64) -> Duration;

/// `std::time::Duration::from_millis` on `ms`. Its contract claims only that the
/// result is the duration of `ms` milliseconds, named by `millis_duration`, and so
/// the same for the same `ms`; `from_millis` never panics.
#[verifier::external_body]
pub(crate) fn millis(ms: u32) -> (d: Duration)
    ensures
        d == millis_duration(ms as u64),
{
    Duration::from_millis(ms as u64)
}

/// The callbacks' postconditions hold of the call that `action` asks for: an event
/// with exactly its arguments, a sleep for exactly its milliseconds. Other actions ask
/// for no such call.
pub open spec fn carried_out<FSend, FSleep>(action: ClickAction, send_event: FSend, sleep_for: FSleep) -> bool where
    FSend: FnMut(MouseEventSpec, i64),
    FSleep: FnMut(Duration),
 {
    match action {
        ClickAction::Send { event, click_state } => call_ensures(send_event, (event, click_state), ()),
        ClickAction::Sleep { ms } => call_ensures(sleep_for, (millis_duration(ms as u64),), ()),
        _ => true,
    }
}

/// A step that takes no answer extends what was followed from the start: the start's
/// run is what was done, then `before`'s action, then the run from `after`.
proof fn lemma_cycle_step_extends(
    start: ClickCycle,
    before: ClickCycle,
    answers: Seq<bool>,
    done: Seq<ClickAction>,
    after: ClickCycle,
)
    requires
        !before.is_finished(),
        !before.wants_answer(),
        after == before.next(ClickFeedback::Performed),
        forall|fa: Seq<bool>| #[trigger] start.run(answers + fa) == done + before.run(fa),
    ensures
        forall|fa: Seq<bool>| #[trigger] start.run(answers + fa) == done.push(before.pending()) + after.run(fa),
{
    assert forall|fa: Seq<bool>| #[trigger] start.run(answers + fa) == done.push(before.pending()) + after.run(fa) by {
        assert(start.run(answers + fa) == done + before.run(fa));
        assert(done + before.run(fa) =~= done.push(before.pending()) + after.run(fa));
    }
}

/// Whether a click with the given hold, whose activity checks were answered by
/// `answers` in turn, runs to completion.
pub open spec fn click_completes(hold_ms: u32, answers: Seq<bool>) -> bool {
    answers[0] && (hold_ms == 0 || answers[1])
}

/// The number of activity checks a click makes.
pub open spec fn checks_made(hold_ms: u32, first_answer: bool) -> nat {
    if first_answer && hold_ms > 0 { 2 } else { 1 }
}

/// Carries out one click through the three callbacks: nothing is sent when the run is
/// already inactive, and once the press is sent the release always follows, also
/// when the run stops during the hold. Returns whether the click completed. The calls
/// it makes are the actions of `ClickCycle` from its start (see `lemma_click_run`),
/// its checks answered by what `is_active` returned.
pub fn dispatch_click<FSend, FSleep, FActive>(
    down: MouseEventSpec,
    up: MouseEventSpec,
    hold_ms: u32,
    click_state: i64,
    send_event: &mut FSend,
    sleep_for: &mut FSleep,
    is_active: &FActive,
) -> (completed: bool) where
    FSend: FnMut(MouseEventSpec, i64),
    FSleep: FnMut(Duration),
    FActive: Fn() -> bool,

    requires
        forall|event: MouseEventSpec, state: i64| call_requires(*old(send_event), (event, state)),
        forall|d: Duration| call_requires(*old(sleep_for), (d,)),
        call_requires(*is_active, ()),
    ensures
        exists|answers: Seq<bool>|
            {
                &&& answers.len() == checks_made(hold_ms, answers[0])
                &&& forall|i: int| 0 <= i < answers.len() ==> call_ensures(*is_active, (), #[trigger] answers[i])
                &&& completed == click_completes(hold_ms, answers)
                &&& forall|i: int|
                    0 <= i < ClickCycle::starting(down, up, hold_ms, click_state).run(answers).len() ==> carried_out(
                        #[trigger] ClickCycle::starting(down, up, hold_ms, click_state).run(answers)[i],
                        *final(send_event),
                        *final(sleep_for),
                    )
            },
{
    let mut cycle = ClickCycle::start(down, up, hold_ms, click_state);
    let ghost start = cycle;
    let ghost send0 = *send_event;
    let ghost sleep0 = *sleep_for;
    let ghost mut done: Seq<ClickAction> = seq![];
    let ghost mut answers: Seq<bool> = seq![];
    proof {
        assert forall|fa: Seq<bool>| start.run(answers + fa) == done + cycle.run(fa) by {
            assert(answers + fa =~= fa);
            assert(done + cycle.run(fa) =~= cycle.run(fa));
        }
    }
    loop
        invariant
            cycle.down == down && cycle.up == up && cycle.hold_ms == hold_ms,
            cycle.click_state == click_state,
            start == ClickCycle::starting(down, up, hold_ms, click_state),
            *send_event == send0,
            *sleep_for == sleep0,
            forall|fa: Seq<bool>| #[trigger] start.run(answers + fa) == done + cycle.run(fa),
            forall|i: int| 0 <= i < done.len() ==> carried_out(#[trigger] done[i], send0, sleep0),
            forall|event: MouseEventSpec, state: i64| call_requires(*send_event, (event, state)),
            forall|d: Duration| call_requires(*sleep_for, (d,)),
            call_requires(*is_active, ()),
            forall|i: int| 0 <= i < answers.len() ==> call_ensures(*is_active, (), #[trigger] answers[i]),
            cycle.stage is CheckingStart ==> answers.len() == 0,
            !(cycle.stage is CheckingStart) ==> answers.len() >= 1,
            cycle.button_held() ==> answers[0],
            cycle.stage is Pressed || cycle.stage is Holding || cycle.stage is CheckingHold ==> answers.len() == 1,
            cycle.stage is Holding || cycle.stage is CheckingHold ==> hold_ms > 0,
            cycle.stage matches CycleStage::Released { completed } ==> {
                &&& answers.len() == checks_made(hold_ms, answers[0])
                &&& answers[0]
                &&& completed == click_completes(hold_ms, answers)
            },
            cycle.stage matches CycleStage::Finished { completed } ==> {
                &&& answers.len() == checks_made(hold_ms, answers[0])
                &&& completed == click_completes(hold_ms, answers)
            },
        decreases cycle.rank(),
    {
        match cycle.action() {
            ClickAction::CheckActive => {
                let active = is_active();
                let ghost before = cycle;
                cycle = cycle.advance(ClickFeedback::Active(active));
                proof {
                    assert forall|fa: Seq<bool>|
                        start.run(answers.push(active) + fa) == done.push(before.pending()) + cycle.run(fa) by {
                        let fa0 = seq![active] + fa;
                        assert(start.run(answers + fa0) == done + before.run(fa0));
                        assert(fa0.drop_first() =~= fa);
                        assert(fa0[0] == active);
                        assert(answers + fa0 =~= answers.push(active) + fa);
                        assert(done + before.run(fa0) =~= done.push(before.pending()) + cycle.run(fa));
                    }
                    answers = answers.push(active);
                    done = done.push(before.pending());
                }
            },
            ClickAction::Send { event, click_state } => {
                send_event(event, click_state);
                let ghost before = cycle;
                cycle = cycle.advance(ClickFeedback::Performed);
                proof {
                    lemma_cycle_step_extends(start, before, answers, done, cycle);
                    done = done.push(before.pending());
                }
            },
            ClickAction::Sleep { ms } => {
                let duration = millis(ms);
                sleep_for(duration);
                let ghost before = cycle;
                cycle = cycle.advance(ClickFeedback::Performed);
                proof {
                    lemma_cycle_step_extends(start, before, answers, done, cycle);
                    done = done.push(before.pending());
                }
            },
            ClickAction::Batch { .. } => {
                // A single click never asks for a batch.
                let ghost before = cycle;
                cycle = cycle.advance(ClickFeedback::Performed);
                proof {
                    lemma_cycle_step_extends(start, before, answers, done, cycle);
                    done = done.push(before.pending());
                }
            },
            ClickAction::Finish { completed } => {
                proof {
                    let trace = start.run(answers);
                    assert(start.run(answers + seq![]) == done + cycle.run(seq![]));
                    assert(answers + seq![] =~= answers);
                    assert(cycle.run(seq![]) == seq![cycle.pending()]);
                    assert forall|i: int| 0 <= i < trace.len() implies carried_out(
                        #[trigger] trace[i],
                        send0,
                        sleep0,
                    ) by {
                        if i < done.len() {
                            assert(trace[i] == done[i]);
                        }
                    }
                }
                return completed;
            },
        }
    }
}

} // verus!
