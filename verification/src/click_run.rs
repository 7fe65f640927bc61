use vstd::prelude::*;
use std::time::Duration;
use crate::click_cycle::{carried_out, ClickAction, ClickCycle, ClickFeedback, CycleStage};
use crate::mouse_event::MouseEventSpec;

verus! {

/// Whether a run of clicks is sent as one batch: several clicks, no hold, and no
/// double-click spacing.
pub open spec fn uses_batch(count: usize, hold_ms: u32, use_double_click_gap: bool) -> bool {
    !use_double_click_gap && count > 1 && hold_ms == 0
}

/// The click state of the click at `index`: its position counted from one when the
/// clicks form a multi-click, else one.
pub open spec fn click_state_of(index: usize, use_double_click_gap: bool) -> i64 {
    if use_double_click_gap {
        (index + 1) as i64
    } else {
        1
    }
}

/// Whether the run pauses after the click at `index`.
pub open spec fn pauses_after(
    index: usize,
    count: usize,
    use_double_click_gap: bool,
    double_click_delay_ms: u32,
) -> bool {
    index + 1 < count && use_double_click_gap && double_click_delay_ms > 0
}

/// Where a run of clicks stands.
#[derive(Clone, Copy, Debug, PartialEq, Eq, Structural)]
pub enum RunStage {
    /// The batch has been requested.
    Batch,
    /// The click at `index` is under way.
    Clicking { index: usize, cycle: ClickCycle },
    /// The pause after the click at `index` has been requested.
    Pause { index: usize },
    /// The run is over; `completed` is false when it stopped early.
    Done { completed: bool },
}

/// A run of `count` clicks of one button.
#[derive(Clone, Copy, Debug, PartialEq, Eq, Structural)]
pub struct ClickRun {
    pub down: MouseEventSpec,
    pub up: MouseEventSpec,
    pub count: usize,
    pub hold_ms: u32,
    pub use_double_click_gap: bool,
    pub double_click_delay_ms: u32,
    pub stage: RunStage,
}

impl ClickRun {
    pub open spec fn with_stage(self, stage: RunStage) -> ClickRun {
        ClickRun {
            down: self.down,
            up: self.up,
            count: self.count,
            hold_ms: self.hold_ms,
            use_double_click_gap: self.use_double_click_gap,
            double_click_delay_ms: self.double_click_delay_ms,
            stage,
        }
    }

    /// A fresh click of this run at `index`.
    pub open spec fn cycle_at(self, index: usize) -> ClickCycle {
        ClickCycle::starting(
            self.down,
            self.up,
            self.hold_ms,
            click_state_of(index, self.use_double_click_gap),
        )
    }

    pub open spec fn starting(
        down: MouseEventSpec,
        up: MouseEventSpec,
        count: usize,
        hold_ms: u32,
        use_double_click_gap: bool,
        double_click_delay_ms: u32,
    ) -> ClickRun {
        let run = ClickRun {
            down,
            up,
            count,
            hold_ms,
            use_double_click_gap,
            double_click_delay_ms,
            stage: RunStage::Done { completed: true },
        };
        if count == 0 {
            run
        } else if uses_batch(count, hold_ms, use_double_click_gap) {
            run.with_stage(RunStage::Batch)
        } else {
            run.with_stage(RunStage::Clicking { index: 0, cycle: run.cycle_at(0) })
        }
    }

    /// The stages that the run can reach from its start.
    pub open spec fn wf(self) -> bool {
        match self.stage {
            RunStage::Batch => uses_batch(self.count, self.hold_ms, self.use_double_click_gap),
            RunStage::Clicking { index, cycle } => {
                &&& index < self.count
                &&& !uses_batch(self.count, self.hold_ms, self.use_double_click_gap)
                &&& cycle.down == self.down
                &&& cycle.up == self.up
                &&& cycle.hold_ms == self.hold_ms
                &&& cycle.click_state == click_state_of(index, self.use_double_click_gap)
                &&& !cycle.is_finished()
            },
            RunStage::Pause { index } => {
                &&& pauses_after(index, self.count, self.use_double_click_gap, self.double_click_delay_ms)
                &&& !uses_batch(self.count, self.hold_ms, self.use_double_click_gap)
            },
            RunStage::Done { .. } => true,
        }
    }

    pub open spec fn pending(self) -> ClickAction {
        match self.stage {
            RunStage::Batch => ClickAction::Batch {
                down: self.down,
                up: self.up,
                count: self.count,
                hold_ms: self.hold_ms,
            },
            RunStage::Clicking { cycle, .. } => cycle.pending(),
            RunStage::Pause { .. } => ClickAction::Sleep { ms: self.double_click_delay_ms },
            RunStage::Done { completed } => ClickAction::Finish { completed },
        }
    }

    pub open spec fn wants_answer(self) -> bool {
        self.stage matches RunStage::Clicking { cycle, .. } && cycle.wants_answer()
    }

    pub open spec fn accepts(self, feedback: ClickFeedback) -> bool {
        self.wants_answer() == (feedback is Active)
    }

    pub open spec fn button_held(self) -> bool {
        self.stage matches RunStage::Clicking { cycle, .. } && cycle.button_held()
    }

    pub open spec fn is_done(self) -> bool {
        self.stage is Done
    }

    /// The steps left before the run is over.
    pub open spec fn rank(self) -> nat {
        match self.stage {
            RunStage::Batch => 1,
            RunStage::Clicking { index, cycle } => ((self.count - 1 - index) * 8 + 2 + cycle.rank()) as nat,
            RunStage::Pause { index } => ((self.count - 1 - index) * 8 + 1) as nat,
            RunStage::Done { .. } => 0,
        }
    }

    /// The stage after the click at `index` finished with the given outcome.
    pub open spec fn after_click(self, index: usize, completed: bool) -> RunStage {
        if !completed {
            RunStage::Done { completed: false }
        } else if index + 1 < self.count {
            if pauses_after(index, self.count, self.use_double_click_gap, self.double_click_delay_ms) {
                RunStage::Pause { index }
            } else {
                RunStage::Clicking { index: (index + 1) as usize, cycle: self.cycle_at((index + 1) as usize) }
            }
        } else {
            RunStage::Done { completed: true }
        }
    }

    pub open spec fn next(self, feedback: ClickFeedback) -> ClickRun {
        let stage = match self.stage {
            RunStage::Batch => RunStage::Done { completed: true },
            RunStage::Clicking { index, cycle } => {
                let after = cycle.next(feedback);
                match after.stage {
                    CycleStage::Finished { completed } => self.after_click(index, completed),
                    _ => RunStage::Clicking { index, cycle: after },
                }
            },
            RunStage::Pause { index } => RunStage::Clicking {
                index: (index + 1) as usize,
                cycle: self.cycle_at((index + 1) as usize),
            },
            RunStage::Done { completed } => RunStage::Done { completed },
        };
        self.with_stage(stage)
    }

    pub fn start(
        down: MouseEventSpec,
        up: MouseEventSpec,
        count: usize,
        hold_ms: u32,
        use_double_click_gap: bool,
        double_click_delay_ms: u32,
    ) -> (r: Self)
        ensures
            r == Self::starting(down, up, count, hold_ms, use_double_click_gap, double_click_delay_ms),
            r.wf(),
    {
        let run = ClickRun {
            down,
            up,
            count,
            hold_ms,
            use_double_click_gap,
            double_click_delay_ms,
            stage: RunStage::Done { completed: true },
        };
        if count == 0 {
            run
        } else if !use_double_click_gap && count > 1 && hold_ms == 0 {
            ClickRun { stage: RunStage::Batch, ..run }
        } else {
            let cycle = ClickCycle::start(down, up, hold_ms, click_state_for(0, use_double_click_gap));
            ClickRun { stage: RunStage::Clicking { index: 0, cycle }, ..run }
        }
    }

    pub fn action(&self) -> (a: ClickAction)
        ensures
            a == self.pending(),
    {
        match self.stage {
            RunStage::Batch => ClickAction::Batch {
                down: self.down,
                up: self.up,
                count: self.count,
                hold_ms: self.hold_ms,
            },
            RunStage::Clicking { cycle, .. } => cycle.action(),
            RunStage::Pause { .. } => ClickAction::Sleep { ms: self.double_click_delay_ms },
            RunStage::Done { completed } => ClickAction::Finish { completed },
        }
    }

    pub fn advance(self, feedback: ClickFeedback) -> (n: Self)
        requires
            self.wf(),
            self.accepts(feedback),
        ensures
            n == self.next(feedback),
            n.wf(),
    {
        let stage = match self.stage {
            RunStage::Batch => RunStage::Done { completed: true },
            RunStage::Clicking { index, cycle } => {
                let after = cycle.advance(feedback);
                match after.stage {
                    CycleStage::Finished { completed } => {
                        if !completed {
                            RunStage::Done { completed: false }
                        } else if index + 1 < self.count {
                            if self.use_double_click_gap && self.double_click_delay_ms > 0 {
                                RunStage::Pause { index }
                            } else {
                                let next_index = index + 1;
                                RunStage::Clicking {
                                    index: next_index,
                                    cycle: ClickCycle::start(
                                        self.down,
                                        self.up,
                                        self.hold_ms,
                                        click_state_for(next_index, self.use_double_click_gap),
                                    ),
                                }
                            }
                        } else {
                            RunStage::Done { completed: true }
                        }
                    },
                    _ => RunStage::Clicking { index, cycle: after },
                }
            },
            RunStage::Pause { index } => {
                let next_index = index + 1;
                RunStage::Clicking {
                    index: next_index,
                    cycle: ClickCycle::start(
                        self.down,
                        self.up,
                        self.hold_ms,
                        click_state_for(next_index, self.use_double_click_gap),
                    ),
                }
            },
            RunStage::Done { completed } => RunStage::Done { completed },
        };
        ClickRun { stage, ..self }
    }
}

/// Every step of an unfinished run brings it closer to its end.
pub proof fn lemma_run_step_decreases(run: ClickRun, feedback: ClickFeedback)
    requires
        run.wf(),
        !run.is_done(),
    ensures
        run.next(feedback).rank() < run.rank(),
{
    if let RunStage::Clicking { index, cycle } = run.stage {
        crate::click_cycle::lemma_cycle_step_decreases(cycle, feedback);
    }
}

/// A run of clicks ends at once when there is nothing to click, and is one batch
/// followed by the end when it qualifies for batching; otherwise it begins with the
/// first click, whose click state is one.
pub proof fn lemma_run_start(
    down: MouseEventSpec,
    up: MouseEventSpec,
    count: usize,
    hold_ms: u32,
    use_double_click_gap: bool,
    double_click_delay_ms: u32,
)
    ensures
        ({
            let run = ClickRun::starting(down, up, count, hold_ms, use_double_click_gap, double_click_delay_ms);
            &&& count == 0 ==> run.pending() == ClickAction::Finish { completed: true }
            &&& count > 0 && uses_batch(count, hold_ms, use_double_click_gap) ==> {
                &&& run.pending() == ClickAction::Batch { down, up, count, hold_ms }
                &&& run.next(ClickFeedback::Performed).pending() == ClickAction::Finish { completed: true }
            }
            &&& count > 0 && !uses_batch(count, hold_ms, use_double_click_gap) ==> {
                &&& run.stage == RunStage::Clicking { index: 0, cycle: ClickCycle::starting(down, up, hold_ms, 1) }
                &&& run.pending() == ClickAction::CheckActive
            }
        }),
{
}

/// Clicks are made one after another in order, each with its own click state and
/// never more than `count` of them; a pause only separates two clicks; and the run
/// never ends or pauses while a button is held down.
pub proof fn lemma_run_step_order(run: ClickRun, feedback: ClickFeedback)
    requires
        run.wf(),
    ensures
        run.next(feedback).wf(),
        run.stage matches RunStage::Clicking { index, cycle } ==> {
            &&& index < run.count
            &&& cycle.click_state == click_state_of(index, run.use_double_click_gap)
        },
        run.stage matches RunStage::Pause { index } ==> index + 1 < run.count,
        run.button_held() ==> {
            &&& !run.next(feedback).is_done()
            &&& !(run.next(feedback).stage is Pause)
            &&& run.next(feedback).stage matches RunStage::Clicking { index, .. }
                && run.stage matches RunStage::Clicking { index: i, .. } && index == i
        },
        run.stage matches RunStage::Clicking { index: i, .. } ==> match run.next(feedback).stage {
            RunStage::Clicking { index, .. } => index == i || index == i + 1,
            RunStage::Pause { index } => index == i,
            RunStage::Done { .. } => true,
            RunStage::Batch => false,
        },
        run.stage matches RunStage::Pause { index: i } ==> run.next(feedback).stage matches RunStage::Clicking { index, .. } && index == i + 1,
{
    if let RunStage::Clicking { index, cycle } = run.stage {
        crate::click_cycle::lemma_cycle_step_keeps_button_balanced(cycle, feedback);
    }
}

/// `trace` is the sequence of actions that `run` asks for until it is over, its
/// activity checks answered in turn by `answers` (all of which are used).
pub open spec fn follows(run: ClickRun, answers: Seq<bool>, trace: Seq<ClickAction>) -> bool
    decreases trace.len(),
{
    &&& trace.len() > 0
    &&& trace[0] == run.pending()
    &&& if run.is_done() {
        trace.len() == 1 && answers.len() == 0
    } else if run.wants_answer() {
        answers.len() > 0 && follows(
            run.next(ClickFeedback::Active(answers[0])),
            answers.drop_first(),
            trace.drop_first(),
        )
    } else {
        follows(run.next(ClickFeedback::Performed), answers, trace.drop_first())
    }
}

/// The callbacks' postconditions hold of the call that `action` asks for: a batch or
/// an event with exactly its arguments, a sleep for exactly its milliseconds. Checks
/// and the end ask for no such call.
pub open spec fn performed<FBatch, FSend, FSleep>(
    action: ClickAction,
    send_batch: FBatch,
    send_event: FSend,
    sleep_for: FSleep,
) -> bool where
    FBatch: FnMut(MouseEventSpec, MouseEventSpec, usize, u32),
    FSend: FnMut(MouseEventSpec, i64),
    FSleep: FnMut(Duration),
 {
    match action {
        ClickAction::Batch { down, up, count, hold_ms } => call_ensures(send_batch, (down, up, count, hold_ms), ()),
        _ => carried_out(action, send_event, sleep_for),
    }
}

/// One step of a run extends what was followed from the start: if `before`, reached
/// from `start` through `answers` and `done`, steps to `after` using the answers
/// `used`, then `after` is reached through `answers + used` and `done` plus the
/// action of `before`.
proof fn lemma_follows_step(
    start: ClickRun,
    before: ClickRun,
    answers: Seq<bool>,
    done: Seq<ClickAction>,
    used: Seq<bool>,
    after: ClickRun,
)
    requires
        !before.is_done(),
        before.wants_answer() ==> used.len() == 1 && after == before.next(ClickFeedback::Active(used[0])),
        !before.wants_answer() ==> used.len() == 0 && after == before.next(ClickFeedback::Performed),
        forall|fa: Seq<bool>, ft: Seq<ClickAction>|
            #[trigger] follows(before, fa, ft) ==> follows(start, answers + fa, done + ft),
    ensures
        forall|fa: Seq<bool>, ft: Seq<ClickAction>|
            #[trigger] follows(after, fa, ft) ==> follows(
                start,
                (answers + used) + fa,
                done.push(before.pending()) + ft,
            ),
{
    assert forall|fa: Seq<bool>, ft: Seq<ClickAction>|
        #[trigger] follows(after, fa, ft) implies follows(
            start,
            (answers + used) + fa,
            done.push(before.pending()) + ft,
        ) by {
        let fa0 = used + fa;
        let ft0 = seq![before.pending()] + ft;
        assert(ft0.drop_first() =~= ft);
        assert(ft0[0] == before.pending());
        if before.wants_answer() {
            assert(fa0[0] == used[0]);
            assert(fa0.drop_first() =~= fa);
        } else {
            assert(fa0 =~= fa);
        }
        assert(follows(before, fa0, ft0));
        assert(answers + fa0 =~= (answers + used) + fa);
        assert(done + ft0 =~= done.push(before.pending()) + ft);
    }
}

/// Carries out a run of `count` clicks through the callbacks: one batch when the run
/// qualifies, otherwise click after click (each as in `dispatch_click`), pausing
/// between clicks of a multi-click, and stopping after the first click that did not
/// complete. The actions it carries out are those that `ClickRun` asks for, its
/// checks answered by what `is_active` returned; the callbacks' postconditions hold
/// of each batch, event and sleep it asked for.
pub fn send_clicks<FBatch, FSend, FSleep, FActive>(
    down: MouseEventSpec,
    up: MouseEventSpec,
    count: usize,
    hold_ms: u32,
    use_double_click_gap: bool,
    double_click_delay_ms: u32,
    send_batch: &mut FBatch,
    send_event: &mut FSend,
    sleep_for: &mut FSleep,
    is_active: &FActive,
) where
    FBatch: FnMut(MouseEventSpec, MouseEventSpec, usize, u32),
    FSend: FnMut(MouseEventSpec, i64),
    FSleep: FnMut(Duration),
    FActive: Fn() -> bool,

    requires
        forall|d: MouseEventSpec, u: MouseEventSpec, n: usize, h: u32|
            call_requires(*old(send_batch), (d, u, n, h)),
        forall|event: MouseEventSpec, state: i64| call_requires(*old(send_event), (event, state)),
        forall|d: Duration| call_requires(*old(sleep_for), (d,)),
        call_requires(*is_active, ()),
    ensures
        exists|answers: Seq<bool>, trace: Seq<ClickAction>|
            {
                &&& follows(
                    ClickRun::starting(down, up, count, hold_ms, use_double_click_gap, double_click_delay_ms),
                    answers,
                    trace,
                )
                &&& forall|i: int| 0 <= i < answers.len() ==> call_ensures(*is_active, (), #[trigger] answers[i])
                &&& forall|i: int|
                    0 <= i < trace.len() ==> performed(
                        #[trigger] trace[i],
                        *final(send_batch),
                        *final(send_event),
                        *final(sleep_for),
                    )
            },
{
    let ghost start = ClickRun::starting(
        down,
        up,
        count,
        hold_ms,
        use_double_click_gap,
        double_click_delay_ms,
    );
    let ghost batch0 = *send_batch;
    let ghost send0 = *send_event;
    let ghost sleep0 = *sleep_for;
    let ghost mut answers: Seq<bool> = seq![];
    let ghost mut done: Seq<ClickAction> = seq![];
    let mut run = ClickRun::start(
        down,
        up,
        count,
        hold_ms,
        use_double_click_gap,
        double_click_delay_ms,
    );
    loop
        invariant
            run.wf(),
            forall|d: MouseEventSpec, u: MouseEventSpec, n: usize, h: u32|
                call_requires(*send_batch, (d, u, n, h)),
            forall|event: MouseEventSpec, state: i64| call_requires(*send_event, (event, state)),
            forall|d: Duration| call_requires(*sleep_for, (d,)),
            call_requires(*is_active, ()),
            start == ClickRun::starting(down, up, count, hold_ms, use_double_click_gap, double_click_delay_ms),
            *send_batch == batch0,
            *send_event == send0,
            *sleep_for == sleep0,
            forall|i: int| 0 <= i < answers.len() ==> call_ensures(*is_active, (), #[trigger] answers[i]),
            forall|i: int| 0 <= i < done.len() ==> performed(#[trigger] done[i], batch0, send0, sleep0),
            forall|fa: Seq<bool>, ft: Seq<ClickAction>|
                #[trigger] follows(run, fa, ft) ==> follows(start, answers + fa, done + ft),
        decreases run.rank(),
    {
        let action = run.action();
        if let ClickAction::Finish { .. } = action {
            proof {
                let ft = seq![action];
                assert(follows(run, seq![], ft));
                assert(follows(start, answers + seq![], done + ft));
                assert(answers + seq![] =~= answers);
                let trace = done + ft;
                assert forall|i: int| 0 <= i < trace.len() implies performed(
                    #[trigger] trace[i],
                    batch0,
                    send0,
                    sleep0,
                ) by {
                    if i < done.len() {
                        assert(trace[i] == done[i]);
                    }
                }
            }
            return;
        }
        proof {
            lemma_run_step_decreases(run, ClickFeedback::Performed);
            lemma_run_step_decreases(run, ClickFeedback::Active(true));
            lemma_run_step_decreases(run, ClickFeedback::Active(false));
        }
        match action {
            ClickAction::CheckActive => {
                let active = is_active();
                let ghost before = run;
                run = run.advance(ClickFeedback::Active(active));
                proof {
                    lemma_follows_step(start, before, answers, done, seq![active], run);
                    answers = answers + seq![active];
                    done = done.push(action);
                }
            },
            ClickAction::Send { event, click_state } => {
                send_event(event, click_state);
                let ghost before = run;
                run = run.advance(ClickFeedback::Performed);
                proof {
                    lemma_follows_step(start, before, answers, done, seq![], run);
                    assert(answers + seq![] =~= answers);
                    done = done.push(action);
                }
            },
            ClickAction::Sleep { ms } => {
                let duration = crate::click_cycle::millis(ms);
                sleep_for(duration);
                let ghost before = run;
                run = run.advance(ClickFeedback::Performed);
                proof {
                    lemma_follows_step(start, before, answers, done, seq![], run);
                    assert(answers + seq![] =~= answers);
                    done = done.push(action);
                }
            },
            ClickAction::Batch { down, up, count, hold_ms } => {
                send_batch(down, up, count, hold_ms);
                let ghost before = run;
                run = run.advance(ClickFeedback::Performed);
                proof {
                    lemma_follows_step(start, before, answers, done, seq![], run);
                    assert(answers + seq![] =~= answers);
                    done = done.push(action);
                }
            },
            ClickAction::Finish { .. } => {
                return;
            },
        }
    }
}

/// The click state of the click at `index`.
pub fn click_state_for(index: usize, use_double_click_gap: bool) -> (s: i64)
    requires
        index < usize::MAX,
    ensures
        s == click_state_of(index, use_double_click_gap),
{
    if use_double_click_gap {
        #[verifier::truncate]
        ((index + 1) as i64)
    } else {
        1
    }
}

} // verus!
