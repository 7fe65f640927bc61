use vstd::prelude::*;
use crate::click_cycle::{ClickAction, ClickCycle, ClickFeedback, CycleStage};
use crate::click_run::{click_state_of, follows, uses_batch, ClickRun, RunStage};
use crate::mouse_event::MouseEventSpec;

verus! {

/// `n` activity answers that all say the run is active.
pub open spec fn all_active(n: nat) -> Seq<bool> {
    Seq::new(n, |j: int| true)
}

/// The actions of one click whose checks all succeed: check, press, (hold and check
/// again,) release.
pub open spec fn one_click(down: MouseEventSpec, up: MouseEventSpec, hold_ms: u32, click_state: i64) -> Seq<ClickAction> {
    let press = ClickAction::Send { event: down, click_state };
    let release = ClickAction::Send { event: up, click_state };
    if hold_ms == 0 {
        seq![ClickAction::CheckActive, press, release]
    } else {
        seq![
            ClickAction::CheckActive,
            press,
            ClickAction::Sleep { ms: hold_ms },
            ClickAction::CheckActive,
            release,
        ]
    }
}

/// The activity checks made by the clicks from `index` to `count` when all succeed.
pub open spec fn checks_left(count: nat, index: nat, hold_ms: u32) -> nat {
    if hold_ms == 0 {
        (count - index) as nat
    } else {
        (2 * (count - index)) as nat
    }
}

/// The actions of the clicks from `index` on of a run of `count` clicks that stays
/// active: each click with its click state (its position counted from one in a
/// multi-click, else one), a pause of `delay_ms` after each click but the last when
/// the clicks form a multi-click with a delay, and the end.
pub open spec fn clicks_from(
    down: MouseEventSpec,
    up: MouseEventSpec,
    count: nat,
    hold_ms: u32,
    use_double_click_gap: bool,
    delay_ms: u32,
    index: nat,
) -> Seq<ClickAction>
    decreases count - index,
{
    if index >= count {
        seq![ClickAction::Finish { completed: true }]
    } else {
        let state = if use_double_click_gap { (index + 1) as i64 } else { 1i64 };
        let pause = if index + 1 < count && use_double_click_gap && delay_ms > 0 {
            seq![ClickAction::Sleep { ms: delay_ms }]
        } else {
            Seq::<ClickAction>::empty()
        };
        one_click(down, up, hold_ms, state) + pause + clicks_from(
            down,
            up,
            count,
            hold_ms,
            use_double_click_gap,
            delay_ms,
            index + 1,
        )
    }
}

/// Following a run one step: its action, then what follows from the next stage.
proof fn lemma_follows_prepend(run: ClickRun, answers: Seq<bool>, rest_answers: Seq<bool>, rest: Seq<ClickAction>)
    requires
        !run.is_done(),
        run.wants_answer() ==> answers.len() > 0 && answers.drop_first() == rest_answers && follows(
            run.next(ClickFeedback::Active(answers[0])),
            rest_answers,
            rest,
        ),
        !run.wants_answer() ==> answers == rest_answers && follows(run.next(ClickFeedback::Performed), rest_answers, rest),
    ensures
        follows(run, answers, seq![run.pending()] + rest),
{
    let t = seq![run.pending()] + rest;
    assert(t.drop_first() =~= rest);
    assert(t[0] == run.pending());
}

/// The run stage that is at the click at `index`, freshly started.
pub open spec fn fresh_click(run: ClickRun, index: nat) -> ClickRun {
    run.with_stage(RunStage::Clicking {
        index: index as usize,
        cycle: ClickCycle::starting(run.down, run.up, run.hold_ms, click_state_of(index as usize, run.use_double_click_gap)),
    })
}

/// What follows a completed click at `i`: the pause (if any) and the later clicks.
proof fn lemma_after_click(run: ClickRun, i: nat)
    requires
        i < run.count,
        !uses_batch(run.count, run.hold_ms, run.use_double_click_gap),
        i + 1 < run.count ==> follows(
            fresh_click(run, i + 1),
            all_active(checks_left(run.count as nat, i + 1, run.hold_ms)),
            clicks_from(run.down, run.up, run.count as nat, run.hold_ms, run.use_double_click_gap, run.double_click_delay_ms, i + 1),
        ),
    ensures
        ({
            let count = run.count as nat;
            let gap = run.use_double_click_gap;
            let delay = run.double_click_delay_ms;
            let pause = if i + 1 < count && gap && delay > 0 {
                seq![ClickAction::Sleep { ms: delay }]
            } else {
                Seq::<ClickAction>::empty()
            };
            follows(
                run.with_stage(run.after_click(i as usize, true)),
                all_active(checks_left(count, i + 1, run.hold_ms)),
                pause + clicks_from(run.down, run.up, count, run.hold_ms, gap, delay, i + 1),
            )
        }),
{
    let count = run.count as nat;
    let gap = run.use_double_click_gap;
    let delay = run.double_click_delay_ms;
    let rest_answers = all_active(checks_left(count, i + 1, run.hold_ms));
    let tail = clicks_from(run.down, run.up, count, run.hold_ms, gap, delay, i + 1);
    let after = run.with_stage(run.after_click(i as usize, true));
    if i + 1 < count {
        let next_click = fresh_click(run, i + 1);
        if gap && delay > 0 {
            assert(after.stage == RunStage::Pause { index: i as usize });
            assert(after.next(ClickFeedback::Performed) == next_click);
            lemma_follows_prepend(after, rest_answers, rest_answers, tail);
            assert(seq![ClickAction::Sleep { ms: delay }] + tail =~= seq![after.pending()] + tail);
        } else {
            assert(after == next_click);
            assert(Seq::<ClickAction>::empty() + tail =~= tail);
        }
    } else {
        assert(after.stage == RunStage::Done { completed: true });
        assert(tail == seq![ClickAction::Finish { completed: true }]);
        assert(rest_answers =~= Seq::<bool>::empty());
        assert(Seq::<ClickAction>::empty() + tail =~= tail);
        assert(tail[0] == after.pending());
    }
}

/// A click without hold whose check succeeds, followed by `rest`.
proof fn lemma_quick_click(run: ClickRun, i: nat, rest_answers: Seq<bool>, rest: Seq<ClickAction>)
    requires
        i < run.count,
        run.hold_ms == 0,
        follows(run.with_stage(run.after_click(i as usize, true)), rest_answers, rest),
    ensures
        follows(
            fresh_click(run, i),
            seq![true] + rest_answers,
            one_click(run.down, run.up, run.hold_ms, click_state_of(i as usize, run.use_double_click_gap)) + rest,
        ),
{
    let state = click_state_of(i as usize, run.use_double_click_gap);
    let c0 = ClickCycle::starting(run.down, run.up, run.hold_ms, state);
    let r0 = fresh_click(run, i);
    let r1 = r0.next(ClickFeedback::Active(true));
    assert(r1 == run.with_stage(RunStage::Clicking { index: i as usize, cycle: c0.with_stage(CycleStage::Pressed) }));
    let r2 = r1.next(ClickFeedback::Performed);
    assert(r2 == run.with_stage(
        RunStage::Clicking { index: i as usize, cycle: c0.with_stage(CycleStage::Released { completed: true }) },
    ));
    assert(r2.next(ClickFeedback::Performed) == run.with_stage(run.after_click(i as usize, true)));
    lemma_follows_prepend(r2, rest_answers, rest_answers, rest);
    lemma_follows_prepend(r1, rest_answers, rest_answers, seq![r2.pending()] + rest);
    let answers = seq![true] + rest_answers;
    assert(answers.drop_first() =~= rest_answers);
    lemma_follows_prepend(r0, answers, rest_answers, seq![r1.pending()] + (seq![r2.pending()] + rest));
    assert(seq![r0.pending()] + (seq![r1.pending()] + (seq![r2.pending()] + rest)) =~= one_click(
        run.down,
        run.up,
        run.hold_ms,
        state,
    ) + rest);
}

/// A held click whose two checks succeed, followed by `rest`.
proof fn lemma_held_click(run: ClickRun, i: nat, rest_answers: Seq<bool>, rest: Seq<ClickAction>)
    requires
        i < run.count,
        run.hold_ms > 0,
        follows(run.with_stage(run.after_click(i as usize, true)), rest_answers, rest),
    ensures
        follows(
            fresh_click(run, i),
            seq![true, true] + rest_answers,
            one_click(run.down, run.up, run.hold_ms, click_state_of(i as usize, run.use_double_click_gap)) + rest,
        ),
{
    let state = click_state_of(i as usize, run.use_double_click_gap);
    let c0 = ClickCycle::starting(run.down, run.up, run.hold_ms, state);
    let r0 = fresh_click(run, i);
    let r1 = r0.next(ClickFeedback::Active(true));
    assert(r1 == run.with_stage(RunStage::Clicking { index: i as usize, cycle: c0.with_stage(CycleStage::Pressed) }));
    let r2 = r1.next(ClickFeedback::Performed);
    assert(r2 == run.with_stage(RunStage::Clicking { index: i as usize, cycle: c0.with_stage(CycleStage::Holding) }));
    let r3 = r2.next(ClickFeedback::Performed);
    assert(r3 == run.with_stage(RunStage::Clicking { index: i as usize, cycle: c0.with_stage(CycleStage::CheckingHold) }));
    let r4 = r3.next(ClickFeedback::Active(true));
    assert(r4 == run.with_stage(
        RunStage::Clicking { index: i as usize, cycle: c0.with_stage(CycleStage::Released { completed: true }) },
    ));
    assert(r4.next(ClickFeedback::Performed) == run.with_stage(run.after_click(i as usize, true)));
    let mid = seq![true] + rest_answers;
    let answers = seq![true, true] + rest_answers;
    lemma_follows_prepend(r4, rest_answers, rest_answers, rest);
    assert(mid.drop_first() =~= rest_answers);
    lemma_follows_prepend(r3, mid, rest_answers, seq![r4.pending()] + rest);
    lemma_follows_prepend(r2, mid, mid, seq![r3.pending()] + (seq![r4.pending()] + rest));
    lemma_follows_prepend(r1, mid, mid, seq![r2.pending()] + (seq![r3.pending()] + (seq![r4.pending()] + rest)));
    assert(answers.drop_first() =~= mid);
    lemma_follows_prepend(
        r0,
        answers,
        mid,
        seq![r1.pending()] + (seq![r2.pending()] + (seq![r3.pending()] + (seq![r4.pending()] + rest))),
    );
    assert(seq![r0.pending()] + (seq![r1.pending()] + (seq![r2.pending()] + (seq![r3.pending()] + (seq![
        r4.pending(),
    ] + rest)))) =~= one_click(run.down, run.up, run.hold_ms, state) + rest);
}

proof fn lemma_clicks_from(run: ClickRun, i: nat)
    requires
        i < run.count,
        !uses_batch(run.count, run.hold_ms, run.use_double_click_gap),
    ensures
        follows(
            fresh_click(run, i),
            all_active(checks_left(run.count as nat, i, run.hold_ms)),
            clicks_from(run.down, run.up, run.count as nat, run.hold_ms, run.use_double_click_gap, run.double_click_delay_ms, i),
        ),
    decreases run.count - i,
{
    let count = run.count as nat;
    let gap = run.use_double_click_gap;
    let delay = run.double_click_delay_ms;
    if i + 1 < count {
        lemma_clicks_from(run, i + 1);
    }
    lemma_after_click(run, i);
    let state = click_state_of(i as usize, gap);
    assert(state == if gap { (i + 1) as i64 } else { 1i64 });
    let pause = if i + 1 < count && gap && delay > 0 {
        seq![ClickAction::Sleep { ms: delay }]
    } else {
        Seq::<ClickAction>::empty()
    };
    let rest_answers = all_active(checks_left(count, i + 1, run.hold_ms));
    let tail = clicks_from(run.down, run.up, count, run.hold_ms, gap, delay, i + 1);
    let answers = all_active(checks_left(count, i, run.hold_ms));
    if run.hold_ms == 0 {
        lemma_quick_click(run, i, rest_answers, pause + tail);
        assert(seq![true] + rest_answers =~= answers);
    } else {
        lemma_held_click(run, i, rest_answers, pause + tail);
        assert(seq![true, true] + rest_answers =~= answers);
    }
    assert(one_click(run.down, run.up, run.hold_ms, state) + (pause + tail) =~= one_click(
        run.down,
        run.up,
        run.hold_ms,
        state,
    ) + pause + tail);
}

/// A run of clicks whose every activity check succeeds carries out exactly `count`
/// clicks, in order, each with its click state (counted from one in a multi-click,
/// else one), with a pause of `double_click_delay_ms` between consecutive clicks of a
/// multi-click that has a delay and nowhere else, and then ends as completed. A run
/// that qualifies for batching is one batch of all `count` clicks; a run of no clicks
/// does nothing.
pub proof fn lemma_run_all_active(
    down: MouseEventSpec,
    up: MouseEventSpec,
    count: usize,
    hold_ms: u32,
    use_double_click_gap: bool,
    double_click_delay_ms: u32,
)
    ensures
        ({
            let start = ClickRun::starting(down, up, count, hold_ms, use_double_click_gap, double_click_delay_ms);
            &&& count == 0 ==> follows(start, Seq::<bool>::empty(), seq![ClickAction::Finish { completed: true }])
            &&& count > 0 && uses_batch(count, hold_ms, use_double_click_gap) ==> follows(
                start,
                Seq::<bool>::empty(),
                seq![
                    ClickAction::Batch { down, up, count, hold_ms },
                    ClickAction::Finish { completed: true },
                ],
            )
            &&& count > 0 && !uses_batch(count, hold_ms, use_double_click_gap) ==> follows(
                start,
                all_active(checks_left(count as nat, 0, hold_ms)),
                clicks_from(down, up, count as nat, hold_ms, use_double_click_gap, double_click_delay_ms, 0),
            )
        }),
{
    let start = ClickRun::starting(down, up, count, hold_ms, use_double_click_gap, double_click_delay_ms);
    if count == 0 {
        let t = seq![ClickAction::Finish { completed: true }];
        assert(t[0] == start.pending());
    } else if uses_batch(count, hold_ms, use_double_click_gap) {
        let done = start.next(ClickFeedback::Performed);
        let fin = seq![ClickAction::Finish { completed: true }];
        assert(fin[0] == done.pending());
        assert(follows(done, Seq::<bool>::empty(), fin));
        lemma_follows_prepend(start, Seq::<bool>::empty(), Seq::<bool>::empty(), fin);
        assert(seq![start.pending()] + fin =~= seq![
            ClickAction::Batch { down, up, count, hold_ms },
            ClickAction::Finish { completed: true },
        ]);
    } else {
        lemma_clicks_from(start, 0);
        assert(fresh_click(start, 0) == start);
    }
}

/// A run determines what it does: two action sequences that both follow it under the
/// same answers are the same.
pub proof fn lemma_follows_deterministic(run: ClickRun, answers: Seq<bool>, t1: Seq<ClickAction>, t2: Seq<ClickAction>)
    requires
        follows(run, answers, t1),
        follows(run, answers, t2),
    ensures
        t1 == t2,
    decreases t1.len(),
{
    if run.is_done() {
        assert(t1 =~= t2);
    } else if run.wants_answer() {
        lemma_follows_deterministic(
            run.next(ClickFeedback::Active(answers[0])),
            answers.drop_first(),
            t1.drop_first(),
            t2.drop_first(),
        );
        assert(t1 =~= seq![t1[0]] + t1.drop_first());
        assert(t2 =~= seq![t2[0]] + t2.drop_first());
    } else {
        lemma_follows_deterministic(run.next(ClickFeedback::Performed), answers, t1.drop_first(), t2.drop_first());
        assert(t1 =~= seq![t1[0]] + t1.drop_first());
        assert(t2 =~= seq![t2[0]] + t2.drop_first());
    }
}

/// Two ways of following a run under answers that all say "active" agree: the answers
/// and the actions are the same.
pub proof fn lemma_follows_active_unique(
    run: ClickRun,
    a1: Seq<bool>,
    a2: Seq<bool>,
    t1: Seq<ClickAction>,
    t2: Seq<ClickAction>,
)
    requires
        follows(run, a1, t1),
        follows(run, a2, t2),
        forall|i: int| 0 <= i < a1.len() ==> a1[i],
        forall|i: int| 0 <= i < a2.len() ==> a2[i],
    ensures
        a1 == a2,
        t1 == t2,
    decreases t1.len(),
{
    if run.is_done() {
        assert(t1 =~= t2);
        assert(a1 =~= a2);
    } else if run.wants_answer() {
        assert(a1[0] && a2[0]);
        lemma_follows_active_unique(
            run.next(ClickFeedback::Active(true)),
            a1.drop_first(),
            a2.drop_first(),
            t1.drop_first(),
            t2.drop_first(),
        );
        assert(t1 =~= seq![t1[0]] + t1.drop_first());
        assert(t2 =~= seq![t2[0]] + t2.drop_first());
        assert(a1 =~= seq![a1[0]] + a1.drop_first());
        assert(a2 =~= seq![a2[0]] + a2.drop_first());
    } else {
        lemma_follows_active_unique(run.next(ClickFeedback::Performed), a1, a2, t1.drop_first(), t2.drop_first());
        assert(t1 =~= seq![t1[0]] + t1.drop_first());
        assert(t2 =~= seq![t2[0]] + t2.drop_first());
    }
}

/// When every activity check of a run of clicks says "active" (as `send_clicks`
/// reports its answers), the actions it carried out are exactly the `count` clicks
/// of `clicks_from` (or the one batch, or nothing for no clicks).
pub proof fn lemma_active_run_actions(
    down: MouseEventSpec,
    up: MouseEventSpec,
    count: usize,
    hold_ms: u32,
    use_double_click_gap: bool,
    double_click_delay_ms: u32,
    answers: Seq<bool>,
    trace: Seq<ClickAction>,
)
    requires
        follows(
            ClickRun::starting(down, up, count, hold_ms, use_double_click_gap, double_click_delay_ms),
            answers,
            trace,
        ),
        forall|i: int| 0 <= i < answers.len() ==> answers[i],
    ensures
        count == 0 ==> trace == seq![ClickAction::Finish { completed: true }],
        count > 0 && uses_batch(count, hold_ms, use_double_click_gap) ==> trace == seq![
            ClickAction::Batch { down, up, count, hold_ms },
            ClickAction::Finish { completed: true },
        ],
        count > 0 && !uses_batch(count, hold_ms, use_double_click_gap) ==> trace == clicks_from(
            down,
            up,
            count as nat,
            hold_ms,
            use_double_click_gap,
            double_click_delay_ms,
            0,
        ),
{
    let start = ClickRun::starting(down, up, count, hold_ms, use_double_click_gap, double_click_delay_ms);
    lemma_run_all_active(down, up, count, hold_ms, use_double_click_gap, double_click_delay_ms);
    if count == 0 || uses_batch(count, hold_ms, use_double_click_gap) {
        let t = if count == 0 {
            seq![ClickAction::Finish { completed: true }]
        } else {
            seq![ClickAction::Batch { down, up, count, hold_ms }, ClickAction::Finish { completed: true }]
        };
        lemma_follows_active_unique(start, answers, Seq::<bool>::empty(), trace, t);
    } else {
        let a = all_active(checks_left(count as nat, 0, hold_ms));
        lemma_follows_active_unique(
            start,
            answers,
            a,
            trace,
            clicks_from(down, up, count as nat, hold_ms, use_double_click_gap, double_click_delay_ms, 0),
        );
    }
}

} // verus!
