use vstd::prelude::*;
use crate::mouse_event::MouseEventSpec;

verus! {

/// The events of `n` clicks sent back to back: press, release, press, release, ...
pub open spec fn batch_sequence(down: MouseEventSpec, up: MouseEventSpec, n: nat) -> Seq<MouseEventSpec> {
    Seq::new(2 * n, |i: int| if i % 2 == 0 { down } else { up })
}

/// The events of a batch of `n` clicks, in the order in which they are injected.
pub fn batch_events(down: MouseEventSpec, up: MouseEventSpec, n: usize) -> (events: Vec<MouseEventSpec>)
    requires
        n <= usize::MAX / 2,
    ensures
        events@ == batch_sequence(down, up, n as nat),
{
    let mut events: Vec<MouseEventSpec> = Vec::with_capacity(n * 2);
    for i in 0..n
        invariant
            events@ == batch_sequence(down, up, i as nat),
    {
        events.push(down);
        events.push(up);
        assert(events@ =~= batch_sequence(down, up, (i + 1) as nat));
    }
    events
}

/// Sends `n` clicks back to back through `send_event`, each press and each release
/// with click state one; the hold time is not used by a batch. Every event of
/// `batch_sequence(down, up, n)` is handed to `send_event` with click state one, so
/// the callback's postcondition holds of each of them.
pub fn send_batch<FSend>(
    down: MouseEventSpec,
    up: MouseEventSpec,
    n: usize,
    _hold_ms: u32,
    send_event: &mut FSend,
) where FSend: FnMut(MouseEventSpec, i64)
    requires
        forall|event: MouseEventSpec, state: i64| call_requires(*old(send_event), (event, state)),
    ensures
        forall|i: int|
            0 <= i < 2 * n ==> call_ensures(
                *final(send_event),
                (#[trigger] batch_sequence(down, up, n as nat)[i], 1i64),
                (),
            ),
{
    let ghost start = *send_event;
    for i in 0..n
        invariant
            *send_event == start,
            forall|event: MouseEventSpec, state: i64| call_requires(*send_event, (event, state)),
            forall|k: int|
                0 <= k < 2 * i ==> call_ensures(
                    *send_event,
                    (#[trigger] batch_sequence(down, up, n as nat)[k], 1i64),
                    (),
                ),
    {
        send_event(down, 1);
        send_event(up, 1);
        assert forall|k: int| 0 <= k < 2 * (i + 1) implies call_ensures(
            *send_event,
            (#[trigger] batch_sequence(down, up, n as nat)[k], 1i64),
            (),
        ) by {
            if k == 2 * i {
                assert(batch_sequence(down, up, n as nat)[k] == down);
            } else if k == 2 * i + 1 {
                assert(batch_sequence(down, up, n as nat)[k] == up);
            }
        }
    }
}

} // verus!
