# mouse_engine

The decision logic of an auto-clicker's mouse engine, verified with Verus.

- `src/screen.rs`: virtual-screen rectangles (edges, point containment, offsets).
- `src/monitors.rs`: the monitor list (visible monitors, stable sort by position,
  fallback) and the virtual screen that spans the monitors.
- `src/mouse_event.rs`: button events and the button-number mapping.
- `src/click_cycle.rs`: one click as a state machine, and `dispatch_click`, which runs
  it through caller-supplied callbacks.
- `src/click_run.rs`: a run of clicks (batch, multi-click states, pauses) as a state
  machine, and `send_clicks`, which runs it.
- `src/batch.rs`: back-to-back click batches.
- `src/cursor.rs`: the cursor fallback and the integer plan of a smooth move.

`app/` holds the operating-system side (Windows `SendInput` and system metrics,
macOS Core Graphics) and the floating-point curve of smooth moves.
