# phi-telemetry

Observability layer for an agent runtime: it collects structured per-turn
and per-session metrics and persists them as `session_metrics.json` next
to the session's other files.

## Layout

- `src/` is the library, verified with Verus:
  - `types` — turn and session outcomes, the runtime's run outcome, turn
    metrics, session summaries, and input truncation;
  - `session` — the session accumulator: `append_turn`, `finalize`, the
    per-tool breakdown, the fail-rate ratio and the percentiles;
  - `percentile` — ascending sort and nearest-rank percentiles;
  - `collector` — turn metrics built from the runtime's turn data, and the
    observer's decision for each message;
  - `summary` — session summaries and the newest-first listing order;
  - `json` and `keyed` — the JSON values of the `custom` fields, and
    name-keyed entry lists read as maps;
  - `text` — byte-wise string equality and order;
  - `clock` — the wall clock, read through chrono;
  - `laws` — what holds across calls: a session's aggregates are the
    aggregates of its turns, turn-end messages accumulate one turn each, and
    the percentiles are ordered.
- `app/` is the program around it: serde forms of the metric types, the
  file storage and the session directory scan, and the tokio observer task
  fed by the runtime's `on_turn_end` hook.
- `tests/` runs the library on concrete values.
