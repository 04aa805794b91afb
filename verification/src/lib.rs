//! Structured per-turn and per-session metrics for agent observability.
//!
//! The library holds the metric types and the rules that build and
//! accumulate them: turn metrics from the runtime's turn data, the session
//! accumulator that each turn updates, the observer's decision for each
//! message, and the session listing's summaries. The program around it
//! feeds turn data in and persists the results.

pub mod clock;
pub mod collector;
pub mod json;
pub mod keyed;
pub mod laws;
pub mod percentile;
pub mod session;
pub mod summary;
pub mod text;
pub mod types;

pub use collector::{ObserverMsg, ObserverStep, TurnContext, UsageInfo, build_turn_metrics, handle_message};
pub use json::{JsonObject, JsonValue};
pub use session::{FailRate, SessionMetrics, ToolBreakdown};
pub use summary::{session_summary, sort_newest_first};
pub use types::{RunOutcome, SessionOutcome, SessionSummary, TurnMetrics, TurnOutcome};
