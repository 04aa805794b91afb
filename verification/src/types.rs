//! Outcome enums and the small string helpers shared by the metric types.

use vstd::prelude::*;

use crate::json::{JsonObject, JsonValue, copy_json, json_same};

verus! {

/// Outcome of a single turn (one LLM interaction).
#[derive(Clone, Copy, Debug, PartialEq, Eq, Structural)]
pub enum TurnOutcome {
    /// Turn completed successfully (text response, no tool calls).
    Completed,
    /// Turn ended with tool calls (agent will loop back for another turn).
    ToolCalls,
    /// Turn ended with an error.
    Error,
    /// Turn hit the max-turns safety limit.
    MaxTurns,
    /// User cancelled this turn.
    Cancelled,
}

/// Outcome of a session (the entire conversation).
#[derive(Clone, Copy, Debug, PartialEq, Eq, Structural)]
pub enum SessionOutcome {
    /// Session completed normally.
    Completed,
    /// Session ended with an unrecoverable error.
    Failed,
    /// User cancelled the session.
    Cancelled,
    /// Max turns exceeded (safety limit).
    MaxTurns,
}

/// How a run (or one turn of it) ended, as the agent runtime reports it.
#[derive(Clone, Debug, PartialEq, Eq)]
pub enum RunOutcome {
    /// The task finished; the run ends.
    Completed,
    /// The turn ended but the run goes on (guard nudge).
    Continuing,
    /// Unrecoverable error; the run ends.
    Failed { error: String },
    /// The turn cap was hit; the run ends.
    MaxTurnsExceeded { turns: u32 },
    /// User or system cancelled; the run ends.
    Cancelled,
}

/// The turn outcome for a run outcome, where `used_tools` says whether the
/// turn called any tool.
pub open spec fn turn_outcome_for(outcome: RunOutcome, used_tools: bool) -> TurnOutcome {
    match outcome {
        RunOutcome::Completed => if used_tools {
            TurnOutcome::ToolCalls
        } else {
            TurnOutcome::Completed
        },
        RunOutcome::Continuing => TurnOutcome::Completed,
        RunOutcome::Failed { .. } => TurnOutcome::Error,
        RunOutcome::Cancelled => TurnOutcome::Cancelled,
        RunOutcome::MaxTurnsExceeded { .. } => TurnOutcome::MaxTurns,
    }
}

/// The session outcome for a run outcome.
pub open spec fn session_outcome_for(outcome: RunOutcome) -> SessionOutcome {
    match outcome {
        RunOutcome::Completed => SessionOutcome::Completed,
        RunOutcome::Continuing => SessionOutcome::Completed,
        RunOutcome::Failed { .. } => SessionOutcome::Failed,
        RunOutcome::Cancelled => SessionOutcome::Cancelled,
        RunOutcome::MaxTurnsExceeded { .. } => SessionOutcome::MaxTurns,
    }
}

/// Convert a run outcome to a turn-level `TurnOutcome`; `tools_used`
/// distinguishes `ToolCalls` from `Completed`.
pub fn run_outcome_to_turn_outcome(outcome: &RunOutcome, tools_used: &[String]) -> (res: TurnOutcome)
    ensures
        res == turn_outcome_for(*outcome, tools_used@.len() > 0),
{
    match outcome {
        RunOutcome::Completed => {
            if tools_used.len() == 0 {
                TurnOutcome::Completed
            } else {
                TurnOutcome::ToolCalls
            }
        },
        // A guard nudge ends this turn even though the run loops on.
        RunOutcome::Continuing => TurnOutcome::Completed,
        RunOutcome::Failed { .. } => TurnOutcome::Error,
        RunOutcome::Cancelled => TurnOutcome::Cancelled,
        RunOutcome::MaxTurnsExceeded { .. } => TurnOutcome::MaxTurns,
    }
}

/// Convert a run outcome to a `SessionOutcome`.
pub fn run_outcome_to_session_outcome(outcome: &RunOutcome) -> (res: SessionOutcome)
    ensures
        res == session_outcome_for(*outcome),
{
    match outcome {
        RunOutcome::Completed => SessionOutcome::Completed,
        RunOutcome::Continuing => SessionOutcome::Completed,
        RunOutcome::Failed { .. } => SessionOutcome::Failed,
        RunOutcome::Cancelled => SessionOutcome::Cancelled,
        RunOutcome::MaxTurnsExceeded { .. } => SessionOutcome::MaxTurns,
    }
}

/// The most characters of the user's input that a turn keeps.
pub const USER_INPUT_MAX_CHARS: usize = 80;

/// Per-turn metrics: one per LLM interaction.
#[derive(Debug)]
pub struct TurnMetrics {
    // Timing
    pub turn_number: u32,
    /// Start time, RFC 3339.
    pub started_at: String,
    pub duration_ms: u64,
    // Latency breakdown
    pub time_to_first_token_ms: u64,
    pub llm_duration_ms: u64,
    pub tool_duration_ms: u64,
    // LLM
    pub llm_calls: u32,
    pub input_tokens: u64,
    pub output_tokens: u64,
    pub thinking_tokens: u64,
    pub model: String,
    // Tool
    pub tool_call_count: u32,
    pub tools_used: Vec<String>,
    pub tool_success: u32,
    pub tool_failed: u32,
    // Result
    pub outcome: TurnOutcome,
    pub text_length: u64,
    pub error_message: Option<String>,
    pub has_thinking: bool,
    // Meta events
    pub plan_updates: u32,
    pub approval_count: u32,
    /// The user's input, cut to 80 characters.
    pub user_input: String,
    /// Business extension.
    pub custom: JsonValue,
}

/// Whether a JSON value is an object with no keys.
pub open spec fn is_empty_object(v: JsonValue) -> bool {
    match v {
        JsonValue::Object(o) => o.view() == Map::<Seq<char>, JsonValue>::empty(),
        _ => false,
    }
}

impl TurnMetrics {
    /// A turn with the given identity, timing, model, input and outcome, and
    /// every counter at its default: one LLM call, everything else zero,
    /// no tools, no error, and an empty `custom` object.
    pub fn new(
        turn_number: u32,
        started_at: String,
        duration_ms: u64,
        model: String,
        user_input: String,
        outcome: TurnOutcome,
    ) -> (res: Self)
        ensures
            res.turn_number == turn_number,
            res.started_at == started_at,
            res.duration_ms == duration_ms,
            res.time_to_first_token_ms == 0,
            res.llm_duration_ms == 0,
            res.tool_duration_ms == 0,
            res.llm_calls == 1,
            res.input_tokens == 0,
            res.output_tokens == 0,
            res.thinking_tokens == 0,
            res.model == model,
            res.tool_call_count == 0,
            res.tools_used@.len() == 0,
            res.tool_success == 0,
            res.tool_failed == 0,
            res.outcome == outcome,
            res.text_length == 0,
            res.error_message is None,
            !res.has_thinking,
            res.plan_updates == 0,
            res.approval_count == 0,
            res.user_input@ == truncated_chars(user_input@, USER_INPUT_MAX_CHARS as nat),
            is_empty_object(res.custom),
    {
        let user_input = truncate_str(user_input.as_str(), USER_INPUT_MAX_CHARS);
        TurnMetrics {
            turn_number,
            started_at,
            duration_ms,
            time_to_first_token_ms: 0,
            llm_duration_ms: 0,
            tool_duration_ms: 0,
            llm_calls: 1,
            input_tokens: 0,
            output_tokens: 0,
            thinking_tokens: 0,
            model,
            tool_call_count: 0,
            tools_used: Vec::new(),
            tool_success: 0,
            tool_failed: 0,
            outcome,
            text_length: 0,
            error_message: None,
            has_thinking: false,
            plan_updates: 0,
            approval_count: 0,
            user_input,
            custom: JsonValue::Object(JsonObject::new()),
        }
    }
}

/// A copy of a list of strings.
pub(crate) fn clone_strings(v: &Vec<String>) -> (res: Vec<String>)
    ensures
        res@ == v@,
{
    let res = v.clone();
    assert(res@ =~= v@);
    res
}

/// `b` is a copy of the turn `a`: every field equal, the tools the same
/// names in the same order, and `custom` a structural copy.
pub open spec fn turn_same(a: TurnMetrics, b: TurnMetrics) -> bool {
    &&& b == (TurnMetrics { tools_used: b.tools_used, custom: b.custom, ..a })
    &&& b.tools_used@ == a.tools_used@
    &&& json_same(a.custom, b.custom)
}

impl Clone for TurnMetrics {
    /// A copy of the turn.
    fn clone(&self) -> (res: Self)
        ensures
            turn_same(*self, res),
    {
        TurnMetrics {
            turn_number: self.turn_number,
            started_at: self.started_at.clone(),
            duration_ms: self.duration_ms,
            time_to_first_token_ms: self.time_to_first_token_ms,
            llm_duration_ms: self.llm_duration_ms,
            tool_duration_ms: self.tool_duration_ms,
            llm_calls: self.llm_calls,
            input_tokens: self.input_tokens,
            output_tokens: self.output_tokens,
            thinking_tokens: self.thinking_tokens,
            model: self.model.clone(),
            tool_call_count: self.tool_call_count,
            tools_used: clone_strings(&self.tools_used),
            tool_success: self.tool_success,
            tool_failed: self.tool_failed,
            outcome: self.outcome,
            text_length: self.text_length,
            error_message: match &self.error_message {
                Some(m) => Some(m.clone()),
                None => None,
            },
            has_thinking: self.has_thinking,
            plan_updates: self.plan_updates,
            approval_count: self.approval_count,
            user_input: self.user_input.clone(),
            custom: copy_json(&self.custom),
        }
    }
}

/// Lightweight summary of a session, as a session listing shows it.
#[derive(Clone, Debug)]
pub struct SessionSummary {
    pub session_id: String,
    pub node_id: String,
    pub created_at: String,
    pub model: String,
    pub total_turns: u32,
    pub total_chars: u64,
    pub outcome: SessionOutcome,
    /// Product name from the session's custom data, if set (e.g. "phi-bard").
    pub product: Option<String>,
}

/// The characters of `s` cut to at most `max_chars`, with "..." appended
/// when something was cut.
pub open spec fn truncated_chars(s: Seq<char>, max_chars: nat) -> Seq<char> {
    if s.len() > max_chars {
        s.take(max_chars as int) + seq!['.', '.', '.']
    } else {
        s
    }
}

/// Truncate a string to `max_chars` characters, appending "..." if truncated.
pub fn truncate_str(s: &str, max_chars: usize) -> (res: String)
    ensures
        res@ == truncated_chars(s@, max_chars as nat),
{
    if s.unicode_len() > max_chars {
        let head = String::from_str(s.substring_char(0, max_chars));
        let res = head.concat("...");
        proof {
            reveal_strlit("...");
        }
        res
    } else {
        String::from_str(s)
    }
}

/// The session type given to sessions that do not name one.
pub fn default_session_type() -> (res: String)
    ensures
        res@ == seq!['d', 'e', 'f', 'a', 'u', 'l', 't'],
{
    proof {
        reveal_strlit("default");
    }
    String::from_str("default")
}

} // verus!
