//! Turn metrics built from the runtime's turn-end data, and the observer's
//! decision for each message it receives.

use vstd::prelude::*;

use crate::clock::{current_time_rfc3339, utc_rfc3339_shape};
use crate::json::{JsonValue, merge_objects};
use crate::session::{SessionMetrics, names_of};
use crate::types::{
    clone_strings,
    RunOutcome, TurnMetrics, USER_INPUT_MAX_CHARS, is_empty_object, run_outcome_to_turn_outcome,
    truncated_chars, turn_outcome_for,
};

verus! {

/// Token usage of an LLM call, as the runtime reports it.
#[derive(Debug)]
pub struct UsageInfo {
    pub prompt_tokens: Option<u32>,
    pub completion_tokens: Option<u32>,
    pub total_tokens: Option<u32>,
    /// Tokens spent on reasoning, where the provider reports them.
    pub reasoning_tokens: Option<u32>,
}

/// Raw data of a finished turn, as the runtime hands it to turn-end hooks.
#[derive(Debug)]
pub struct TurnContext {
    pub session_id: u64,
    pub turn_number: u32,
    pub ttft_ms: u64,
    pub llm_duration_ms: u64,
    pub duration_ms: u64,
    pub tool_duration_ms: u64,
    pub usage: Option<UsageInfo>,
    pub full_text_len: u64,
    pub has_thinking: bool,
    pub thinking_bytes: u64,
    pub tools_used: Vec<String>,
    pub tool_call_count: u32,
    pub tool_success: u32,
    pub tool_failed: u32,
    pub outcome: RunOutcome,
    pub error_message: Option<String>,
    pub user_input: String,
    pub model: String,
    pub plan_updates: u32,
    pub approval_count: u32,
    pub llm_calls: u32,
}

/// The prompt tokens a usage report gives, 0 when it gives none.
pub open spec fn prompt_tokens_of(usage: Option<UsageInfo>) -> u64 {
    match usage {
        Some(u) => match u.prompt_tokens {
            Some(n) => n as u64,
            None => 0,
        },
        None => 0,
    }
}

/// The completion tokens a usage report gives, 0 when it gives none.
pub open spec fn completion_tokens_of(usage: Option<UsageInfo>) -> u64 {
    match usage {
        Some(u) => match u.completion_tokens {
            Some(n) => n as u64,
            None => 0,
        },
        None => 0,
    }
}

/// `turn` holds what the runtime reported in `ctx`: every field but the
/// start time is taken from it (the input cut to 80 characters, the outcome
/// converted, tokens from the usage report or 0), no thinking tokens are
/// counted, and `custom` is an empty object.
pub open spec fn built_from(turn: TurnMetrics, ctx: TurnContext) -> bool {
    &&& reported_in(turn, ctx)
    &&& is_empty_object(turn.custom)
}

/// Every field of `turn` but the start time and `custom` is what `ctx`
/// reports, as `built_from` describes.
pub open spec fn reported_in(turn: TurnMetrics, ctx: TurnContext) -> bool {
    &&& turn.turn_number == ctx.turn_number
    &&& turn.duration_ms == ctx.duration_ms
    &&& turn.time_to_first_token_ms == ctx.ttft_ms
    &&& turn.llm_duration_ms == ctx.llm_duration_ms
    &&& turn.tool_duration_ms == ctx.tool_duration_ms
    &&& turn.llm_calls == ctx.llm_calls
    &&& turn.input_tokens == prompt_tokens_of(ctx.usage)
    &&& turn.output_tokens == completion_tokens_of(ctx.usage)
    &&& turn.thinking_tokens == 0
    &&& turn.model@ == ctx.model@
    &&& turn.tool_call_count == ctx.tool_call_count
    &&& turn.tools_used@ == ctx.tools_used@
    &&& turn.tool_success == ctx.tool_success
    &&& turn.tool_failed == ctx.tool_failed
    &&& turn.outcome == turn_outcome_for(ctx.outcome, ctx.tools_used@.len() > 0)
    &&& turn.text_length == ctx.full_text_len
    &&& turn.error_message == ctx.error_message
    &&& turn.has_thinking == ctx.has_thinking
    &&& turn.plan_updates == ctx.plan_updates
    &&& turn.approval_count == ctx.approval_count
    &&& turn.user_input@ == truncated_chars(ctx.user_input@, USER_INPUT_MAX_CHARS as nat)
}

fn tokens(count: &Option<u32>) -> (res: u64)
    ensures
        res == (match *count {
            Some(n) => n as u64,
            None => 0,
        }),
{
    match count {
        Some(n) => *n as u64,
        None => 0,
    }
}

/// Build the metrics of a turn from the runtime's turn data, started at
/// `started_at`.
pub fn build_turn_metrics_at(ctx: &TurnContext, started_at: String) -> (res: TurnMetrics)
    ensures
        built_from(res, *ctx),
        res.started_at == started_at,
{
    let (input_tokens, output_tokens) = match &ctx.usage {
        Some(u) => (tokens(&u.prompt_tokens), tokens(&u.completion_tokens)),
        None => (0, 0),
    };
    let turn_outcome = run_outcome_to_turn_outcome(&ctx.outcome, ctx.tools_used.as_slice());
    let mut turn = TurnMetrics::new(
        ctx.turn_number,
        started_at,
        ctx.duration_ms,
        ctx.model.clone(),
        ctx.user_input.clone(),
        turn_outcome,
    );
    turn.time_to_first_token_ms = ctx.ttft_ms;
    turn.llm_duration_ms = ctx.llm_duration_ms;
    turn.tool_duration_ms = ctx.tool_duration_ms;
    turn.input_tokens = input_tokens;
    turn.output_tokens = output_tokens;
    turn.tool_call_count = ctx.tool_call_count;
    turn.tools_used = clone_strings(&ctx.tools_used);
    turn.tool_success = ctx.tool_success;
    turn.tool_failed = ctx.tool_failed;
    turn.text_length = ctx.full_text_len;
    turn.has_thinking = ctx.has_thinking;
    turn.plan_updates = ctx.plan_updates;
    turn.approval_count = ctx.approval_count;
    turn.llm_calls = ctx.llm_calls;
    if let Some(msg) = &ctx.error_message {
        turn.error_message = Some(msg.clone());
    }
    turn
}

/// Build the metrics of a turn from the runtime's turn data, started now
/// (the current time in RFC 3339 form).
pub fn build_turn_metrics(ctx: &TurnContext) -> (res: TurnMetrics)
    ensures
        built_from(res, *ctx),
        utc_rfc3339_shape(res.started_at@),
{
    build_turn_metrics_at(ctx, current_time_rfc3339())
}

/// A message to the observer.
#[derive(Debug)]
pub enum ObserverMsg {
    /// A turn has completed: build its metrics and accumulate them.
    TurnEnd(TurnContext),
    /// Merge session-level custom data.
    SetSessionCustom(JsonValue),
    /// Stop observing.
    Shutdown,
}

/// What the observer does after a message.
#[derive(Clone, Copy, Debug, PartialEq, Eq, Structural)]
pub enum ObserverStep {
    /// Wait for the next message.
    Continue,
    /// Stop: a shutdown was asked for.
    Stop,
    /// Stop: the turn would overflow a session total, and nothing was
    /// accumulated.
    Overflow,
}

/// `custom` is an empty object with the entries of `pending` merged in when
/// `pending` holds an object.
pub open spec fn custom_from_pending(custom: JsonValue, pending: Option<JsonValue>) -> bool {
    match pending {
        Some(JsonValue::Object(p)) => match custom {
            JsonValue::Object(c) => c.view() == p.view(),
            _ => false,
        },
        _ => is_empty_object(custom),
    }
}

/// The session can take the turn that `ctx` reports without any total
/// overflowing. Whether it can depends only on the fields `ctx` fixes, not
/// on the start time or the custom data.
pub open spec fn can_take(session: SessionMetrics, ctx: TurnContext) -> bool {
    forall|t: TurnMetrics| reported_in(t, ctx) ==> #[trigger] session.appendable(t)
}

/// Every field of `a` but `custom` equals `b`'s.
pub open spec fn same_but_custom(a: SessionMetrics, b: SessionMetrics) -> bool {
    a == (SessionMetrics { custom: a.custom, ..b })
}

/// One turn-end step of the observer, from `before` to `after`: the pending
/// custom data is taken; when the session can take the reported turn the
/// step is `Continue` and the turn (built from `ctx`, with the pending custom
/// object merged in and an RFC 3339 start time) is appended; otherwise the
/// step is `Overflow` and the session stays as it was.
pub open spec fn turn_end_step(
    before: SessionMetrics,
    after: SessionMetrics,
    ctx: TurnContext,
    pending_before: Option<JsonValue>,
    pending_after: Option<JsonValue>,
    res: ObserverStep,
) -> bool {
    &&& pending_after is None
    &&& res == (if can_take(before, ctx) {
        ObserverStep::Continue
    } else {
        ObserverStep::Overflow
    })
    &&& res == ObserverStep::Continue ==> {
        let turn = after.turns@.last();
        &&& after.turns@.len() > 0
        &&& reported_in(turn, ctx)
        &&& custom_from_pending(turn.custom, pending_before)
        &&& utc_rfc3339_shape(turn.started_at@)
        &&& after.is_append_of(before, turn)
    }
    &&& res == ObserverStep::Overflow ==> after == before
}

/// Handle one message: accumulate a finished turn (taking the pending
/// turn-level custom data into it), merge session-level custom data, or stop.
/// A finished turn is accumulated exactly when the session can take it
/// without a total overflowing; otherwise the step is `Overflow` and the
/// session is left as it was.
pub fn handle_message(
    session: &mut SessionMetrics,
    pending_turn_custom: &mut Option<JsonValue>,
    msg: ObserverMsg,
) -> (res: ObserverStep)
    ensures
        match msg {
            ObserverMsg::TurnEnd(ctx) => turn_end_step(
                *old(session),
                *final(session),
                ctx,
                *old(pending_turn_custom),
                *final(pending_turn_custom),
                res,
            ),
            ObserverMsg::SetSessionCustom(custom) => {
                &&& res == ObserverStep::Continue
                &&& *final(pending_turn_custom) == *old(pending_turn_custom)
                &&& same_but_custom(*final(session), *old(session))
                &&& match (old(session).custom, custom) {
                    (JsonValue::Object(t), JsonValue::Object(c)) => match final(session).custom {
                        JsonValue::Object(u) => u.view() == t.view().union_prefer_right(c.view()),
                        _ => false,
                    },
                    _ => final(session).custom == old(session).custom,
                }
            },
            ObserverMsg::Shutdown => {
                &&& res == ObserverStep::Stop
                &&& *final(pending_turn_custom) == *old(pending_turn_custom)
                &&& *final(session) == *old(session)
            },
        },
{
    match msg {
        ObserverMsg::TurnEnd(ctx) => {
            let mut turn = build_turn_metrics(&ctx);
            let pending = pending_turn_custom.take();
            if let Some(custom) = pending {
                merge_objects(&mut turn.custom, custom);
            }
            let ghost built_custom = turn.custom;
            proof {
                match (*old(pending_turn_custom), built_custom) {
                    (Some(JsonValue::Object(p)), JsonValue::Object(c)) => {
                        assert(c.view() =~= p.view());
                    },
                    _ => {},
                }
            }
            let ghost built = turn;
            proof {
                assert forall|t: TurnMetrics| reported_in(t, ctx) implies #[trigger] old(
                    session,
                ).appendable(t) == old(session).appendable(built) by {
                    assert(names_of(t.tools_used@) == names_of(built.tools_used@));
                }
            }
            if !session.can_append(&turn) {
                return ObserverStep::Overflow;
            }
            session.append_turn(turn);
            ObserverStep::Continue
        },
        ObserverMsg::SetSessionCustom(custom) => {
            merge_objects(&mut session.custom, custom);
            ObserverStep::Continue
        },
        ObserverMsg::Shutdown => ObserverStep::Stop,
    }
}

} // verus!
