use phi_telemetry::collector::{TurnContext, UsageInfo, build_turn_metrics};
use phi_telemetry::types::{RunOutcome, TurnOutcome};

/// A TurnContext with sensible defaults.
fn make_ctx(turn_number: u32, outcome: RunOutcome, tools_used: Vec<String>) -> TurnContext {
    TurnContext {
        session_id: 1,
        turn_number,
        ttft_ms: 150,
        llm_duration_ms: 800,
        duration_ms: 1200,
        tool_duration_ms: 200,
        usage: Some(UsageInfo {
            prompt_tokens: Some(500),
            completion_tokens: Some(300),
            total_tokens: Some(800),
            reasoning_tokens: None,
        }),
        full_text_len: 1024,
        has_thinking: false,
        thinking_bytes: 0,
        tools_used,
        tool_call_count: 1,
        tool_success: 1,
        tool_failed: 0,
        outcome,
        error_message: None,
        user_input: "test input".to_string(),
        model: "gpt-4o".to_string(),
        plan_updates: 0,
        approval_count: 0,
        llm_calls: 1,
    }
}

#[test]
fn build_turn_metrics_basic() {
    let ctx = make_ctx(1, RunOutcome::Completed, vec![]);
    let turn = build_turn_metrics(&ctx);

    assert_eq!(turn.turn_number, 1);
    assert_eq!(turn.duration_ms, 1200);
    assert_eq!(turn.time_to_first_token_ms, 150);
    assert_eq!(turn.llm_duration_ms, 800);
    assert_eq!(turn.tool_duration_ms, 200);
    assert_eq!(turn.input_tokens, 500);
    assert_eq!(turn.output_tokens, 300);
    assert_eq!(turn.model, "gpt-4o");
    assert_eq!(turn.tool_call_count, 1);
    assert_eq!(turn.tool_success, 1);
    assert_eq!(turn.tool_failed, 0);
    assert_eq!(turn.text_length, 1024);
    assert_eq!(turn.outcome, TurnOutcome::Completed);
    assert_eq!(turn.user_input, "test input");
    assert_eq!(turn.llm_calls, 1);
    assert!(turn.error_message.is_none());
    assert!(!turn.has_thinking);
    assert_eq!(turn.plan_updates, 0);
    assert_eq!(turn.approval_count, 0);
}

#[test]
fn build_turn_metrics_with_tools() {
    let ctx = make_ctx(
        2,
        RunOutcome::Completed,
        vec!["shell".to_string(), "read_file".to_string()],
    );
    let turn = build_turn_metrics(&ctx);

    assert_eq!(turn.outcome, TurnOutcome::ToolCalls);
    assert_eq!(turn.tools_used, vec!["shell", "read_file"]);
}

#[test]
fn build_turn_metrics_error_outcome() {
    let ctx = make_ctx(
        1,
        RunOutcome::Failed {
            error: "oops".to_string(),
        },
        vec![],
    );
    let turn = build_turn_metrics(&ctx);
    assert_eq!(turn.outcome, TurnOutcome::Error);
}

#[test]
fn build_turn_metrics_cancelled() {
    let ctx = make_ctx(1, RunOutcome::Cancelled, vec![]);
    let turn = build_turn_metrics(&ctx);
    assert_eq!(turn.outcome, TurnOutcome::Cancelled);
}

#[test]
fn build_turn_metrics_max_turns() {
    let ctx = make_ctx(1, RunOutcome::MaxTurnsExceeded { turns: 10 }, vec![]);
    let turn = build_turn_metrics(&ctx);
    assert_eq!(turn.outcome, TurnOutcome::MaxTurns);
}

#[test]
fn build_turn_metrics_continuing() {
    let ctx = make_ctx(1, RunOutcome::Continuing, vec![]);
    let turn = build_turn_metrics(&ctx);
    assert_eq!(turn.outcome, TurnOutcome::Completed);
}

#[test]
fn build_turn_metrics_no_usage() {
    let mut ctx = make_ctx(1, RunOutcome::Completed, vec![]);
    ctx.usage = None;
    let turn = build_turn_metrics(&ctx);
    assert_eq!(turn.input_tokens, 0);
    assert_eq!(turn.output_tokens, 0);
}

#[test]
fn build_turn_metrics_partial_usage() {
    let mut ctx = make_ctx(1, RunOutcome::Completed, vec![]);
    ctx.usage = Some(UsageInfo {
        prompt_tokens: Some(100),
        completion_tokens: None,
        total_tokens: None,
        reasoning_tokens: None,
    });
    let turn = build_turn_metrics(&ctx);
    assert_eq!(turn.input_tokens, 100);
    assert_eq!(turn.output_tokens, 0);
}

#[test]
fn build_turn_metrics_with_error_message() {
    let mut ctx = make_ctx(1, RunOutcome::Completed, vec![]);
    ctx.error_message = Some("connection timeout".to_string());
    let turn = build_turn_metrics(&ctx);
    assert_eq!(turn.error_message, Some("connection timeout".to_string()));
}

#[test]
fn build_turn_metrics_with_thinking() {
    let mut ctx = make_ctx(1, RunOutcome::Completed, vec![]);
    ctx.has_thinking = true;
    let turn = build_turn_metrics(&ctx);
    assert!(turn.has_thinking);
}

#[test]
fn build_turn_metrics_with_meta_events() {
    let mut ctx = make_ctx(1, RunOutcome::Completed, vec![]);
    ctx.plan_updates = 3;
    ctx.approval_count = 2;
    let turn = build_turn_metrics(&ctx);
    assert_eq!(turn.plan_updates, 3);
    assert_eq!(turn.approval_count, 2);
}

#[test]
fn build_turn_metrics_user_input_truncated() {
    let mut ctx = make_ctx(1, RunOutcome::Completed, vec![]);
    ctx.user_input = "a".repeat(200);
    let turn = build_turn_metrics(&ctx);
    // TurnMetrics::new truncates to 80 chars + "..."
    assert!(turn.user_input.len() <= 83);
    assert!(turn.user_input.ends_with("..."));
}
