use phi_telemetry::json::{JsonObject, JsonValue};
use phi_telemetry::percentile::percentile_from_sorted;
use phi_telemetry::session::{FailRate, SessionMetrics};
use phi_telemetry::types::{
    RunOutcome, SessionOutcome, TurnMetrics, TurnOutcome, run_outcome_to_turn_outcome, truncate_str,
};

fn rate(r: FailRate) -> f64 {
    if r.calls == 0 {
        0.0
    } else {
        r.failed as f64 / r.calls as f64
    }
}

fn empty_custom() -> JsonValue {
    JsonValue::Object(JsonObject::new())
}

#[test]
fn test_truncate_str() {
    assert_eq!(truncate_str("hello", 10), "hello");
    assert_eq!(truncate_str("hello world this is long", 10), "hello worl...");
    assert_eq!(truncate_str("你好世界测试文本", 4), "你好世界...");
}

#[test]
fn test_percentile_from_sorted() {
    let data = vec![10, 20, 30, 40, 50, 60, 70, 80, 90, 100];
    assert_eq!(percentile_from_sorted(&data, 50), 60);
    assert_eq!(percentile_from_sorted(&data, 95), 100);
    assert_eq!(percentile_from_sorted(&data, 0), 10);
    assert_eq!(percentile_from_sorted(&data, 100), 100);
}

#[test]
fn test_percentile_empty() {
    assert_eq!(percentile_from_sorted(&[], 50), 0);
}

#[test]
fn test_session_metrics_new() {
    let m = SessionMetrics::new(
        "20260729_test".to_string(),
        "".to_string(),
        "sonnet-large".to_string(),
    );
    assert_eq!(m.session_id, "20260729_test");
    assert_eq!(m.node_id, "");
    assert_eq!(m.model, "sonnet-large");
    assert_eq!(m.total_turns, 0);
    assert_eq!(m.parent_session_id, None);
    assert_eq!(m.session_type, "default");
    assert!(m.turns.is_empty());
}

fn tool_turn(turn_number: u32, duration_ms: u64, user_input: &str) -> TurnMetrics {
    TurnMetrics {
        turn_number,
        started_at: "2026-07-29T00:00:00Z".to_string(),
        duration_ms,
        time_to_first_token_ms: 200,
        llm_duration_ms: 800,
        tool_duration_ms: 100,
        llm_calls: 1,
        input_tokens: 500,
        output_tokens: 300,
        thinking_tokens: 0,
        model: "sonnet-large".to_string(),
        tool_call_count: 1,
        tools_used: vec!["shell".to_string()],
        tool_success: 1,
        tool_failed: 0,
        outcome: TurnOutcome::ToolCalls,
        text_length: 200,
        error_message: None,
        has_thinking: true,
        plan_updates: 0,
        approval_count: 0,
        user_input: user_input.to_string(),
        custom: empty_custom(),
    }
}

#[test]
fn test_session_metrics_append_turn() {
    let mut m = SessionMetrics::new(
        "test".to_string(),
        "".to_string(),
        "sonnet-large".to_string(),
    );
    let turn = tool_turn(1, 1000, "test input");
    assert!(m.can_append(&turn));
    m.append_turn(turn);
    assert_eq!(m.total_turns, 1);
    assert_eq!(m.total_input_tokens, 500);
    assert_eq!(m.total_output_tokens, 300);
    assert_eq!(m.total_duration_ms, 1000);
    assert_eq!(m.total_tool_calls, 1);
    assert_eq!(m.tool_breakdown.get("shell"), Some(1));
    assert_eq!(rate(m.tool_fail_rate), 0.0);
    assert_eq!(m.avg_turn_ms, 1000);
    assert_eq!(m.p50_turn_ms, 1000);
}

#[test]
fn test_session_metrics_append_multiple_turns() {
    let mut m = SessionMetrics::new(
        "test".to_string(),
        "".to_string(),
        "sonnet-large".to_string(),
    );
    for i in 1..=5u32 {
        let turn = tool_turn(i, i as u64 * 1000, "test");
        m.append_turn(turn);
    }
    assert_eq!(m.total_turns, 5);
    assert_eq!(m.total_duration_ms, 15000);
    assert_eq!(m.avg_turn_ms, 3000);
    assert_eq!(m.p50_turn_ms, 3000);
}

#[test]
fn test_session_metrics_finalize() {
    let mut m = SessionMetrics::new(
        "test".to_string(),
        "".to_string(),
        "sonnet-large".to_string(),
    );
    m.finalize(SessionOutcome::Completed);
    assert_eq!(m.outcome, SessionOutcome::Completed);
}

#[test]
fn test_turn_metrics_custom_default() {
    let turn = TurnMetrics::new(
        1,
        "2026-07-29T00:00:00Z".to_string(),
        1000,
        "sonnet-large".to_string(),
        "hello world".to_string(),
        TurnOutcome::Completed,
    );
    assert_eq!(turn.custom, empty_custom());
    assert_eq!(turn.user_input, "hello world");
    let turn_long = TurnMetrics::new(
        1,
        "2026-07-29T00:00:00Z".to_string(),
        1000,
        "sonnet-large".to_string(),
        "this is a very long user input that should definitely be truncated at eighty characters because that's the max we allow for storage".to_string(),
        TurnOutcome::Completed,
    );
    assert!(turn_long.user_input.chars().count() <= 83);
    assert!(turn_long.user_input.ends_with("..."));
}

#[test]
fn test_run_outcome_conversion() {
    // Completed with no tools → TurnOutcome::Completed
    assert_eq!(
        run_outcome_to_turn_outcome(&RunOutcome::Completed, &[]),
        TurnOutcome::Completed
    );

    // Completed with tools → TurnOutcome::ToolCalls
    assert_eq!(
        run_outcome_to_turn_outcome(&RunOutcome::Completed, &["shell".to_string()]),
        TurnOutcome::ToolCalls
    );

    // Failed → Error
    assert_eq!(
        run_outcome_to_turn_outcome(
            &RunOutcome::Failed {
                error: "oops".to_string()
            },
            &[]
        ),
        TurnOutcome::Error
    );

    // Cancelled → Cancelled
    assert_eq!(
        run_outcome_to_turn_outcome(&RunOutcome::Cancelled, &[]),
        TurnOutcome::Cancelled
    );
}
