use phi_telemetry::collector::{ObserverMsg, ObserverStep, TurnContext, UsageInfo, build_turn_metrics_at, handle_message};
use phi_telemetry::json::{JsonObject, JsonValue, merge_objects};
use phi_telemetry::percentile::{percentile_from_sorted, sort_ascending};
use phi_telemetry::session::{FailRate, SessionMetrics, ToolBreakdown};
use phi_telemetry::summary::{session_summary, sort_newest_first};
use phi_telemetry::text::{str_equal, str_lt};
use phi_telemetry::types::{
    RunOutcome, SessionOutcome, SessionSummary, TurnMetrics, TurnOutcome, default_session_type,
    run_outcome_to_session_outcome, truncate_str,
};

fn object(pairs: Vec<(&str, JsonValue)>) -> JsonValue {
    let mut o = JsonObject::new();
    for (k, v) in pairs {
        o.insert(k.to_string(), v);
    }
    JsonValue::Object(o)
}

fn turn(duration_ms: u64, model: &str, tools: &[&str], failed: u32, outcome: TurnOutcome) -> TurnMetrics {
    let mut t = TurnMetrics::new(
        1,
        "2026-07-29T00:00:00Z".to_string(),
        duration_ms,
        model.to_string(),
        "input".to_string(),
        outcome,
    );
    t.tools_used = tools.iter().map(|s| s.to_string()).collect();
    t.tool_call_count = tools.len() as u32;
    t.tool_failed = failed;
    t.input_tokens = 10;
    t.output_tokens = 20;
    t.text_length = 5;
    t
}

fn session() -> SessionMetrics {
    SessionMetrics::new_at(
        "s".to_string(),
        "n".to_string(),
        "initial-model".to_string(),
        "2026-01-01T00:00:00Z".to_string(),
    )
}

#[test]
fn json_object_insert_get_and_replace() {
    let mut o = JsonObject::new();
    assert_eq!(o.len(), 0);
    o.insert("a".to_string(), JsonValue::Bool(true));
    o.insert("b".to_string(), JsonValue::Null);
    o.insert("a".to_string(), JsonValue::Number("2".to_string()));
    assert_eq!(o.len(), 2);
    assert_eq!(o.get("a"), Some(&JsonValue::Number("2".to_string())));
    assert_eq!(o.get("b"), Some(&JsonValue::Null));
    assert_eq!(o.get("c"), None);
}

#[test]
fn json_str_field_reads_only_strings_of_objects() {
    let v = object(vec![
        ("product", JsonValue::String("phi-bard".to_string())),
        ("count", JsonValue::Number("3".to_string())),
    ]);
    assert_eq!(v.str_field("product"), Some("phi-bard".to_string()));
    assert_eq!(v.str_field("count"), None);
    assert_eq!(v.str_field("missing"), None);
    assert_eq!(JsonValue::String("product".to_string()).str_field("product"), None);
}

#[test]
fn merge_objects_later_keys_win() {
    let mut target = object(vec![("a", JsonValue::Bool(false)), ("b", JsonValue::Bool(true))]);
    merge_objects(&mut target, object(vec![("a", JsonValue::Bool(true)), ("c", JsonValue::Null)]));
    match &target {
        JsonValue::Object(o) => {
            assert_eq!(o.len(), 3);
            assert_eq!(o.get("a"), Some(&JsonValue::Bool(true)));
            assert_eq!(o.get("b"), Some(&JsonValue::Bool(true)));
            assert_eq!(o.get("c"), Some(&JsonValue::Null));
        }
        _ => panic!("target is no longer an object"),
    }
}

#[test]
fn merge_objects_ignores_non_objects() {
    let mut target = JsonValue::Null;
    merge_objects(&mut target, object(vec![("a", JsonValue::Null)]));
    assert_eq!(target, JsonValue::Null);
    let mut target = object(vec![("a", JsonValue::Null)]);
    merge_objects(&mut target, JsonValue::Bool(true));
    assert_eq!(target, object(vec![("a", JsonValue::Null)]));
}

#[test]
fn tool_breakdown_counts() {
    let mut b = ToolBreakdown::new();
    b.record("shell");
    b.record("shell");
    b.record("read_file");
    assert_eq!(b.get("shell"), Some(2));
    assert_eq!(b.get("read_file"), Some(1));
    assert_eq!(b.get("write_file"), None);
    assert_eq!(b.len(), 2);
    b.set("shell".to_string(), 7);
    assert_eq!(b.get("shell"), Some(7));
}

#[test]
fn string_order_is_bytewise() {
    assert!(str_lt("2026-01-01T00:00:00Z", "2026-08-01T00:00:00Z"));
    assert!(!str_lt("2026-08-01T00:00:00Z", "2026-01-01T00:00:00Z"));
    assert!(str_lt("abc", "abcd"));
    assert!(!str_lt("abc", "abc"));
    assert!(str_lt("Z", "a"));
    assert!(str_equal("你好", "你好"));
    assert!(!str_equal("你好", "你"));
}

#[test]
fn truncate_keeps_short_strings_and_counts_chars() {
    assert_eq!(truncate_str("", 0), "");
    assert_eq!(truncate_str("abc", 3), "abc");
    assert_eq!(truncate_str("abcd", 3), "abc...");
    assert_eq!(truncate_str("abcd", 0), "...");
}

#[test]
fn percentile_rounds_halves_up() {
    let data: Vec<u64> = (1..=11).map(|i| i * 10).collect();
    // 95% of 10 is 9.5, which rounds up to rank 10.
    assert_eq!(percentile_from_sorted(&data, 95), 110);
    assert_eq!(percentile_from_sorted(&data, 50), 60);
    let hundred_one: Vec<u64> = (0..=100).collect();
    assert_eq!(percentile_from_sorted(&hundred_one, 99), 99);
    assert_eq!(percentile_from_sorted(&hundred_one, 250), 100);
    assert_eq!(percentile_from_sorted(&[7], 99), 7);
}

#[test]
fn sort_ascending_orders_durations() {
    assert_eq!(sort_ascending(&vec![5, 1, 4, 1, 3]), vec![1, 1, 3, 4, 5]);
    assert_eq!(sort_ascending(&vec![]), Vec::<u64>::new());
}

#[test]
fn fresh_session_defaults() {
    let m = session();
    assert_eq!(m.created_at, "2026-01-01T00:00:00Z");
    assert_eq!(m.session_type, default_session_type());
    assert_eq!(default_session_type(), "default");
    assert_eq!(m.outcome, SessionOutcome::Completed);
    assert_eq!(m.custom, JsonValue::Object(JsonObject::new()));
    assert_eq!(m.tool_fail_rate, FailRate { failed: 0, calls: 0 });
    assert_eq!(m.tool_breakdown.len(), 0);
}

#[test]
fn aggregates_are_sums_over_turns() {
    let mut m = session();
    m.append_turn(turn(300, "gpt-4o", &["shell", "shell"], 1, TurnOutcome::ToolCalls));
    m.append_turn(turn(100, "", &[], 0, TurnOutcome::Error));
    m.append_turn(turn(200, "gpt-4o", &["read_file"], 0, TurnOutcome::Completed));
    assert_eq!(m.total_turns, 3);
    assert_eq!(m.turns.len(), 3);
    assert_eq!(m.total_input_tokens, 30);
    assert_eq!(m.total_output_tokens, 60);
    assert_eq!(m.total_chars, 15);
    assert_eq!(m.total_duration_ms, 600);
    assert_eq!(m.total_tool_calls, 3);
    assert_eq!(m.total_failed, 1);
    assert_eq!(m.tool_fail_rate, FailRate { failed: 1, calls: 3 });
    assert_eq!(m.error_count, 1);
    assert_eq!(m.tool_breakdown.get("shell"), Some(2));
    assert_eq!(m.tool_breakdown.get("read_file"), Some(1));
    assert_eq!(m.avg_turn_ms, 200);
    assert_eq!(m.p50_turn_ms, 200);
    assert_eq!(m.p95_turn_ms, 300);
    assert_eq!(m.p99_turn_ms, 300);
    assert_eq!(m.model, "gpt-4o");
}

#[test]
fn percentiles_are_ordered() {
    let mut m = session();
    for d in [900u64, 100, 500, 300, 700, 200, 800, 400, 600, 1000, 50, 950] {
        m.append_turn(turn(d, "m", &[], 0, TurnOutcome::Completed));
    }
    assert!(m.p50_turn_ms <= m.p95_turn_ms);
    assert!(m.p95_turn_ms <= m.p99_turn_ms);
    assert_eq!(m.p50_turn_ms, 600);
    assert_eq!(m.p99_turn_ms, 1000);
}

#[test]
fn model_becomes_most_used() {
    let mut m = session();
    m.append_turn(turn(1, "a", &[], 0, TurnOutcome::Completed));
    assert_eq!(m.model, "a");
    m.append_turn(turn(1, "b", &[], 0, TurnOutcome::Completed));
    m.append_turn(turn(1, "b", &[], 0, TurnOutcome::Completed));
    assert_eq!(m.model, "b");
}

#[test]
fn model_kept_when_no_turn_names_one() {
    let mut m = session();
    m.append_turn(turn(1, "", &[], 0, TurnOutcome::Completed));
    assert_eq!(m.model, "initial-model");
}

#[test]
fn fail_rate_waits_for_tool_calls() {
    let mut m = session();
    m.append_turn(turn(1, "a", &[], 0, TurnOutcome::Completed));
    assert_eq!(m.tool_fail_rate, FailRate { failed: 0, calls: 0 });
}

#[test]
fn can_append_refuses_overflow() {
    let mut m = session();
    let t = turn(1, "a", &[], 0, TurnOutcome::Completed);
    assert!(m.can_append(&t));
    m.total_turns = u32::MAX;
    assert!(!m.can_append(&t));
    let mut m = session();
    m.total_duration_ms = u64::MAX;
    assert!(!m.can_append(&t));
    let mut m = session();
    m.tool_breakdown.set("shell".to_string(), u32::MAX - 1);
    assert!(m.can_append(&turn(1, "a", &["shell"], 0, TurnOutcome::Completed)));
    assert!(!m.can_append(&turn(1, "a", &["shell", "shell"], 0, TurnOutcome::Completed)));
}

#[test]
fn finalize_sets_outcome_and_recomputes() {
    let mut m = session();
    m.append_turn(turn(100, "a", &[], 0, TurnOutcome::Completed));
    m.p50_turn_ms = 0;
    m.finalize(SessionOutcome::Failed);
    assert_eq!(m.outcome, SessionOutcome::Failed);
    assert_eq!(m.p50_turn_ms, 100);
    assert_eq!(m.total_turns, 1);
}

#[test]
fn session_outcome_conversion() {
    assert_eq!(run_outcome_to_session_outcome(&RunOutcome::Completed), SessionOutcome::Completed);
    assert_eq!(run_outcome_to_session_outcome(&RunOutcome::Continuing), SessionOutcome::Completed);
    assert_eq!(
        run_outcome_to_session_outcome(&RunOutcome::Failed { error: "x".to_string() }),
        SessionOutcome::Failed
    );
    assert_eq!(run_outcome_to_session_outcome(&RunOutcome::Cancelled), SessionOutcome::Cancelled);
    assert_eq!(
        run_outcome_to_session_outcome(&RunOutcome::MaxTurnsExceeded { turns: 3 }),
        SessionOutcome::MaxTurns
    );
}

fn summary(id: &str, created_at: &str) -> SessionSummary {
    SessionSummary {
        session_id: id.to_string(),
        node_id: "".to_string(),
        created_at: created_at.to_string(),
        model: "m".to_string(),
        total_turns: 0,
        total_chars: 0,
        outcome: SessionOutcome::Completed,
        product: None,
    }
}

#[test]
fn summaries_newest_first_ties_in_order() {
    let sorted = sort_newest_first(vec![
        summary("a", "2026-01-01"),
        summary("b", "2026-03-01"),
        summary("c", "2026-01-01"),
        summary("d", "2026-02-01"),
        summary("e", "2026-03-01"),
    ]);
    let ids: Vec<&str> = sorted.iter().map(|s| s.session_id.as_str()).collect();
    assert_eq!(ids, vec!["b", "e", "d", "a", "c"]);
}

#[test]
fn summary_takes_product_from_custom() {
    let mut m = session();
    m.total_chars = 5000;
    m.custom = object(vec![("product", JsonValue::String("phi-bard".to_string()))]);
    let s = session_summary(m);
    assert_eq!(s.product, Some("phi-bard".to_string()));
    assert_eq!(s.total_chars, 5000);
    assert_eq!(s.session_id, "s");
    let mut m = session();
    m.custom = object(vec![("product", JsonValue::Bool(true))]);
    assert_eq!(session_summary(m).product, None);
}

fn ctx() -> TurnContext {
    TurnContext {
        session_id: 1,
        turn_number: 4,
        ttft_ms: 1,
        llm_duration_ms: 2,
        duration_ms: 3,
        tool_duration_ms: 4,
        usage: Some(UsageInfo {
            prompt_tokens: Some(5),
            completion_tokens: Some(6),
            total_tokens: Some(11),
            reasoning_tokens: None,
        }),
        full_text_len: 7,
        has_thinking: true,
        thinking_bytes: 0,
        tools_used: vec!["shell".to_string()],
        tool_call_count: 1,
        tool_success: 0,
        tool_failed: 1,
        outcome: RunOutcome::Completed,
        error_message: None,
        user_input: "hi".to_string(),
        model: "gpt-4o".to_string(),
        plan_updates: 0,
        approval_count: 0,
        llm_calls: 2,
    }
}

#[test]
fn build_turn_metrics_at_keeps_start_time() {
    let t = build_turn_metrics_at(&ctx(), "2026-07-29T00:00:00Z".to_string());
    assert_eq!(t.started_at, "2026-07-29T00:00:00Z");
    assert_eq!(t.outcome, TurnOutcome::ToolCalls);
    assert_eq!(t.thinking_tokens, 0);
    assert_eq!(t.llm_calls, 2);
}

#[test]
fn observer_merges_pending_custom_into_next_turn_only() {
    let mut m = session();
    let mut pending = Some(object(vec![("quality", JsonValue::Number("0.95".to_string()))]));
    assert_eq!(handle_message(&mut m, &mut pending, ObserverMsg::TurnEnd(ctx())), ObserverStep::Continue);
    assert!(pending.is_none());
    assert_eq!(m.turns.len(), 1);
    assert_eq!(
        m.turns[0].custom.str_field("quality"),
        None
    );
    match &m.turns[0].custom {
        JsonValue::Object(o) => assert_eq!(o.get("quality"), Some(&JsonValue::Number("0.95".to_string()))),
        _ => panic!("turn custom is not an object"),
    }
    assert_eq!(handle_message(&mut m, &mut pending, ObserverMsg::TurnEnd(ctx())), ObserverStep::Continue);
    assert_eq!(m.turns[1].custom, JsonValue::Object(JsonObject::new()));
    assert_eq!(m.total_failed, 2);
}

#[test]
fn observer_drops_non_object_pending_custom() {
    let mut m = session();
    let mut pending = Some(JsonValue::Bool(true));
    handle_message(&mut m, &mut pending, ObserverMsg::TurnEnd(ctx()));
    assert!(pending.is_none());
    assert_eq!(m.turns[0].custom, JsonValue::Object(JsonObject::new()));
}

#[test]
fn observer_merges_session_custom_and_stops() {
    let mut m = session();
    let mut pending = Some(JsonValue::Null);
    let step = handle_message(
        &mut m,
        &mut pending,
        ObserverMsg::SetSessionCustom(object(vec![("product", JsonValue::String("phi-bard".to_string()))])),
    );
    assert_eq!(step, ObserverStep::Continue);
    assert_eq!(m.custom.str_field("product"), Some("phi-bard".to_string()));
    assert_eq!(pending, Some(JsonValue::Null));
    assert_eq!(handle_message(&mut m, &mut pending, ObserverMsg::Shutdown), ObserverStep::Stop);
    assert_eq!(m.total_turns, 0);
}

#[test]
fn observer_reports_overflow_and_keeps_session() {
    let mut m = session();
    m.total_turns = u32::MAX;
    let mut pending = None;
    assert_eq!(handle_message(&mut m, &mut pending, ObserverMsg::TurnEnd(ctx())), ObserverStep::Overflow);
    assert_eq!(m.total_turns, u32::MAX);
    assert!(m.turns.is_empty());
}

#[test]
fn new_session_and_turn_carry_utc_timestamps() {
    let m = SessionMetrics::new("s".to_string(), "n".to_string(), "m".to_string());
    assert!(m.created_at.chars().count() >= 25);
    assert!(m.created_at.ends_with("+00:00"));
    let t = phi_telemetry::collector::build_turn_metrics(&ctx());
    assert!(t.started_at.chars().count() >= 25);
    assert!(t.started_at.ends_with("+00:00"));
}

#[test]
fn clones_are_equal_copies() {
    let v = object(vec![
        ("a", JsonValue::Array(vec![JsonValue::Number("1".to_string()), object(vec![("b", JsonValue::Null)])])),
        ("c", JsonValue::String("x".to_string())),
    ]);
    assert_eq!(v.clone(), v);
    let mut m = session();
    m.append_turn(turn(100, "a", &["shell"], 0, TurnOutcome::Completed));
    m.custom = v.clone();
    let mut copy = m.clone();
    copy.finalize(SessionOutcome::Cancelled);
    assert_eq!(copy.outcome, SessionOutcome::Cancelled);
    assert_eq!(m.outcome, SessionOutcome::Completed);
    assert_eq!(copy.tool_breakdown.get("shell"), Some(1));
    assert_eq!(copy.custom, m.custom);
    assert_eq!(copy.turns.len(), 1);
}

#[test]
fn observer_accumulates_every_turn_end() {
    let mut m = session();
    let mut pending = None;
    for _ in 0..4 {
        assert_eq!(handle_message(&mut m, &mut pending, ObserverMsg::TurnEnd(ctx())), ObserverStep::Continue);
    }
    assert_eq!(m.total_turns, 4);
    assert_eq!(m.turns.len(), 4);
    assert_eq!(m.total_input_tokens, 20);
    assert_eq!(m.tool_breakdown.get("shell"), Some(4));
    assert_eq!(m.model, "gpt-4o");
}
