//! What holds of a session accumulator across calls: its aggregates are the
//! aggregates of its turns, and its percentiles are ordered.

use vstd::prelude::*;

use crate::percentile::{ascending, lemma_ascending_total, percentile_index, sorted_ascending};
use crate::clock::utc_rfc3339_shape;
use crate::collector::{
    ObserverStep, TurnContext, built_from, can_take, completion_tokens_of, prompt_tokens_of, reported_in,
    same_but_custom, turn_end_step,
};
use crate::session::{
    FailRate, SessionMetrics, count_in, has_named, is_most_used, names_of, percentiles_hold,
    tally, turn_durations, turn_models,
};
use crate::types::{
    RunOutcome, TurnMetrics, TurnOutcome, USER_INPUT_MAX_CHARS, is_empty_object, truncated_chars,
    turn_outcome_for,
};

verus! {

broadcast use vstd::seq_lib::group_to_multiset_ensures, vstd::multiset::group_multiset_axioms;

/// The sum of `f` over the turns.
pub open spec fn sum_of(turns: Seq<TurnMetrics>, f: spec_fn(TurnMetrics) -> int) -> int
    decreases turns.len(),
{
    if turns.len() == 0 {
        0
    } else {
        sum_of(turns.drop_last(), f) + f(turns.last())
    }
}

/// The names of all tools the turns called, one per call, in turn order.
pub open spec fn all_tools(turns: Seq<TurnMetrics>) -> Seq<Seq<char>>
    decreases turns.len(),
{
    if turns.len() == 0 {
        Seq::empty()
    } else {
        all_tools(turns.drop_last()) + names_of(turns.last().tools_used@)
    }
}

/// 1 for an `Error` turn, 0 for any other.
pub open spec fn is_error(t: TurnMetrics) -> int {
    if t.outcome == TurnOutcome::Error {
        1
    } else {
        0
    }
}

/// Every aggregate of the session is the aggregate of its turns: the turn
/// count, every total, the error count, the per-tool call counts, the fail
/// rate, the average duration, the percentiles, and (once some turn names a
/// model) the most used model.
pub open spec fn aggregates_match_turns(m: SessionMetrics) -> bool {
    let turns = m.turns@;
    &&& m.total_turns == turns.len()
    &&& m.total_input_tokens == sum_of(turns, |t: TurnMetrics| t.input_tokens as int)
    &&& m.total_output_tokens == sum_of(turns, |t: TurnMetrics| t.output_tokens as int)
    &&& m.total_thinking_tokens == sum_of(turns, |t: TurnMetrics| t.thinking_tokens as int)
    &&& m.total_chars == sum_of(turns, |t: TurnMetrics| t.text_length as int)
    &&& m.total_duration_ms == sum_of(turns, |t: TurnMetrics| t.duration_ms as int)
    &&& m.total_llm_ms == sum_of(turns, |t: TurnMetrics| t.llm_duration_ms as int)
    &&& m.total_tool_ms == sum_of(turns, |t: TurnMetrics| t.tool_duration_ms as int)
    &&& m.total_tool_calls == sum_of(turns, |t: TurnMetrics| t.tool_call_count as int)
    &&& m.total_failed == sum_of(turns, |t: TurnMetrics| t.tool_failed as int)
    &&& m.error_count == sum_of(turns, |t: TurnMetrics| is_error(t))
    &&& m.total_plan_updates == sum_of(turns, |t: TurnMetrics| t.plan_updates as int)
    &&& m.total_approvals == sum_of(turns, |t: TurnMetrics| t.approval_count as int)
    &&& forall|k: Seq<char>| #[trigger]
        m.tool_breakdown@.contains_key(k) <==> all_tools(turns).contains(k)
    &&& forall|k: Seq<char>| #[trigger]
        m.tool_breakdown@.contains_key(k) ==> m.tool_breakdown@[k] == tally(all_tools(turns), k)
    &&& m.tool_fail_rate == (if m.total_tool_calls > 0 {
        FailRate { failed: m.total_failed, calls: m.total_tool_calls }
    } else {
        FailRate { failed: 0, calls: 0 }
    })
    &&& m.avg_turn_ms == (if m.total_turns > 0 {
        m.total_duration_ms / (m.total_turns as u64)
    } else {
        0
    })
    &&& percentiles_hold(m)
    &&& has_named(turn_models(turns)) ==> is_most_used(turn_models(turns), m.model@)
}

/// A new session's aggregates are those of its (no) turns.
pub proof fn lemma_fresh_session_matches_turns(m: SessionMetrics)
    requires
        m.is_fresh(),
    ensures
        aggregates_match_turns(m),
{
    assert(m.turns@ =~= Seq::<TurnMetrics>::empty());
    assert(turn_durations(m.turns@) =~= Seq::<u64>::empty());
    assert(turn_models(m.turns@) =~= Seq::<Seq<char>>::empty());
    let d = turn_durations(m.turns@);
    assert(sorted_ascending(d).len() == 0) by {
        lemma_ascending_total();
        d.lemma_sort_by_ensures(ascending());
        assert(sorted_ascending(d).to_multiset().len() == d.to_multiset().len());
    }
}

/// Appending a turn keeps every aggregate the aggregate of the turns.
pub proof fn lemma_append_keeps_aggregates(before: SessionMetrics, after: SessionMetrics, turn: TurnMetrics)
    requires
        aggregates_match_turns(before),
        after.is_append_of(before, turn),
    ensures
        aggregates_match_turns(after),
{
    let s = before.turns@;
    let u = after.turns@;
    assert(u.drop_last() =~= s);
    assert(u.last() == turn);
    assert(turn_models(u) =~= turn_models(s).push(turn.model@));
    let names = names_of(turn.tools_used@);
    assert(all_tools(u) == all_tools(s) + names);
    assert forall|k: Seq<char>| #[trigger] after.tool_breakdown@.contains_key(k) <==> all_tools(u).contains(
        k,
    ) by {
        if all_tools(u).contains(k) {
            let i = choose|i: int| 0 <= i < all_tools(u).len() && all_tools(u)[i] == k;
            if i < all_tools(s).len() {
                assert(all_tools(s)[i] == k);
            } else {
                assert(names[i - all_tools(s).len()] == k);
            }
        }
        if all_tools(s).contains(k) {
            let i = choose|i: int| 0 <= i < all_tools(s).len() && all_tools(s)[i] == k;
            assert(all_tools(u)[i] == k);
        }
        if names.contains(k) {
            let i = choose|i: int| 0 <= i < names.len() && names[i] == k;
            assert(all_tools(u)[all_tools(s).len() + i] == k);
        }
    }
    assert forall|k: Seq<char>| #[trigger] after.tool_breakdown@.contains_key(k) implies after.tool_breakdown@[k]
        == tally(all_tools(u), k) by {
        vstd::seq_lib::lemma_multiset_commutative(all_tools(s), names);
        if !before.tool_breakdown@.contains_key(k) {
            assert(count_in(before.tool_breakdown@, k) == 0);
            assert(tally(all_tools(s), k) == 0);
        }
    }
}

/// Finalizing keeps every aggregate the aggregate of the turns.
pub proof fn lemma_finalize_keeps_aggregates(
    before: SessionMetrics,
    after: SessionMetrics,
    outcome: crate::types::SessionOutcome,
)
    requires
        aggregates_match_turns(before),
        after.outcome == outcome,
        percentiles_hold(after),
        after.unchanged_but_percentiles((SessionMetrics { outcome, ..before })),
    ensures
        aggregates_match_turns(after),
{
}

/// Merging session-level custom data keeps every aggregate the aggregate of
/// the turns.
pub proof fn lemma_custom_merge_keeps_aggregates(before: SessionMetrics, after: SessionMetrics)
    requires
        aggregates_match_turns(before),
        same_but_custom(after, before),
    ensures
        aggregates_match_turns(after),
{
}

/// `s` is what observing the turns reported in `ctxs` makes of the new
/// session `s0`: one turn per context, in order, each built from its context
/// with an RFC 3339 start time; every aggregate is the aggregate of those
/// turns; and the identity, outcome and custom data are still `s0`'s.
pub open spec fn observed_from(s0: SessionMetrics, s: SessionMetrics, ctxs: Seq<TurnContext>) -> bool {
    &&& s.turns@.len() == ctxs.len()
    &&& forall|i: int| 0 <= i < ctxs.len() ==> #[trigger] built_from(s.turns@[i], ctxs[i])
    &&& forall|i: int| 0 <= i < ctxs.len() ==> utc_rfc3339_shape(#[trigger] s.turns@[i].started_at@)
    &&& aggregates_match_turns(s)
    &&& s.session_id == s0.session_id
    &&& s.node_id == s0.node_id
    &&& s.created_at == s0.created_at
    &&& s.estimated_cost_bits == s0.estimated_cost_bits
    &&& s.outcome == s0.outcome
    &&& s.custom == s0.custom
    &&& s.parent_session_id == s0.parent_session_id
    &&& s.session_type == s0.session_type
}

proof fn lemma_turn_ends_prefix(
    sessions: Seq<SessionMetrics>,
    ctxs: Seq<TurnContext>,
    steps: Seq<ObserverStep>,
    n: int,
)
    requires
        sessions.len() == ctxs.len() + 1,
        steps.len() == ctxs.len(),
        sessions[0].is_fresh(),
        forall|i: int|
            0 <= i < ctxs.len() ==> #[trigger] turn_end_step(
                sessions[i],
                sessions[i + 1],
                ctxs[i],
                None,
                None,
                steps[i],
            ),
        forall|i: int| 0 <= i < ctxs.len() ==> #[trigger] can_take(sessions[i], ctxs[i]),
        0 <= n <= ctxs.len(),
    ensures
        observed_from(sessions[0], sessions[n], ctxs.take(n)),
    decreases n,
{
    if n == 0 {
        lemma_fresh_session_matches_turns(sessions[0]);
        assert(sessions[0].turns@.len() == 0);
    } else {
        let m = n - 1;
        lemma_turn_ends_prefix(sessions, ctxs, steps, m);
        assert(turn_end_step(sessions[m], sessions[m + 1], ctxs[m], None, None, steps[m]));
        assert(m + 1 == n);
        let before = sessions[m];
        let after = sessions[n];
        assert(can_take(before, ctxs[m]));
        let turn = after.turns@.last();
        lemma_append_keeps_aggregates(before, after, turn);
        assert(after.turns@ == before.turns@.push(turn));
        assert(is_empty_object(turn.custom));
        let prefix = ctxs.take(n);
        assert forall|i: int| 0 <= i < prefix.len() implies #[trigger] built_from(after.turns@[i], prefix[i])
            && utc_rfc3339_shape(after.turns@[i].started_at@) by {
            if i < m {
                assert(after.turns@[i] == before.turns@[i]);
                assert(prefix[i] == ctxs.take(m)[i]);
                assert(built_from(before.turns@[i], ctxs.take(m)[i]));
                assert(utc_rfc3339_shape(before.turns@[i].started_at@));
            } else {
                assert(after.turns@[i] == turn);
                assert(prefix[i] == ctxs[m]);
            }
        }
    }
}

/// Observer law: from a new session, turn-end messages for `ctxs`, in order
/// and with no pending custom data, each of which the session can take, are
/// all `Continue` and leave the session holding exactly those turns, each
/// built from its context, with every aggregate the aggregate of the turns;
/// each step is the append of its turn to the session before it.
pub proof fn lemma_turn_ends_accumulate(
    sessions: Seq<SessionMetrics>,
    ctxs: Seq<TurnContext>,
    steps: Seq<ObserverStep>,
)
    requires
        sessions.len() == ctxs.len() + 1,
        steps.len() == ctxs.len(),
        sessions[0].is_fresh(),
        forall|i: int|
            0 <= i < ctxs.len() ==> #[trigger] turn_end_step(
                sessions[i],
                sessions[i + 1],
                ctxs[i],
                None,
                None,
                steps[i],
            ),
        forall|i: int| 0 <= i < ctxs.len() ==> #[trigger] can_take(sessions[i], ctxs[i]),
    ensures
        forall|i: int| 0 <= i < ctxs.len() ==> #[trigger] steps[i] == ObserverStep::Continue,
        forall|i: int|
            0 <= i < ctxs.len() ==> #[trigger] sessions[i + 1].is_append_of(
                sessions[i],
                sessions.last().turns@[i],
            ),
        observed_from(sessions[0], sessions.last(), ctxs),
{
    let k = ctxs.len() as int;
    lemma_turn_ends_prefix(sessions, ctxs, steps, k);
    assert(ctxs.take(k) =~= ctxs);
    assert forall|i: int| 0 <= i < ctxs.len() implies #[trigger] steps[i] == ObserverStep::Continue by {
        assert(turn_end_step(sessions[i], sessions[i + 1], ctxs[i], None, None, steps[i]));
        assert(can_take(sessions[i], ctxs[i]));
    }
    assert forall|i: int| 0 <= i < ctxs.len() implies #[trigger] sessions[i + 1].is_append_of(
        sessions[i],
        sessions.last().turns@[i],
    ) by {
        assert(turn_end_step(sessions[i], sessions[i + 1], ctxs[i], None, None, steps[i]));
        assert(can_take(sessions[i], ctxs[i]));
        lemma_turn_ends_prefix(sessions, ctxs, steps, i + 1);
        lemma_turn_ends_turns_prefix(sessions, ctxs, steps, i + 1, k);
        assert(sessions[i + 1].turns@.last() == sessions[i + 1].turns@[i]);
    }
}

proof fn lemma_turn_ends_turns_prefix(
    sessions: Seq<SessionMetrics>,
    ctxs: Seq<TurnContext>,
    steps: Seq<ObserverStep>,
    n: int,
    k: int,
)
    requires
        sessions.len() == ctxs.len() + 1,
        steps.len() == ctxs.len(),
        forall|i: int|
            0 <= i < ctxs.len() ==> #[trigger] turn_end_step(
                sessions[i],
                sessions[i + 1],
                ctxs[i],
                None,
                None,
                steps[i],
            ),
        forall|i: int| 0 <= i < ctxs.len() ==> #[trigger] can_take(sessions[i], ctxs[i]),
        0 <= n <= k <= ctxs.len(),
    ensures
        sessions[k].turns@.len() == sessions[n].turns@.len() + (k - n),
        forall|i: int| 0 <= i < sessions[n].turns@.len() ==> #[trigger] sessions[k].turns@[i] == sessions[n].turns@[i],
    decreases k - n,
{
    if n < k {
        lemma_turn_ends_turns_prefix(sessions, ctxs, steps, n + 1, k);
        assert(turn_end_step(sessions[n], sessions[n + 1], ctxs[n], None, None, steps[n]));
        assert(can_take(sessions[n], ctxs[n]));
        let turn = sessions[n + 1].turns@.last();
        assert(sessions[n + 1].turns@ == sessions[n].turns@.push(turn));
        assert forall|i: int| 0 <= i < sessions[n].turns@.len() implies #[trigger] sessions[k].turns@[i]
            == sessions[n].turns@[i] by {
            assert(sessions[n + 1].turns@[i] == sessions[n].turns@[i]);
        }
    }
}

/// Rank law: for a percentile `p` of at most 100, the rank picked among `n`
/// sorted values is `p/100 * (n - 1)` rounded to the nearest integer, halves
/// up: the integer `r` with `r - 1/2 <= p(n-1)/100 < r + 1/2`.
pub proof fn lemma_percentile_rank_nearest(n: nat, p: nat)
    requires
        n > 0,
        p <= 100,
    ensures
        200 * percentile_index(n, p) <= 2 * p * (n - 1) + 100,
        2 * p * (n - 1) + 100 < 200 * percentile_index(n, p) + 200,
{
    let m: int = n - 1;
    let x: int = 2 * p * m + 100;
    assert(2 * p * m <= 200 * m) by (nonlinear_arith)
        requires
            p <= 100,
            m >= 0,
    ;
    assert(x / 200 <= m);
    assert(200 * (x / 200) <= x && x < 200 * (x / 200) + 200);
}

/// Percentile law: P50, P95 and P99 are the turn durations at their nearest
/// ranks once the durations are put in ascending order, whichever ascending
/// arrangement `t` of them is taken; with no turns all three are 0.
pub proof fn lemma_percentiles_at_ranks(m: SessionMetrics, t: Seq<u64>)
    requires
        percentiles_hold(m),
        t.to_multiset() == m.turns@.map_values(|x: TurnMetrics| x.duration_ms).to_multiset(),
        forall|i: int, j: int| 0 <= i < j < t.len() ==> t[i] <= t[j],
    ensures
        t.len() == m.turns@.len(),
        t.len() == 0 ==> m.p50_turn_ms == 0 && m.p95_turn_ms == 0 && m.p99_turn_ms == 0,
        t.len() > 0 ==> {
            &&& m.p50_turn_ms == t[percentile_index(t.len(), 50) as int]
            &&& m.p95_turn_ms == t[percentile_index(t.len(), 95) as int]
            &&& m.p99_turn_ms == t[percentile_index(t.len(), 99) as int]
        },
{
    let d = turn_durations(m.turns@);
    assert(d =~= m.turns@.map_values(|x: TurnMetrics| x.duration_ms));
    lemma_ascending_total();
    d.lemma_sort_by_ensures(ascending());
    let sorted = sorted_ascending(d);
    assert(vstd::relations::sorted_by(t, ascending())) by {
        assert forall|i: int, j: int| 0 <= i < j < t.len() implies ascending()(t[i], t[j]) by {
            assert(t[i] <= t[j]);
        }
    }
    vstd::seq_lib::lemma_sorted_unique(t, sorted, ascending());
    assert(t.len() == d.len()) by {
        assert(t.to_multiset().len() == d.to_multiset().len());
    }
}

/// The percentile ranks grow with the percentile.
pub proof fn lemma_percentile_index_monotonic(n: nat, p: nat, q: nat)
    requires
        n > 0,
        p <= q,
    ensures
        percentile_index(n, p) <= percentile_index(n, q),
        percentile_index(n, q) < n,
{
    let m: int = n - 1;
    assert(2 * p * m <= 2 * q * m) by (nonlinear_arith)
        requires
            p <= q,
            m >= 0,
    ;
    assert((2 * p * m + 100) / 200 <= (2 * q * m + 100) / 200) by (nonlinear_arith)
        requires
            2 * p * m <= 2 * q * m,
    ;
}

/// Wherever the percentiles hold, P50 <= P95 <= P99, and each is 0 or the
/// duration of some turn.
pub proof fn lemma_percentiles_ordered(m: SessionMetrics)
    requires
        percentiles_hold(m),
    ensures
        m.p50_turn_ms <= m.p95_turn_ms <= m.p99_turn_ms,
        m.turns@.len() == 0 ==> m.p50_turn_ms == 0 && m.p95_turn_ms == 0 && m.p99_turn_ms == 0,
        m.turns@.len() > 0 ==> turn_durations(m.turns@).contains(m.p50_turn_ms)
            && turn_durations(m.turns@).contains(m.p95_turn_ms)
            && turn_durations(m.turns@).contains(m.p99_turn_ms),
{
    let d = turn_durations(m.turns@);
    let sorted = sorted_ascending(d);
    lemma_ascending_total();
    d.lemma_sort_by_ensures(ascending());
    let n = sorted.len();
    assert(n == d.len()) by {
        assert(sorted.to_multiset().len() == d.to_multiset().len());
    }
    if n > 0 {
        lemma_percentile_index_monotonic(n, 50, 95);
        lemma_percentile_index_monotonic(n, 95, 99);
        let i50 = percentile_index(n, 50) as int;
        let i95 = percentile_index(n, 95) as int;
        let i99 = percentile_index(n, 99) as int;
        if i50 < i95 {
            assert(ascending()(sorted[i50], sorted[i95]));
        }
        if i95 < i99 {
            assert(ascending()(sorted[i95], sorted[i99]));
        }
        assert(sorted.to_multiset().count(sorted[i50]) > 0);
        assert(sorted.to_multiset().count(sorted[i95]) > 0);
        assert(sorted.to_multiset().count(sorted[i99]) > 0);
    }
}

/// How many times `x` occurs in `s`, counted one element at a time.
pub open spec fn occurrences(s: Seq<Seq<char>>, x: Seq<char>) -> nat
    decreases s.len(),
{
    if s.len() == 0 {
        0
    } else {
        occurrences(s.drop_last(), x) + (if s.last() == x {
            1nat
        } else {
            0nat
        })
    }
}

/// Counting occurrences one by one agrees with the multiset count.
pub proof fn lemma_occurrences_is_count(s: Seq<Seq<char>>, x: Seq<char>)
    ensures
        occurrences(s, x) == s.to_multiset().count(x),
    decreases s.len(),
{
    if s.len() > 0 {
        lemma_occurrences_is_count(s.drop_last(), x);
        assert(s.drop_last().push(s.last()) =~= s);
    } else {
        assert(s.to_multiset().len() == 0);
    }
}

/// Model law: after a turn is appended, when some turn names a model, the
/// session's model is a non-empty model of one of its turns, and no other
/// non-empty model occurs among the turns' models more often than it does;
/// when no turn names a model, the session's model is left as it was.
pub proof fn lemma_append_keeps_most_frequent_model(
    before: SessionMetrics,
    after: SessionMetrics,
    turn: TurnMetrics,
)
    requires
        after.is_append_of(before, turn),
    ensures
        (exists|i: int| 0 <= i < after.turns@.len() && #[trigger] after.turns@[i].model@.len() > 0) ==> {
            &&& after.model@.len() > 0
            &&& exists|i: int| 0 <= i < after.turns@.len() && #[trigger] after.turns@[i].model@ == after.model@
            &&& forall|x: Seq<char>|
                x.len() > 0 ==> #[trigger] occurrences(turn_models(after.turns@), x) <= occurrences(
                    turn_models(after.turns@),
                    after.model@,
                )
        },
        !(exists|i: int| 0 <= i < after.turns@.len() && #[trigger] after.turns@[i].model@.len() > 0)
            ==> after.model == before.model,
{
    let models = turn_models(after.turns@);
    assert(models =~= turn_models(before.turns@).push(turn.model@));
    if exists|i: int| 0 <= i < after.turns@.len() && #[trigger] after.turns@[i].model@.len() > 0 {
        let i = choose|i: int| 0 <= i < after.turns@.len() && #[trigger] after.turns@[i].model@.len() > 0;
        assert(models[i].len() > 0);
        assert(has_named(models));
        assert(is_most_used(models, after.model@));
        let j = choose|j: int| 0 <= j < models.len() && models[j] == after.model@;
        assert(after.turns@[j].model@ == after.model@);
        assert forall|x: Seq<char>| x.len() > 0 implies #[trigger] occurrences(models, x) <= occurrences(
            models,
            after.model@,
        ) by {
            lemma_occurrences_is_count(models, x);
            lemma_occurrences_is_count(models, after.model@);
            assert(tally(models, x) <= tally(models, after.model@));
        }
    } else {
        assert forall|i: int| 0 <= i < models.len() implies models[i].len() == 0 by {
            assert(after.turns@[i].model@ == models[i]);
        }
    }
}

/// The session's totals and per-tool counts all stay within their integer
/// types when the turn that `ctx` reports is added to `s`.
pub open spec fn totals_fit(s: SessionMetrics, ctx: TurnContext) -> bool {
    &&& s.total_turns < u32::MAX
    &&& s.turns@.len() < usize::MAX
    &&& s.total_input_tokens + prompt_tokens_of(ctx.usage) <= u64::MAX
    &&& s.total_output_tokens + completion_tokens_of(ctx.usage) <= u64::MAX
    &&& s.total_chars + ctx.full_text_len <= u64::MAX
    &&& s.total_duration_ms + ctx.duration_ms <= u64::MAX
    &&& s.total_llm_ms + ctx.llm_duration_ms <= u64::MAX
    &&& s.total_tool_ms + ctx.tool_duration_ms <= u64::MAX
    &&& s.total_tool_calls + ctx.tool_call_count <= u32::MAX
    &&& s.total_failed + ctx.tool_failed <= u32::MAX
    &&& ctx.outcome is Failed ==> s.error_count < u32::MAX
    &&& s.total_plan_updates + ctx.plan_updates <= u32::MAX
    &&& s.total_approvals + ctx.approval_count <= u32::MAX
    &&& forall|k: Seq<char>| #[trigger]
        count_in(s.tool_breakdown@, k) + occurrences(names_of(ctx.tools_used@), k) <= u32::MAX
}

/// Turn-end law: a turn-end step continues, and accumulates the turn,
/// exactly when no session total and no per-tool count would leave its
/// integer type; then the session has one more turn, and each tool's count
/// grows by the number of times the turn used it.
pub proof fn lemma_turn_end_continues_when_totals_fit(
    before: SessionMetrics,
    after: SessionMetrics,
    ctx: TurnContext,
    pending_before: Option<crate::json::JsonValue>,
    pending_after: Option<crate::json::JsonValue>,
    res: ObserverStep,
)
    requires
        turn_end_step(before, after, ctx, pending_before, pending_after, res),
    ensures
        res == ObserverStep::Continue <==> totals_fit(before, ctx),
        res != ObserverStep::Continue ==> res == ObserverStep::Overflow && after == before,
        res == ObserverStep::Continue ==> {
            &&& after.turns@.len() == before.turns@.len() + 1
            &&& after.total_turns == before.total_turns + 1
            &&& forall|k: Seq<char>| #[trigger]
                count_in(after.tool_breakdown@, k) == count_in(before.tool_breakdown@, k)
                    + occurrences(names_of(ctx.tools_used@), k)
        },
{
    let names = names_of(ctx.tools_used@);
    if totals_fit(before, ctx) {
        assert forall|t: TurnMetrics| reported_in(t, ctx) implies #[trigger] before.appendable(t) by {
            assert(names_of(t.tools_used@) == names);
            assert forall|k: Seq<char>| #[trigger]
                count_in(before.tool_breakdown@, k) + tally(names_of(t.tools_used@), k) <= u32::MAX by {
                lemma_occurrences_is_count(names, k);
                assert(count_in(before.tool_breakdown@, k) + occurrences(names, k) <= u32::MAX);
            }
        }
        assert(can_take(before, ctx));
    }
    if res == ObserverStep::Continue {
        let turn = after.turns@.last();
        assert(reported_in(turn, ctx));
        assert(before.appendable(turn));
        assert(names_of(turn.tools_used@) == names);
        assert forall|k: Seq<char>| #[trigger]
            count_in(before.tool_breakdown@, k) + occurrences(names, k) <= u32::MAX by {
            lemma_occurrences_is_count(names, k);
            assert(count_in(before.tool_breakdown@, k) + tally(names_of(turn.tools_used@), k) <= u32::MAX);
        }
        assert(totals_fit(before, ctx));
        assert forall|k: Seq<char>| #[trigger] count_in(after.tool_breakdown@, k) == count_in(
            before.tool_breakdown@,
            k,
        ) + occurrences(names, k) by {
            lemma_occurrences_is_count(names, k);
            if !after.tool_breakdown@.contains_key(k) {
                assert(!names.contains(k));
                assert(tally(names, k) == 0);
            }
        }
    }
}

/// Outcome law: a turn built from a failed run is an `Error` turn, from a
/// cancelled run a `Cancelled` one, from a run past its turn limit a
/// `MaxTurns` one and from a continuing run a `Completed` one, whatever
/// tools it used; only a completed run depends on the tools: `ToolCalls`
/// when it used some, `Completed` when it used none.
pub proof fn lemma_turn_outcome_follows_run(t: TurnMetrics, ctx: TurnContext)
    requires
        reported_in(t, ctx),
    ensures
        ctx.outcome is Failed ==> t.outcome == TurnOutcome::Error,
        ctx.outcome is Cancelled ==> t.outcome == TurnOutcome::Cancelled,
        ctx.outcome is MaxTurnsExceeded ==> t.outcome == TurnOutcome::MaxTurns,
        ctx.outcome is Continuing ==> t.outcome == TurnOutcome::Completed,
        ctx.outcome is Completed && ctx.tools_used@.len() > 0 ==> t.outcome == TurnOutcome::ToolCalls,
        ctx.outcome is Completed && ctx.tools_used@.len() == 0 ==> t.outcome == TurnOutcome::Completed,
        t.outcome == TurnOutcome::Error <==> ctx.outcome is Failed,
{
}

/// The classification does not look at the tools for any run outcome but
/// `Completed`: with tools or without, the turn outcome is the same.
pub proof fn lemma_turn_outcome_ignores_tools_unless_completed(outcome: RunOutcome)
    requires
        !(outcome is Completed),
    ensures
        turn_outcome_for(outcome, true) == turn_outcome_for(outcome, false),
        turn_outcome_for(outcome, true) != TurnOutcome::ToolCalls,
{
}

/// A session that takes a turn from a failed run counts one more error; a
/// turn from any other run leaves the error count as it was.
pub proof fn lemma_failed_run_counts_error(
    before: SessionMetrics,
    after: SessionMetrics,
    t: TurnMetrics,
    ctx: TurnContext,
)
    requires
        reported_in(t, ctx),
        after.is_append_of(before, t),
    ensures
        ctx.outcome is Failed ==> after.error_count == before.error_count + 1,
        !(ctx.outcome is Failed) ==> after.error_count == before.error_count,
{
}

/// Token law: a built turn's input tokens are the usage report's prompt
/// tokens and its output tokens the report's completion tokens, each 0 when
/// the report or the count is absent, whatever the report's total and
/// reasoning counts are.
pub proof fn lemma_turn_tokens_from_usage(t: TurnMetrics, ctx: TurnContext)
    requires
        reported_in(t, ctx),
    ensures
        ctx.usage is None ==> t.input_tokens == 0 && t.output_tokens == 0,
        ctx.usage is Some && ctx.usage->0.prompt_tokens is Some ==> t.input_tokens
            == ctx.usage->0.prompt_tokens->0,
        ctx.usage is Some && ctx.usage->0.prompt_tokens is None ==> t.input_tokens == 0,
        ctx.usage is Some && ctx.usage->0.completion_tokens is Some ==> t.output_tokens
            == ctx.usage->0.completion_tokens->0,
        ctx.usage is Some && ctx.usage->0.completion_tokens is None ==> t.output_tokens == 0,
{
}

/// Two turns built from reports that agree on the prompt and completion
/// counts have the same input and output tokens, however their total and
/// reasoning counts differ.
pub proof fn lemma_turn_tokens_ignore_other_counts(
    t1: TurnMetrics,
    c1: TurnContext,
    t2: TurnMetrics,
    c2: TurnContext,
)
    requires
        reported_in(t1, c1),
        reported_in(t2, c2),
        c1.usage is Some,
        c2.usage is Some,
        c1.usage->0.prompt_tokens == c2.usage->0.prompt_tokens,
        c1.usage->0.completion_tokens == c2.usage->0.completion_tokens,
    ensures
        t1.input_tokens == t2.input_tokens,
        t1.output_tokens == t2.output_tokens,
{
}

/// Truncation law, by character count: a string of at most `max_chars`
/// characters is kept as it is; a longer one keeps its first `max_chars`
/// characters and gets "..." after them.
pub proof fn lemma_truncation_by_char_count(s: Seq<char>, max_chars: nat)
    ensures
        s.len() <= max_chars ==> truncated_chars(s, max_chars) == s,
        s.len() > max_chars ==> {
            &&& truncated_chars(s, max_chars).len() == max_chars + 3
            &&& truncated_chars(s, max_chars).take(max_chars as int) == s.take(max_chars as int)
            &&& truncated_chars(s, max_chars).skip(max_chars as int) == seq!['.', '.', '.']
        },
{
    if s.len() > max_chars {
        let r = truncated_chars(s, max_chars);
        assert(r.take(max_chars as int) =~= s.take(max_chars as int));
        assert(r.skip(max_chars as int) =~= seq!['.', '.', '.']);
    }
}

/// A turn keeps the user's input as it is when it has at most 80
/// characters, and otherwise keeps its first 80 characters followed by
/// "...".
pub proof fn lemma_turn_input_by_char_count(t: TurnMetrics, ctx: TurnContext)
    requires
        reported_in(t, ctx),
    ensures
        ctx.user_input@.len() <= USER_INPUT_MAX_CHARS ==> t.user_input@ == ctx.user_input@,
        ctx.user_input@.len() > USER_INPUT_MAX_CHARS ==> t.user_input@ == ctx.user_input@.take(
            USER_INPUT_MAX_CHARS as int,
        ) + seq!['.', '.', '.'],
{
    lemma_truncation_by_char_count(ctx.user_input@, USER_INPUT_MAX_CHARS as nat);
}

} // verus!
