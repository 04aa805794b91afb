//! Session-level metrics: the accumulator that every finished turn updates.

use vstd::prelude::*;

use crate::clock::{current_time_rfc3339, utc_rfc3339_shape};
use crate::json::{JsonObject, JsonValue, copy_json, json_same};
use crate::keyed::{entries_map, find_key, keys_unique, lemma_entries_map, lemma_len_is_dom_len, put_entry};
use crate::text::str_equal;
use crate::percentile::{percentile_from_sorted, percentile_of, sort_ascending, sorted_ascending};
use crate::types::{SessionOutcome, TurnMetrics, TurnOutcome, default_session_type, turn_same};

verus! {

broadcast use vstd::seq_lib::group_to_multiset_ensures, vstd::multiset::group_multiset_axioms;

/// How often each tool was called, by tool name.
#[derive(Debug)]
pub struct ToolBreakdown {
    counts: Vec<(String, u32)>,
}

/// The count a breakdown holds for `name`, 0 when it holds none.
pub open spec fn count_in(m: Map<Seq<char>, u32>, name: Seq<char>) -> int {
    if m.contains_key(name) {
        m[name] as int
    } else {
        0
    }
}

impl View for ToolBreakdown {
    type V = Map<Seq<char>, u32>;

    closed spec fn view(&self) -> Map<Seq<char>, u32> {
        entries_map(self.counts@)
    }
}

impl ToolBreakdown {
    #[verifier::type_invariant]
    spec fn unique_names(self) -> bool {
        keys_unique(self.counts@)
    }

    /// A breakdown with no tool in it.
    pub fn new() -> (res: ToolBreakdown)
        ensures
            res@ == Map::<Seq<char>, u32>::empty(),
    {
        ToolBreakdown { counts: Vec::new() }
    }

    /// The number of distinct tools.
    pub fn len(&self) -> (res: usize)
        ensures
            res == self@.dom().len(),
            self@.dom().finite(),
    {
        proof {
            use_type_invariant(self);
            lemma_len_is_dom_len(self.counts@);
        }
        self.counts.len()
    }

    /// The count for `name`, if the tool was ever called.
    pub fn get(&self, name: &str) -> (res: Option<u32>)
        ensures
            res == (if self@.contains_key(name@) {
                Some(self@[name@])
            } else {
                None
            }),
    {
        proof {
            use_type_invariant(self);
            lemma_entries_map(self.counts@);
        }
        match find_key(&self.counts, name) {
            Some(i) => Some(self.counts[i].1),
            None => None,
        }
    }

    /// Set the count for `name`.
    pub fn set(&mut self, name: String, count: u32)
        ensures
            final(self)@ == old(self)@.insert(name@, count),
    {
        proof {
            use_type_invariant(&*self);
        }
        let mut counts: Vec<(String, u32)> = Vec::new();
        std::mem::swap(&mut counts, &mut self.counts);
        put_entry(&mut counts, name, count);
        self.counts = counts;
    }

    /// Count one more call of `name`.
    pub fn record(&mut self, name: &str)
        requires
            count_in(old(self)@, name@) < u32::MAX,
        ensures
            final(self)@ == old(self)@.insert(name@, (count_in(old(self)@, name@) + 1) as u32),
    {
        let current = match self.get(name) {
            Some(c) => c,
            None => 0,
        };
        self.set(String::from_str(name), current + 1);
    }

    /// The `(tool name, count)` entries, each name once.
    pub fn entries(&self) -> (res: &Vec<(String, u32)>)
        ensures
            keys_unique(res@),
            entries_map(res@) == self@,
    {
        proof {
            use_type_invariant(self);
        }
        &self.counts
    }
}

impl Clone for ToolBreakdown {
    /// A copy with the same counts.
    fn clone(&self) -> (res: Self)
        ensures
            res@ == self@,
    {
        proof {
            use_type_invariant(self);
        }
        let mut counts: Vec<(String, u32)> = Vec::new();
        let mut i: usize = 0;
        while i < self.counts.len()
            invariant
                i <= self.counts@.len(),
                counts@ == self.counts@.take(i as int),
            decreases self.counts.len() - i,
        {
            counts.push((self.counts[i].0.clone(), self.counts[i].1));
            proof {
                assert(self.counts@.take(i + 1) =~= self.counts@.take(i as int).push(self.counts@[i as int]));
            }
            i = i + 1;
        }
        proof {
            assert(self.counts@.take(self.counts@.len() as int) =~= self.counts@);
        }
        ToolBreakdown { counts }
    }
}

/// A tool failure rate kept as the ratio it is computed from: `failed` out
/// of `calls`, read as 0 while `calls` is 0.
#[derive(Clone, Copy, Debug, PartialEq, Eq, Structural)]
pub struct FailRate {
    pub failed: u32,
    pub calls: u32,
}

/// Accumulated session metrics, updated at the end of each turn.
#[derive(Debug)]
pub struct SessionMetrics {
    // Identity
    pub session_id: String,
    pub node_id: String,
    /// Creation time, RFC 3339.
    pub created_at: String,
    // LLM summary
    pub model: String,
    pub total_input_tokens: u64,
    pub total_output_tokens: u64,
    pub total_thinking_tokens: u64,
    /// The estimated cost, as the bit pattern of a 64-bit IEEE float; the
    /// library carries it and never computes with it.
    pub estimated_cost_bits: u64,
    // Characters (always available, even without API token support)
    pub total_chars: u64,
    // Tool summary
    pub total_tool_calls: u32,
    pub tool_breakdown: ToolBreakdown,
    pub tool_fail_rate: FailRate,
    /// Running total of failed tool calls.
    pub total_failed: u32,
    // Timing
    pub total_duration_ms: u64,
    pub total_llm_ms: u64,
    pub total_tool_ms: u64,
    pub total_turns: u32,
    pub avg_turn_ms: u64,
    pub p50_turn_ms: u64,
    pub p95_turn_ms: u64,
    pub p99_turn_ms: u64,
    // Outcome
    pub outcome: SessionOutcome,
    pub error_count: u32,
    // Meta events
    pub total_plan_updates: u32,
    pub total_approvals: u32,
    /// Business extension.
    pub custom: JsonValue,
    /// Parent session, for sessions that other sessions spawn.
    pub parent_session_id: Option<String>,
    pub session_type: String,
    /// Per-turn details.
    pub turns: Vec<TurnMetrics>,
}

/// The character sequences of a list of names.
pub open spec fn names_of(v: Seq<String>) -> Seq<Seq<char>> {
    v.map_values(|s: String| s@)
}

/// The models of the turns, in turn order.
pub open spec fn turn_models(turns: Seq<TurnMetrics>) -> Seq<Seq<char>> {
    turns.map_values(|t: TurnMetrics| t.model@)
}

/// How many times `name` occurs among `names`.
pub open spec fn tally(names: Seq<Seq<char>>, name: Seq<char>) -> nat {
    names.to_multiset().count(name)
}

/// `after` is `before` with each of `names` counted once more.
pub open spec fn breakdown_added(
    before: Map<Seq<char>, u32>,
    after: Map<Seq<char>, u32>,
    names: Seq<Seq<char>>,
) -> bool {
    &&& forall|k: Seq<char>| #[trigger]
        after.contains_key(k) <==> (before.contains_key(k) || names.contains(k))
    &&& forall|k: Seq<char>| #[trigger]
        after.contains_key(k) ==> after[k] == count_in(before, k) + tally(names, k)
}

/// Some name in `names` is not empty.
pub open spec fn has_named(names: Seq<Seq<char>>) -> bool {
    exists|i: int| 0 <= i < names.len() && names[i].len() > 0
}

/// `m` is a non-empty name of `names` that occurs at least as often as every
/// other non-empty name.
pub open spec fn is_most_used(names: Seq<Seq<char>>, m: Seq<char>) -> bool {
    &&& m.len() > 0
    &&& names.contains(m)
    &&& forall|x: Seq<char>| x.len() > 0 ==> #[trigger] tally(names, x) <= tally(names, m)
}

proof fn lemma_tally_prefix(names: Seq<Seq<char>>, i: int, k: Seq<char>)
    requires
        0 <= i <= names.len(),
    ensures
        tally(names.take(i), k) <= tally(names, k),
{
    vstd::seq_lib::lemma_multiset_commutative(names.take(i), names.skip(i));
    assert(names.take(i) + names.skip(i) =~= names);
}

proof fn lemma_tally_push(names: Seq<Seq<char>>, x: Seq<char>, k: Seq<char>)
    ensures
        tally(names.push(x), k) == tally(names, k) + (if k == x { 1nat } else { 0nat }),
        names.push(x).contains(k) <==> (names.contains(k) || k == x),
{
    assert(names.push(x)[names.len() as int] == x);
    if names.contains(k) {
        let i = choose|i: int| 0 <= i < names.len() && names[i] == k;
        assert(names.push(x)[i] == k);
    }
    if names.push(x).contains(k) && k != x {
        let i = choose|i: int| 0 <= i < names.len() + 1 && names.push(x)[i] == k;
        assert(names[i] == k);
    }
}

/// Count each of `tools` once more in `breakdown`.
fn add_tool_calls(breakdown: &mut ToolBreakdown, tools: &Vec<String>)
    requires
        forall|k: Seq<char>| #[trigger]
            count_in(old(breakdown)@, k) + tally(names_of(tools@), k) <= u32::MAX,
    ensures
        breakdown_added(old(breakdown)@, final(breakdown)@, names_of(tools@)),
{
    let ghost start = breakdown@;
    let ghost names = names_of(tools@);
    let mut i: usize = 0;
    assert(names.take(0) =~= Seq::<Seq<char>>::empty());
    while i < tools.len()
        invariant
            i <= tools@.len(),
            names == names_of(tools@),
            forall|k: Seq<char>| #[trigger] count_in(start, k) + tally(names, k) <= u32::MAX,
            breakdown_added(start, breakdown@, names.take(i as int)),
        decreases tools.len() - i,
    {
        let ghost before = breakdown@;
        let ghost name = names[i as int];
        let ghost prefix = names.take(i as int);
        proof {
            assert(names.take(i + 1) =~= prefix.push(name));
            lemma_tally_push(prefix, name, name);
            lemma_tally_prefix(names, i + 1, name);
            assert(count_in(start, name) + tally(names, name) <= u32::MAX);
            assert(before.contains_key(name) ==> before[name] == count_in(start, name) + tally(prefix, name));
            if !before.contains_key(name) {
                assert(!prefix.contains(name));
                assert(tally(prefix, name) == 0);
            }
        }
        breakdown.record(tools[i].as_str());
        proof {
            assert forall|k: Seq<char>| #[trigger] breakdown@.contains_key(k) <==> (start.contains_key(k)
                || names.take(i + 1).contains(k)) by {
                lemma_tally_push(prefix, name, k);
            }
            assert forall|k: Seq<char>| #[trigger] breakdown@.contains_key(k) implies breakdown@[k]
                == count_in(start, k) + tally(names.take(i + 1), k) by {
                lemma_tally_push(prefix, name, k);
                if k != name {
                    assert(before.contains_key(k));
                }
            }
        }
        i = i + 1;
    }
    proof {
        assert(names.take(tools@.len() as int) =~= names);
    }
}

/// `tallies` counts every non-empty name of `seen`.
spec fn tallied(tallies: Seq<(String, usize)>, seen: Seq<Seq<char>>) -> bool {
    &&& keys_unique(tallies)
    &&& forall|k: Seq<char>| #[trigger]
        entries_map(tallies).contains_key(k) <==> (k.len() > 0 && seen.contains(k))
    &&& forall|k: Seq<char>| #[trigger]
        entries_map(tallies).contains_key(k) ==> entries_map(tallies)[k] == tally(seen, k)
}

/// Count one more occurrence of `name`, unless it is empty.
fn tally_name(tallies: &mut Vec<(String, usize)>, name: &String, Ghost(seen): Ghost<Seq<Seq<char>>>)
    requires
        tallied(old(tallies)@, seen),
        seen.len() < usize::MAX,
    ensures
        tallied(final(tallies)@, seen.push(name@)),
{
    let ghost before = tallies@;
    if name.as_str().is_empty() {
        proof {
            assert forall|k: Seq<char>| #[trigger] entries_map(tallies@).contains_key(k) <==> (k.len() > 0
                && seen.push(name@).contains(k)) by {
                lemma_tally_push(seen, name@, k);
            }
            assert forall|k: Seq<char>| #[trigger] entries_map(tallies@).contains_key(k)
                implies entries_map(tallies@)[k] == tally(seen.push(name@), k) by {
                lemma_tally_push(seen, name@, k);
            }
        }
        return;
    }
    proof {
        lemma_entries_map(before);
    }
    let current = match find_key(tallies, name.as_str()) {
        Some(i) => tallies[i].1,
        None => 0,
    };
    proof {
        lemma_tally_push(seen, name@, name@);
        if !entries_map(before).contains_key(name@) {
            assert(!seen.contains(name@));
        }
        assert(current == tally(seen, name@));
        assert(tally(seen, name@) <= seen.to_multiset().len());
    }
    put_entry(tallies, name.clone(), current + 1);
    proof {
        assert forall|k: Seq<char>| #[trigger] entries_map(tallies@).contains_key(k) <==> (k.len() > 0
            && seen.push(name@).contains(k)) by {
            lemma_tally_push(seen, name@, k);
        }
        assert forall|k: Seq<char>| #[trigger] entries_map(tallies@).contains_key(k)
            implies entries_map(tallies@)[k] == tally(seen.push(name@), k) by {
            lemma_tally_push(seen, name@, k);
        }
    }
}

/// The most used non-empty model among the models of `turns` and `latest`;
/// `None` when all of them are empty.
fn most_used_model(turns: &Vec<TurnMetrics>, latest: &String) -> (res: Option<String>)
    requires
        turns@.len() < usize::MAX,
    ensures
        match res {
            Some(m) => is_most_used(turn_models(turns@).push(latest@), m@),
            None => !has_named(turn_models(turns@).push(latest@)),
        },
{
    let mut tallies: Vec<(String, usize)> = Vec::new();
    let ghost models = turn_models(turns@);
    let mut i: usize = 0;
    proof {
        assert(models.take(0) =~= Seq::<Seq<char>>::empty());
        assert(entries_map(tallies@) =~= Map::<Seq<char>, usize>::empty());
    }
    while i < turns.len()
        invariant
            i <= turns@.len(),
            turns@.len() < usize::MAX,
            models == turn_models(turns@),
            tallied(tallies@, models.take(i as int)),
        decreases turns.len() - i,
    {
        proof {
            assert(models.take(i + 1) =~= models.take(i as int).push(turns@[i as int].model@));
        }
        tally_name(&mut tallies, &turns[i].model, Ghost(models.take(i as int)));
        i = i + 1;
    }
    proof {
        assert(models.take(turns@.len() as int) =~= models);
    }
    tally_name(&mut tallies, latest, Ghost(models));
    let ghost names = models.push(latest@);
    proof {
        lemma_entries_map(tallies@);
    }
    if tallies.len() == 0 {
        proof {
            assert forall|i: int| 0 <= i < names.len() implies names[i].len() == 0 by {
                if names[i].len() > 0 {
                    assert(names.contains(names[i]));
                    assert(entries_map(tallies@).contains_key(names[i]));
                }
            }
        }
        return None;
    }
    let mut best: usize = 0;
    let mut j: usize = 1;
    while j < tallies.len()
        invariant
            1 <= j <= tallies@.len(),
            best < tallies@.len(),
            forall|l: int| 0 <= l < j ==> tallies@[l].1 <= tallies@[best as int].1,
        decreases tallies.len() - j,
    {
        if tallies[j].1 > tallies[best].1 {
            best = j;
        }
        j = j + 1;
    }
    let chosen = tallies[best].0.clone();
    proof {
        let m = chosen@;
        assert(entries_map(tallies@).contains_key(m));
        assert forall|x: Seq<char>| x.len() > 0 implies #[trigger] tally(names, x) <= tally(names, m) by {
            if names.contains(x) {
                assert(entries_map(tallies@).contains_key(x));
                let l = choose|l: int| 0 <= l < tallies@.len() && tallies@[l].0@ == x;
                assert(entries_map(tallies@)[tallies@[l].0@] == tallies@[l].1);
            } else {
                assert(tally(names, x) == 0);
            }
        }
    }
    Some(chosen)
}

/// `b` is a copy of the session `a`: every field equal, the same tool
/// counts, `custom` a structural copy, and each turn a copy of `a`'s.
pub open spec fn session_same(a: SessionMetrics, b: SessionMetrics) -> bool {
    &&& b == (SessionMetrics { tool_breakdown: b.tool_breakdown, custom: b.custom, turns: b.turns, ..a })
    &&& b.tool_breakdown@ == a.tool_breakdown@
    &&& json_same(a.custom, b.custom)
    &&& b.turns@.len() == a.turns@.len()
    &&& forall|i: int| 0 <= i < a.turns@.len() ==> #[trigger] turn_same(a.turns@[i], b.turns@[i])
}

impl Clone for SessionMetrics {
    /// A copy of the session.
    fn clone(&self) -> (res: Self)
        ensures
            session_same(*self, res),
    {
        let mut turns: Vec<TurnMetrics> = Vec::new();
        let mut i: usize = 0;
        while i < self.turns.len()
            invariant
                i <= self.turns@.len(),
                turns@.len() == i,
                forall|j: int| 0 <= j < i ==> #[trigger] turn_same(self.turns@[j], turns@[j]),
            decreases self.turns.len() - i,
        {
            turns.push(self.turns[i].clone());
            i = i + 1;
        }
        SessionMetrics {
            session_id: self.session_id.clone(),
            node_id: self.node_id.clone(),
            created_at: self.created_at.clone(),
            model: self.model.clone(),
            total_input_tokens: self.total_input_tokens,
            total_output_tokens: self.total_output_tokens,
            total_thinking_tokens: self.total_thinking_tokens,
            estimated_cost_bits: self.estimated_cost_bits,
            total_chars: self.total_chars,
            total_tool_calls: self.total_tool_calls,
            tool_breakdown: self.tool_breakdown.clone(),
            tool_fail_rate: self.tool_fail_rate,
            total_failed: self.total_failed,
            total_duration_ms: self.total_duration_ms,
            total_llm_ms: self.total_llm_ms,
            total_tool_ms: self.total_tool_ms,
            total_turns: self.total_turns,
            avg_turn_ms: self.avg_turn_ms,
            p50_turn_ms: self.p50_turn_ms,
            p95_turn_ms: self.p95_turn_ms,
            p99_turn_ms: self.p99_turn_ms,
            outcome: self.outcome,
            error_count: self.error_count,
            total_plan_updates: self.total_plan_updates,
            total_approvals: self.total_approvals,
            custom: copy_json(&self.custom),
            parent_session_id: match &self.parent_session_id {
                Some(p) => Some(p.clone()),
                None => None,
            },
            session_type: self.session_type.clone(),
            turns,
        }
    }
}

/// The durations of the turns, in turn order.
pub open spec fn turn_durations(turns: Seq<TurnMetrics>) -> Seq<u64> {
    turns.map_values(|t: TurnMetrics| t.duration_ms)
}

/// The P50/P95/P99 fields hold the percentiles of the turn durations.
pub open spec fn percentiles_hold(m: SessionMetrics) -> bool {
    let sorted = sorted_ascending(turn_durations(m.turns@));
    &&& m.p50_turn_ms == percentile_of(sorted, 50)
    &&& m.p95_turn_ms == percentile_of(sorted, 95)
    &&& m.p99_turn_ms == percentile_of(sorted, 99)
}

impl SessionMetrics {
    /// A new session accumulator created now: `new_at` with the current
    /// time, in RFC 3339 form, as `created_at`.
    pub fn new(session_id: String, node_id: String, model: String) -> (res: Self)
        ensures
            utc_rfc3339_shape(res.created_at@),
            res.session_id == session_id,
            res.node_id == node_id,
            res.model == model,
            res.is_fresh(),
    {
        let created_at = current_time_rfc3339();
        Self::new_at(session_id, node_id, model, created_at)
    }

    /// A new session accumulator created at `created_at`: no turns, every
    /// total zero, outcome `Completed`, an empty `custom` object, no parent
    /// and session type "default".
    pub fn new_at(session_id: String, node_id: String, model: String, created_at: String) -> (res: Self)
        ensures
            res.session_id == session_id,
            res.node_id == node_id,
            res.created_at == created_at,
            res.model == model,
            res.is_fresh(),
    {
        SessionMetrics {
            session_id,
            node_id,
            created_at,
            model,
            total_input_tokens: 0,
            total_output_tokens: 0,
            total_thinking_tokens: 0,
            estimated_cost_bits: 0,
            total_chars: 0,
            total_tool_calls: 0,
            tool_breakdown: ToolBreakdown::new(),
            tool_fail_rate: FailRate { failed: 0, calls: 0 },
            total_failed: 0,
            total_duration_ms: 0,
            total_llm_ms: 0,
            total_tool_ms: 0,
            total_turns: 0,
            avg_turn_ms: 0,
            p50_turn_ms: 0,
            p95_turn_ms: 0,
            p99_turn_ms: 0,
            outcome: SessionOutcome::Completed,
            error_count: 0,
            total_plan_updates: 0,
            total_approvals: 0,
            custom: JsonValue::Object(JsonObject::new()),
            parent_session_id: None,
            session_type: default_session_type(),
            turns: Vec::new(),
        }
    }

    /// Every total and counter is at its start value, there are no turns,
    /// the outcome is `Completed`, `custom` is an empty object, there is no
    /// parent and the session type is "default".
    pub open spec fn is_fresh(&self) -> bool {
        &&& self.total_input_tokens == 0
        &&& self.total_output_tokens == 0
        &&& self.total_thinking_tokens == 0
        &&& self.estimated_cost_bits == 0
        &&& self.total_chars == 0
        &&& self.total_tool_calls == 0
        &&& self.tool_breakdown@ == Map::<Seq<char>, u32>::empty()
        &&& self.tool_fail_rate == FailRate { failed: 0, calls: 0 }
        &&& self.total_failed == 0
        &&& self.total_duration_ms == 0
        &&& self.total_llm_ms == 0
        &&& self.total_tool_ms == 0
        &&& self.total_turns == 0
        &&& self.avg_turn_ms == 0
        &&& self.p50_turn_ms == 0
        &&& self.p95_turn_ms == 0
        &&& self.p99_turn_ms == 0
        &&& self.outcome == SessionOutcome::Completed
        &&& self.error_count == 0
        &&& self.total_plan_updates == 0
        &&& self.total_approvals == 0
        &&& crate::types::is_empty_object(self.custom)
        &&& self.parent_session_id is None
        &&& self.session_type@ == seq!['d', 'e', 'f', 'a', 'u', 'l', 't']
        &&& self.turns@.len() == 0
    }

    /// Recompute P50/P95/P99 from the stored turn durations.
    fn recompute_percentiles(&mut self)
        ensures
            percentiles_hold(*final(self)),
            final(self).turns == old(self).turns,
            final(self).unchanged_but_percentiles(*old(self)),
    {
        let mut durations: Vec<u64> = Vec::new();
        let mut i: usize = 0;
        while i < self.turns.len()
            invariant
                i <= self.turns@.len(),
                durations@ == turn_durations(self.turns@.take(i as int)),
            decreases self.turns.len() - i,
        {
            durations.push(self.turns[i].duration_ms);
            proof {
                assert(self.turns@.take(i + 1) =~= self.turns@.take(i as int).push(self.turns@[i as int]));
            }
            i = i + 1;
        }
        proof {
            assert(self.turns@.take(self.turns@.len() as int) =~= self.turns@);
        }
        let sorted = sort_ascending(&durations);
        self.p50_turn_ms = percentile_from_sorted(sorted.as_slice(), 50);
        self.p95_turn_ms = percentile_from_sorted(sorted.as_slice(), 95);
        self.p99_turn_ms = percentile_from_sorted(sorted.as_slice(), 99);
    }

    /// Every field but the three percentiles equals `other`'s.
    pub open spec fn unchanged_but_percentiles(&self, other: SessionMetrics) -> bool {
        &&& self.session_id == other.session_id
        &&& self.node_id == other.node_id
        &&& self.created_at == other.created_at
        &&& self.model == other.model
        &&& self.total_input_tokens == other.total_input_tokens
        &&& self.total_output_tokens == other.total_output_tokens
        &&& self.total_thinking_tokens == other.total_thinking_tokens
        &&& self.estimated_cost_bits == other.estimated_cost_bits
        &&& self.total_chars == other.total_chars
        &&& self.total_tool_calls == other.total_tool_calls
        &&& self.tool_breakdown == other.tool_breakdown
        &&& self.tool_fail_rate == other.tool_fail_rate
        &&& self.total_failed == other.total_failed
        &&& self.total_duration_ms == other.total_duration_ms
        &&& self.total_llm_ms == other.total_llm_ms
        &&& self.total_tool_ms == other.total_tool_ms
        &&& self.total_turns == other.total_turns
        &&& self.avg_turn_ms == other.avg_turn_ms
        &&& self.outcome == other.outcome
        &&& self.error_count == other.error_count
        &&& self.total_plan_updates == other.total_plan_updates
        &&& self.total_approvals == other.total_approvals
        &&& self.custom == other.custom
        &&& self.parent_session_id == other.parent_session_id
        &&& self.session_type == other.session_type
        &&& self.turns == other.turns
    }

    /// Appending `turn` keeps every total within its integer type.
    pub open spec fn appendable(&self, turn: TurnMetrics) -> bool {
        &&& self.total_turns < u32::MAX
        &&& self.total_input_tokens + turn.input_tokens <= u64::MAX
        &&& self.total_output_tokens + turn.output_tokens <= u64::MAX
        &&& self.total_thinking_tokens + turn.thinking_tokens <= u64::MAX
        &&& self.total_chars + turn.text_length <= u64::MAX
        &&& self.total_duration_ms + turn.duration_ms <= u64::MAX
        &&& self.total_llm_ms + turn.llm_duration_ms <= u64::MAX
        &&& self.total_tool_ms + turn.tool_duration_ms <= u64::MAX
        &&& self.total_tool_calls + turn.tool_call_count <= u32::MAX
        &&& self.total_failed + turn.tool_failed <= u32::MAX
        &&& turn.outcome == TurnOutcome::Error ==> self.error_count < u32::MAX
        &&& self.total_plan_updates + turn.plan_updates <= u32::MAX
        &&& self.total_approvals + turn.approval_count <= u32::MAX
        &&& forall|k: Seq<char>| #[trigger]
            count_in(self.tool_breakdown@, k) + tally(names_of(turn.tools_used@), k) <= u32::MAX
        &&& self.turns@.len() < usize::MAX
    }

    /// Whether appending `turn` keeps every total within its integer type.
    pub fn can_append(&self, turn: &TurnMetrics) -> (res: bool)
        ensures
            res == self.appendable(*turn),
    {
        if !(self.total_turns < u32::MAX
            && turn.input_tokens <= u64::MAX - self.total_input_tokens
            && turn.output_tokens <= u64::MAX - self.total_output_tokens
            && turn.thinking_tokens <= u64::MAX - self.total_thinking_tokens
            && turn.text_length <= u64::MAX - self.total_chars
            && turn.duration_ms <= u64::MAX - self.total_duration_ms
            && turn.llm_duration_ms <= u64::MAX - self.total_llm_ms
            && turn.tool_duration_ms <= u64::MAX - self.total_tool_ms
            && turn.tool_call_count <= u32::MAX - self.total_tool_calls
            && turn.tool_failed <= u32::MAX - self.total_failed
            && (!matches!(turn.outcome, TurnOutcome::Error) || self.error_count < u32::MAX)
            && turn.plan_updates <= u32::MAX - self.total_plan_updates
            && turn.approval_count <= u32::MAX - self.total_approvals
            && self.turns.len() < usize::MAX) {
            return false;
        }
        let tools = &turn.tools_used;
        let ghost names = names_of(tools@);
        let mut i: usize = 0;
        while i < tools.len()
            invariant
                i <= tools@.len(),
                tools@ == turn.tools_used@,
                names == names_of(tools@),
                forall|j: int| 0 <= j < i ==> #[trigger]
                    count_in(self.tool_breakdown@, names[j]) + tally(names, names[j]) <= u32::MAX,
            decreases tools.len() - i,
        {
            let name = tools[i].as_str();
            let before = match self.tool_breakdown.get(name) {
                Some(c) => c,
                None => 0,
            };
            let mut occurrences: usize = 0;
            let mut j: usize = 0;
            while j < tools.len()
                invariant
                    j <= tools@.len(),
                    names == names_of(tools@),
                    occurrences == tally(names.take(j as int), name@),
                    occurrences <= j,
                decreases tools.len() - j,
            {
                proof {
                    assert(names.take(j + 1) =~= names.take(j as int).push(names[j as int]));
                    lemma_tally_push(names.take(j as int), names[j as int], name@);
                }
                if str_equal(tools[j].as_str(), name) {
                    occurrences = occurrences + 1;
                }
                j = j + 1;
            }
            proof {
                assert(names.take(tools@.len() as int) =~= names);
            }
            if occurrences as u64 > (u32::MAX - before) as u64 {
                proof {
                    assert(names[i as int] == name@);
                    assert(before == count_in(self.tool_breakdown@, name@));
                    assert(count_in(self.tool_breakdown@, name@) + tally(names, name@) > u32::MAX);
                    assert(names == names_of(turn.tools_used@));
                    assert(!self.appendable(*turn));
                }
                return false;
            }
            i = i + 1;
        }
        proof {
            assert forall|k: Seq<char>| #[trigger]
                count_in(self.tool_breakdown@, k) + tally(names, k) <= u32::MAX by {
                if names.contains(k) {
                    let j = choose|j: int| 0 <= j < names.len() && names[j] == k;
                    assert(count_in(self.tool_breakdown@, names[j]) + tally(names, names[j]) <= u32::MAX);
                } else {
                    assert(tally(names, k) == 0);
                }
            }
        }
        true
    }

    /// `self` is `before` with `turn` appended: the totals grown by the
    /// turn's counts, the tool breakdown counting each tool the turn used,
    /// the fail rate failed over calls once there are calls, an `Error` turn
    /// adding an error, the average and percentiles covering all turns, the
    /// model the most used non-empty model, and the rest as it was.
    pub open spec fn is_append_of(self, before: SessionMetrics, turn: TurnMetrics) -> bool {
        &&& self.total_turns == before.total_turns + 1
        &&& self.total_input_tokens == before.total_input_tokens + turn.input_tokens
        &&& self.total_output_tokens == before.total_output_tokens + turn.output_tokens
        &&& self.total_thinking_tokens == before.total_thinking_tokens + turn.thinking_tokens
        &&& self.total_chars == before.total_chars + turn.text_length
        &&& self.total_duration_ms == before.total_duration_ms + turn.duration_ms
        &&& self.total_llm_ms == before.total_llm_ms + turn.llm_duration_ms
        &&& self.total_tool_ms == before.total_tool_ms + turn.tool_duration_ms
        &&& self.total_tool_calls == before.total_tool_calls + turn.tool_call_count
        &&& breakdown_added(before.tool_breakdown@, self.tool_breakdown@, names_of(turn.tools_used@))
        &&& self.total_failed == before.total_failed + turn.tool_failed
        &&& self.tool_fail_rate == (if self.total_tool_calls > 0 {
            FailRate { failed: self.total_failed, calls: self.total_tool_calls }
        } else {
            before.tool_fail_rate
        })
        &&& self.error_count == before.error_count + (if turn.outcome == TurnOutcome::Error {
            1int
        } else {
            0int
        })
        &&& self.total_plan_updates == before.total_plan_updates + turn.plan_updates
        &&& self.total_approvals == before.total_approvals + turn.approval_count
        &&& self.avg_turn_ms == self.total_duration_ms / (self.total_turns as u64)
        &&& if has_named(turn_models(before.turns@).push(turn.model@)) {
            is_most_used(turn_models(before.turns@).push(turn.model@), self.model@)
        } else {
            self.model == before.model
        }
        &&& self.turns@ == before.turns@.push(turn)
        &&& percentiles_hold(self)
        &&& self.session_id == before.session_id
        &&& self.node_id == before.node_id
        &&& self.created_at == before.created_at
        &&& self.estimated_cost_bits == before.estimated_cost_bits
        &&& self.outcome == before.outcome
        &&& self.custom == before.custom
        &&& self.parent_session_id == before.parent_session_id
        &&& self.session_type == before.session_type
    }

    /// Append a turn and recompute the session-level aggregates: the totals
    /// grow by the turn's counts, the tool breakdown counts each tool the
    /// turn used, the fail rate becomes failed over calls once there are
    /// calls, an `Error` turn adds an error, the average and percentiles
    /// cover all turns, and the model becomes the most used non-empty model.
    pub fn append_turn(&mut self, turn: TurnMetrics)
        requires
            old(self).appendable(turn),
        ensures
            final(self).is_append_of(*old(self), turn),
    {
        self.total_turns = self.total_turns + 1;
        self.total_input_tokens = self.total_input_tokens + turn.input_tokens;
        self.total_output_tokens = self.total_output_tokens + turn.output_tokens;
        self.total_thinking_tokens = self.total_thinking_tokens + turn.thinking_tokens;
        self.total_chars = self.total_chars + turn.text_length;
        self.total_duration_ms = self.total_duration_ms + turn.duration_ms;
        self.total_llm_ms = self.total_llm_ms + turn.llm_duration_ms;
        self.total_tool_ms = self.total_tool_ms + turn.tool_duration_ms;
        self.total_tool_calls = self.total_tool_calls + turn.tool_call_count;

        add_tool_calls(&mut self.tool_breakdown, &turn.tools_used);

        self.total_failed = self.total_failed + turn.tool_failed;
        if self.total_tool_calls > 0 {
            self.tool_fail_rate = FailRate { failed: self.total_failed, calls: self.total_tool_calls };
        }
        if matches!(turn.outcome, TurnOutcome::Error) {
            self.error_count = self.error_count + 1;
        }
        self.total_plan_updates = self.total_plan_updates + turn.plan_updates;
        self.total_approvals = self.total_approvals + turn.approval_count;

        self.avg_turn_ms = self.total_duration_ms / (self.total_turns as u64);

        if let Some(top_model) = most_used_model(&self.turns, &turn.model) {
            self.model = top_model;
        }

        self.turns.push(turn);
        self.recompute_percentiles();
    }

    /// Finalize the session: set its outcome and recompute the percentiles.
    pub fn finalize(&mut self, outcome: SessionOutcome)
        ensures
            final(self).outcome == outcome,
            percentiles_hold(*final(self)),
            final(self).unchanged_but_percentiles((SessionMetrics { outcome, ..*old(self) })),
    {
        self.outcome = outcome;
        self.recompute_percentiles();
    }
}

} // verus!
