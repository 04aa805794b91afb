//! Session summaries for a session listing, newest first.

use vstd::prelude::*;

use crate::session::SessionMetrics;
use crate::text::{
    bytes_lt, lemma_bytes_lt_asymmetric, lemma_bytes_lt_irreflexive, lemma_bytes_lt_total,
    lemma_bytes_lt_transitive, str_lt, utf8_of,
};
use crate::types::SessionSummary;

verus! {

/// The custom-data key that names the product a session belongs to.
pub open spec fn product_key() -> Seq<char> {
    seq!['p', 'r', 'o', 'd', 'u', 'c', 't']
}

/// The summary of a session: its identity, model, turn and character
/// totals, outcome, and the product named in its custom data.
pub fn session_summary(metrics: SessionMetrics) -> (res: SessionSummary)
    ensures
        res.session_id == metrics.session_id,
        res.node_id == metrics.node_id,
        res.created_at == metrics.created_at,
        res.model == metrics.model,
        res.total_turns == metrics.total_turns,
        res.total_chars == metrics.total_chars,
        res.outcome == metrics.outcome,
        match res.product {
            Some(p) => metrics.custom.spec_str_field(product_key()) == Some(p@),
            None => metrics.custom.spec_str_field(product_key()) is None,
        },
{
    let key = "product";
    proof {
        reveal_strlit("product");
        assert(key@ =~= product_key());
    }
    let product = metrics.custom.str_field(key);
    SessionSummary {
        session_id: metrics.session_id,
        node_id: metrics.node_id,
        created_at: metrics.created_at,
        model: metrics.model,
        total_turns: metrics.total_turns,
        total_chars: metrics.total_chars,
        outcome: metrics.outcome,
        product,
    }
}

/// The sort key of a summary: the UTF-8 bytes of its creation time.
pub open spec fn created_key(s: SessionSummary) -> Seq<u8> {
    utf8_of(s.created_at@)
}

/// No summary comes after one created later.
pub open spec fn newest_first(s: Seq<SessionSummary>) -> bool {
    forall|i: int, j: int|
        0 <= i < j < s.len() ==> !bytes_lt(#[trigger] created_key(s[i]), #[trigger] created_key(s[j]))
}

/// Whether a summary's creation time has the key `k`.
pub open spec fn created_at_key(k: Seq<u8>) -> spec_fn(SessionSummary) -> bool {
    |s: SessionSummary| created_key(s) == k
}

/// `out` holds the summaries of `input` with those created at the same time
/// in the order they had there.
pub open spec fn keeps_ties_in_order(input: Seq<SessionSummary>, out: Seq<SessionSummary>) -> bool {
    forall|k: Seq<u8>| #[trigger] out.filter(created_at_key(k)) == input.filter(created_at_key(k))
}

proof fn lemma_filter_none(s: Seq<SessionSummary>, k: Seq<u8>)
    requires
        forall|j: int| 0 <= j < s.len() ==> created_key(s[j]) != k,
    ensures
        s.filter(created_at_key(k)) == Seq::<SessionSummary>::empty(),
{
    s.lemma_all_neg_filter_empty(created_at_key(k));
    assert(s.filter(created_at_key(k)) =~= Seq::<SessionSummary>::empty());
}

/// Sort summaries by creation time, newest first; summaries created at the
/// same time keep their order.
pub fn sort_newest_first(summaries: Vec<SessionSummary>) -> (res: Vec<SessionSummary>)
    ensures
        res@.len() == summaries@.len(),
        newest_first(res@),
        keeps_ties_in_order(summaries@, res@),
{
    broadcast use vstd::seq_lib::group_filter_ensures;

    let ghost input = summaries@;
    let mut rest = summaries;
    let mut out: Vec<SessionSummary> = Vec::new();
    let ghost mut done: int = 0;
    proof {
        assert(input.take(0) =~= Seq::<SessionSummary>::empty());
        assert forall|k: Seq<u8>| #[trigger] out@.filter(created_at_key(k)) == input.take(0).filter(
            created_at_key(k),
        ) by {
            reveal(Seq::filter);
        }
    }
    while rest.len() > 0
        invariant
            0 <= done <= input.len(),
            rest@ == input.skip(done),
            out@.len() == done,
            newest_first(out@),
            keeps_ties_in_order(input.take(done), out@),
        decreases rest.len(),
    {
        let x = rest.remove(0);
        let mut pos: usize = 0;
        while pos < out.len() && !str_lt(out[pos].created_at.as_str(), x.created_at.as_str())
            invariant
                pos <= out@.len(),
                forall|j: int| 0 <= j < pos ==> !bytes_lt(created_key(#[trigger] out@[j]), created_key(x)),
            decreases out.len() - pos,
        {
            pos = pos + 1;
        }
        let ghost before = out@;
        let ghost kx = created_key(x);
        proof {
            assert(x == input[done]);
            assert(rest@ =~= input.skip(done + 1));
            // Everything from `pos` on was created strictly before `x`.
            assert forall|j: int| pos <= j < before.len() implies bytes_lt(
                #[trigger] created_key(before[j]),
                kx,
            ) by {
                let kp = created_key(before[pos as int]);
                let kj = created_key(before[j]);
                if j > pos {
                    assert(!bytes_lt(kp, kj));
                    if kj != kp {
                        lemma_bytes_lt_total(kj, kp);
                        lemma_bytes_lt_transitive(kj, kp, kx);
                    }
                }
            }
        }
        out.insert(pos, x);
        proof {
            let after = out@;
            assert(after =~= before.take(pos as int) + seq![x] + before.skip(pos as int));
            assert(before =~= before.take(pos as int) + before.skip(pos as int));
            assert forall|a: int, b: int| 0 <= a < b < after.len() implies !bytes_lt(
                #[trigger] created_key(after[a]),
                #[trigger] created_key(after[b]),
            ) by {
                if b < pos {
                    assert(after[a] == before[a] && after[b] == before[b]);
                } else if b == pos {
                    assert(after[a] == before[a]);
                } else if a == pos {
                    assert(after[b] == before[b - 1]);
                    lemma_bytes_lt_asymmetric(created_key(before[b - 1]), kx);
                } else if a < pos {
                    assert(after[a] == before[a] && after[b] == before[b - 1]);
                } else {
                    assert(after[a] == before[a - 1] && after[b] == before[b - 1]);
                }
            }
            assert(input.take(done + 1) =~= input.take(done).push(x));
            assert forall|k: Seq<u8>| #[trigger] after.filter(created_at_key(k)) == input.take(
                done + 1,
            ).filter(created_at_key(k)) by {
                let p = created_at_key(k);
                let head = before.take(pos as int);
                let tail = before.skip(pos as int);
                assert(after.filter(p) == (head + seq![x]).filter(p) + tail.filter(p));
                assert(before.filter(p) == head.filter(p) + tail.filter(p));
                assert(seq![x] =~= Seq::<SessionSummary>::empty().push(x));
                assert(head + seq![x] =~= head.push(x));
                input.take(done).lemma_filter_push(x, p);
                head.lemma_filter_push(x, p);
                if k == kx {
                    assert forall|j: int| 0 <= j < tail.len() implies created_key(tail[j]) != k by {
                        assert(tail[j] == before[pos + j]);
                        assert(bytes_lt(created_key(before[pos + j]), kx));
                        lemma_bytes_lt_irreflexive(kx);
                    }
                    lemma_filter_none(tail, k);
                    assert(after.filter(p) =~= before.filter(p).push(x));
                } else {
                    assert(after.filter(p) =~= before.filter(p));
                }
            }
            done = done + 1;
        }
    }
    proof {
        assert(input.take(input.len() as int) =~= input);
    }
    out
}

} // verus!
