//! The scoring rules: the worst testcase decides the score of a subtask, and
//! the subtasks sum to the score of a solution.

use crate::status::{TestcaseEvaluationStatus, SCORE_UNIT};
use vstd::prelude::*;

verus! {

/// What is recorded for a testcase: `None` until its first event.
pub type Entry = Option<TestcaseEvaluationStatus>;

/// The testcase has reached a terminal status.
pub open spec fn resolved(entry: Entry) -> bool {
    entry matches Some(status) && status.terminal()
}

/// Every testcase has reached a terminal status.
pub open spec fn all_resolved(entries: Seq<Entry>) -> bool {
    forall|k: int| 0 <= k < entries.len() ==> resolved(#[trigger] entries[k])
}

/// The recorded status, if any, is well formed.
pub open spec fn entry_valid(entry: Entry) -> bool {
    entry matches Some(status) ==> status.valid()
}

/// Every recorded status is well formed.
pub open spec fn entries_valid(entries: Seq<Entry>) -> bool {
    forall|k: int| 0 <= k < entries.len() ==> entry_valid(#[trigger] entries[k])
}

/// The contribution of a testcase; nothing while no status is recorded.
pub open spec fn contribution_of(entry: Entry) -> nat {
    match entry {
        Some(status) => status.contribution(),
        None => 0,
    }
}

/// The least contribution among `entries`, and the full contribution when
/// there is no entry.
pub open spec fn min_contribution(entries: Seq<Entry>) -> nat
    decreases entries.len(),
{
    if entries.len() == 0 {
        SCORE_UNIT as nat
    } else {
        let rest = min_contribution(entries.drop_last());
        let last = contribution_of(entries.last());
        if last < rest {
            last
        } else {
            rest
        }
    }
}

/// The share `contribution / SCORE_UNIT` of `max_score`, rounded down.
pub open spec fn scaled(max_score: u64, contribution: nat) -> nat {
    (max_score as nat * contribution) / (SCORE_UNIT as nat)
}

/// The score of a subtask: unknown while a testcase is unresolved, then the
/// maximum score scaled by the least contribution of its testcases.
pub open spec fn derived_score(max_score: u64, entries: Seq<Entry>) -> Option<u64> {
    if all_resolved(entries) {
        Some(scaled(max_score, min_contribution(entries)) as u64)
    } else {
        None
    }
}

/// Every score of `scores` is known.
pub open spec fn all_known(scores: Seq<Option<u64>>) -> bool {
    forall|i: int| 0 <= i < scores.len() ==> (#[trigger] scores[i]) is Some
}

/// The sum of the known scores of `scores`.
pub open spec fn sum_known(scores: Seq<Option<u64>>) -> nat
    decreases scores.len(),
{
    if scores.len() == 0 {
        0
    } else {
        sum_known(scores.drop_last()) + match scores.last() {
            Some(score) => score as nat,
            None => 0,
        }
    }
}

/// The score of a solution: unknown until every subtask score is known, then
/// their sum.
pub open spec fn total_score(scores: Seq<Option<u64>>) -> Option<nat> {
    if all_known(scores) {
        Some(sum_known(scores))
    } else {
        None
    }
}

/// The least contribution is at most the full contribution and at most the
/// contribution of each testcase, and it is the full contribution or the
/// contribution of one of the testcases.
pub proof fn lemma_min_contribution(entries: Seq<Entry>)
    ensures
        min_contribution(entries) <= SCORE_UNIT,
        forall|k: int|
            0 <= k < entries.len() ==> min_contribution(entries) <= contribution_of(
                #[trigger] entries[k],
            ),
        min_contribution(entries) == SCORE_UNIT || exists|k: int|
            0 <= k < entries.len() && min_contribution(entries) == contribution_of(
                #[trigger] entries[k],
            ),
    decreases entries.len(),
{
    if entries.len() > 0 {
        let rest = entries.drop_last();
        lemma_min_contribution(rest);
        assert forall|k: int| 0 <= k < entries.len() implies min_contribution(entries)
            <= contribution_of(#[trigger] entries[k]) by {
            if k < rest.len() {
                assert(rest[k] == entries[k]);
            }
        }
        if contribution_of(entries.last()) < min_contribution(rest) {
            let k = entries.len() - 1;
            assert(min_contribution(entries) == contribution_of(entries[k]));
        } else if min_contribution(rest) != SCORE_UNIT {
            let k = choose|k: int|
                0 <= k < rest.len() && min_contribution(rest) == contribution_of(#[trigger] rest[k]);
            assert(rest[k] == entries[k]);
            assert(min_contribution(entries) == contribution_of(entries[k]));
        }
    }
}

/// A share of a score is at most the score.
pub proof fn lemma_scaled_bounded(max_score: u64, contribution: nat)
    requires
        contribution <= SCORE_UNIT,
    ensures
        scaled(max_score, contribution) <= max_score,
{
    let m = max_score as nat;
    let u = SCORE_UNIT as nat;
    assert((m * contribution) / u <= m) by (nonlinear_arith)
        requires
            contribution <= u,
            u > 0,
    ;
}

/// A known subtask score is the scaled maximum, and never above it.
pub proof fn lemma_derived_score_bounded(max_score: u64, entries: Seq<Entry>)
    ensures
        derived_score(max_score, entries) matches Some(score) ==> score <= max_score && score
            == scaled(max_score, min_contribution(entries)),
{
    lemma_min_contribution(entries);
    lemma_scaled_bounded(max_score, min_contribution(entries));
}

/// A subtask score does not depend on the order in which the statuses of its
/// testcases are listed: two listings of the same statuses give the same
/// score.
pub proof fn lemma_min_rule_order_independent(max_score: u64, a: Seq<Entry>, b: Seq<Entry>)
    requires
        a.to_multiset() == b.to_multiset(),
    ensures
        derived_score(max_score, a) == derived_score(max_score, b),
{
    a.to_multiset_ensures();
    b.to_multiset_ensures();
    assert(a.len() == b.len());
    assert forall|x: Entry| a.contains(x) == b.contains(x) by {
        assert(a.contains(x) <==> a.to_multiset().count(x) > 0);
        assert(b.contains(x) <==> b.to_multiset().count(x) > 0);
    }
    lemma_same_elements(a, b);
    lemma_same_elements(b, a);
}

/// If every entry of `a` occurs in `b`, then `b` resolved makes `a` resolved,
/// and the least contribution of `a` is at least that of `b`.
proof fn lemma_same_elements(a: Seq<Entry>, b: Seq<Entry>)
    requires
        a.len() == b.len(),
        forall|x: Entry| a.contains(x) == b.contains(x),
    ensures
        all_resolved(b) ==> all_resolved(a),
        min_contribution(b) <= min_contribution(a),
{
    lemma_min_contribution(a);
    lemma_min_contribution(b);
    if all_resolved(b) {
        assert forall|k: int| 0 <= k < a.len() implies resolved(#[trigger] a[k]) by {
            assert(a.contains(a[k]));
            assert(b.contains(a[k]));
            let j = choose|j: int| 0 <= j < b.len() && b[j] == a[k];
            assert(resolved(b[j]));
        }
    }
    if min_contribution(a) != SCORE_UNIT {
        let k = choose|k: int|
            0 <= k < a.len() && min_contribution(a) == contribution_of(#[trigger] a[k]);
        assert(a.contains(a[k]));
        assert(b.contains(a[k]));
        let j = choose|j: int| 0 <= j < b.len() && b[j] == a[k];
        assert(min_contribution(b) <= contribution_of(b[j]));
    }
}

/// The sum of known scores grows with each further score.
pub proof fn lemma_sum_known_prefix(scores: Seq<Option<u64>>, n: int)
    requires
        0 <= n < scores.len(),
    ensures
        sum_known(scores.take(n + 1)) == sum_known(scores.take(n)) + match scores[n] {
            Some(score) => score as nat,
            None => 0,
        },
{
    assert(scores.take(n + 1).drop_last() =~= scores.take(n));
}

/// Computes the score of a subtask from the statuses of its testcases.
pub fn derive_score(max_score: u64, entries: &Vec<Entry>) -> (r: Option<u64>)
    ensures
        r == derived_score(max_score, entries@),
{
    let mut lowest: u64 = SCORE_UNIT;
    let mut k: usize = 0;
    while k < entries.len()
        invariant
            k <= entries.len(),
            all_resolved(entries@.take(k as int)),
            lowest == min_contribution(entries@.take(k as int)),
            lowest <= SCORE_UNIT,
        decreases entries.len() - k,
    {
        let contribution: Option<u64> = match &entries[k] {
            Some(status) => status.score_contribution(),
            None => None,
        };
        match contribution {
            None => {
                assert(!resolved(entries@[k as int]));
                return None;
            },
            Some(c) => {
                proof {
                    assert(entries@.take(k + 1).drop_last() =~= entries@.take(k as int));
                    assert forall|j: int| 0 <= j < k + 1 implies resolved(
                        #[trigger] entries@.take(k + 1)[j],
                    ) by {
                        if j < k {
                            assert(resolved(entries@.take(k as int)[j]));
                        }
                    }
                }
                if c < lowest {
                    lowest = c;
                }
            },
        }
        k = k + 1;
    }
    proof {
        assert(entries@.take(k as int) =~= entries@);
        lemma_scaled_bounded(max_score, lowest as nat);
        assert(max_score as nat * lowest as nat <= u128::MAX) by (nonlinear_arith)
            requires
                max_score <= u64::MAX,
                lowest <= 1_000_000,
        ;
    }
    let product: u128 = (max_score as u128) * (lowest as u128);
    let share: u128 = product / (SCORE_UNIT as u128);
    Some(share as u64)
}

} // verus!
