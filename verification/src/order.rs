//! The order in which the testcases of a subtask are reported: ascending by
//! identifier.

use crate::lookup::lemma_index_found;
use crate::score::Entry;
use crate::task::{Task, TestcaseId};
use crate::tree::{SolutionEvaluationState, SolutionView};
use itertools::Itertools;
use vstd::prelude::*;
use vstd::relations::{sorted_by, total_ordering};
use vstd::seq_lib::lemma_sorted_unique;

verus! {

/// The order of testcase identifiers: the smaller comes first.
pub open spec fn id_order() -> spec_fn(TestcaseId, TestcaseId) -> bool {
    |a: TestcaseId, b: TestcaseId| a <= b
}

/// The entries of the testcases of a subtask, ascending by the identifier of
/// the testcase. `ids` holds the identifiers and `entries` the entry of each,
/// both in the order of the task.
pub open spec fn ordered_entries(ids: Seq<TestcaseId>, entries: Seq<Entry>) -> Seq<Entry> {
    let order = ids.sort_by(id_order());
    Seq::new(
        order.len(),
        |j: int|
            match ids.index_of_first(order[j]) {
                Some(k) => entries[k],
                None => None,
            },
    )
}

/// The entries of the first `count` subtasks of a solution, subtask by
/// subtask, and within a subtask ascending by the identifier of the testcase.
pub open spec fn statuses_in_order(task: Task, state: SolutionView, count: int) -> Seq<Entry>
    decreases count,
{
    if count <= 0 {
        Seq::empty()
    } else {
        statuses_in_order(task, state, count - 1) + ordered_entries(
            task.testcase_ids(count - 1),
            state.subtasks[count - 1],
        )
    }
}

/// Calls `Itertools::sorted` on a copy of the identifiers. The contract
/// claims what the method's source shows: it collects the items and sorts
/// them with `sort`, so the result holds the same identifiers, each as often
/// as before, in ascending order.
#[verifier::external_body]
fn sorted_ids(ids: &Vec<TestcaseId>) -> (r: Vec<TestcaseId>)
    ensures
        r@.to_multiset() == ids@.to_multiset(),
        forall|i: int, j: int| 0 <= i < j < r@.len() ==> r@[i] <= r@[j],
{
    ids.iter().copied().sorted().collect()
}

/// The identifiers in ascending order.
pub fn ids_in_order(ids: &Vec<TestcaseId>) -> (r: Vec<TestcaseId>)
    ensures
        r@ == ids@.sort_by(id_order()),
{
    let r = sorted_ids(ids);
    proof {
        assert(total_ordering(id_order()));
        ids@.lemma_sort_by_ensures(id_order());
        assert(sorted_by(r@, id_order()));
        lemma_sorted_unique(r@, ids@.sort_by(id_order()), id_order());
    }
    r
}

impl SolutionEvaluationState {
    /// What is recorded for the testcases of the solution, subtask by
    /// subtask, and within a subtask ascending by the identifier of the
    /// testcase.
    pub fn ordered_statuses(&self, task: &Task) -> (r: Vec<Entry>)
        requires
            task.wf(),
            self.wf(task),
        ensures
            r@ == statuses_in_order(*task, self@, task.subtasks@.len() as int),
    {
        let mut out: Vec<Entry> = Vec::new();
        let mut st: usize = 0;
        while st < task.subtasks.len()
            invariant
                st <= task.subtasks@.len(),
                task.wf(),
                self.wf(task),
                out@ == statuses_in_order(*task, self@, st as int),
            decreases task.subtasks@.len() - st,
        {
            let order = ids_in_order(&task.subtasks[st].testcases);
            let ghost before = out@;
            let ghost block = ordered_entries(task.testcase_ids(st as int), self@.subtasks[st as int]);
            let mut j: usize = 0;
            while j < order.len()
                invariant
                    j <= order@.len(),
                    st < task.subtasks@.len(),
                    task.wf(),
                    self.wf(task),
                    order@ == task.testcase_ids(st as int).sort_by(id_order()),
                    block == ordered_entries(task.testcase_ids(st as int), self@.subtasks[st as int]),
                    out@ == before + block.take(j as int),
                decreases order@.len() - j,
            {
                assert(task.subtasks@[st as int].id == st);
                let entry: Entry = match task.testcase_index(st as u32, order[j]) {
                    Some(k) => {
                        proof {
                            lemma_index_found(task.testcase_ids(st as int), order@[j as int]);
                            assert(self@.subtasks[st as int].len() == task.testcase_ids(
                                st as int,
                            ).len());
                        }
                        self.subtasks[st].testcases[k]
                    },
                    None => None,
                };
                out.push(entry);
                proof {
                    assert(entry == block[j as int]);
                    assert(block.take(j + 1) =~= block.take(j as int).push(block[j as int]));
                    assert(out@ =~= before + block.take(j + 1));
                }
                j = j + 1;
            }
            proof {
                assert(block.take(j as int) =~= block);
            }
            st = st + 1;
        }
        out
    }
}

} // verus!
