//! What holds of the aggregator on every task, tree and message.

use crate::lookup::{lemma_index_found, lemma_push_lookup, lemma_push_new_key};
use crate::message::{MessageView, ProtocolViolation};
use crate::score::{
    all_known, all_resolved, entries_valid, entry_valid, lemma_derived_score_bounded, resolved,
    sum_known, Entry,
};
use crate::status::{transition_allowed, CompilationStatus, TestcaseEvaluationStatus};
use crate::task::{total_max_score, SubtaskId, Task, TestcaseId};
use crate::tree::{update_spec, SolutionView, TreeView};
use crate::ui_state::{next_state, replay, verdict, StateView};
use vstd::prelude::*;

verus! {

/// Putting a state into the tree makes it the state of its solution and
/// leaves every other solution and every compilation as it was.
pub proof fn lemma_with_solution(task: Task, tree: TreeView, state: SolutionView, other: Seq<char>)
    requires
        tree.wf(task),
        state.shaped(task),
    ensures
        tree.with_solution(state).wf(task),
        tree.with_solution(state).solution(state.solution) == Some(state),
        other != state.solution ==> tree.with_solution(state).solution(other) == tree.solution(
            other,
        ),
        tree.with_solution(state).compilations == tree.compilations,
{
    let after = tree.with_solution(state);
    lemma_index_found(tree.solutions(), state.solution);
    lemma_index_found(tree.solutions(), other);
    match tree.solutions().index_of_first(state.solution) {
        Some(i) => {
            assert(after.solutions() =~= tree.solutions());
            assert(after.evaluations[i] == state);
            if other != state.solution {
                match tree.solutions().index_of_first(other) {
                    Some(j) => {
                        assert(tree.solutions()[j] == other);
                        assert(j != i);
                        assert(after.evaluations[j] == tree.evaluations[j]);
                    },
                    None => {},
                }
            }
            assert forall|j: int| 0 <= j < after.evaluations.len() implies (
            #[trigger] after.evaluations[j]).shaped(task) by {
                if j != i {
                    assert(after.evaluations[j] == tree.evaluations[j]);
                }
            }
        },
        None => {
            assert(after.solutions() =~= tree.solutions().push(state.solution));
            lemma_push_lookup(tree.solutions(), state.solution, other);
            lemma_push_new_key(tree.solutions(), state.solution);
            if other != state.solution {
                match tree.solutions().index_of_first(other) {
                    Some(j) => {
                        assert(after.evaluations[j] == tree.evaluations[j]);
                    },
                    None => {},
                }
            }
            assert forall|j: int| 0 <= j < after.evaluations.len() implies (
            #[trigger] after.evaluations[j]).shaped(task) by {
                if j < tree.evaluations.len() {
                    assert(after.evaluations[j] == tree.evaluations[j]);
                }
            }
        },
    }
    assert(after.files() =~= tree.files());
}

/// The state that a testcase status is recorded in: that of the solution,
/// or a fresh one where no event has named the solution yet.
pub open spec fn state_of(task: Task, tree: TreeView, solution: Seq<char>) -> SolutionView {
    match tree.solution(solution) {
        Some(state) => state,
        None => SolutionView::fresh(task, solution),
    }
}

/// The state of a solution fits the task and carries the name of the
/// solution, and so does the state after a status is recorded.
pub proof fn lemma_state_of(task: Task, tree: TreeView, solution: Seq<char>)
    requires
        tree.wf(task),
    ensures
        state_of(task, tree, solution).shaped(task),
        state_of(task, tree, solution).solution == solution,
        tree.solution(solution) is None ==> forall|subtask: SubtaskId, testcase: TestcaseId|
            (#[trigger] state_of(task, tree, solution).status(task, subtask, testcase)) is None,
{
    lemma_index_found(tree.solutions(), solution);
    let state = state_of(task, tree, solution);
    if tree.solution(solution) is None {
        assert forall|subtask: SubtaskId, testcase: TestcaseId|
            (#[trigger] state.status(task, subtask, testcase)) is None by {
            if subtask < task.subtasks@.len() {
                lemma_index_found(task.testcase_ids(subtask as int), testcase);
            }
        }
        assert forall|st: int| 0 <= st < state.subtasks.len() implies (
        #[trigger] state.subtasks[st]).len() == task.testcase_ids(st).len() && entries_valid(
            state.subtasks[st],
        ) by {}
    }
}

/// Recording a well formed status keeps a state in the shape of the task.
pub proof fn lemma_record_shaped(
    task: Task,
    state: SolutionView,
    subtask: int,
    index: int,
    status: TestcaseEvaluationStatus,
)
    requires
        state.shaped(task),
        status.valid(),
        0 <= subtask < state.subtasks.len(),
        0 <= index < state.subtasks[subtask].len(),
    ensures
        state.record(subtask, index, status).shaped(task),
        state.record(subtask, index, status).solution == state.solution,
{
    let after = state.record(subtask, index, status);
    assert forall|st: int| 0 <= st < after.subtasks.len() implies (
    #[trigger] after.subtasks[st]).len() == task.testcase_ids(st).len() && entries_valid(
        after.subtasks[st],
    ) by {
        assert(state.subtasks[st].len() == task.testcase_ids(st).len());
        assert(entries_valid(state.subtasks[st]));
        if st == subtask {
            assert forall|k: int| 0 <= k < after.subtasks[st].len() implies entry_valid(
                #[trigger] after.subtasks[st][k],
            ) by {
                if k != index {
                    assert(after.subtasks[st][k] == state.subtasks[st][k]);
                }
            }
        }
    }
}

/// A message that the tree accepts leaves it well formed.
pub proof fn lemma_update_keeps_wf(task: Task, tree: TreeView, message: MessageView)
    requires
        task.wf(),
        tree.wf(task),
    ensures
        update_spec(task, tree, message) matches Ok(after) ==> after.wf(task),
{
    match message {
        MessageView::Warning { .. } => {},
        MessageView::CompilationStatus { file, status } => {
            lemma_compilation_last_write_wins(task, tree, file, status, file);
        },
        MessageView::TestcaseStatus { solution, subtask, testcase, status } => {
            if update_spec(task, tree, message) is Ok {
                let index = task.testcase_ids(subtask as int).index_of_first(testcase)->0;
                lemma_index_found(task.testcase_ids(subtask as int), testcase);
                lemma_state_of(task, tree, solution);
                let state = state_of(task, tree, solution);
                assert(state.subtasks[subtask as int].len() == task.testcase_ids(
                    subtask as int,
                ).len());
                lemma_record_shaped(task, state, subtask as int, index, status);
                lemma_with_solution(
                    task,
                    tree,
                    state.record(subtask as int, index, status),
                    solution,
                );
            }
        },
    }
}

/// Compilation is last-write-wins: a compilation status is always accepted
/// and replaces whatever was recorded for the file, be it terminal or not.
/// Every other file and every solution stay as they were.
pub proof fn lemma_compilation_last_write_wins(
    task: Task,
    tree: TreeView,
    file: Seq<char>,
    status: CompilationStatus,
    other: Seq<char>,
)
    requires
        tree.wf(task),
    ensures
        update_spec(task, tree, MessageView::CompilationStatus { file, status }) == Ok::<
            TreeView,
            ProtocolViolation,
        >(tree.with_compilation(file, status)),
        tree.with_compilation(file, status).wf(task),
        tree.with_compilation(file, status).compilation(file) == Some(status),
        other != file ==> tree.with_compilation(file, status).compilation(other)
            == tree.compilation(other),
        tree.with_compilation(file, status).evaluations == tree.evaluations,
{
    let after = tree.with_compilation(file, status);
    lemma_index_found(tree.files(), file);
    lemma_index_found(tree.files(), other);
    match tree.files().index_of_first(file) {
        Some(i) => {
            assert(after.files() =~= tree.files());
            if other != file {
                match tree.files().index_of_first(other) {
                    Some(j) => {
                        assert(tree.files()[j] == other);
                        assert(j != i);
                    },
                    None => {},
                }
            }
        },
        None => {
            assert(after.files() =~= tree.files().push(file));
            lemma_push_lookup(tree.files(), file, other);
            lemma_push_new_key(tree.files(), file);
        },
    }
    assert(after.solutions() =~= tree.solutions());
}

/// Before any event everything is unknown: no compilation has a status, no
/// testcase has one, and no score is known. Unknown is not zero.
pub proof fn lemma_nothing_known_at_start(
    task: Task,
    file: Seq<char>,
    solution: Seq<char>,
    subtask: SubtaskId,
    testcase: TestcaseId,
)
    ensures
        TreeView::empty().wf(task),
        TreeView::empty().compilation(file) is None,
        TreeView::empty().status(task, solution, subtask, testcase) is None,
        TreeView::empty().subtask_score(task, solution, subtask) is None,
        TreeView::empty().solution_score(task, solution) is None,
{
    let tree = TreeView::empty();
    lemma_index_found(tree.files(), file);
    lemma_index_found(tree.solutions(), solution);
}

/// A testcase status that the tree accepts is what a query for the testcase
/// returns afterwards, and a query for any other testcase or solution
/// returns what it returned before. So a testcase that no event has named
/// stays unknown, and one that was answered wrongly has a known
/// contribution of zero.
pub proof fn lemma_status_recorded(
    task: Task,
    tree: TreeView,
    solution: Seq<char>,
    subtask: SubtaskId,
    testcase: TestcaseId,
    status: TestcaseEvaluationStatus,
    other_solution: Seq<char>,
    other_subtask: SubtaskId,
    other_testcase: TestcaseId,
)
    requires
        task.wf(),
        tree.wf(task),
        update_spec(
            task,
            tree,
            MessageView::TestcaseStatus { solution, subtask, testcase, status },
        ) is Ok,
    ensures
        ({
            let after = update_spec(
                task,
                tree,
                MessageView::TestcaseStatus { solution, subtask, testcase, status },
            )->Ok_0;
            &&& after.status(task, solution, subtask, testcase) == Some(status)
            &&& (other_solution != solution || other_subtask != subtask || other_testcase
                != testcase) ==> after.status(task, other_solution, other_subtask, other_testcase)
                == tree.status(task, other_solution, other_subtask, other_testcase)
            &&& after.compilations == tree.compilations
        }),
{
    let ids = task.testcase_ids(subtask as int);
    let index = ids.index_of_first(testcase)->0;
    lemma_index_found(ids, testcase);
    lemma_state_of(task, tree, solution);
    let state = state_of(task, tree, solution);
    assert(state.subtasks[subtask as int].len() == ids.len());
    let recorded = state.record(subtask as int, index, status);
    lemma_record_shaped(task, state, subtask as int, index, status);
    lemma_with_solution(task, tree, recorded, other_solution);
    lemma_with_solution(task, tree, recorded, solution);
    let after = tree.with_solution(recorded);
    assert(after.status(task, solution, subtask, testcase) == Some(status));
    if other_solution == solution && (other_subtask != subtask || other_testcase != testcase) {
        if other_subtask < task.subtasks@.len() {
            let other_ids = task.testcase_ids(other_subtask as int);
            lemma_index_found(other_ids, other_testcase);
            match other_ids.index_of_first(other_testcase) {
                Some(k) => {
                    if other_subtask == subtask {
                        assert(k != index);
                    }
                    assert(recorded.subtasks[other_subtask as int][k]
                        == state.subtasks[other_subtask as int][k]);
                },
                None => {},
            }
        }
        assert(recorded.status(task, other_subtask, other_testcase) == state.status(
            task,
            other_subtask,
            other_testcase,
        ));
    }
}

/// A terminal status is final: once a testcase is resolved, every further
/// status for it is refused as a violation, and the aggregator keeps the
/// tree as it was and aborts the run.
pub proof fn lemma_terminal_status_is_final(
    task: Task,
    state: StateView,
    solution: Seq<char>,
    subtask: SubtaskId,
    testcase: TestcaseId,
    status: TestcaseEvaluationStatus,
)
    requires
        resolved(state.tree.status(task, solution, subtask, testcase)),
    ensures
        ({
            let message = MessageView::TestcaseStatus { solution, subtask, testcase, status };
            &&& update_spec(task, state.tree, message) is Err
            &&& status.valid() ==> update_spec(task, state.tree, message) == Err::<
                TreeView,
                ProtocolViolation,
            >(ProtocolViolation::AlreadyTerminal)
            &&& verdict(task, state, message) is Err
            &&& next_state(task, state, message).tree == state.tree
        }),
{
}

/// The score of a subtask is final: once it is known, no message that the
/// tree accepts changes it.
pub proof fn lemma_subtask_score_is_final(
    task: Task,
    tree: TreeView,
    message: MessageView,
    solution: Seq<char>,
    subtask: SubtaskId,
)
    requires
        task.wf(),
        tree.wf(task),
        tree.subtask_score(task, solution, subtask) is Some,
        update_spec(task, tree, message) is Ok,
    ensures
        update_spec(task, tree, message)->Ok_0.subtask_score(task, solution, subtask)
            == tree.subtask_score(task, solution, subtask),
{
    let after = update_spec(task, tree, message)->Ok_0;
    match message {
        MessageView::Warning { .. } => {},
        MessageView::CompilationStatus { file, status } => {
            lemma_compilation_last_write_wins(task, tree, file, status, file);
            assert(after.solutions() =~= tree.solutions());
        },
        MessageView::TestcaseStatus { solution: named, subtask: st, testcase, status } => {
            let ids = task.testcase_ids(st as int);
            let index = ids.index_of_first(testcase)->0;
            lemma_index_found(ids, testcase);
            lemma_state_of(task, tree, named);
            let state = state_of(task, tree, named);
            assert(state.subtasks[st as int].len() == ids.len());
            let recorded = state.record(st as int, index, status);
            lemma_record_shaped(task, state, st as int, index, status);
            lemma_with_solution(task, tree, recorded, solution);
            if named == solution {
                assert(tree.solution(solution) == Some(state));
                if st == subtask {
                    assert(all_resolved(state.subtasks[st as int]));
                    assert(resolved(state.subtasks[st as int][index]));
                } else {
                    assert(recorded.subtasks[subtask as int] == state.subtasks[subtask as int]);
                }
            }
        },
    }
}

/// The score of a solution, once known, is the sum of the scores of its
/// subtasks, each of which is known.
pub proof fn lemma_solution_score_is_sum(task: Task, tree: TreeView, solution: Seq<char>)
    requires
        task.wf(),
        tree.wf(task),
        tree.solution_score(task, solution) is Some,
    ensures
        ({
            let scores = Seq::new(
                task.subtasks@.len(),
                |st: int| tree.subtask_score(task, solution, st as SubtaskId),
            );
            &&& all_known(scores)
            &&& tree.solution_score(task, solution) == Some(sum_known(scores))
        }),
{
    lemma_index_found(tree.solutions(), solution);
    let state = tree.solution(solution)->0;
    let scores = Seq::new(
        task.subtasks@.len(),
        |st: int| tree.subtask_score(task, solution, st as SubtaskId),
    );
    assert forall|st: int| 0 <= st < task.subtasks@.len() implies #[trigger] scores[st]
        == state.subtask_scores(task)[st] by {
        assert(task.subtasks@[st].id == st);
    }
    assert(scores =~= state.subtask_scores(task));
}

/// Whether a testcase status is accepted depends on the task, on the status
/// and on what is recorded for the testcase, and on nothing else.
pub open spec fn accepted(
    task: Task,
    current: Entry,
    subtask: SubtaskId,
    testcase: TestcaseId,
    status: TestcaseEvaluationStatus,
) -> bool {
    &&& subtask < task.subtasks@.len()
    &&& task.testcase_ids(subtask as int).index_of_first(testcase) is Some
    &&& status.valid()
    &&& !resolved(current)
    &&& transition_allowed(current, status)
}

/// A testcase status is accepted exactly when the task has the testcase, the
/// status is well formed, and the lifecycle of the testcase allows it.
pub proof fn lemma_acceptance(
    task: Task,
    tree: TreeView,
    solution: Seq<char>,
    subtask: SubtaskId,
    testcase: TestcaseId,
    status: TestcaseEvaluationStatus,
)
    requires
        tree.wf(task),
    ensures
        update_spec(
            task,
            tree,
            MessageView::TestcaseStatus { solution, subtask, testcase, status },
        ) is Ok <==> accepted(
            task,
            tree.status(task, solution, subtask, testcase),
            subtask,
            testcase,
            status,
        ),
{
    lemma_state_of(task, tree, solution);
    if subtask < task.subtasks@.len() {
        lemma_index_found(task.testcase_ids(subtask as int), testcase);
    }
}

/// Events for different testcases may arrive in either order: both orders
/// are accepted or neither is, and where they are accepted they lead to the
/// same status for every testcase and to the same compilations.
pub proof fn lemma_independent_statuses_commute(
    task: Task,
    tree: TreeView,
    first: MessageView,
    second: MessageView,
    solution: Seq<char>,
    subtask: SubtaskId,
    testcase: TestcaseId,
)
    requires
        task.wf(),
        tree.wf(task),
        first is TestcaseStatus,
        second is TestcaseStatus,
        first->solution != second->solution || first->subtask != second->subtask
            || first->testcase != second->testcase,
    ensures
        ({
            let one_way = match update_spec(task, tree, first) {
                Ok(after) => update_spec(task, after, second),
                Err(violation) => Err(violation),
            };
            let other_way = match update_spec(task, tree, second) {
                Ok(after) => update_spec(task, after, first),
                Err(violation) => Err(violation),
            };
            &&& one_way is Ok <==> other_way is Ok
            &&& one_way is Ok ==> one_way->Ok_0.status(task, solution, subtask, testcase)
                == other_way->Ok_0.status(task, solution, subtask, testcase)
            &&& one_way is Ok ==> one_way->Ok_0.compilations == other_way->Ok_0.compilations
        }),
{
    let (s1, st1, tc1, x1) = (
        first->solution,
        first->subtask,
        first->testcase,
        first->TestcaseStatus_status,
    );
    let (s2, st2, tc2, x2) = (
        second->solution,
        second->subtask,
        second->testcase,
        second->TestcaseStatus_status,
    );
    assert(first == MessageView::TestcaseStatus {
        solution: s1,
        subtask: st1,
        testcase: tc1,
        status: x1,
    });
    assert(second == MessageView::TestcaseStatus {
        solution: s2,
        subtask: st2,
        testcase: tc2,
        status: x2,
    });
    lemma_acceptance(task, tree, s1, st1, tc1, x1);
    lemma_acceptance(task, tree, s2, st2, tc2, x2);
    lemma_update_keeps_wf(task, tree, first);
    lemma_update_keeps_wf(task, tree, second);
    if update_spec(task, tree, first) is Ok {
        let after = update_spec(task, tree, first)->Ok_0;
        lemma_status_recorded(task, tree, s1, st1, tc1, x1, s2, st2, tc2);
        lemma_acceptance(task, after, s2, st2, tc2, x2);
        if update_spec(task, after, second) is Ok {
            lemma_status_recorded(task, tree, s1, st1, tc1, x1, solution, subtask, testcase);
            lemma_status_recorded(task, after, s2, st2, tc2, x2, solution, subtask, testcase);
            lemma_status_recorded(task, after, s2, st2, tc2, x2, s1, st1, tc1);
        }
    }
    if update_spec(task, tree, second) is Ok {
        let after = update_spec(task, tree, second)->Ok_0;
        lemma_status_recorded(task, tree, s2, st2, tc2, x2, s1, st1, tc1);
        lemma_acceptance(task, after, s1, st1, tc1, x1);
        if update_spec(task, after, first) is Ok {
            lemma_status_recorded(task, tree, s2, st2, tc2, x2, solution, subtask, testcase);
            lemma_status_recorded(task, after, s1, st1, tc1, x1, solution, subtask, testcase);
            lemma_status_recorded(task, after, s1, st1, tc1, x1, s2, st2, tc2);
        }
    }
}

/// The diagnostics channel is append-only: a message adds at most one entry
/// at its end and changes no earlier one.
pub proof fn lemma_diagnostics_only_grow(task: Task, state: StateView, message: MessageView)
    ensures
        state.diagnostics.is_prefix_of(next_state(task, state, message).diagnostics),
        next_state(task, state, message).diagnostics.len() <= state.diagnostics.len() + 1,
{
}

/// Whatever the messages of a run, the entries that the diagnostics channel
/// held before the run are its first entries after it.
pub proof fn lemma_replay_keeps_diagnostics(
    task: Task,
    state: StateView,
    messages: Seq<MessageView>,
)
    ensures
        state.diagnostics.is_prefix_of(replay(task, state, messages).diagnostics),
    decreases messages.len(),
{
    if messages.len() > 0 {
        lemma_replay_keeps_diagnostics(task, state, messages.drop_last());
        lemma_diagnostics_only_grow(
            task,
            replay(task, state, messages.drop_last()),
            messages.last(),
        );
    }
}

/// The known scores of the first `count` subtasks sum to at most the sum of
/// the maximum scores of these subtasks.
proof fn lemma_partial_sum_bounded(task: Task, state: SolutionView, count: int)
    requires
        state.shaped(task),
        0 <= count <= task.subtasks@.len(),
    ensures
        sum_known(state.subtask_scores(task).take(count)) <= total_max_score(
            task.subtasks@.take(count),
        ),
    decreases count,
{
    if count > 0 {
        lemma_partial_sum_bounded(task, state, count - 1);
        let scores = state.subtask_scores(task);
        assert(scores.take(count).drop_last() =~= scores.take(count - 1));
        assert(task.subtasks@.take(count).drop_last() =~= task.subtasks@.take(count - 1));
        lemma_derived_score_bounded(
            task.subtasks@[count - 1].max_score,
            state.subtasks[count - 1],
        );
    }
}

/// No score exceeds its maximum: the score of a subtask is at most the
/// maximum score of the subtask, and the score of a solution is at most the
/// maximum score of the task.
pub proof fn lemma_scores_bounded(
    task: Task,
    tree: TreeView,
    solution: Seq<char>,
    subtask: SubtaskId,
)
    requires
        tree.wf(task),
    ensures
        tree.subtask_score(task, solution, subtask) matches Some(score) ==> score
            <= task.subtasks@[subtask as int].max_score,
        tree.solution_score(task, solution) matches Some(total) ==> total <= total_max_score(
            task.subtasks@,
        ),
{
    lemma_index_found(tree.solutions(), solution);
    match tree.solution(solution) {
        Some(state) => {
            if subtask < task.subtasks@.len() {
                lemma_derived_score_bounded(
                    task.subtasks@[subtask as int].max_score,
                    state.subtasks[subtask as int],
                );
            }
            lemma_partial_sum_bounded(task, state, task.subtasks@.len() as int);
            let scores = state.subtask_scores(task);
            assert(scores.take(task.subtasks@.len() as int) =~= scores);
            assert(task.subtasks@.take(task.subtasks@.len() as int) =~= task.subtasks@);
        },
        None => {},
    }
}

} // verus!
