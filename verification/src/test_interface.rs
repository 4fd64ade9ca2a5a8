//! Expectations about a run, and the comparison of a run with them.

use crate::lookup::{lemma_first_index, lemma_no_index};
use crate::message::{message_views, MessageView, ProtocolViolation, UIMessage};
use crate::order::statuses_in_order;
use crate::paths::{file_name, file_name_of};
use crate::score::Entry;
use crate::status::{CompilationStatus, TestcaseEvaluationStatus};
use crate::task::{total_max_score, Task};
use crate::tree::{ResultTree, SolutionEvaluationState, SolutionView, TreeView};
use crate::ui_state::{first_violation, replay, Phase, StateView, UIState};
use vstd::prelude::*;

verus! {

/// The first expectation that a run does not meet.
#[derive(Clone, Copy, Debug, PartialEq, Eq, Structural)]
pub enum TestFailure {
    /// A message of the run was refused.
    Protocol(ProtocolViolation),
    /// The time limit of the task is not the expected one.
    WrongTimeLimit,
    /// The memory limit of the task is not the expected one.
    WrongMemoryLimit,
    /// The maximum score of the task is not the expected one.
    WrongMaxScore,
    /// The file at `index` of `must_compile` has no compilation.
    MissingCompilation { index: usize },
    /// The file at `index` of `must_compile` was not compiled successfully.
    NotCompiled { index: usize },
    /// The file at `index` of `must_not_compile` has no compilation.
    MissingFailedCompilation { index: usize },
    /// The compilation of the file at `index` of `must_not_compile` did not
    /// fail.
    NotFailed { index: usize },
    /// The file at `index` of `not_compiled` has a compilation.
    UnexpectedCompilation { index: usize },
    /// The task does not have the expected number of subtasks.
    SubtaskCountMismatch,
    /// The maximum score of a subtask is not the expected one.
    SubtaskScoreMismatch { subtask: usize },
    /// The solution at `index` of `solution_scores` has no state.
    MissingSolution { index: usize },
    /// The score of the solution at `index` of `solution_scores` is unknown.
    UnknownSolutionScore { index: usize },
    /// The score of the solution at `index` of `solution_scores` is not the
    /// sum of the expected subtask scores.
    SolutionScoreMismatch { index: usize },
    /// The solution at `index` of `solution_scores` does not have the
    /// expected number of subtasks.
    SolutionSubtaskCountMismatch { index: usize },
    /// A subtask score of the solution at `index` of `solution_scores` is not
    /// the expected one.
    SolutionSubtaskScoreMismatch { index: usize, subtask: usize },
    /// The solution at `index` of `solution_statuses` has no state.
    MissingSolutionStatuses { index: usize },
    /// No status is expected of the solution at `index` of
    /// `solution_statuses`, but the solution has testcases.
    NoExpectedStatus { index: usize },
    /// The status at `position` of the solution at `index` of
    /// `solution_statuses` is not the expected one.
    SolutionStatusMismatch { index: usize, position: usize },
}

/// The subtask scores that a solution is expected to reach.
#[derive(Debug)]
pub struct ExpectedScores {
    /// The file name of the solution.
    pub solution: String,
    /// The expected score of each subtask.
    pub scores: Vec<u64>,
}

/// The statuses that a solution is expected to show.
#[derive(Debug)]
pub struct ExpectedStatuses {
    /// The file name of the solution.
    pub solution: String,
    /// The expected statuses, testcase by testcase; the last one is expected
    /// of every further testcase.
    pub statuses: Vec<TestcaseEvaluationStatus>,
}

/// What a run of a task is expected to show.
#[derive(Debug)]
pub struct TestInterface {
    /// The path to the task directory.
    pub path: String,
    /// The time limit of the task, in microseconds.
    pub time_limit: Option<u64>,
    /// The memory limit of the task, in bytes.
    pub memory_limit: Option<u64>,
    /// The maximum score of the task.
    pub max_score: Option<u64>,
    /// The names of the files that must compile.
    pub must_compile: Vec<String>,
    /// The names of the files that must fail to compile.
    pub must_not_compile: Vec<String>,
    /// The names of the files that must not be compiled.
    pub not_compiled: Vec<String>,
    /// The maximum scores of the subtasks.
    pub subtask_scores: Option<Vec<u64>>,
    /// The subtask scores of the solutions.
    pub solution_scores: Vec<ExpectedScores>,
    /// The statuses of the solutions.
    pub solution_statuses: Vec<ExpectedStatuses>,
}

/// The first failure of a sequence of checks, each of which passed (`None`)
/// or failed.
pub open spec fn first_failure(checks: Seq<Option<TestFailure>>) -> Option<TestFailure>
    decreases checks.len(),
{
    if checks.len() == 0 {
        None
    } else if checks[0] is Some {
        checks[0]
    } else {
        first_failure(checks.drop_first())
    }
}

/// The first of two failures.
pub open spec fn or_failure(first: Option<TestFailure>, second: Option<TestFailure>) -> Option<
    TestFailure,
> {
    if first is Some {
        first
    } else {
        second
    }
}

/// The result that reports `failure`.
pub open spec fn outcome(failure: Option<TestFailure>) -> Result<(), TestFailure> {
    match failure {
        Some(f) => Err(f),
        None => Ok(()),
    }
}

/// A failed check with none before it is the first failure.
pub proof fn lemma_first_failure_at(checks: Seq<Option<TestFailure>>, i: int)
    requires
        0 <= i < checks.len(),
        checks[i] is Some,
        forall|j: int| 0 <= j < i ==> checks[j] is None,
    ensures
        first_failure(checks) == checks[i],
    decreases i,
{
    if i > 0 {
        let rest = checks.drop_first();
        assert(rest[i - 1] == checks[i]);
        assert forall|j: int| 0 <= j < i - 1 implies rest[j] is None by {
            assert(rest[j] == checks[j + 1]);
        }
        lemma_first_failure_at(rest, i - 1);
    }
}

/// Where every check passes there is no failure.
pub proof fn lemma_no_failure(checks: Seq<Option<TestFailure>>)
    requires
        forall|j: int| 0 <= j < checks.len() ==> checks[j] is None,
    ensures
        first_failure(checks) is None,
    decreases checks.len(),
{
    if checks.len() > 0 {
        let rest = checks.drop_first();
        assert forall|j: int| 0 <= j < rest.len() implies rest[j] is None by {
            assert(rest[j] == checks[j + 1]);
        }
        lemma_no_failure(rest);
    }
}

/// The solutions that `expected` names.
pub open spec fn score_names(expected: Seq<ExpectedScores>) -> Seq<Seq<char>> {
    Seq::new(expected.len(), |i: int| expected[i].solution@)
}

/// The solutions that `expected` names.
pub open spec fn status_names(expected: Seq<ExpectedStatuses>) -> Seq<Seq<char>> {
    Seq::new(expected.len(), |i: int| expected[i].solution@)
}

/// The file names of the compilations of `tree`.
pub open spec fn compiled_names(tree: TreeView) -> Seq<Seq<char>> {
    Seq::new(tree.compilations.len(), |i: int| file_name_of(tree.compilations[i].0))
}

/// The status of the first compilation of `tree` whose file is named `name`.
pub open spec fn compilation_named(tree: TreeView, name: Seq<char>) -> Option<CompilationStatus> {
    match compiled_names(tree).index_of_first(name) {
        Some(i) => Some(tree.compilations[i].1),
        None => None,
    }
}

/// The file names of the solutions of `tree`.
pub open spec fn solution_names(tree: TreeView) -> Seq<Seq<char>> {
    Seq::new(tree.evaluations.len(), |i: int| file_name_of(tree.evaluations[i].solution))
}

/// The state of the first solution of `tree` whose file is named `name`.
pub open spec fn solution_named(tree: TreeView, name: Seq<char>) -> Option<SolutionView> {
    match solution_names(tree).index_of_first(name) {
        Some(i) => Some(tree.evaluations[i]),
        None => None,
    }
}

/// A file that must compile has a compilation, and it is done.
pub open spec fn must_compile_check(tree: TreeView, name: Seq<char>, index: int) -> Option<
    TestFailure,
> {
    match compilation_named(tree, name) {
        None => Some(TestFailure::MissingCompilation { index: index as usize }),
        Some(CompilationStatus::Done { .. }) => None,
        Some(_) => Some(TestFailure::NotCompiled { index: index as usize }),
    }
}

/// A file that must not compile has a compilation, and it failed.
pub open spec fn must_not_compile_check(tree: TreeView, name: Seq<char>, index: int) -> Option<
    TestFailure,
> {
    match compilation_named(tree, name) {
        None => Some(TestFailure::MissingFailedCompilation { index: index as usize }),
        Some(CompilationStatus::Failed { .. }) => None,
        Some(_) => Some(TestFailure::NotFailed { index: index as usize }),
    }
}

/// A file that must not be compiled has no compilation.
pub open spec fn not_compiled_check(tree: TreeView, name: Seq<char>, index: int) -> Option<
    TestFailure,
> {
    match compilation_named(tree, name) {
        None => None,
        Some(_) => Some(TestFailure::UnexpectedCompilation { index: index as usize }),
    }
}

/// Each subtask has the expected maximum score.
pub open spec fn subtask_checks(scores: Seq<u64>, task: Task) -> Seq<Option<TestFailure>> {
    Seq::new(
        scores.len(),
        |i: int|
            if scores[i] != task.subtasks@[i].max_score {
                Some(TestFailure::SubtaskScoreMismatch { subtask: i as usize })
            } else {
                None
            },
    )
}

/// The sum of the expected scores.
pub open spec fn expected_total(scores: Seq<u64>) -> nat
    decreases scores.len(),
{
    if scores.len() == 0 {
        0
    } else {
        expected_total(scores.drop_last()) + scores.last() as nat
    }
}

/// Each subtask score of a solution is the expected one.
pub open spec fn subtask_score_checks(
    task: Task,
    state: SolutionView,
    scores: Seq<u64>,
    index: int,
) -> Seq<Option<TestFailure>> {
    Seq::new(
        scores.len(),
        |st: int|
            if state.subtask_score(task, st) != Some(scores[st]) {
                Some(
                    TestFailure::SolutionSubtaskScoreMismatch {
                        index: index as usize,
                        subtask: st as usize,
                    },
                )
            } else {
                None
            },
    )
}

/// The solution named `name` has a state, its score is known and is the sum
/// of the expected scores, and each subtask has the expected score.
pub open spec fn scores_check(
    task: Task,
    tree: TreeView,
    name: Seq<char>,
    scores: Seq<u64>,
    index: int,
) -> Option<TestFailure> {
    match solution_named(tree, name) {
        None => Some(TestFailure::MissingSolution { index: index as usize }),
        Some(state) => match state.score(task) {
            None => Some(TestFailure::UnknownSolutionScore { index: index as usize }),
            Some(total) => if total != expected_total(scores) {
                Some(TestFailure::SolutionScoreMismatch { index: index as usize })
            } else if scores.len() != state.subtasks.len() {
                Some(TestFailure::SolutionSubtaskCountMismatch { index: index as usize })
            } else {
                first_failure(subtask_score_checks(task, state, scores, index))
            },
        },
    }
}

/// The status that is expected at `position`: the one listed there, or the
/// last one listed where the list is shorter.
pub open spec fn expected_status(
    statuses: Seq<TestcaseEvaluationStatus>,
    position: int,
) -> TestcaseEvaluationStatus {
    if position < statuses.len() {
        statuses[position]
    } else {
        statuses[statuses.len() - 1]
    }
}

/// Each testcase of a solution shows the expected status.
pub open spec fn status_checks(
    actual: Seq<Entry>,
    statuses: Seq<TestcaseEvaluationStatus>,
    index: int,
) -> Seq<Option<TestFailure>> {
    Seq::new(
        actual.len(),
        |position: int|
            if statuses.len() == 0 {
                Some(TestFailure::NoExpectedStatus { index: index as usize })
            } else if actual[position] != Some(expected_status(statuses, position)) {
                Some(
                    TestFailure::SolutionStatusMismatch {
                        index: index as usize,
                        position: position as usize,
                    },
                )
            } else {
                None
            },
    )
}

/// The solution named `name` has a state, and its testcases, subtask by
/// subtask and ascending by identifier, show the expected statuses.
pub open spec fn statuses_check(
    task: Task,
    tree: TreeView,
    name: Seq<char>,
    statuses: Seq<TestcaseEvaluationStatus>,
    index: int,
) -> Option<TestFailure> {
    match solution_named(tree, name) {
        None => Some(TestFailure::MissingSolutionStatuses { index: index as usize }),
        Some(state) => first_failure(
            status_checks(
                statuses_in_order(task, state, task.subtasks@.len() as int),
                statuses,
                index,
            ),
        ),
    }
}

/// The status of the first compilation of `tree` whose file is named `name`.
fn find_compilation_named(tree: &ResultTree, name: &String) -> (r: Option<CompilationStatus>)
    ensures
        r == compilation_named(tree@, name@),
{
    let mut i: usize = 0;
    while i < tree.compilations.len()
        invariant
            i <= tree.compilations@.len(),
            forall|a: int| 0 <= a < i ==> compiled_names(tree@)[a] != name@,
        decreases tree.compilations@.len() - i,
    {
        let candidate = file_name(tree.compilations[i].file.as_str());
        if candidate == *name {
            proof {
                lemma_first_index(compiled_names(tree@), name@, i as int);
            }
            return Some(tree.compilations[i].status);
        }
        i = i + 1;
    }
    proof {
        lemma_no_index(compiled_names(tree@), name@);
    }
    None
}

/// The position of the first solution of `tree` whose file is named `name`.
fn find_solution_named(tree: &ResultTree, name: &String) -> (r: Option<usize>)
    ensures
        match r {
            Some(i) => i < tree.evaluations@.len() && solution_named(tree@, name@) == Some(
                tree@.evaluations[i as int],
            ),
            None => solution_named(tree@, name@) is None,
        },
{
    let mut i: usize = 0;
    while i < tree.evaluations.len()
        invariant
            i <= tree.evaluations@.len(),
            forall|a: int| 0 <= a < i ==> solution_names(tree@)[a] != name@,
        decreases tree.evaluations@.len() - i,
    {
        let candidate = file_name(tree.evaluations[i].solution.as_str());
        if candidate == *name {
            proof {
                lemma_first_index(solution_names(tree@), name@, i as int);
            }
            return Some(i);
        }
        i = i + 1;
    }
    proof {
        lemma_no_index(solution_names(tree@), name@);
    }
    None
}

impl TestInterface {
    /// The expectations of the task at `path`: none yet.
    pub fn new(path: String) -> (r: TestInterface)
        ensures
            r.path == path,
            r.time_limit is None,
            r.memory_limit is None,
            r.max_score is None,
            r.must_compile@.len() == 0,
            r.must_not_compile@.len() == 0,
            r.not_compiled@.len() == 0,
            r.subtask_scores is None,
            r.solution_scores@.len() == 0,
            r.solution_statuses@.len() == 0,
    {
        TestInterface {
            path,
            time_limit: None,
            memory_limit: None,
            max_score: None,
            must_compile: Vec::new(),
            must_not_compile: Vec::new(),
            not_compiled: Vec::new(),
            subtask_scores: None,
            solution_scores: Vec::new(),
            solution_statuses: Vec::new(),
        }
    }

    /// Expects the time limit `time_limit`, in microseconds.
    pub fn time_limit(&mut self, time_limit: u64) -> (r: &mut Self)
        ensures
            *r == (TestInterface { time_limit: Some(time_limit), ..*old(self) }),
            *final(self) == *final(r),
    {
        self.time_limit = Some(time_limit);
        self
    }

    /// Expects the memory limit `memory_limit`, in bytes.
    pub fn memory_limit(&mut self, memory_limit: u64) -> (r: &mut Self)
        ensures
            *r == (TestInterface { memory_limit: Some(memory_limit), ..*old(self) }),
            *final(self) == *final(r),
    {
        self.memory_limit = Some(memory_limit);
        self
    }

    /// Expects the maximum score `max_score` of the task.
    pub fn max_score(&mut self, max_score: u64) -> (r: &mut Self)
        ensures
            *r == (TestInterface { max_score: Some(max_score), ..*old(self) }),
            *final(self) == *final(r),
    {
        self.max_score = Some(max_score);
        self
    }

    /// Expects the file named `source` to compile.
    pub fn must_compile(&mut self, source: String) -> (r: &mut Self)
        ensures
            r.must_compile@ == old(self).must_compile@.push(source),
            *r == (TestInterface { must_compile: r.must_compile, ..*old(self) }),
            *final(self) == *final(r),
    {
        self.must_compile.push(source);
        self
    }

    /// Expects the file named `source` to fail to compile.
    pub fn must_not_compile(&mut self, source: String) -> (r: &mut Self)
        ensures
            r.must_not_compile@ == old(self).must_not_compile@.push(source),
            *r == (TestInterface { must_not_compile: r.must_not_compile, ..*old(self) }),
            *final(self) == *final(r),
    {
        self.must_not_compile.push(source);
        self
    }

    /// Expects the file named `source` not to be compiled.
    pub fn not_compiled(&mut self, source: String) -> (r: &mut Self)
        ensures
            r.not_compiled@ == old(self).not_compiled@.push(source),
            *r == (TestInterface { not_compiled: r.not_compiled, ..*old(self) }),
            *final(self) == *final(r),
    {
        self.not_compiled.push(source);
        self
    }

    /// Expects the subtasks to have the maximum scores `scores`.
    pub fn subtask_scores(&mut self, scores: Vec<u64>) -> (r: &mut Self)
        ensures
            *r == (TestInterface { subtask_scores: Some(scores), ..*old(self) }),
            *final(self) == *final(r),
    {
        self.subtask_scores = Some(scores);
        self
    }

    /// Expects the solution named `solution` to reach the subtask scores
    /// `scores`. Where scores are expected of the solution already, they
    /// stay.
    pub fn solution_score(&mut self, solution: String, scores: Vec<u64>) -> (r: &mut Self)
        ensures
            r.solution_scores@ == (if score_names(old(self).solution_scores@).contains(solution@) {
                old(self).solution_scores@
            } else {
                old(self).solution_scores@.push(ExpectedScores { solution, scores })
            }),
            *r == (TestInterface { solution_scores: r.solution_scores, ..*old(self) }),
            *final(self) == *final(r),
    {
        let mut i: usize = 0;
        let mut known: bool = false;
        while i < self.solution_scores.len()
            invariant
                i <= self.solution_scores@.len(),
                *self == *old(self),
                known == exists|a: int|
                    0 <= a < i && #[trigger] score_names(self.solution_scores@)[a] == solution@,
            decreases self.solution_scores@.len() - i,
        {
            if self.solution_scores[i].solution == solution {
                assert(score_names(self.solution_scores@)[i as int] == solution@);
                known = true;
            }
            i = i + 1;
        }
        if !known {
            self.solution_scores.push(ExpectedScores { solution, scores });
        }
        self
    }

    /// Expects the statuses of the solution named `solution` to start with
    /// `statuses`. Where statuses are expected of the solution already, they
    /// stay.
    pub fn solution_statuses(
        &mut self,
        solution: String,
        statuses: Vec<TestcaseEvaluationStatus>,
    ) -> (r: &mut Self)
        ensures
            r.solution_statuses@ == (if status_names(old(self).solution_statuses@).contains(
                solution@,
            ) {
                old(self).solution_statuses@
            } else {
                old(self).solution_statuses@.push(ExpectedStatuses { solution, statuses })
            }),
            *r == (TestInterface { solution_statuses: r.solution_statuses, ..*old(self) }),
            *final(self) == *final(r),
    {
        let mut i: usize = 0;
        let mut known: bool = false;
        while i < self.solution_statuses.len()
            invariant
                i <= self.solution_statuses@.len(),
                *self == *old(self),
                known == exists|a: int|
                    0 <= a < i && #[trigger] status_names(self.solution_statuses@)[a] == solution@,
            decreases self.solution_statuses@.len() - i,
        {
            if self.solution_statuses[i].solution == solution {
                assert(status_names(self.solution_statuses@)[i as int] == solution@);
                known = true;
            }
            i = i + 1;
        }
        if !known {
            self.solution_statuses.push(ExpectedStatuses { solution, statuses });
        }
        self
    }

    /// The limits of the task are the expected ones. A limit is compared
    /// only where both the expectation and the task state one.
    pub open spec fn limits_failure(&self, task: Task, max_score: u64) -> Option<TestFailure> {
        if self.time_limit is Some && task.time_limit is Some && self.time_limit
            != task.time_limit {
            Some(TestFailure::WrongTimeLimit)
        } else if self.memory_limit is Some && task.memory_limit is Some && self.memory_limit
            != task.memory_limit {
            Some(TestFailure::WrongMemoryLimit)
        } else if self.max_score is Some && self.max_score != Some(max_score) {
            Some(TestFailure::WrongMaxScore)
        } else {
            None
        }
    }

    /// The checks on the files that must compile.
    pub open spec fn must_compile_checks(&self, tree: TreeView) -> Seq<Option<TestFailure>> {
        Seq::new(
            self.must_compile@.len(),
            |i: int| must_compile_check(tree, self.must_compile@[i]@, i),
        )
    }

    /// The checks on the files that must not compile.
    pub open spec fn must_not_compile_checks(&self, tree: TreeView) -> Seq<Option<TestFailure>> {
        Seq::new(
            self.must_not_compile@.len(),
            |i: int| must_not_compile_check(tree, self.must_not_compile@[i]@, i),
        )
    }

    /// The checks on the files that must not be compiled.
    pub open spec fn not_compiled_checks(&self, tree: TreeView) -> Seq<Option<TestFailure>> {
        Seq::new(
            self.not_compiled@.len(),
            |i: int| not_compiled_check(tree, self.not_compiled@[i]@, i),
        )
    }

    /// The first compilation that is not as expected: first among the files
    /// that must compile, then among those that must not compile, then among
    /// those that must not be compiled.
    pub open spec fn compilation_failure(&self, tree: TreeView) -> Option<TestFailure> {
        or_failure(
            first_failure(self.must_compile_checks(tree)),
            or_failure(
                first_failure(self.must_not_compile_checks(tree)),
                first_failure(self.not_compiled_checks(tree)),
            ),
        )
    }

    /// The first subtask whose maximum score is not the expected one.
    pub open spec fn subtasks_failure(&self, task: Task) -> Option<TestFailure> {
        match self.subtask_scores {
            None => None,
            Some(scores) => if scores@.len() != task.subtasks@.len() {
                Some(TestFailure::SubtaskCountMismatch)
            } else {
                first_failure(subtask_checks(scores@, task))
            },
        }
    }

    /// The checks on the scores of the solutions.
    pub open spec fn solution_scores_checks(&self, task: Task, tree: TreeView) -> Seq<
        Option<TestFailure>,
    > {
        Seq::new(
            self.solution_scores@.len(),
            |i: int|
                scores_check(
                    task,
                    tree,
                    self.solution_scores@[i].solution@,
                    self.solution_scores@[i].scores@,
                    i,
                ),
        )
    }

    /// The checks on the statuses of the solutions.
    pub open spec fn solution_statuses_checks(&self, task: Task, tree: TreeView) -> Seq<
        Option<TestFailure>,
    > {
        Seq::new(
            self.solution_statuses@.len(),
            |i: int|
                statuses_check(
                    task,
                    tree,
                    self.solution_statuses@[i].solution@,
                    self.solution_statuses@[i].statuses@,
                    i,
                ),
        )
    }

    /// The first expectation that the state does not meet: the limits come
    /// first, then the compilations, the subtasks, the scores of the
    /// solutions and their statuses.
    pub open spec fn state_failure(&self, task: Task, max_score: u64, tree: TreeView) -> Option<
        TestFailure,
    > {
        or_failure(
            self.limits_failure(task, max_score),
            or_failure(
                self.compilation_failure(tree),
                or_failure(
                    self.subtasks_failure(task),
                    or_failure(
                        first_failure(self.solution_scores_checks(task, tree)),
                        first_failure(self.solution_statuses_checks(task, tree)),
                    ),
                ),
            ),
        )
    }

    /// What a run of `task` with the messages `messages` comes to: the first
    /// violation among the messages, or else the first expectation that the
    /// state after them does not meet.
    pub open spec fn run_outcome(&self, task: Task, messages: Seq<MessageView>) -> Result<
        (),
        TestFailure,
    > {
        let start = StateView {
            tree: TreeView::empty(),
            diagnostics: Seq::empty(),
            phase: Phase::Created,
        };
        match first_violation(task, start, messages) {
            Some(violation) => Err(TestFailure::Protocol(violation)),
            None => outcome(
                self.state_failure(
                    task,
                    total_max_score(task.subtasks@) as u64,
                    replay(task, start, messages).tree,
                ),
            ),
        }
    }

    /// Checks that the limits of the task are the expected ones.
    pub fn check_limits(&self, state: &UIState) -> (r: Result<(), TestFailure>)
        ensures
            r == outcome(self.limits_failure(state.task, state.max_score)),
    {
        match (self.time_limit, state.task.time_limit) {
            (Some(expected), Some(actual)) => {
                if expected != actual {
                    return Err(TestFailure::WrongTimeLimit);
                }
            },
            _ => {},
        }
        match (self.memory_limit, state.task.memory_limit) {
            (Some(expected), Some(actual)) => {
                if expected != actual {
                    return Err(TestFailure::WrongMemoryLimit);
                }
            },
            _ => {},
        }
        match self.max_score {
            Some(expected) => {
                if expected != state.max_score {
                    return Err(TestFailure::WrongMaxScore);
                }
            },
            None => {},
        }
        Ok(())
    }

    /// Checks that the files were compiled, or not, as expected.
    pub fn check_compilation(&self, state: &UIState) -> (r: Result<(), TestFailure>)
        ensures
            r == outcome(self.compilation_failure(state@.tree)),
    {
        let ghost tree = state@.tree;
        let mut i: usize = 0;
        while i < self.must_compile.len()
            invariant
                i <= self.must_compile@.len(),
                tree == state@.tree,
                forall|a: int| 0 <= a < i ==> self.must_compile_checks(tree)[a] is None,
            decreases self.must_compile@.len() - i,
        {
            let failed: bool = match find_compilation_named(&state.tree, &self.must_compile[i]) {
                None => {
                    proof {
                        lemma_first_failure_at(self.must_compile_checks(tree), i as int);
                    }
                    return Err(TestFailure::MissingCompilation { index: i });
                },
                Some(CompilationStatus::Done { .. }) => false,
                Some(_) => true,
            };
            if failed {
                proof {
                    lemma_first_failure_at(self.must_compile_checks(tree), i as int);
                }
                return Err(TestFailure::NotCompiled { index: i });
            }
            i = i + 1;
        }
        proof {
            lemma_no_failure(self.must_compile_checks(tree));
        }
        let mut i: usize = 0;
        while i < self.must_not_compile.len()
            invariant
                i <= self.must_not_compile@.len(),
                tree == state@.tree,
                first_failure(self.must_compile_checks(tree)) is None,
                forall|a: int| 0 <= a < i ==> self.must_not_compile_checks(tree)[a] is None,
            decreases self.must_not_compile@.len() - i,
        {
            let failed: bool = match find_compilation_named(
                &state.tree,
                &self.must_not_compile[i],
            ) {
                None => {
                    proof {
                        lemma_first_failure_at(self.must_not_compile_checks(tree), i as int);
                    }
                    return Err(TestFailure::MissingFailedCompilation { index: i });
                },
                Some(CompilationStatus::Failed { .. }) => false,
                Some(_) => true,
            };
            if failed {
                proof {
                    lemma_first_failure_at(self.must_not_compile_checks(tree), i as int);
                }
                return Err(TestFailure::NotFailed { index: i });
            }
            i = i + 1;
        }
        proof {
            lemma_no_failure(self.must_not_compile_checks(tree));
        }
        let mut i: usize = 0;
        while i < self.not_compiled.len()
            invariant
                i <= self.not_compiled@.len(),
                tree == state@.tree,
                first_failure(self.must_compile_checks(tree)) is None,
                first_failure(self.must_not_compile_checks(tree)) is None,
                forall|a: int| 0 <= a < i ==> self.not_compiled_checks(tree)[a] is None,
            decreases self.not_compiled@.len() - i,
        {
            match find_compilation_named(&state.tree, &self.not_compiled[i]) {
                None => {},
                Some(_) => {
                    proof {
                        lemma_first_failure_at(self.not_compiled_checks(tree), i as int);
                    }
                    return Err(TestFailure::UnexpectedCompilation { index: i });
                },
            }
            i = i + 1;
        }
        proof {
            lemma_no_failure(self.not_compiled_checks(tree));
        }
        Ok(())
    }

    /// Checks that the subtasks have the expected maximum scores.
    pub fn check_subtasks(&self, state: &UIState) -> (r: Result<(), TestFailure>)
        ensures
            r == outcome(self.subtasks_failure(state.task)),
    {
        match &self.subtask_scores {
            None => Ok(()),
            Some(scores) => {
                if scores.len() != state.task.subtasks.len() {
                    return Err(TestFailure::SubtaskCountMismatch);
                }
                let ghost checks = subtask_checks(scores@, state.task);
                let mut i: usize = 0;
                while i < scores.len()
                    invariant
                        i <= scores@.len(),
                        scores@.len() == state.task.subtasks@.len(),
                        checks == subtask_checks(scores@, state.task),
                        self.subtask_scores == Some(*scores),
                        forall|a: int| 0 <= a < i ==> checks[a] is None,
                    decreases scores@.len() - i,
                {
                    if scores[i] != state.task.subtasks[i].max_score {
                        proof {
                            lemma_first_failure_at(checks, i as int);
                        }
                        return Err(TestFailure::SubtaskScoreMismatch { subtask: i });
                    }
                    i = i + 1;
                }
                proof {
                    lemma_no_failure(checks);
                }
                Ok(())
            },
        }
    }

    /// Checks that the scores of the solutions are the expected ones.
    pub fn check_solution_scores(&self, state: &UIState) -> (r: Result<(), TestFailure>)
        requires
            state.wf(),
        ensures
            r == outcome(first_failure(self.solution_scores_checks(state.task, state@.tree))),
    {
        let ghost checks = self.solution_scores_checks(state.task, state@.tree);
        let mut i: usize = 0;
        while i < self.solution_scores.len()
            invariant
                i <= self.solution_scores@.len(),
                state.wf(),
                checks == self.solution_scores_checks(state.task, state@.tree),
                forall|a: int| 0 <= a < i ==> checks[a] is None,
            decreases self.solution_scores@.len() - i,
        {
            let expected = &self.solution_scores[i];
            match check_scores(state, &expected.solution, &expected.scores, i) {
                Err(failure) => {
                    proof {
                        lemma_first_failure_at(checks, i as int);
                    }
                    return Err(failure);
                },
                Ok(()) => {},
            }
            i = i + 1;
        }
        proof {
            lemma_no_failure(checks);
        }
        Ok(())
    }

    /// Checks that the statuses of the solutions are the expected ones.
    pub fn check_solution_statuses(&self, state: &UIState) -> (r: Result<(), TestFailure>)
        requires
            state.wf(),
        ensures
            r == outcome(first_failure(self.solution_statuses_checks(state.task, state@.tree))),
    {
        let ghost checks = self.solution_statuses_checks(state.task, state@.tree);
        let mut i: usize = 0;
        while i < self.solution_statuses.len()
            invariant
                i <= self.solution_statuses@.len(),
                state.wf(),
                checks == self.solution_statuses_checks(state.task, state@.tree),
                forall|a: int| 0 <= a < i ==> checks[a] is None,
            decreases self.solution_statuses@.len() - i,
        {
            let expected = &self.solution_statuses[i];
            match check_statuses(state, &expected.solution, &expected.statuses, i) {
                Err(failure) => {
                    proof {
                        lemma_first_failure_at(checks, i as int);
                    }
                    return Err(failure);
                },
                Ok(()) => {},
            }
            i = i + 1;
        }
        proof {
            lemma_no_failure(checks);
        }
        Ok(())
    }

    /// Compares a state with the expectations and returns the first
    /// expectation that it does not meet.
    pub fn check(&self, state: &UIState) -> (r: Result<(), TestFailure>)
        requires
            state.wf(),
        ensures
            r == outcome(self.state_failure(state.task, state.max_score, state@.tree)),
    {
        match self.check_limits(state) {
            Err(failure) => {
                return Err(failure);
            },
            Ok(()) => {},
        }
        match self.check_compilation(state) {
            Err(failure) => {
                return Err(failure);
            },
            Ok(()) => {},
        }
        match self.check_subtasks(state) {
            Err(failure) => {
                return Err(failure);
            },
            Ok(()) => {},
        }
        match self.check_solution_scores(state) {
            Err(failure) => {
                return Err(failure);
            },
            Ok(()) => {},
        }
        self.check_solution_statuses(state)
    }

    /// Replays the messages of a run of `task` and compares the state that
    /// they lead to with the expectations.
    pub fn run(&self, task: Task, messages: &Vec<UIMessage>) -> (r: Result<(), TestFailure>)
        requires
            task.wf(),
        ensures
            r == self.run_outcome(task, message_views(messages@)),
    {
        let mut state = UIState::new(task);
        match state.apply_all(messages) {
            Err(violation) => {
                return Err(TestFailure::Protocol(violation));
            },
            Ok(()) => {},
        }
        self.check(&state)
    }
}

/// The sum of the expected scores.
fn sum_expected(scores: &Vec<u64>) -> (r: u128)
    ensures
        r == expected_total(scores@),
{
    let mut total: u128 = 0;
    let mut i: usize = 0;
    while i < scores.len()
        invariant
            i <= scores@.len(),
            total == expected_total(scores@.take(i as int)),
            total <= i * 0xFFFF_FFFF_FFFF_FFFF,
        decreases scores@.len() - i,
    {
        proof {
            assert(scores@.take(i + 1).drop_last() =~= scores@.take(i as int));
            assert((i + 1) * 0xFFFF_FFFF_FFFF_FFFF <= u128::MAX) by (nonlinear_arith)
                requires
                    i < 0xFFFF_FFFF_FFFF_FFFF,
            ;
            assert((i + 1) * 0xFFFF_FFFF_FFFF_FFFF == i * 0xFFFF_FFFF_FFFF_FFFF
                + 0xFFFF_FFFF_FFFF_FFFF) by (nonlinear_arith);
        }
        total = total + scores[i] as u128;
        i = i + 1;
    }
    proof {
        assert(scores@.take(i as int) =~= scores@);
    }
    total
}

/// Compares the scores of the solution named `name` with `scores`.
fn check_scores(state: &UIState, name: &String, scores: &Vec<u64>, index: usize) -> (r: Result<
    (),
    TestFailure,
>)
    requires
        state.wf(),
    ensures
        r == outcome(scores_check(state.task, state@.tree, name@, scores@, index as int)),
{
    let position: usize = match find_solution_named(&state.tree, name) {
        None => {
            return Err(TestFailure::MissingSolution { index });
        },
        Some(position) => position,
    };
    let solution = &state.tree.evaluations[position];
    proof {
        assert(state.tree.evaluations@[position as int].wf(&state.task));
        assert(state@.tree.evaluations[position as int] == solution@);
    }
    let total: u64 = match solution.score {
        None => {
            return Err(TestFailure::UnknownSolutionScore { index });
        },
        Some(total) => total,
    };
    if total as u128 != sum_expected(scores) {
        return Err(TestFailure::SolutionScoreMismatch { index });
    }
    if scores.len() != solution.subtasks.len() {
        return Err(TestFailure::SolutionSubtaskCountMismatch { index });
    }
    check_subtask_scores(&state.task, solution, scores, index)
}

/// Compares the subtask scores of a solution with `scores`.
fn check_subtask_scores(
    task: &Task,
    solution: &SolutionEvaluationState,
    scores: &Vec<u64>,
    index: usize,
) -> (r: Result<(), TestFailure>)
    requires
        solution.wf(task),
        scores@.len() == solution.subtasks@.len(),
    ensures
        r == outcome(first_failure(subtask_score_checks(*task, solution@, scores@, index as int))),
{
    let ghost checks = subtask_score_checks(*task, solution@, scores@, index as int);
    let mut st: usize = 0;
    while st < scores.len()
        invariant
            st <= scores@.len(),
            scores@.len() == solution.subtasks@.len(),
            solution.wf(task),
            checks == subtask_score_checks(*task, solution@, scores@, index as int),
            forall|a: int| 0 <= a < st ==> checks[a] is None,
        decreases scores@.len() - st,
    {
        let same: bool = match solution.subtasks[st].score {
            None => false,
            Some(actual) => actual == scores[st],
        };
        if !same {
            proof {
                lemma_first_failure_at(checks, st as int);
            }
            return Err(TestFailure::SolutionSubtaskScoreMismatch { index, subtask: st });
        }
        st = st + 1;
    }
    proof {
        lemma_no_failure(checks);
    }
    Ok(())
}

/// Compares the statuses of the solution named `name` with `statuses`.
fn check_statuses(
    state: &UIState,
    name: &String,
    statuses: &Vec<TestcaseEvaluationStatus>,
    index: usize,
) -> (r: Result<(), TestFailure>)
    requires
        state.wf(),
    ensures
        r == outcome(statuses_check(state.task, state@.tree, name@, statuses@, index as int)),
{
    let position: usize = match find_solution_named(&state.tree, name) {
        None => {
            return Err(TestFailure::MissingSolutionStatuses { index });
        },
        Some(position) => position,
    };
    let solution = &state.tree.evaluations[position];
    proof {
        assert(state.tree.evaluations@[position as int].wf(&state.task));
        assert(state@.tree.evaluations[position as int] == solution@);
    }
    let actual = solution.ordered_statuses(&state.task);
    compare_statuses(&actual, statuses, index)
}

/// Compares the statuses `actual` of a solution with `statuses`.
fn compare_statuses(
    actual: &Vec<Entry>,
    statuses: &Vec<TestcaseEvaluationStatus>,
    index: usize,
) -> (r: Result<(), TestFailure>)
    ensures
        r == outcome(first_failure(status_checks(actual@, statuses@, index as int))),
{
    let ghost checks = status_checks(actual@, statuses@, index as int);
    let mut position: usize = 0;
    while position < actual.len()
        invariant
            position <= actual@.len(),
            checks == status_checks(actual@, statuses@, index as int),
            forall|a: int| 0 <= a < position ==> checks[a] is None,
        decreases actual@.len() - position,
    {
        if statuses.len() == 0 {
            proof {
                lemma_first_failure_at(checks, position as int);
            }
            return Err(TestFailure::NoExpectedStatus { index });
        }
        let expected: TestcaseEvaluationStatus = if position < statuses.len() {
            statuses[position]
        } else {
            statuses[statuses.len() - 1]
        };
        let same: bool = match actual[position] {
            Some(status) => status == expected,
            None => false,
        };
        if !same {
            proof {
                lemma_first_failure_at(checks, position as int);
            }
            return Err(TestFailure::SolutionStatusMismatch { index, position });
        }
        position = position + 1;
    }
    proof {
        lemma_no_failure(checks);
    }
    Ok(())
}

} // verus!
