//! The result tree: what is known of each compilation and of each solution
//! on each testcase, with the scores that follow from it.

use crate::lookup::{lemma_first_index, lemma_index_found, lemma_no_index, lemma_push_new_key};
use crate::message::{MessageView, ProtocolViolation, UIMessage};
use crate::score::{
    derive_score, derived_score, entries_valid, lemma_derived_score_bounded,
    lemma_sum_known_prefix, resolved, sum_known, total_score, Entry,
};
use crate::status::{transition_allowed, CompilationStatus, TestcaseEvaluationStatus};
use crate::task::{lemma_total_max_score_prefix, total_max_score, SubtaskId, Task, TestcaseId};
use vstd::prelude::*;

verus! {

/// The mathematical value of the state of one solution: for each subtask of
/// the task, in order, the entries of its testcases in the order of the task.
pub struct SolutionView {
    pub solution: Seq<char>,
    pub subtasks: Seq<Seq<Entry>>,
}

/// The mathematical value of the result tree: the compilations and the
/// solutions, each in the order of their first event.
pub struct TreeView {
    pub compilations: Seq<(Seq<char>, CompilationStatus)>,
    pub evaluations: Seq<SolutionView>,
}

impl SolutionView {
    /// The state of a solution of which nothing is known yet.
    pub open spec fn fresh(task: Task, solution: Seq<char>) -> SolutionView {
        SolutionView {
            solution,
            subtasks: Seq::new(
                task.subtasks@.len(),
                |st: int| Seq::new(task.testcase_ids(st).len(), |k: int| None),
            ),
        }
    }

    /// The state has one entry for each testcase of the task, and every
    /// recorded status is well formed.
    pub open spec fn shaped(self, task: Task) -> bool {
        &&& self.subtasks.len() == task.subtasks@.len()
        &&& forall|st: int|
            0 <= st < self.subtasks.len() ==> (#[trigger] self.subtasks[st]).len()
                == task.testcase_ids(st).len() && entries_valid(self.subtasks[st])
    }

    /// What is recorded for a testcase; `None` when nothing is, or when the
    /// task has no such testcase.
    pub open spec fn status(self, task: Task, subtask: SubtaskId, testcase: TestcaseId) -> Entry {
        if subtask < task.subtasks@.len() {
            match task.testcase_ids(subtask as int).index_of_first(testcase) {
                Some(k) => self.subtasks[subtask as int][k],
                None => None,
            }
        } else {
            None
        }
    }

    /// The score of subtask `subtask`.
    pub open spec fn subtask_score(self, task: Task, subtask: int) -> Option<u64> {
        derived_score(task.subtasks@[subtask].max_score, self.subtasks[subtask])
    }

    /// The scores of the subtasks, in order.
    pub open spec fn subtask_scores(self, task: Task) -> Seq<Option<u64>> {
        Seq::new(self.subtasks.len(), |st: int| self.subtask_score(task, st))
    }

    /// The score of the solution.
    pub open spec fn score(self, task: Task) -> Option<nat> {
        total_score(self.subtask_scores(task))
    }

    /// The state after `status` is recorded for the testcase at position
    /// `index` of subtask `subtask`.
    pub open spec fn record(
        self,
        subtask: int,
        index: int,
        status: TestcaseEvaluationStatus,
    ) -> SolutionView {
        SolutionView {
            solution: self.solution,
            subtasks: self.subtasks.update(
                subtask,
                self.subtasks[subtask].update(index, Some(status)),
            ),
        }
    }

    /// Every testcase that an event has named is resolved.
    pub open spec fn complete(self) -> bool {
        forall|st: int, k: int|
            0 <= st < self.subtasks.len() && 0 <= k < self.subtasks[st].len() ==> (
            #[trigger] self.subtasks[st][k]) is None || resolved(self.subtasks[st][k])
    }
}

impl TreeView {
    /// The tree before any event.
    pub open spec fn empty() -> TreeView {
        TreeView { compilations: Seq::empty(), evaluations: Seq::empty() }
    }

    /// The files with a compilation, in the order of their first event.
    pub open spec fn files(self) -> Seq<Seq<char>> {
        Seq::new(self.compilations.len(), |i: int| self.compilations[i].0)
    }

    /// The solutions with a state, in the order of their first event.
    pub open spec fn solutions(self) -> Seq<Seq<char>> {
        Seq::new(self.evaluations.len(), |i: int| self.evaluations[i].solution)
    }

    /// No file and no solution occurs twice, and every solution state fits
    /// the task.
    pub open spec fn wf(self, task: Task) -> bool {
        &&& self.files().no_duplicates()
        &&& self.solutions().no_duplicates()
        &&& forall|i: int|
            0 <= i < self.evaluations.len() ==> (#[trigger] self.evaluations[i]).shaped(task)
    }

    /// The status of the compilation of `file`, if an event has named it.
    pub open spec fn compilation(self, file: Seq<char>) -> Option<CompilationStatus> {
        match self.files().index_of_first(file) {
            Some(i) => Some(self.compilations[i].1),
            None => None,
        }
    }

    /// The state of `solution`, if an event has named it.
    pub open spec fn solution(self, solution: Seq<char>) -> Option<SolutionView> {
        match self.solutions().index_of_first(solution) {
            Some(i) => Some(self.evaluations[i]),
            None => None,
        }
    }

    /// What is recorded for `solution` on a testcase; `None` when nothing is.
    pub open spec fn status(
        self,
        task: Task,
        solution: Seq<char>,
        subtask: SubtaskId,
        testcase: TestcaseId,
    ) -> Entry {
        match self.solution(solution) {
            Some(state) => state.status(task, subtask, testcase),
            None => None,
        }
    }

    /// The score of `solution` on subtask `subtask`; `None` while it is not
    /// resolved, or when no event has named the solution or the task has no
    /// such subtask.
    pub open spec fn subtask_score(
        self,
        task: Task,
        solution: Seq<char>,
        subtask: SubtaskId,
    ) -> Option<u64> {
        match self.solution(solution) {
            Some(state) => if subtask < task.subtasks@.len() {
                state.subtask_score(task, subtask as int)
            } else {
                None
            },
            None => None,
        }
    }

    /// The score of `solution`; `None` while a subtask is not resolved, or
    /// when no event has named the solution.
    pub open spec fn solution_score(self, task: Task, solution: Seq<char>) -> Option<nat> {
        match self.solution(solution) {
            Some(state) => state.score(task),
            None => None,
        }
    }

    /// The tree after `status` is recorded for `file`: in place where the
    /// file is known, at the end where it is new.
    pub open spec fn with_compilation(self, file: Seq<char>, status: CompilationStatus) -> TreeView {
        TreeView {
            compilations: match self.files().index_of_first(file) {
                Some(i) => self.compilations.update(i, (file, status)),
                None => self.compilations.push((file, status)),
            },
            evaluations: self.evaluations,
        }
    }

    /// The tree after `state` takes the place of the state of its solution:
    /// in place where the solution is known, at the end where it is new.
    pub open spec fn with_solution(self, state: SolutionView) -> TreeView {
        TreeView {
            compilations: self.compilations,
            evaluations: match self.solutions().index_of_first(state.solution) {
                Some(i) => self.evaluations.update(i, state),
                None => self.evaluations.push(state),
            },
        }
    }

    /// Every testcase that an event has named is resolved.
    pub open spec fn complete(self) -> bool {
        forall|i: int|
            0 <= i < self.evaluations.len() ==> (#[trigger] self.evaluations[i]).complete()
    }
}

/// The tree that a message leads to, or the way in which the message
/// contradicts the task or the tree.
///
/// A compilation status replaces what was recorded for the file, whatever it
/// was. A testcase status must name a testcase of the task, carry a well
/// formed status, and respect the lifecycle of the testcase. A warning leaves
/// the tree as it is.
pub open spec fn update_spec(task: Task, tree: TreeView, message: MessageView) -> Result<
    TreeView,
    ProtocolViolation,
> {
    match message {
        MessageView::Warning { .. } => Ok(tree),
        MessageView::CompilationStatus { file, status } => Ok(tree.with_compilation(file, status)),
        MessageView::TestcaseStatus { solution, subtask, testcase, status } => {
            if subtask >= task.subtasks@.len() {
                Err(ProtocolViolation::UnknownSubtask { subtask })
            } else {
                match task.testcase_ids(subtask as int).index_of_first(testcase) {
                    None => Err(ProtocolViolation::UnknownTestcase { subtask, testcase }),
                    Some(index) => {
                        let state = match tree.solution(solution) {
                            Some(state) => state,
                            None => SolutionView::fresh(task, solution),
                        };
                        let current = state.subtasks[subtask as int][index];
                        if !status.valid() {
                            Err(ProtocolViolation::InvalidScore)
                        } else if resolved(current) {
                            Err(ProtocolViolation::AlreadyTerminal)
                        } else if !transition_allowed(current, status) {
                            Err(ProtocolViolation::StatusRegressed)
                        } else {
                            Ok(tree.with_solution(state.record(subtask as int, index, status)))
                        }
                    },
                }
            }
        },
    }
}

/// The state of a solution on one subtask.
#[derive(Debug)]
pub struct SolutionSubtaskEvaluationState {
    /// The score of the subtask, once every testcase is resolved.
    pub score: Option<u64>,
    /// What is recorded for each testcase, in the order of the task.
    pub testcases: Vec<Entry>,
}

/// The state of a solution.
#[derive(Debug)]
pub struct SolutionEvaluationState {
    /// The path of the solution.
    pub solution: String,
    /// The score of the solution, once every subtask is resolved.
    pub score: Option<u64>,
    /// The state on each subtask, in the order of the task.
    pub subtasks: Vec<SolutionSubtaskEvaluationState>,
}

/// The status of the compilation of one file.
#[derive(Debug)]
pub struct CompilationEntry {
    /// The path of the file.
    pub file: String,
    /// The status that the last event for the file carried.
    pub status: CompilationStatus,
}

/// The result tree.
#[derive(Debug)]
pub struct ResultTree {
    /// The compilations, in the order of their first event.
    pub compilations: Vec<CompilationEntry>,
    /// The solutions, in the order of their first event.
    pub evaluations: Vec<SolutionEvaluationState>,
}

/// The scores that a sequence of subtask states holds.
pub open spec fn stored_scores(subtasks: Seq<SolutionSubtaskEvaluationState>) -> Seq<Option<u64>> {
    Seq::new(subtasks.len(), |st: int| subtasks[st].score)
}

/// The stored score `stored` stands for `score`.
pub open spec fn holds_score(stored: Option<u64>, score: Option<nat>) -> bool {
    match stored {
        Some(value) => score == Some(value as nat),
        None => score is None,
    }
}

impl View for SolutionEvaluationState {
    type V = SolutionView;

    open spec fn view(&self) -> SolutionView {
        SolutionView {
            solution: self.solution@,
            subtasks: Seq::new(self.subtasks@.len(), |st: int| self.subtasks@[st].testcases@),
        }
    }
}

impl View for ResultTree {
    type V = TreeView;

    open spec fn view(&self) -> TreeView {
        TreeView {
            compilations: Seq::new(
                self.compilations@.len(),
                |i: int| (self.compilations@[i].file@, self.compilations@[i].status),
            ),
            evaluations: Seq::new(self.evaluations@.len(), |i: int| self.evaluations@[i]@),
        }
    }
}

/// Sums the stored scores of the subtasks of a solution.
fn total_of(task: &Task, subtasks: &Vec<SolutionSubtaskEvaluationState>) -> (r: Option<u64>)
    requires
        task.wf(),
        subtasks@.len() == task.subtasks@.len(),
        forall|st: int|
            0 <= st < subtasks@.len() ==> (#[trigger] subtasks@[st]).score == derived_score(
                task.subtasks@[st].max_score,
                subtasks@[st].testcases@,
            ),
    ensures
        holds_score(r, total_score(stored_scores(subtasks@))),
{
    let ghost scores = stored_scores(subtasks@);
    let mut total: u64 = 0;
    let mut st: usize = 0;
    while st < subtasks.len()
        invariant
            st <= subtasks.len(),
            task.wf(),
            subtasks@.len() == task.subtasks@.len(),
            scores == stored_scores(subtasks@),
            forall|i: int|
                0 <= i < subtasks@.len() ==> (#[trigger] subtasks@[i]).score == derived_score(
                    task.subtasks@[i].max_score,
                    subtasks@[i].testcases@,
                ),
            forall|i: int| 0 <= i < st ==> (#[trigger] scores[i]) is Some,
            total == sum_known(scores.take(st as int)),
            total <= total_max_score(task.subtasks@.take(st as int)),
        decreases subtasks.len() - st,
    {
        proof {
            lemma_sum_known_prefix(scores, st as int);
            lemma_derived_score_bounded(
                task.subtasks@[st as int].max_score,
                subtasks@[st as int].testcases@,
            );
            assert(task.subtasks@.take(st + 1).drop_last() =~= task.subtasks@.take(st as int));
            lemma_total_max_score_prefix(task.subtasks@, st + 1);
            assert(scores[st as int] == subtasks@[st as int].score);
        }
        match subtasks[st].score {
            None => {
                return None;
            },
            Some(score) => {
                total = total + score;
            },
        }
        st = st + 1;
    }
    proof {
        assert(scores.take(st as int) =~= scores);
    }
    Some(total)
}

impl SolutionEvaluationState {
    /// The state fits the task, and the stored scores are the scores that
    /// follow from the recorded statuses.
    pub open spec fn wf(&self, task: &Task) -> bool {
        &&& self@.shaped(*task)
        &&& forall|st: int|
            0 <= st < self.subtasks@.len() ==> (#[trigger] self.subtasks@[st]).score
                == self@.subtask_score(*task, st)
        &&& holds_score(self.score, self@.score(*task))
    }

    /// The state of a solution of which nothing is known yet.
    pub fn new(task: &Task, solution: String) -> (r: Self)
        requires
            task.wf(),
        ensures
            r.wf(task),
            r@ == SolutionView::fresh(*task, solution@),
    {
        let mut subtasks: Vec<SolutionSubtaskEvaluationState> = Vec::new();
        let mut st: usize = 0;
        while st < task.subtasks.len()
            invariant
                st <= task.subtasks@.len(),
                subtasks@.len() == st,
                forall|i: int|
                    0 <= i < st ==> (#[trigger] subtasks@[i]).testcases@ =~= Seq::new(
                        task.testcase_ids(i).len(),
                        |k: int| None::<TestcaseEvaluationStatus>,
                    ) && subtasks@[i].score == derived_score(
                        task.subtasks@[i].max_score,
                        subtasks@[i].testcases@,
                    ),
            decreases task.subtasks@.len() - st,
        {
            let count: usize = task.subtasks[st].testcases.len();
            let mut testcases: Vec<Entry> = Vec::new();
            let mut k: usize = 0;
            while k < count
                invariant
                    k <= count,
                    testcases@.len() == k,
                    forall|j: int| 0 <= j < k ==> (#[trigger] testcases@[j]) is None,
                decreases count - k,
            {
                testcases.push(None);
                k = k + 1;
            }
            let score = derive_score(task.subtasks[st].max_score, &testcases);
            subtasks.push(SolutionSubtaskEvaluationState { score, testcases });
            st = st + 1;
        }
        let score = total_of(task, &subtasks);
        let state = SolutionEvaluationState { solution, score, subtasks };
        proof {
            assert(state@.subtasks =~~= SolutionView::fresh(*task, solution@).subtasks);
            assert(stored_scores(state.subtasks@) =~= state@.subtask_scores(*task));
        }
        state
    }

    /// Records `status` for the testcase at position `index` of subtask
    /// `subtask`, and brings the scores up to date.
    pub fn record(
        &mut self,
        task: &Task,
        subtask: usize,
        index: usize,
        status: TestcaseEvaluationStatus,
    )
        requires
            task.wf(),
            old(self).wf(task),
            subtask < old(self).subtasks@.len(),
            index < old(self).subtasks@[subtask as int].testcases@.len(),
            status.valid(),
        ensures
            final(self).wf(task),
            final(self)@ == old(self)@.record(subtask as int, index as int, status),
    {
        self.subtasks[subtask].testcases[index] = Some(status);
        let score = derive_score(task.subtasks[subtask].max_score, &self.subtasks[subtask].testcases);
        self.subtasks[subtask].score = score;
        proof {
            assert(self@.subtasks =~~= old(self)@.record(
                subtask as int,
                index as int,
                status,
            ).subtasks);
            assert forall|st: int| 0 <= st < self.subtasks@.len() implies (
            #[trigger] self.subtasks@[st]).score == self@.subtask_score(*task, st) by {
                if st != subtask {
                    assert(self.subtasks@[st] == old(self).subtasks@[st]);
                    assert(self@.subtasks[st] == old(self)@.subtasks[st]);
                }
            }
            assert forall|st: int| 0 <= st < self@.subtasks.len() implies (
            #[trigger] self@.subtasks[st]).len() == task.testcase_ids(st).len() && entries_valid(
                self@.subtasks[st],
            ) by {
                assert(old(self)@.subtasks[st].len() == task.testcase_ids(st).len());
                assert(entries_valid(old(self)@.subtasks[st]));
            }
        }
        let total = total_of(task, &self.subtasks);
        self.score = total;
        proof {
            assert(stored_scores(self.subtasks@) =~= self@.subtask_scores(*task));
        }
    }
}

/// Whether a testcase with the entry `current` may take the status `next`.
fn check_transition(current: Entry, next: TestcaseEvaluationStatus) -> (r: Result<
    (),
    ProtocolViolation,
>)
    ensures
        r == (if resolved(current) {
            Err::<(), ProtocolViolation>(ProtocolViolation::AlreadyTerminal)
        } else if !transition_allowed(current, next) {
            Err::<(), ProtocolViolation>(ProtocolViolation::StatusRegressed)
        } else {
            Ok::<(), ProtocolViolation>(())
        }),
{
    match current {
        None => Ok(()),
        Some(status) => {
            if status.is_terminal() {
                Err(ProtocolViolation::AlreadyTerminal)
            } else if status.lifecycle_stage() > next.lifecycle_stage() {
                Err(ProtocolViolation::StatusRegressed)
            } else {
                Ok(())
            }
        },
    }
}

impl SolutionEvaluationState {
    /// Whether every testcase that an event has named is resolved.
    pub fn is_complete(&self) -> (r: bool)
        ensures
            r == self@.complete(),
    {
        let mut st: usize = 0;
        while st < self.subtasks.len()
            invariant
                st <= self.subtasks@.len(),
                forall|i: int, k: int|
                    0 <= i < st && 0 <= k < self@.subtasks[i].len() ==> (
                    #[trigger] self@.subtasks[i][k]) is None || resolved(self@.subtasks[i][k]),
            decreases self.subtasks@.len() - st,
        {
            let entries = &self.subtasks[st].testcases;
            let mut k: usize = 0;
            while k < entries.len()
                invariant
                    k <= entries@.len(),
                    st < self.subtasks@.len(),
                    entries@ == self@.subtasks[st as int],
                    forall|j: int|
                        0 <= j < k ==> (#[trigger] entries@[j]) is None || resolved(entries@[j]),
                decreases entries@.len() - k,
            {
                match &entries[k] {
                    None => {},
                    Some(status) => {
                        if !status.is_terminal() {
                            assert(!(self@.subtasks[st as int][k as int] is None || resolved(
                                self@.subtasks[st as int][k as int],
                            )));
                            return false;
                        }
                    },
                }
                k = k + 1;
            }
            st = st + 1;
        }
        true
    }
}

impl ResultTree {
    /// The tree is well formed for the task, and so is each solution state.
    pub open spec fn wf(&self, task: &Task) -> bool {
        &&& self@.wf(*task)
        &&& forall|i: int|
            0 <= i < self.evaluations@.len() ==> (#[trigger] self.evaluations@[i]).wf(task)
    }

    /// The tree before any event.
    pub fn new() -> (r: Self)
        ensures
            r@ == TreeView::empty(),
            forall|task: &Task| #[trigger] r.wf(task),
    {
        let r = ResultTree { compilations: Vec::new(), evaluations: Vec::new() };
        assert(r@.compilations =~= TreeView::empty().compilations);
        assert(r@.evaluations =~= TreeView::empty().evaluations);
        r
    }

    /// The position of the compilation of `file`.
    fn find_compilation(&self, file: &String) -> (r: Option<usize>)
        ensures
            match r {
                Some(i) => i < self.compilations@.len() && self@.files().index_of_first(file@)
                    == Some(i as int),
                None => self@.files().index_of_first(file@) is None,
            },
    {
        let mut i: usize = 0;
        while i < self.compilations.len()
            invariant
                i <= self.compilations@.len(),
                forall|a: int| 0 <= a < i ==> self@.files()[a] != file@,
            decreases self.compilations@.len() - i,
        {
            if self.compilations[i].file == *file {
                proof {
                    lemma_first_index(self@.files(), file@, i as int);
                }
                return Some(i);
            }
            i = i + 1;
        }
        proof {
            lemma_no_index(self@.files(), file@);
        }
        None
    }

    /// The position of the state of `solution`.
    fn find_solution(&self, solution: &String) -> (r: Option<usize>)
        ensures
            match r {
                Some(i) => i < self.evaluations@.len() && self@.solutions().index_of_first(
                    solution@,
                ) == Some(i as int),
                None => self@.solutions().index_of_first(solution@) is None,
            },
    {
        let mut i: usize = 0;
        while i < self.evaluations.len()
            invariant
                i <= self.evaluations@.len(),
                forall|a: int| 0 <= a < i ==> self@.solutions()[a] != solution@,
            decreases self.evaluations@.len() - i,
        {
            if self.evaluations[i].solution == *solution {
                proof {
                    lemma_first_index(self@.solutions(), solution@, i as int);
                }
                return Some(i);
            }
            i = i + 1;
        }
        proof {
            lemma_no_index(self@.solutions(), solution@);
        }
        None
    }

    /// Records `status` for `file`, whatever was recorded before.
    fn set_compilation(&mut self, task: &Task, file: &String, status: CompilationStatus)
        requires
            old(self).wf(task),
        ensures
            final(self).wf(task),
            final(self)@ == old(self)@.with_compilation(file@, status),
    {
        match self.find_compilation(file) {
            Some(i) => {
                self.compilations[i].status = status;
                proof {
                    lemma_index_found(old(self)@.files(), file@);
                    assert(self@.compilations =~= old(self)@.compilations.update(
                        i as int,
                        (file@, status),
                    ));
                    assert(self@.files() =~= old(self)@.files());
                }
            },
            None => {
                self.compilations.push(CompilationEntry { file: file.clone(), status });
                proof {
                    assert(self@.compilations =~= old(self)@.compilations.push((file@, status)));
                    assert(self@.files() =~= old(self)@.files().push(file@));
                    lemma_push_new_key(old(self)@.files(), file@);
                }
            },
        }
        proof {
            assert(self@.evaluations =~= old(self)@.evaluations);
        }
    }

    /// Records `status` for `solution` on a testcase, if the event fits the
    /// task and the lifecycle of the testcase.
    fn set_testcase(
        &mut self,
        task: &Task,
        solution: &String,
        subtask: SubtaskId,
        testcase: TestcaseId,
        status: TestcaseEvaluationStatus,
    ) -> (r: Result<(), ProtocolViolation>)
        requires
            task.wf(),
            old(self).wf(task),
        ensures
            final(self).wf(task),
            match update_spec(
                *task,
                old(self)@,
                MessageView::TestcaseStatus { solution: solution@, subtask, testcase, status },
            ) {
                Ok(tree) => r is Ok && final(self)@ == tree,
                Err(violation) => r == Err::<(), ProtocolViolation>(violation) && final(self)@
                    == old(self)@,
            },
    {
        if subtask as usize >= task.subtasks.len() {
            return Err(ProtocolViolation::UnknownSubtask { subtask });
        }
        let index: usize = match task.testcase_index(subtask, testcase) {
            Some(index) => index,
            None => {
                return Err(ProtocolViolation::UnknownTestcase { subtask, testcase });
            },
        };
        proof {
            lemma_index_found(task.testcase_ids(subtask as int), testcase);
        }
        if !status.is_valid() {
            return Err(ProtocolViolation::InvalidScore);
        }
        match self.find_solution(solution) {
            Some(i) => {
                proof {
                    lemma_index_found(old(self)@.solutions(), solution@);
                    assert(old(self).evaluations@[i as int].wf(task));
                    assert(old(self)@.evaluations[i as int] == old(self).evaluations@[i as int]@);
                }
                let current: Entry =
                    self.evaluations[i].subtasks[subtask as usize].testcases[index];
                match check_transition(current, status) {
                    Err(violation) => {
                        return Err(violation);
                    },
                    Ok(()) => {},
                }
                self.evaluations[i].record(task, subtask as usize, index, status);
                proof {
                    let state = old(self)@.evaluations[i as int].record(
                        subtask as int,
                        index as int,
                        status,
                    );
                    assert(self.evaluations@[i as int]@ == state);
                    assert(self@.evaluations =~= old(self)@.evaluations.update(i as int, state));
                    assert(self@.solutions() =~= old(self)@.solutions());
                    assert(self@.compilations =~= old(self)@.compilations);
                }
            },
            None => {
                let mut state = SolutionEvaluationState::new(task, solution.clone());
                state.record(task, subtask as usize, index, status);
                self.evaluations.push(state);
                proof {
                    assert(self@.evaluations =~= old(self)@.evaluations.push(state@));
                    assert(self@.solutions() =~= old(self)@.solutions().push(solution@));
                    assert(self@.compilations =~= old(self)@.compilations);
                    lemma_push_new_key(old(self)@.solutions(), solution@);
                }
            },
        }
        Ok(())
    }

    /// Applies a message to the tree. The aggregator changes the tree in no
    /// other way. A message that contradicts the task or the tree is refused
    /// and leaves the tree as it was.
    pub fn update(&mut self, task: &Task, message: &UIMessage) -> (r: Result<
        (),
        ProtocolViolation,
    >)
        requires
            task.wf(),
            old(self).wf(task),
        ensures
            final(self).wf(task),
            match update_spec(*task, old(self)@, message@) {
                Ok(tree) => r is Ok && final(self)@ == tree,
                Err(violation) => r == Err::<(), ProtocolViolation>(violation) && final(self)@
                    == old(self)@,
            },
    {
        match message {
            UIMessage::Warning { .. } => Ok(()),
            UIMessage::CompilationStatus { file, status } => {
                self.set_compilation(task, file, *status);
                Ok(())
            },
            UIMessage::TestcaseStatus { solution, subtask, testcase, status } => {
                self.set_testcase(task, solution, *subtask, *testcase, *status)
            },
        }
    }

    /// The status of the compilation of `file`; `None` when no event has
    /// named the file.
    pub fn compilation_status(&self, file: &str) -> (r: Option<CompilationStatus>)
        ensures
            r == self@.compilation(file@),
    {
        let file: String = file.to_owned();
        match self.find_compilation(&file) {
            Some(i) => Some(self.compilations[i].status),
            None => None,
        }
    }

    /// What is recorded for `solution` on a testcase; `None` when no event
    /// has named the testcase for this solution.
    pub fn testcase_status(
        &self,
        task: &Task,
        solution: &str,
        subtask: SubtaskId,
        testcase: TestcaseId,
    ) -> (r: Entry)
        requires
            task.wf(),
            self.wf(task),
        ensures
            r == self@.status(*task, solution@, subtask, testcase),
    {
        let solution: String = solution.to_owned();
        match self.find_solution(&solution) {
            None => None,
            Some(i) => {
                proof {
                    lemma_index_found(self@.solutions(), solution@);
                    assert(self.evaluations@[i as int].wf(task));
                }
                match task.testcase_index(subtask, testcase) {
                    None => None,
                    Some(index) => {
                        proof {
                            lemma_index_found(task.testcase_ids(subtask as int), testcase);
                        }
                        self.evaluations[i].subtasks[subtask as usize].testcases[index]
                    },
                }
            },
        }
    }

    /// The score contribution of `solution` on a testcase; `None` until the
    /// testcase is resolved.
    pub fn testcase_score(
        &self,
        task: &Task,
        solution: &str,
        subtask: SubtaskId,
        testcase: TestcaseId,
    ) -> (r: Option<u64>)
        requires
            task.wf(),
            self.wf(task),
        ensures
            r == (match self@.status(*task, solution@, subtask, testcase) {
                Some(status) => if status.terminal() {
                    Some(status.contribution() as u64)
                } else {
                    None
                },
                None => None,
            }),
    {
        match self.testcase_status(task, solution, subtask, testcase) {
            Some(status) => status.score_contribution(),
            None => None,
        }
    }

    /// The score of `solution` on a subtask; `None` until the subtask is
    /// resolved.
    pub fn subtask_score(&self, task: &Task, solution: &str, subtask: SubtaskId) -> (r: Option<
        u64,
    >)
        requires
            task.wf(),
            self.wf(task),
        ensures
            r == self@.subtask_score(*task, solution@, subtask),
    {
        let solution: String = solution.to_owned();
        match self.find_solution(&solution) {
            None => None,
            Some(i) => {
                proof {
                    lemma_index_found(self@.solutions(), solution@);
                    assert(self.evaluations@[i as int].wf(task));
                }
                if (subtask as usize) < self.evaluations[i].subtasks.len() {
                    self.evaluations[i].subtasks[subtask as usize].score
                } else {
                    None
                }
            },
        }
    }

    /// The score of `solution`; `None` until every subtask is resolved.
    pub fn solution_score(&self, task: &Task, solution: &str) -> (r: Option<u64>)
        requires
            task.wf(),
            self.wf(task),
        ensures
            holds_score(r, self@.solution_score(*task, solution@)),
    {
        let solution: String = solution.to_owned();
        match self.find_solution(&solution) {
            None => None,
            Some(i) => {
                proof {
                    lemma_index_found(self@.solutions(), solution@);
                    assert(self.evaluations@[i as int].wf(task));
                }
                self.evaluations[i].score
            },
        }
    }

    /// Whether every testcase that an event has named is resolved.
    pub fn is_complete(&self) -> (r: bool)
        ensures
            r == self@.complete(),
    {
        let mut i: usize = 0;
        while i < self.evaluations.len()
            invariant
                i <= self.evaluations@.len(),
                forall|a: int| 0 <= a < i ==> (#[trigger] self@.evaluations[a]).complete(),
            decreases self.evaluations@.len() - i,
        {
            if !self.evaluations[i].is_complete() {
                assert(!self@.evaluations[i as int].complete());
                return false;
            }
            i = i + 1;
        }
        true
    }
}

} // verus!
