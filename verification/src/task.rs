//! The immutable definition of a task: limits, subtasks and testcases.

use crate::lookup::{lemma_first_index, lemma_no_index};
use vstd::prelude::*;

verus! {

/// The identifier of a subtask: its position in the task, counted from 0.
pub type SubtaskId = u32;

/// The identifier of a testcase, unique within its subtask.
pub type TestcaseId = u32;

/// A scored group of testcases.
#[derive(Debug)]
pub struct Subtask {
    /// The identifier of the subtask.
    pub id: SubtaskId,
    /// The score of a solution that solves every testcase of the subtask.
    pub max_score: u64,
    /// The testcases of the subtask, in the order of the task definition.
    pub testcases: Vec<TestcaseId>,
}

/// Why a task definition is refused.
#[derive(Clone, Copy, Debug, PartialEq, Eq, Structural)]
pub enum TaskError {
    /// Some subtask does not carry its own position as identifier.
    SubtaskIdsNotDense,
    /// Some subtask lists a testcase twice.
    DuplicateTestcase,
    /// The maximum scores of the subtasks do not sum to a 64 bit number.
    ScoreOverflow,
}

/// The definition of a task. It is loaded once and never changes afterwards.
#[derive(Debug)]
pub struct Task {
    /// The name that identifies the task.
    pub name: String,
    /// The time limit in microseconds, if any.
    pub time_limit: Option<u64>,
    /// The memory limit in bytes, if any.
    pub memory_limit: Option<u64>,
    /// The subtasks; the subtask with identifier `i` is at position `i`.
    pub subtasks: Vec<Subtask>,
    /// The relative paths of the files in the task directory, or `None` when
    /// the directory could not be read.
    pub listing: Option<Vec<String>>,
}

/// The subtask identifiers are unique and dense: each is its own position.
pub open spec fn ids_dense(subtasks: Seq<Subtask>) -> bool {
    forall|i: int| 0 <= i < subtasks.len() ==> (#[trigger] subtasks[i]).id == i
}

/// No subtask lists a testcase twice.
pub open spec fn testcases_distinct(subtasks: Seq<Subtask>) -> bool {
    forall|i: int| 0 <= i < subtasks.len() ==> (#[trigger] subtasks[i]).testcases@.no_duplicates()
}

/// The sum of the maximum scores of the subtasks.
pub open spec fn total_max_score(subtasks: Seq<Subtask>) -> nat
    decreases subtasks.len(),
{
    if subtasks.len() == 0 {
        0
    } else {
        total_max_score(subtasks.drop_last()) + subtasks.last().max_score as nat
    }
}

/// The total of a prefix never exceeds the total of the whole.
pub proof fn lemma_total_max_score_prefix(subtasks: Seq<Subtask>, n: int)
    requires
        0 <= n <= subtasks.len(),
    ensures
        total_max_score(subtasks.take(n)) <= total_max_score(subtasks),
    decreases subtasks.len() - n,
{
    if n == subtasks.len() {
        assert(subtasks.take(n) =~= subtasks);
    } else {
        lemma_total_max_score_prefix(subtasks.drop_last(), n);
        assert(subtasks.drop_last().take(n) =~= subtasks.take(n));
    }
}

/// Whether `ids` holds no element twice.
fn all_distinct(ids: &Vec<TestcaseId>) -> (r: bool)
    ensures
        r == ids@.no_duplicates(),
{
    let mut i: usize = 0;
    while i < ids.len()
        invariant
            i <= ids.len(),
            forall|a: int, b: int| 0 <= a < b < i ==> ids@[a] != ids@[b],
        decreases ids.len() - i,
    {
        let mut j: usize = 0;
        while j < i
            invariant
                j <= i,
                i < ids.len(),
                forall|a: int| 0 <= a < j ==> ids@[a] != ids@[i as int],
            decreases i - j,
        {
            if ids[j] == ids[i] {
                return false;
            }
            j = j + 1;
        }
        i = i + 1;
    }
    true
}

/// Whether `path` is one of `files`.
pub open spec fn lists(files: Seq<String>, path: Seq<char>) -> bool {
    exists|i: int| 0 <= i < files.len() && (#[trigger] files[i])@ == path
}

/// Whether `path` is one of `files`.
fn contains_path(files: &Vec<String>, path: &str) -> (r: bool)
    ensures
        r == lists(files@, path@),
{
    let wanted: String = path.to_owned();
    let mut i: usize = 0;
    while i < files.len()
        invariant
            i <= files.len(),
            wanted@ == path@,
            forall|a: int| 0 <= a < i ==> (#[trigger] files@[a])@ != path@,
        decreases files.len() - i,
    {
        if files[i] == wanted {
            assert(files@[i as int]@ == path@);
            return true;
        }
        i = i + 1;
    }
    false
}

impl Task {
    /// What holds of every task: dense subtask identifiers, distinct
    /// testcases within each subtask, and a total score that fits 64 bits.
    pub open spec fn wf(&self) -> bool {
        &&& ids_dense(self.subtasks@)
        &&& testcases_distinct(self.subtasks@)
        &&& total_max_score(self.subtasks@) <= u64::MAX
    }

    /// The testcase identifiers of subtask `subtask`.
    pub open spec fn testcase_ids(&self, subtask: int) -> Seq<TestcaseId> {
        self.subtasks@[subtask].testcases@
    }

    /// Checks a task definition and builds the task. The checks are made in
    /// the order of the variants of `TaskError`; the first that fails decides
    /// the error.
    pub fn new(
        name: String,
        time_limit: Option<u64>,
        memory_limit: Option<u64>,
        subtasks: Vec<Subtask>,
        listing: Option<Vec<String>>,
    ) -> (r: Result<Task, TaskError>)
        ensures
            match r {
                Ok(task) => {
                    &&& task.wf()
                    &&& task.name == name
                    &&& task.time_limit == time_limit
                    &&& task.memory_limit == memory_limit
                    &&& task.subtasks == subtasks
                    &&& task.listing == listing
                },
                Err(TaskError::SubtaskIdsNotDense) => !ids_dense(subtasks@),
                Err(TaskError::DuplicateTestcase) => ids_dense(subtasks@) && !testcases_distinct(
                    subtasks@,
                ),
                Err(TaskError::ScoreOverflow) => {
                    &&& ids_dense(subtasks@)
                    &&& testcases_distinct(subtasks@)
                    &&& total_max_score(subtasks@) > u64::MAX
                },
            },
    {
        let mut i: usize = 0;
        while i < subtasks.len()
            invariant
                i <= subtasks.len(),
                forall|a: int| 0 <= a < i ==> (#[trigger] subtasks@[a]).id == a,
            decreases subtasks.len() - i,
        {
            if subtasks[i].id as usize != i {
                return Err(TaskError::SubtaskIdsNotDense);
            }
            i = i + 1;
        }
        let mut i: usize = 0;
        while i < subtasks.len()
            invariant
                i <= subtasks.len(),
                ids_dense(subtasks@),
                forall|a: int|
                    0 <= a < i ==> (#[trigger] subtasks@[a]).testcases@.no_duplicates(),
            decreases subtasks.len() - i,
        {
            if !all_distinct(&subtasks[i].testcases) {
                return Err(TaskError::DuplicateTestcase);
            }
            i = i + 1;
        }
        let mut total: u64 = 0;
        let mut i: usize = 0;
        while i < subtasks.len()
            invariant
                i <= subtasks.len(),
                ids_dense(subtasks@),
                testcases_distinct(subtasks@),
                total == total_max_score(subtasks@.take(i as int)),
            decreases subtasks.len() - i,
        {
            let score: u64 = subtasks[i].max_score;
            proof {
                assert(subtasks@.take(i + 1).drop_last() =~= subtasks@.take(i as int));
                lemma_total_max_score_prefix(subtasks@, i + 1);
            }
            if score > u64::MAX - total {
                return Err(TaskError::ScoreOverflow);
            }
            total = total + score;
            i = i + 1;
        }
        proof {
            assert(subtasks@.take(i as int) =~= subtasks@);
        }
        Ok(Task { name, time_limit, memory_limit, subtasks, listing })
    }

    /// The maximum score of the task: the sum over its subtasks.
    pub fn max_score(&self) -> (r: u64)
        requires
            self.wf(),
        ensures
            r == total_max_score(self.subtasks@),
    {
        let mut total: u64 = 0;
        let mut i: usize = 0;
        while i < self.subtasks.len()
            invariant
                i <= self.subtasks.len(),
                total == total_max_score(self.subtasks@.take(i as int)),
                total_max_score(self.subtasks@) <= u64::MAX,
            decreases self.subtasks.len() - i,
        {
            proof {
                assert(self.subtasks@.take(i + 1).drop_last() =~= self.subtasks@.take(i as int));
                lemma_total_max_score_prefix(self.subtasks@, i + 1);
            }
            total = total + self.subtasks[i].max_score;
            i = i + 1;
        }
        proof {
            assert(self.subtasks@.take(i as int) =~= self.subtasks@);
        }
        total
    }

    /// The number of subtasks.
    pub fn subtask_count(&self) -> (r: usize)
        ensures
            r == self.subtasks@.len(),
    {
        self.subtasks.len()
    }

    /// The position of testcase `testcase` among the testcases of subtask
    /// `subtask`; `None` when the task has no such subtask or the subtask no
    /// such testcase.
    pub fn testcase_index(&self, subtask: SubtaskId, testcase: TestcaseId) -> (r: Option<usize>)
        requires
            self.wf(),
        ensures
            match r {
                Some(k) => subtask < self.subtasks@.len() && self.testcase_ids(
                    subtask as int,
                ).index_of_first(testcase) == Some(k as int),
                None => subtask >= self.subtasks@.len() || self.testcase_ids(
                    subtask as int,
                ).index_of_first(testcase) is None,
            },
    {
        if subtask as usize >= self.subtasks.len() {
            return None;
        }
        let ids = &self.subtasks[subtask as usize].testcases;
        let mut k: usize = 0;
        while k < ids.len()
            invariant
                k <= ids.len(),
                subtask < self.subtasks@.len(),
                ids@ == self.testcase_ids(subtask as int),
                forall|a: int| 0 <= a < k ==> ids@[a] != testcase,
            decreases ids.len() - k,
        {
            if ids[k] == testcase {
                proof {
                    lemma_first_index(ids@, testcase, k as int);
                }
                return Some(k);
            }
            k = k + 1;
        }
        proof {
            lemma_no_index(ids@, testcase);
        }
        None
    }

    /// Whether the task directory holds the file `path`; `None` when the
    /// directory could not be read.
    pub fn has_file(&self, path: &str) -> (r: Option<bool>)
        ensures
            r == match self.listing {
                Some(files) => Some(lists(files@, path@)),
                None => None,
            },
    {
        match &self.listing {
            None => None,
            Some(files) => Some(contains_path(files, path)),
        }
    }
}

} // verus!
