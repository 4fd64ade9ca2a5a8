//! The closed vocabularies of compilation and testcase outcomes.

use vstd::prelude::*;

verus! {

/// The value of a full score contribution. Contributions are fixed-point
/// numbers in `0..=SCORE_UNIT`, so that `SCORE_UNIT` stands for 1.0.
pub const SCORE_UNIT: u64 = 1_000_000;

/// What the execution layer reports about a finished compilation.
#[derive(Clone, Copy, Debug, PartialEq, Eq, Structural)]
pub struct ExecutionMetadata {
    /// The exit code of the compiler.
    pub exit_code: u32,
    /// The time the compiler ran, in microseconds.
    pub time_micros: u64,
    /// The peak memory of the compiler, in bytes.
    pub memory_bytes: u64,
}

/// The status of the compilation of one source file.
#[derive(Clone, Copy, Debug, PartialEq, Eq, Structural)]
pub enum CompilationStatus {
    /// The compilation is known but has not started yet.
    Pending,
    /// The compilation is running.
    Running,
    /// The compilation ended successfully.
    Done { metadata: ExecutionMetadata },
    /// The compilation ended with an error.
    Failed { metadata: ExecutionMetadata },
    /// The compilation was not attempted.
    Skipped,
}

impl CompilationStatus {
    /// `Done`, `Failed` and `Skipped` are the terminal states.
    pub open spec fn terminal(self) -> bool {
        self is Done || self is Failed || self is Skipped
    }

    /// Whether no further progress is expected for this compilation.
    pub fn is_terminal(&self) -> (r: bool)
        ensures
            r == self.terminal(),
    {
        match self {
            CompilationStatus::Pending => false,
            CompilationStatus::Running => false,
            _ => true,
        }
    }
}

/// The status of the evaluation of a solution on one testcase.
#[derive(Clone, Copy, Debug, PartialEq, Eq, Structural)]
pub enum TestcaseEvaluationStatus {
    /// The evaluation is known but has not started yet.
    Pending,
    /// The solution is running on the testcase.
    Running,
    /// The output is correct.
    Accepted,
    /// The output is wrong.
    WrongAnswer,
    /// The output is partially correct; the value is the contribution, a
    /// fixed-point number in `0..=SCORE_UNIT`.
    Partial(u64),
    /// The solution ran out of time.
    TimeLimitExceeded,
    /// The solution ran out of memory.
    MemoryLimitExceeded,
    /// The solution crashed.
    RuntimeError,
    /// The testcase was not evaluated.
    Skipped,
    /// The evaluation itself failed.
    InternalError,
}

impl TestcaseEvaluationStatus {
    /// Every status but `Pending` and `Running` is terminal.
    pub open spec fn terminal(self) -> bool {
        !(self is Pending) && !(self is Running)
    }

    /// The place of the status in the lifecycle of a testcase:
    /// `Pending` (0), then `Running` (1), then any terminal status (2).
    pub open spec fn stage(self) -> nat {
        match self {
            TestcaseEvaluationStatus::Pending => 0,
            TestcaseEvaluationStatus::Running => 1,
            _ => 2,
        }
    }

    /// A partial score must not exceed the full contribution.
    pub open spec fn valid(self) -> bool {
        self matches TestcaseEvaluationStatus::Partial(p) ==> p <= SCORE_UNIT
    }

    /// The score contribution of the status: full for `Accepted`, the carried
    /// value for `Partial`, nothing for every other status.
    pub open spec fn contribution(self) -> nat {
        match self {
            TestcaseEvaluationStatus::Accepted => SCORE_UNIT as nat,
            TestcaseEvaluationStatus::Partial(p) => p as nat,
            _ => 0,
        }
    }

    /// Whether no further transition is accepted from this status.
    pub fn is_terminal(&self) -> (r: bool)
        ensures
            r == self.terminal(),
    {
        match self {
            TestcaseEvaluationStatus::Pending => false,
            TestcaseEvaluationStatus::Running => false,
            _ => true,
        }
    }

    /// The stage of the status in the lifecycle of a testcase.
    pub fn lifecycle_stage(&self) -> (r: u8)
        ensures
            r == self.stage(),
    {
        match self {
            TestcaseEvaluationStatus::Pending => 0,
            TestcaseEvaluationStatus::Running => 1,
            _ => 2,
        }
    }

    /// Whether the status is well formed.
    pub fn is_valid(&self) -> (r: bool)
        ensures
            r == self.valid(),
    {
        match self {
            TestcaseEvaluationStatus::Partial(p) => *p <= SCORE_UNIT,
            _ => true,
        }
    }

    /// The score contribution of a terminal status; `None` while the testcase
    /// is not resolved, so that "not run" differs from "scored zero".
    pub fn score_contribution(&self) -> (r: Option<u64>)
        ensures
            r == (if self.terminal() {
                Some(self.contribution() as u64)
            } else {
                None
            }),
    {
        match self {
            TestcaseEvaluationStatus::Pending => None,
            TestcaseEvaluationStatus::Running => None,
            TestcaseEvaluationStatus::Accepted => Some(SCORE_UNIT),
            TestcaseEvaluationStatus::Partial(p) => Some(*p),
            _ => Some(0),
        }
    }
}

/// Whether a testcase whose recorded status is `current` (`None`: no event
/// yet) may move to `next`: never out of a terminal status, and never back to
/// an earlier stage.
pub open spec fn transition_allowed(
    current: Option<TestcaseEvaluationStatus>,
    next: TestcaseEvaluationStatus,
) -> bool {
    match current {
        None => true,
        Some(c) => !c.terminal() && c.stage() <= next.stage(),
    }
}

} // verus!
