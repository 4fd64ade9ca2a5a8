use task_maker_format::diagnostics::Diagnostic;
use task_maker_format::message::{ProtocolViolation, UIMessage};
use task_maker_format::score::derive_score;
use task_maker_format::status::{
    CompilationStatus, ExecutionMetadata, TestcaseEvaluationStatus, SCORE_UNIT,
};
use task_maker_format::task::{Subtask, Task};
use task_maker_format::ui_state::{Phase, UIState};

const POINT: u64 = 1_000_000;

fn two_subtasks() -> Task {
    Task::new(
        "sum".to_string(),
        Some(1_000_000),
        Some(64 * 1024 * 1024),
        vec![
            Subtask { id: 0, max_score: 40 * POINT, testcases: vec![0, 1] },
            Subtask { id: 1, max_score: 60 * POINT, testcases: vec![2, 3] },
        ],
        Some(vec!["statement/statement.md".to_string()]),
    )
    .unwrap()
}

fn status(
    solution: &str,
    subtask: u32,
    testcase: u32,
    status: TestcaseEvaluationStatus,
) -> UIMessage {
    UIMessage::TestcaseStatus { solution: solution.to_string(), subtask, testcase, status }
}

fn compilation(file: &str, status: CompilationStatus) -> UIMessage {
    UIMessage::CompilationStatus { file: file.to_string(), status }
}

fn metadata(exit_code: u32) -> ExecutionMetadata {
    ExecutionMetadata { exit_code, time_micros: 1500, memory_bytes: 4096 }
}

#[test]
fn worst_testcase_gates_the_subtask() {
    let mut state = UIState::new(two_subtasks());
    assert_eq!(state.max_score, 100 * POINT);
    let accepted = TestcaseEvaluationStatus::Accepted;
    assert_eq!(state.apply(status("sol.cpp", 0, 0, accepted)), Ok(()));
    assert_eq!(state.subtask_score("sol.cpp", 0), None);
    assert_eq!(state.apply(status("sol.cpp", 0, 1, accepted)), Ok(()));
    assert_eq!(state.subtask_score("sol.cpp", 0), Some(40 * POINT));
    assert_eq!(state.solution_score("sol.cpp"), None);
    assert_eq!(state.apply(status("sol.cpp", 1, 2, accepted)), Ok(()));
    assert_eq!(
        state.apply(status("sol.cpp", 1, 3, TestcaseEvaluationStatus::WrongAnswer)),
        Ok(())
    );
    assert_eq!(state.subtask_score("sol.cpp", 0), Some(40 * POINT));
    assert_eq!(state.subtask_score("sol.cpp", 1), Some(0));
    assert_eq!(state.solution_score("sol.cpp"), Some(40 * POINT));
    assert!(state.is_complete());
}

#[test]
fn compilation_is_last_write_wins() {
    let mut state = UIState::new(two_subtasks());
    assert_eq!(state.compilation_status("sol.cpp"), None);
    let failed = CompilationStatus::Failed { metadata: metadata(1) };
    assert_eq!(state.apply(compilation("sol.cpp", failed)), Ok(()));
    assert_eq!(state.compilation_status("sol.cpp"), Some(failed));
    assert_eq!(state.apply(compilation("sol.cpp", CompilationStatus::Running)), Ok(()));
    assert_eq!(state.compilation_status("sol.cpp"), Some(CompilationStatus::Running));
    assert_eq!(state.tree.compilations.len(), 1);
    assert!(!state.is_aborted());
}

#[test]
fn compilations_of_other_files_are_kept() {
    let mut state = UIState::new(two_subtasks());
    let done = CompilationStatus::Done { metadata: metadata(0) };
    state.apply(compilation("a.cpp", CompilationStatus::Pending)).unwrap();
    state.apply(compilation("b.cpp", CompilationStatus::Skipped)).unwrap();
    state.apply(compilation("a.cpp", done)).unwrap();
    assert_eq!(state.compilation_status("a.cpp"), Some(done));
    assert_eq!(state.compilation_status("b.cpp"), Some(CompilationStatus::Skipped));
    assert_eq!(state.compilation_status("c.cpp"), None);
    assert_eq!(state.tree.compilations[0].file, "a.cpp");
    assert_eq!(state.tree.compilations[1].file, "b.cpp");
}

#[test]
fn compilation_terminal_states() {
    assert!(!CompilationStatus::Pending.is_terminal());
    assert!(!CompilationStatus::Running.is_terminal());
    assert!(CompilationStatus::Done { metadata: metadata(0) }.is_terminal());
    assert!(CompilationStatus::Failed { metadata: metadata(1) }.is_terminal());
    assert!(CompilationStatus::Skipped.is_terminal());
}

#[test]
fn unknown_is_not_zero() {
    let mut state = UIState::new(two_subtasks());
    assert_eq!(state.testcase_status("sol.cpp", 0, 0), None);
    assert_eq!(state.testcase_score("sol.cpp", 0, 0), None);
    assert_eq!(state.subtask_score("sol.cpp", 0), None);
    assert_eq!(state.solution_score("sol.cpp"), None);
    state.apply(status("sol.cpp", 0, 0, TestcaseEvaluationStatus::WrongAnswer)).unwrap();
    assert_eq!(
        state.testcase_status("sol.cpp", 0, 0),
        Some(TestcaseEvaluationStatus::WrongAnswer)
    );
    assert_eq!(state.testcase_score("sol.cpp", 0, 0), Some(0));
    assert_eq!(state.testcase_status("sol.cpp", 0, 1), None);
    assert_eq!(state.testcase_score("sol.cpp", 0, 1), None);
    assert_eq!(state.testcase_status("other.cpp", 0, 0), None);
}

#[test]
fn running_testcase_has_no_score() {
    let mut state = UIState::new(two_subtasks());
    state.apply(status("sol.cpp", 0, 0, TestcaseEvaluationStatus::Pending)).unwrap();
    assert_eq!(state.testcase_score("sol.cpp", 0, 0), None);
    state.apply(status("sol.cpp", 0, 0, TestcaseEvaluationStatus::Running)).unwrap();
    assert_eq!(state.testcase_status("sol.cpp", 0, 0), Some(TestcaseEvaluationStatus::Running));
    assert_eq!(state.testcase_score("sol.cpp", 0, 0), None);
    assert!(!state.is_complete());
    state.apply(status("sol.cpp", 0, 0, TestcaseEvaluationStatus::Accepted)).unwrap();
    assert_eq!(state.testcase_score("sol.cpp", 0, 0), Some(SCORE_UNIT));
    assert!(state.is_complete());
}

#[test]
fn second_terminal_status_is_a_violation() {
    let mut state = UIState::new(two_subtasks());
    state.apply(status("sol.cpp", 0, 0, TestcaseEvaluationStatus::WrongAnswer)).unwrap();
    assert_eq!(
        state.apply(status("sol.cpp", 0, 0, TestcaseEvaluationStatus::Accepted)),
        Err(ProtocolViolation::AlreadyTerminal)
    );
    assert_eq!(
        state.testcase_status("sol.cpp", 0, 0),
        Some(TestcaseEvaluationStatus::WrongAnswer)
    );
    assert!(state.is_aborted());
    assert_eq!(state.phase, Phase::Aborted);
    assert_eq!(state.diagnostics.len(), 1);
    match state.diagnostics.get(0) {
        Some(Diagnostic::Error(message)) => {
            assert_eq!(message, "testcase already has a terminal status")
        }
        other => panic!("unexpected entry {:?}", other),
    }
}

#[test]
fn same_terminal_status_twice_is_a_violation() {
    let mut state = UIState::new(two_subtasks());
    state.apply(status("sol.cpp", 1, 2, TestcaseEvaluationStatus::Accepted)).unwrap();
    assert_eq!(
        state.apply(status("sol.cpp", 1, 2, TestcaseEvaluationStatus::Accepted)),
        Err(ProtocolViolation::AlreadyTerminal)
    );
    assert_eq!(
        state.apply(status("sol.cpp", 1, 2, TestcaseEvaluationStatus::Running)),
        Err(ProtocolViolation::RunAborted)
    );
}

#[test]
fn aborted_run_refuses_every_message() {
    let mut state = UIState::new(two_subtasks());
    assert_eq!(
        state.apply(status("sol.cpp", 7, 0, TestcaseEvaluationStatus::Accepted)),
        Err(ProtocolViolation::UnknownSubtask { subtask: 7 })
    );
    assert_eq!(
        state.apply(compilation("sol.cpp", CompilationStatus::Running)),
        Err(ProtocolViolation::RunAborted)
    );
    assert_eq!(
        state.apply(UIMessage::Warning { message: "late".to_string() }),
        Err(ProtocolViolation::RunAborted)
    );
    assert_eq!(state.compilation_status("sol.cpp"), None);
    assert_eq!(state.diagnostics.len(), 1);
    assert!(state.diagnostics.has_errors());
    assert!(state.is_complete());
}

#[test]
fn unknown_testcase_is_a_violation() {
    let mut state = UIState::new(two_subtasks());
    assert_eq!(
        state.apply(status("sol.cpp", 0, 2, TestcaseEvaluationStatus::Accepted)),
        Err(ProtocolViolation::UnknownTestcase { subtask: 0, testcase: 2 })
    );
    assert_eq!(state.tree.evaluations.len(), 0);
    assert_eq!(state.diagnostics.get(0).unwrap().message(), "event for an unknown testcase");
}

#[test]
fn unknown_subtask_is_reported() {
    let mut state = UIState::new(two_subtasks());
    assert_eq!(
        state.apply(status("sol.cpp", 2, 0, TestcaseEvaluationStatus::Accepted)),
        Err(ProtocolViolation::UnknownSubtask { subtask: 2 })
    );
    assert_eq!(state.diagnostics.get(0).unwrap().message(), "event for an unknown subtask");
    assert!(state.diagnostics.get(0).unwrap().is_error());
}

#[test]
fn partial_score_above_one_is_a_violation() {
    let mut state = UIState::new(two_subtasks());
    assert_eq!(
        state.apply(status("sol.cpp", 0, 0, TestcaseEvaluationStatus::Partial(SCORE_UNIT + 1))),
        Err(ProtocolViolation::InvalidScore)
    );
    assert_eq!(state.testcase_status("sol.cpp", 0, 0), None);
    assert_eq!(state.diagnostics.get(0).unwrap().message(), "partial score out of range");
}

#[test]
fn status_cannot_move_backwards() {
    let mut state = UIState::new(two_subtasks());
    state.apply(status("sol.cpp", 0, 0, TestcaseEvaluationStatus::Running)).unwrap();
    assert_eq!(
        state.apply(status("sol.cpp", 0, 0, TestcaseEvaluationStatus::Pending)),
        Err(ProtocolViolation::StatusRegressed)
    );
    assert_eq!(state.testcase_status("sol.cpp", 0, 0), Some(TestcaseEvaluationStatus::Running));
    assert_eq!(state.diagnostics.get(0).unwrap().message(), "testcase status moved backwards");
}

#[test]
fn repeated_running_status_is_accepted() {
    let mut state = UIState::new(two_subtasks());
    state.apply(status("sol.cpp", 0, 0, TestcaseEvaluationStatus::Pending)).unwrap();
    state.apply(status("sol.cpp", 0, 0, TestcaseEvaluationStatus::Pending)).unwrap();
    state.apply(status("sol.cpp", 0, 0, TestcaseEvaluationStatus::Running)).unwrap();
    state.apply(status("sol.cpp", 0, 0, TestcaseEvaluationStatus::Running)).unwrap();
    state.apply(status("sol.cpp", 0, 0, TestcaseEvaluationStatus::TimeLimitExceeded)).unwrap();
    assert_eq!(
        state.testcase_status("sol.cpp", 0, 0),
        Some(TestcaseEvaluationStatus::TimeLimitExceeded)
    );
    assert_eq!(state.diagnostics.len(), 0);
}

#[test]
fn violation_messages() {
    assert_eq!(
        ProtocolViolation::UnknownSubtask { subtask: 1 }.message(),
        "event for an unknown subtask"
    );
    assert_eq!(
        ProtocolViolation::UnknownTestcase { subtask: 1, testcase: 2 }.message(),
        "event for an unknown testcase"
    );
    assert_eq!(ProtocolViolation::InvalidScore.message(), "partial score out of range");
    assert_eq!(
        ProtocolViolation::AlreadyTerminal.message(),
        "testcase already has a terminal status"
    );
    assert_eq!(ProtocolViolation::StatusRegressed.message(), "testcase status moved backwards");
    assert_eq!(ProtocolViolation::RunAborted.message(), "event after the run was aborted");
}

#[test]
fn warnings_go_to_the_diagnostics_channel() {
    let mut state = UIState::new(two_subtasks());
    state.apply(UIMessage::Warning { message: "first".to_string() }).unwrap();
    state.apply(status("sol.cpp", 0, 0, TestcaseEvaluationStatus::Accepted)).unwrap();
    state.apply(UIMessage::Warning { message: "second".to_string() }).unwrap();
    assert_eq!(state.diagnostics.len(), 2);
    assert_eq!(state.diagnostics.get(0).unwrap().message(), "first");
    assert_eq!(state.diagnostics.get(1).unwrap().message(), "second");
    assert!(!state.diagnostics.get(0).unwrap().is_error());
    assert!(!state.diagnostics.has_errors());
    assert!(state.diagnostics.get(2).is_none());
    assert_eq!(state.tree.compilations.len(), 0);
    assert_eq!(state.tree.evaluations.len(), 1);
}

#[test]
fn subtask_score_does_not_depend_on_the_order_of_events() {
    let statuses = [
        (2, TestcaseEvaluationStatus::Partial(250_000)),
        (3, TestcaseEvaluationStatus::Partial(750_000)),
    ];
    let mut forward = UIState::new(two_subtasks());
    for (testcase, s) in statuses.iter() {
        forward.apply(status("sol.cpp", 1, *testcase, *s)).unwrap();
    }
    let mut backward = UIState::new(two_subtasks());
    for (testcase, s) in statuses.iter().rev() {
        backward.apply(status("sol.cpp", 1, *testcase, *s)).unwrap();
    }
    assert_eq!(forward.subtask_score("sol.cpp", 1), Some(15 * POINT));
    assert_eq!(backward.subtask_score("sol.cpp", 1), Some(15 * POINT));
}

#[test]
fn min_rule_on_permuted_statuses() {
    let a = vec![
        Some(TestcaseEvaluationStatus::Accepted),
        Some(TestcaseEvaluationStatus::Partial(300_000)),
        Some(TestcaseEvaluationStatus::Partial(900_000)),
    ];
    let b = vec![a[2], a[0], a[1]];
    let c = vec![a[1], a[2], a[0]];
    assert_eq!(derive_score(1000, &a), Some(300));
    assert_eq!(derive_score(1000, &b), Some(300));
    assert_eq!(derive_score(1000, &c), Some(300));
}

#[test]
fn partial_scores_are_rounded_down() {
    let third = vec![Some(TestcaseEvaluationStatus::Partial(333_333))];
    assert_eq!(derive_score(10, &third), Some(3));
    assert_eq!(derive_score(3_000_000, &third), Some(999_999));
    let full = vec![Some(TestcaseEvaluationStatus::Partial(SCORE_UNIT))];
    assert_eq!(derive_score(u64::MAX, &full), Some(u64::MAX));
    let accepted = vec![Some(TestcaseEvaluationStatus::Accepted)];
    assert_eq!(derive_score(u64::MAX, &accepted), Some(u64::MAX));
}

#[test]
fn unresolved_testcase_leaves_the_score_unknown() {
    let accepted = Some(TestcaseEvaluationStatus::Accepted);
    assert_eq!(derive_score(50, &vec![accepted, None]), None);
    assert_eq!(derive_score(50, &vec![accepted, Some(TestcaseEvaluationStatus::Running)]), None);
    assert_eq!(derive_score(50, &vec![Some(TestcaseEvaluationStatus::Pending)]), None);
    assert_eq!(derive_score(50, &vec![]), Some(50));
}

#[test]
fn every_failing_status_scores_zero() {
    for s in [
        TestcaseEvaluationStatus::WrongAnswer,
        TestcaseEvaluationStatus::TimeLimitExceeded,
        TestcaseEvaluationStatus::MemoryLimitExceeded,
        TestcaseEvaluationStatus::RuntimeError,
        TestcaseEvaluationStatus::Skipped,
        TestcaseEvaluationStatus::InternalError,
    ] {
        assert!(s.is_terminal());
        assert!(s.is_valid());
        assert_eq!(s.lifecycle_stage(), 2);
        assert_eq!(s.score_contribution(), Some(0));
        assert_eq!(derive_score(70, &vec![Some(TestcaseEvaluationStatus::Accepted), Some(s)]), Some(0));
    }
    assert_eq!(TestcaseEvaluationStatus::Accepted.score_contribution(), Some(SCORE_UNIT));
    assert_eq!(TestcaseEvaluationStatus::Partial(17).score_contribution(), Some(17));
    assert_eq!(TestcaseEvaluationStatus::Pending.score_contribution(), None);
    assert_eq!(TestcaseEvaluationStatus::Running.score_contribution(), None);
    assert_eq!(TestcaseEvaluationStatus::Pending.lifecycle_stage(), 0);
    assert_eq!(TestcaseEvaluationStatus::Running.lifecycle_stage(), 1);
    assert!(!TestcaseEvaluationStatus::Partial(SCORE_UNIT + 1).is_valid());
    assert!(TestcaseEvaluationStatus::Partial(SCORE_UNIT).is_valid());
}

#[test]
fn overall_score_is_the_sum_of_the_subtask_scores() {
    let mut state = UIState::new(two_subtasks());
    state.apply(status("sol.cpp", 0, 0, TestcaseEvaluationStatus::Partial(500_000))).unwrap();
    state.apply(status("sol.cpp", 0, 1, TestcaseEvaluationStatus::Accepted)).unwrap();
    state.apply(status("sol.cpp", 1, 2, TestcaseEvaluationStatus::Partial(100_000))).unwrap();
    assert_eq!(state.solution_score("sol.cpp"), None);
    state.apply(status("sol.cpp", 1, 3, TestcaseEvaluationStatus::Partial(200_000))).unwrap();
    let first = state.subtask_score("sol.cpp", 0).unwrap();
    let second = state.subtask_score("sol.cpp", 1).unwrap();
    assert_eq!(first, 20 * POINT);
    assert_eq!(second, 6 * POINT);
    assert_eq!(state.solution_score("sol.cpp"), Some(first + second));
    assert_eq!(state.subtask_score("sol.cpp", 2), None);
}

#[test]
fn solutions_are_independent() {
    let mut state = UIState::new(two_subtasks());
    state.apply(status("a.cpp", 0, 0, TestcaseEvaluationStatus::Accepted)).unwrap();
    state.apply(status("b.cpp", 0, 0, TestcaseEvaluationStatus::WrongAnswer)).unwrap();
    state.apply(status("b.cpp", 0, 1, TestcaseEvaluationStatus::Accepted)).unwrap();
    state.apply(status("a.cpp", 0, 1, TestcaseEvaluationStatus::Accepted)).unwrap();
    assert_eq!(state.subtask_score("a.cpp", 0), Some(40 * POINT));
    assert_eq!(state.subtask_score("b.cpp", 0), Some(0));
    assert_eq!(state.tree.evaluations[0].solution, "a.cpp");
    assert_eq!(state.tree.evaluations[1].solution, "b.cpp");
}

#[test]
fn apply_all_stops_at_the_first_violation() {
    let mut state = UIState::new(two_subtasks());
    let messages = vec![
        status("sol.cpp", 0, 0, TestcaseEvaluationStatus::Accepted),
        status("sol.cpp", 0, 5, TestcaseEvaluationStatus::Accepted),
        status("sol.cpp", 0, 1, TestcaseEvaluationStatus::Accepted),
    ];
    assert_eq!(
        state.apply_all(&messages),
        Err(ProtocolViolation::UnknownTestcase { subtask: 0, testcase: 5 })
    );
    assert_eq!(state.testcase_status("sol.cpp", 0, 0), Some(TestcaseEvaluationStatus::Accepted));
    assert_eq!(state.testcase_status("sol.cpp", 0, 1), None);
    assert!(state.is_aborted());
    let mut state = UIState::new(two_subtasks());
    assert_eq!(state.apply_all(&messages[..1].iter().map(copy).collect()), Ok(()));
    assert_eq!(state.phase, Phase::Running);
}

fn copy(message: &UIMessage) -> UIMessage {
    match message {
        UIMessage::CompilationStatus { file, status } => {
            UIMessage::CompilationStatus { file: file.clone(), status: *status }
        }
        UIMessage::TestcaseStatus { solution, subtask, testcase, status } => {
            UIMessage::TestcaseStatus {
                solution: solution.clone(),
                subtask: *subtask,
                testcase: *testcase,
                status: *status,
            }
        }
        UIMessage::Warning { message } => UIMessage::Warning { message: message.clone() },
    }
}

#[test]
fn empty_subtask_is_resolved_from_the_start() {
    let task = Task::new(
        "edge".to_string(),
        None,
        None,
        vec![
            Subtask { id: 0, max_score: 10, testcases: vec![] },
            Subtask { id: 1, max_score: 90, testcases: vec![4] },
        ],
        None,
    )
    .unwrap();
    let mut state = UIState::new(task);
    assert_eq!(state.subtask_score("sol.cpp", 0), None);
    state.apply(status("sol.cpp", 1, 4, TestcaseEvaluationStatus::Running)).unwrap();
    assert_eq!(state.subtask_score("sol.cpp", 0), Some(10));
    assert_eq!(state.subtask_score("sol.cpp", 1), None);
    assert_eq!(state.solution_score("sol.cpp"), None);
    state.apply(status("sol.cpp", 1, 4, TestcaseEvaluationStatus::Accepted)).unwrap();
    assert_eq!(state.solution_score("sol.cpp"), Some(100));
}

#[test]
fn new_state_is_empty() {
    let state = UIState::new(two_subtasks());
    assert_eq!(state.phase, Phase::Created);
    assert_eq!(state.task.name, "sum");
    assert_eq!(state.diagnostics.len(), 0);
    assert!(state.is_complete());
    assert!(!state.is_aborted());
    assert!(state.tree.is_complete());
}

#[test]
fn scores_stay_within_their_maximum() {
    let mut state = UIState::new(two_subtasks());
    for (subtask, testcase) in [(0, 0), (0, 1), (1, 2), (1, 3)] {
        state
            .apply(status("sol.cpp", subtask, testcase, TestcaseEvaluationStatus::Accepted))
            .unwrap();
    }
    assert_eq!(state.subtask_score("sol.cpp", 0), Some(40 * POINT));
    assert_eq!(state.subtask_score("sol.cpp", 1), Some(60 * POINT));
    assert_eq!(state.solution_score("sol.cpp"), Some(state.max_score));
}

#[test]
fn events_for_different_testcases_commute() {
    let first = || status("a.cpp", 0, 0, TestcaseEvaluationStatus::Running);
    let second = || status("b.cpp", 0, 1, TestcaseEvaluationStatus::WrongAnswer);
    let mut one_way = UIState::new(two_subtasks());
    one_way.apply(first()).unwrap();
    one_way.apply(second()).unwrap();
    let mut other_way = UIState::new(two_subtasks());
    other_way.apply(second()).unwrap();
    other_way.apply(first()).unwrap();
    for solution in ["a.cpp", "b.cpp", "c.cpp"] {
        for (subtask, testcase) in [(0, 0), (0, 1), (1, 2), (1, 3)] {
            assert_eq!(
                one_way.testcase_status(solution, subtask, testcase),
                other_way.testcase_status(solution, subtask, testcase)
            );
        }
    }
    assert_eq!(one_way.testcase_status("a.cpp", 0, 0), Some(TestcaseEvaluationStatus::Running));
    assert_eq!(
        one_way.testcase_status("b.cpp", 0, 1),
        Some(TestcaseEvaluationStatus::WrongAnswer)
    );
}
