use task_maker_format::message::{ProtocolViolation, UIMessage};
use task_maker_format::status::TestcaseEvaluationStatus::{
    Accepted, TimeLimitExceeded, WrongAnswer,
};
use task_maker_format::status::{CompilationStatus, ExecutionMetadata, TestcaseEvaluationStatus};
use task_maker_format::task::{Subtask, Task};
use task_maker_format::test_interface::{TestFailure, TestInterface};
use task_maker_format::ui_state::UIState;

fn task() -> Task {
    Task::new(
        "with_st".to_string(),
        Some(1_000_000),
        Some(65536),
        vec![
            Subtask { id: 0, max_score: 40, testcases: vec![1, 0] },
            Subtask { id: 1, max_score: 60, testcases: vec![3, 2] },
        ],
        None,
    )
    .unwrap()
}

fn status(solution: &str, subtask: u32, testcase: u32, s: TestcaseEvaluationStatus) -> UIMessage {
    UIMessage::TestcaseStatus { solution: solution.to_string(), subtask, testcase, status: s }
}

fn compilation(file: &str, status: CompilationStatus) -> UIMessage {
    UIMessage::CompilationStatus { file: file.to_string(), status }
}

fn done() -> CompilationStatus {
    CompilationStatus::Done {
        metadata: ExecutionMetadata { exit_code: 0, time_micros: 10, memory_bytes: 20 },
    }
}

fn failed() -> CompilationStatus {
    CompilationStatus::Failed {
        metadata: ExecutionMetadata { exit_code: 1, time_micros: 10, memory_bytes: 20 },
    }
}

fn messages() -> Vec<UIMessage> {
    vec![
        compilation("sol/ok.cpp", CompilationStatus::Pending),
        compilation("sol/broken.cpp", CompilationStatus::Running),
        compilation("sol/ok.cpp", done()),
        compilation("sol/broken.cpp", failed()),
        UIMessage::Warning { message: "slow machine".to_string() },
        status("sol/ok.cpp", 0, 0, Accepted),
        status("sol/ok.cpp", 0, 1, Accepted),
        status("sol/ok.cpp", 1, 3, WrongAnswer),
        status("sol/ok.cpp", 1, 2, Accepted),
        status("sol/ok.py", 0, 0, Accepted),
    ]
}

fn state() -> UIState {
    let mut state = UIState::new(task());
    state.apply_all(&messages()).unwrap();
    state
}

#[test]
fn new_interface_expects_nothing() {
    let interface = TestInterface::new("with_st".to_string());
    assert_eq!(interface.path, "with_st");
    assert_eq!(interface.time_limit, None);
    assert_eq!(interface.memory_limit, None);
    assert_eq!(interface.max_score, None);
    assert!(interface.must_compile.is_empty());
    assert!(interface.must_not_compile.is_empty());
    assert!(interface.not_compiled.is_empty());
    assert!(interface.subtask_scores.is_none());
    assert!(interface.solution_scores.is_empty());
    assert!(interface.solution_statuses.is_empty());
    assert_eq!(interface.run(task(), &messages()), Ok(()));
    assert_eq!(interface.check(&state()), Ok(()));
}

#[test]
fn builders_can_be_chained() {
    let mut interface = TestInterface::new("with_st".to_string());
    interface
        .time_limit(1_000_000)
        .memory_limit(65536)
        .max_score(100)
        .must_compile("ok.cpp".to_string())
        .must_not_compile("broken.cpp".to_string())
        .not_compiled("ok.py".to_string())
        .subtask_scores(vec![40, 60])
        .solution_score("ok.cpp".to_string(), vec![40, 0])
        .solution_statuses(
            "ok.cpp".to_string(),
            vec![
                TestcaseEvaluationStatus::Accepted,
                TestcaseEvaluationStatus::Accepted,
                TestcaseEvaluationStatus::Accepted,
                TestcaseEvaluationStatus::WrongAnswer,
            ],
        );
    assert_eq!(interface.time_limit, Some(1_000_000));
    assert_eq!(interface.memory_limit, Some(65536));
    assert_eq!(interface.max_score, Some(100));
    assert_eq!(interface.must_compile, vec!["ok.cpp"]);
    assert_eq!(interface.must_not_compile, vec!["broken.cpp"]);
    assert_eq!(interface.not_compiled, vec!["ok.py"]);
    assert_eq!(interface.subtask_scores, Some(vec![40, 60]));
    assert_eq!(interface.solution_scores[0].solution, "ok.cpp");
    assert_eq!(interface.solution_scores[0].scores, vec![40, 0]);
    assert_eq!(interface.solution_statuses[0].statuses.len(), 4);
    assert_eq!(interface.run(task(), &messages()), Ok(()));
}

#[test]
fn first_expectation_of_a_solution_stays() {
    let mut interface = TestInterface::new("t".to_string());
    interface.solution_score("a.cpp".to_string(), vec![1]);
    interface.solution_score("b.cpp".to_string(), vec![2]);
    interface.solution_score("a.cpp".to_string(), vec![3]);
    assert_eq!(interface.solution_scores.len(), 2);
    assert_eq!(interface.solution_scores[0].scores, vec![1]);
    assert_eq!(interface.solution_scores[1].solution, "b.cpp");
    interface.solution_statuses("a.cpp".to_string(), vec![TestcaseEvaluationStatus::Accepted]);
    interface.solution_statuses("a.cpp".to_string(), vec![TestcaseEvaluationStatus::Skipped]);
    assert_eq!(interface.solution_statuses.len(), 1);
    assert_eq!(interface.solution_statuses[0].statuses, vec![TestcaseEvaluationStatus::Accepted]);
}

#[test]
fn limits_are_compared_where_both_are_known() {
    let state = state();
    let mut interface = TestInterface::new("t".to_string());
    interface.time_limit(2_000_000);
    assert_eq!(interface.check_limits(&state), Err(TestFailure::WrongTimeLimit));
    let mut interface = TestInterface::new("t".to_string());
    interface.memory_limit(1);
    assert_eq!(interface.check_limits(&state), Err(TestFailure::WrongMemoryLimit));
    let mut interface = TestInterface::new("t".to_string());
    interface.max_score(99);
    assert_eq!(interface.check_limits(&state), Err(TestFailure::WrongMaxScore));
    let mut interface = TestInterface::new("t".to_string());
    interface.time_limit(5).memory_limit(5).max_score(99);
    assert_eq!(interface.check_limits(&state), Err(TestFailure::WrongTimeLimit));
    let unlimited = Task::new("t".to_string(), None, None, vec![], None).unwrap();
    let mut interface = TestInterface::new("t".to_string());
    interface.time_limit(5).memory_limit(5).max_score(0);
    assert_eq!(interface.check_limits(&UIState::new(unlimited)), Ok(()));
}

#[test]
fn compilations_are_found_by_file_name() {
    let state = state();
    let mut interface = TestInterface::new("t".to_string());
    interface.must_compile("ok.cpp".to_string()).must_compile("ok.py".to_string());
    assert_eq!(
        interface.check_compilation(&state),
        Err(TestFailure::MissingCompilation { index: 1 })
    );
    let mut interface = TestInterface::new("t".to_string());
    interface.must_compile("broken.cpp".to_string());
    assert_eq!(interface.check_compilation(&state), Err(TestFailure::NotCompiled { index: 0 }));
    let mut interface = TestInterface::new("t".to_string());
    interface.must_not_compile("broken.cpp".to_string()).must_not_compile("ok.cpp".to_string());
    assert_eq!(interface.check_compilation(&state), Err(TestFailure::NotFailed { index: 1 }));
    let mut interface = TestInterface::new("t".to_string());
    interface.must_not_compile("sol/broken.cpp".to_string());
    assert_eq!(
        interface.check_compilation(&state),
        Err(TestFailure::MissingFailedCompilation { index: 0 })
    );
    let mut interface = TestInterface::new("t".to_string());
    interface.not_compiled("ok.py".to_string()).not_compiled("ok.cpp".to_string());
    assert_eq!(
        interface.check_compilation(&state),
        Err(TestFailure::UnexpectedCompilation { index: 1 })
    );
    let mut interface = TestInterface::new("t".to_string());
    interface
        .not_compiled("ok.cpp".to_string())
        .must_not_compile("ok.cpp".to_string())
        .must_compile("broken.cpp".to_string());
    assert_eq!(interface.check_compilation(&state), Err(TestFailure::NotCompiled { index: 0 }));
}

#[test]
fn subtask_scores_are_compared() {
    let state = state();
    let mut interface = TestInterface::new("t".to_string());
    interface.subtask_scores(vec![40]);
    assert_eq!(interface.check_subtasks(&state), Err(TestFailure::SubtaskCountMismatch));
    let mut interface = TestInterface::new("t".to_string());
    interface.subtask_scores(vec![40, 61]);
    assert_eq!(
        interface.check_subtasks(&state),
        Err(TestFailure::SubtaskScoreMismatch { subtask: 1 })
    );
    let mut interface = TestInterface::new("t".to_string());
    interface.subtask_scores(vec![41, 61]);
    assert_eq!(
        interface.check_subtasks(&state),
        Err(TestFailure::SubtaskScoreMismatch { subtask: 0 })
    );
    let mut interface = TestInterface::new("t".to_string());
    interface.subtask_scores(vec![40, 60]);
    assert_eq!(interface.check_subtasks(&state), Ok(()));
}

#[test]
fn solution_scores_are_compared() {
    let state = state();
    let mut interface = TestInterface::new("t".to_string());
    interface.solution_score("missing.cpp".to_string(), vec![40, 0]);
    assert_eq!(
        interface.check_solution_scores(&state),
        Err(TestFailure::MissingSolution { index: 0 })
    );
    let mut interface = TestInterface::new("t".to_string());
    interface.solution_score("ok.cpp".to_string(), vec![40, 0]);
    interface.solution_score("ok.py".to_string(), vec![40, 0]);
    assert_eq!(
        interface.check_solution_scores(&state),
        Err(TestFailure::UnknownSolutionScore { index: 1 })
    );
    let mut interface = TestInterface::new("t".to_string());
    interface.solution_score("ok.cpp".to_string(), vec![40, 1]);
    assert_eq!(
        interface.check_solution_scores(&state),
        Err(TestFailure::SolutionScoreMismatch { index: 0 })
    );
    let mut interface = TestInterface::new("t".to_string());
    interface.solution_score("ok.cpp".to_string(), vec![40]);
    assert_eq!(
        interface.check_solution_scores(&state),
        Err(TestFailure::SolutionSubtaskCountMismatch { index: 0 })
    );
    let mut interface = TestInterface::new("t".to_string());
    interface.solution_score("ok.cpp".to_string(), vec![0, 40]);
    assert_eq!(
        interface.check_solution_scores(&state),
        Err(TestFailure::SolutionSubtaskScoreMismatch { index: 0, subtask: 0 })
    );
    let mut interface = TestInterface::new("t".to_string());
    interface.solution_score("ok.cpp".to_string(), vec![u64::MAX, 41]);
    assert_eq!(
        interface.check_solution_scores(&state),
        Err(TestFailure::SolutionScoreMismatch { index: 0 })
    );
    let mut interface = TestInterface::new("t".to_string());
    interface.solution_score("ok.cpp".to_string(), vec![40, 0]);
    assert_eq!(interface.check_solution_scores(&state), Ok(()));
}

#[test]
fn solution_statuses_are_compared_in_testcase_order() {
    let state = state();
    let mut interface = TestInterface::new("t".to_string());
    interface.solution_statuses("ok.cpp".to_string(), vec![Accepted, Accepted, Accepted, WrongAnswer]);
    assert_eq!(interface.check_solution_statuses(&state), Ok(()));
    let mut interface = TestInterface::new("t".to_string());
    interface.solution_statuses("ok.cpp".to_string(), vec![Accepted, Accepted, WrongAnswer, Accepted]);
    assert_eq!(
        interface.check_solution_statuses(&state),
        Err(TestFailure::SolutionStatusMismatch { index: 0, position: 2 })
    );
    let mut interface = TestInterface::new("t".to_string());
    interface.solution_statuses("ok.cpp".to_string(), vec![Accepted]);
    assert_eq!(
        interface.check_solution_statuses(&state),
        Err(TestFailure::SolutionStatusMismatch { index: 0, position: 3 })
    );
    let mut interface = TestInterface::new("t".to_string());
    interface.solution_statuses("ok.cpp".to_string(), vec![]);
    assert_eq!(
        interface.check_solution_statuses(&state),
        Err(TestFailure::NoExpectedStatus { index: 0 })
    );
    let mut interface = TestInterface::new("t".to_string());
    interface.solution_statuses("nope.cpp".to_string(), vec![Accepted]);
    assert_eq!(
        interface.check_solution_statuses(&state),
        Err(TestFailure::MissingSolutionStatuses { index: 0 })
    );
    let mut interface = TestInterface::new("t".to_string());
    interface.solution_statuses("ok.py".to_string(), vec![Accepted]);
    assert_eq!(
        interface.check_solution_statuses(&state),
        Err(TestFailure::SolutionStatusMismatch { index: 0, position: 1 })
    );
}

#[test]
fn last_expected_status_covers_the_rest() {
    let mut state = UIState::new(task());
    for (subtask, testcase) in [(0, 0), (0, 1), (1, 2), (1, 3)] {
        let s = if testcase == 0 { Accepted } else { TimeLimitExceeded };
        state.apply(status("slow.cpp", subtask, testcase, s)).unwrap();
    }
    let mut interface = TestInterface::new("t".to_string());
    interface.solution_statuses("slow.cpp".to_string(), vec![Accepted, TimeLimitExceeded]);
    assert_eq!(interface.check_solution_statuses(&state), Ok(()));
    assert_eq!(interface.check(&state), Ok(()));
}

#[test]
fn run_reports_a_refused_message_first() {
    let mut interface = TestInterface::new("t".to_string());
    interface.max_score(1);
    let mut all = messages();
    all.push(status("sol/ok.cpp", 0, 0, TestcaseEvaluationStatus::Accepted));
    assert_eq!(
        interface.run(task(), &all),
        Err(TestFailure::Protocol(ProtocolViolation::AlreadyTerminal))
    );
    assert_eq!(interface.run(task(), &messages()), Err(TestFailure::WrongMaxScore));
}

#[test]
fn checks_come_in_a_fixed_order() {
    let state = state();
    let mut interface = TestInterface::new("t".to_string());
    interface
        .solution_statuses("nope.cpp".to_string(), vec![])
        .solution_score("nope.cpp".to_string(), vec![])
        .subtask_scores(vec![])
        .must_compile("nope.cpp".to_string());
    assert_eq!(interface.check(&state), Err(TestFailure::MissingCompilation { index: 0 }));
    interface.must_compile.clear();
    assert_eq!(interface.check(&state), Err(TestFailure::SubtaskCountMismatch));
    interface.subtask_scores = None;
    assert_eq!(interface.check(&state), Err(TestFailure::MissingSolution { index: 0 }));
    interface.solution_scores.clear();
    assert_eq!(interface.check(&state), Err(TestFailure::MissingSolutionStatuses { index: 0 }));
}
