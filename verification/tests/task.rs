use task_maker_format::order::ids_in_order;
use task_maker_format::paths::file_name;
use task_maker_format::task::{Subtask, Task, TaskError};
use task_maker_format::tree::SolutionEvaluationState;
use task_maker_format::status::TestcaseEvaluationStatus;

fn subtask(id: u32, max_score: u64, testcases: Vec<u32>) -> Subtask {
    Subtask { id, max_score, testcases }
}

#[test]
fn task_is_built_from_a_valid_definition() {
    let task = Task::new(
        "t".to_string(),
        Some(2_500_000),
        None,
        vec![subtask(0, 30, vec![0, 1, 2]), subtask(1, 70, vec![3])],
        None,
    )
    .unwrap();
    assert_eq!(task.max_score(), 100);
    assert_eq!(task.subtask_count(), 2);
    assert_eq!(task.time_limit, Some(2_500_000));
    assert_eq!(task.memory_limit, None);
    assert_eq!(task.testcase_index(0, 2), Some(2));
    assert_eq!(task.testcase_index(1, 3), Some(0));
    assert_eq!(task.testcase_index(1, 0), None);
    assert_eq!(task.testcase_index(2, 0), None);
}

#[test]
fn subtask_ids_must_be_dense() {
    let r = Task::new("t".to_string(), None, None, vec![subtask(1, 10, vec![])], None);
    assert_eq!(r.err(), Some(TaskError::SubtaskIdsNotDense));
    let r = Task::new(
        "t".to_string(),
        None,
        None,
        vec![subtask(0, 10, vec![]), subtask(0, 10, vec![])],
        None,
    );
    assert_eq!(r.err(), Some(TaskError::SubtaskIdsNotDense));
}

#[test]
fn testcases_must_be_distinct_within_a_subtask() {
    let r = Task::new("t".to_string(), None, None, vec![subtask(0, 10, vec![1, 2, 1])], None);
    assert_eq!(r.err(), Some(TaskError::DuplicateTestcase));
    let r = Task::new(
        "t".to_string(),
        None,
        None,
        vec![subtask(0, 10, vec![1]), subtask(1, 10, vec![1])],
        None,
    );
    assert!(r.is_ok());
}

#[test]
fn total_score_must_fit() {
    let r = Task::new(
        "t".to_string(),
        None,
        None,
        vec![subtask(0, u64::MAX, vec![]), subtask(1, 1, vec![])],
        None,
    );
    assert_eq!(r.err(), Some(TaskError::ScoreOverflow));
    let r = Task::new(
        "t".to_string(),
        None,
        None,
        vec![subtask(0, u64::MAX - 1, vec![]), subtask(1, 1, vec![])],
        None,
    );
    assert_eq!(r.unwrap().max_score(), u64::MAX);
}

#[test]
fn first_failing_check_decides_the_error() {
    let r = Task::new(
        "t".to_string(),
        None,
        None,
        vec![subtask(5, u64::MAX, vec![1, 1]), subtask(1, u64::MAX, vec![])],
        None,
    );
    assert_eq!(r.err(), Some(TaskError::SubtaskIdsNotDense));
    let r = Task::new(
        "t".to_string(),
        None,
        None,
        vec![subtask(0, u64::MAX, vec![1, 1]), subtask(1, u64::MAX, vec![])],
        None,
    );
    assert_eq!(r.err(), Some(TaskError::DuplicateTestcase));
}

#[test]
fn task_without_subtasks() {
    let task = Task::new("t".to_string(), None, None, vec![], None).unwrap();
    assert_eq!(task.max_score(), 0);
    assert_eq!(task.subtask_count(), 0);
}

#[test]
fn has_file_reads_the_listing() {
    let listing = vec!["task.yaml".to_string(), "statement/statement.md".to_string()];
    let task = Task::new("t".to_string(), None, None, vec![], Some(listing)).unwrap();
    assert_eq!(task.has_file("statement/statement.md"), Some(true));
    assert_eq!(task.has_file("statement.md"), Some(false));
    let task = Task::new("t".to_string(), None, None, vec![], None).unwrap();
    assert_eq!(task.has_file("statement/statement.md"), None);
}

#[test]
fn file_name_is_the_last_part() {
    assert_eq!(file_name("sol/ok/sol.cpp"), "sol.cpp");
    assert_eq!(file_name("sol.cpp"), "sol.cpp");
    assert_eq!(file_name("/abs/über.py"), "über.py");
    assert_eq!(file_name("dir/"), "");
    assert_eq!(file_name(""), "");
    assert_eq!(file_name("/"), "");
    assert_eq!(file_name("a//b"), "b");
}

#[test]
fn ids_come_out_ascending() {
    assert_eq!(ids_in_order(&vec![5, 1, 4, 2]), vec![1, 2, 4, 5]);
    assert_eq!(ids_in_order(&vec![]), Vec::<u32>::new());
    assert_eq!(ids_in_order(&vec![7]), vec![7]);
    assert_eq!(ids_in_order(&vec![3, 3, 1]), vec![1, 3, 3]);
}

#[test]
fn statuses_are_reported_by_ascending_testcase() {
    let task = Task::new(
        "t".to_string(),
        None,
        None,
        vec![subtask(0, 10, vec![9, 3, 6]), subtask(1, 10, vec![2, 1])],
        None,
    )
    .unwrap();
    let mut state = SolutionEvaluationState::new(&task, "sol.py".to_string());
    assert_eq!(state.ordered_statuses(&task), vec![None, None, None, None, None]);
    state.record(&task, 0, 0, TestcaseEvaluationStatus::Accepted);
    state.record(&task, 0, 1, TestcaseEvaluationStatus::WrongAnswer);
    state.record(&task, 1, 0, TestcaseEvaluationStatus::Running);
    assert_eq!(
        state.ordered_statuses(&task),
        vec![
            Some(TestcaseEvaluationStatus::WrongAnswer),
            None,
            Some(TestcaseEvaluationStatus::Accepted),
            None,
            Some(TestcaseEvaluationStatus::Running),
        ]
    );
    assert!(!state.is_complete());
    assert_eq!(state.score, None);
    assert_eq!(state.subtasks[0].score, None);
}

#[test]
fn fresh_solution_state_has_the_shape_of_the_task() {
    let task = Task::new(
        "t".to_string(),
        None,
        None,
        vec![subtask(0, 10, vec![9, 3, 6]), subtask(1, 10, vec![])],
        None,
    )
    .unwrap();
    let state = SolutionEvaluationState::new(&task, "sol.py".to_string());
    assert_eq!(state.solution, "sol.py");
    assert_eq!(state.subtasks.len(), 2);
    assert_eq!(state.subtasks[0].testcases, vec![None, None, None]);
    assert_eq!(state.subtasks[1].testcases, vec![]);
    assert_eq!(state.subtasks[0].score, None);
    assert_eq!(state.subtasks[1].score, Some(10));
    assert_eq!(state.score, None);
    assert!(state.is_complete());
}
