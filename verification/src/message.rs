//! The events that the execution layer sends, and the ways in which an event
//! can contradict what was recorded before.

use crate::status::{CompilationStatus, TestcaseEvaluationStatus};
use crate::task::{SubtaskId, TestcaseId};
use vstd::prelude::*;

verus! {

/// One event of an evaluation run.
#[derive(Debug)]
#[allow(inconsistent_fields)]
pub enum UIMessage {
    /// The compilation of `file` has the status `status`.
    CompilationStatus { file: String, status: CompilationStatus },
    /// The evaluation of `solution` on a testcase has the status `status`.
    TestcaseStatus {
        solution: String,
        subtask: SubtaskId,
        testcase: TestcaseId,
        status: TestcaseEvaluationStatus,
    },
    /// A warning for the diagnostics channel.
    Warning { message: String },
}

/// The mathematical value of a `UIMessage`.
#[allow(inconsistent_fields)]
pub enum MessageView {
    CompilationStatus { file: Seq<char>, status: CompilationStatus },
    TestcaseStatus {
        solution: Seq<char>,
        subtask: SubtaskId,
        testcase: TestcaseId,
        status: TestcaseEvaluationStatus,
    },
    Warning { message: Seq<char> },
}

impl View for UIMessage {
    type V = MessageView;

    open spec fn view(&self) -> MessageView {
        match self {
            UIMessage::CompilationStatus { file, status } => MessageView::CompilationStatus {
                file: file@,
                status: *status,
            },
            UIMessage::TestcaseStatus {
                solution,
                subtask,
                testcase,
                status,
            } => MessageView::TestcaseStatus {
                solution: solution@,
                subtask: *subtask,
                testcase: *testcase,
                status: *status,
            },
            UIMessage::Warning { message } => MessageView::Warning { message: message@ },
        }
    }
}

/// The views of a sequence of messages.
pub open spec fn message_views(messages: Seq<UIMessage>) -> Seq<MessageView> {
    Seq::new(messages.len(), |i: int| messages[i]@)
}

/// An event that contradicts the task or what was recorded before. It shows
/// that producer and aggregator are out of step, and is fatal to the run.
#[derive(Clone, Copy, Debug, PartialEq, Eq, Structural)]
pub enum ProtocolViolation {
    /// The task has no subtask with this identifier.
    UnknownSubtask { subtask: SubtaskId },
    /// The subtask has no testcase with this identifier.
    UnknownTestcase { subtask: SubtaskId, testcase: TestcaseId },
    /// The event carries a partial score above the full contribution.
    InvalidScore,
    /// The testcase already has a terminal status.
    AlreadyTerminal,
    /// The event would move the testcase back to an earlier stage.
    StatusRegressed,
    /// The run was aborted before this event.
    RunAborted,
}

impl ProtocolViolation {
    /// The text that the diagnostics channel receives for the violation.
    pub open spec fn message_text(self) -> Seq<char> {
        match self {
            ProtocolViolation::UnknownSubtask { .. } => "event for an unknown subtask"@,
            ProtocolViolation::UnknownTestcase { .. } => "event for an unknown testcase"@,
            ProtocolViolation::InvalidScore => "partial score out of range"@,
            ProtocolViolation::AlreadyTerminal => "testcase already has a terminal status"@,
            ProtocolViolation::StatusRegressed => "testcase status moved backwards"@,
            ProtocolViolation::RunAborted => "event after the run was aborted"@,
        }
    }

    /// The text that the diagnostics channel receives for the violation.
    pub fn message(&self) -> (r: String)
        ensures
            r@ == self.message_text(),
    {
        match self {
            ProtocolViolation::UnknownSubtask { .. } => "event for an unknown subtask".to_owned(),
            ProtocolViolation::UnknownTestcase { .. } => "event for an unknown testcase".to_owned(),
            ProtocolViolation::InvalidScore => "partial score out of range".to_owned(),
            ProtocolViolation::AlreadyTerminal => "testcase already has a terminal status".to_owned(),
            ProtocolViolation::StatusRegressed => "testcase status moved backwards".to_owned(),
            ProtocolViolation::RunAborted => "event after the run was aborted".to_owned(),
        }
    }
}

} // verus!
