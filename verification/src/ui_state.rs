//! The aggregator: it applies the events of a run to the result tree, routes
//! warnings and violations to the diagnostics channel, and answers queries.

use crate::diagnostics::{has_error_from, DiagnosticView, Diagnostics};
use crate::message::{message_views, MessageView, ProtocolViolation, UIMessage};
use crate::sanity_checks::{
    failure_views, post_failures, post_report, pre_failures, pre_report, same_checks, HookFailure,
    SanityChecks,
};
use crate::score::Entry;
use crate::status::CompilationStatus;
use crate::task::{total_max_score, SubtaskId, Task, TestcaseId};
use crate::tree::{holds_score, update_spec, ResultTree, TreeView};
use vstd::prelude::*;

verus! {

/// Where a run stands.
#[derive(Clone, Copy, Debug, PartialEq, Eq, Structural)]
pub enum Phase {
    /// No event was applied and no check has run.
    Created,
    /// The run accepts events.
    Running,
    /// The run was aborted: it accepts no event any more.
    Aborted,
}

/// Why the hooks of the sanity checks do not run.
#[derive(Clone, Copy, Debug, PartialEq, Eq, Structural)]
pub enum LifecycleError {
    /// The hooks that run before the evaluation were asked for after an
    /// event was applied or after they had run.
    AlreadyStarted,
    /// The hooks that run after the evaluation were asked for while a
    /// testcase that an event has named is not resolved.
    Incomplete,
}

/// The mathematical value of the aggregator.
pub struct StateView {
    pub tree: TreeView,
    pub diagnostics: Seq<DiagnosticView>,
    pub phase: Phase,
}

/// Whether the aggregator accepts `message` in the state `state`, and if not,
/// why. An aborted run refuses every message.
pub open spec fn verdict(task: Task, state: StateView, message: MessageView) -> Result<
    (),
    ProtocolViolation,
> {
    if state.phase is Aborted {
        Err(ProtocolViolation::RunAborted)
    } else {
        match update_spec(task, state.tree, message) {
            Ok(_) => Ok(()),
            Err(violation) => Err(violation),
        }
    }
}

/// The state after `message`. An aborted run stays as it is. A warning goes
/// to the diagnostics channel. Any other message goes to the result tree; if
/// it is refused there, the tree stays as it is, the violation is reported
/// as an error on the diagnostics channel, and the run is aborted.
pub open spec fn next_state(task: Task, state: StateView, message: MessageView) -> StateView {
    if state.phase is Aborted {
        state
    } else {
        match message {
            MessageView::Warning { message } => StateView {
                tree: state.tree,
                diagnostics: state.diagnostics.push(DiagnosticView::Warning(message)),
                phase: Phase::Running,
            },
            _ => match update_spec(task, state.tree, message) {
                Ok(tree) => StateView {
                    tree,
                    diagnostics: state.diagnostics,
                    phase: Phase::Running,
                },
                Err(violation) => StateView {
                    tree: state.tree,
                    diagnostics: state.diagnostics.push(
                        DiagnosticView::Error(violation.message_text()),
                    ),
                    phase: Phase::Aborted,
                },
            },
        }
    }
}

/// The state after the messages `messages`, applied in order.
pub open spec fn replay(task: Task, state: StateView, messages: Seq<MessageView>) -> StateView
    decreases messages.len(),
{
    if messages.len() == 0 {
        state
    } else {
        next_state(task, replay(task, state, messages.drop_last()), messages.last())
    }
}

/// The first violation among `messages`, applied in order from `state`.
pub open spec fn first_violation(
    task: Task,
    state: StateView,
    messages: Seq<MessageView>,
) -> Option<ProtocolViolation>
    decreases messages.len(),
{
    if messages.len() == 0 {
        None
    } else {
        match first_violation(task, state, messages.drop_last()) {
            Some(violation) => Some(violation),
            None => match verdict(
                task,
                replay(task, state, messages.drop_last()),
                messages.last(),
            ) {
                Ok(_) => None,
                Err(violation) => Some(violation),
            },
        }
    }
}

/// A violation among the first messages is the first violation of all.
pub proof fn lemma_first_violation_stays(
    task: Task,
    state: StateView,
    messages: Seq<MessageView>,
    n: int,
)
    requires
        0 <= n <= messages.len(),
        first_violation(task, state, messages.take(n)) is Some,
    ensures
        first_violation(task, state, messages) == first_violation(task, state, messages.take(n)),
    decreases messages.len() - n,
{
    if n == messages.len() {
        assert(messages.take(n) =~= messages);
    } else {
        assert(messages.drop_last().take(n) =~= messages.take(n));
        lemma_first_violation_stays(task, state, messages.drop_last(), n);
    }
}

/// An aborted run is not changed by further messages.
pub proof fn lemma_aborted_is_final(task: Task, state: StateView, messages: Seq<MessageView>)
    requires
        state.phase is Aborted,
    ensures
        replay(task, state, messages) == state,
    decreases messages.len(),
{
    if messages.len() > 0 {
        lemma_aborted_is_final(task, state, messages.drop_last());
    }
}

/// Replaying a sequence is replaying a prefix and then the rest.
pub proof fn lemma_replay_split(
    task: Task,
    state: StateView,
    messages: Seq<MessageView>,
    n: int,
)
    requires
        0 <= n <= messages.len(),
    ensures
        replay(task, state, messages) == replay(
            task,
            replay(task, state, messages.take(n)),
            messages.skip(n),
        ),
    decreases messages.len() - n,
{
    if n == messages.len() {
        assert(messages.take(n) =~= messages);
        assert(messages.skip(n).len() == 0);
    } else {
        lemma_replay_split(task, state, messages.drop_last(), n);
        assert(messages.drop_last().take(n) =~= messages.take(n));
        assert(messages.drop_last().skip(n) =~= messages.skip(n).drop_last());
        assert(messages.skip(n).last() == messages.last());
    }
}

/// The aggregator.
#[derive(Debug)]
pub struct UIState {
    /// The task that is evaluated.
    pub task: Task,
    /// The maximum score of the task.
    pub max_score: u64,
    /// What is known of the compilations and the solutions.
    pub tree: ResultTree,
    /// The warnings and errors of the run.
    pub diagnostics: Diagnostics,
    /// Where the run stands.
    pub phase: Phase,
}

impl View for UIState {
    type V = StateView;

    open spec fn view(&self) -> StateView {
        StateView { tree: self.tree@, diagnostics: self.diagnostics@, phase: self.phase }
    }
}

impl UIState {
    /// The task and the tree are well formed, and the maximum score is that
    /// of the task.
    pub open spec fn wf(&self) -> bool {
        &&& self.task.wf()
        &&& self.tree.wf(&self.task)
        &&& self.max_score == total_max_score(self.task.subtasks@)
    }

    /// The aggregator of a run of `task` of which nothing is known yet.
    pub fn new(task: Task) -> (r: UIState)
        requires
            task.wf(),
        ensures
            r.wf(),
            r.task == task,
            r@ == (StateView {
                tree: TreeView::empty(),
                diagnostics: Seq::empty(),
                phase: Phase::Created,
            }),
    {
        let max_score = task.max_score();
        let tree = ResultTree::new();
        assert(tree.wf(&task));
        UIState { task, max_score, tree, diagnostics: Diagnostics::new(), phase: Phase::Created }
    }

    /// Applies one message.
    fn apply_borrowed(&mut self, message: &UIMessage) -> (r: Result<(), ProtocolViolation>)
        requires
            old(self).wf(),
        ensures
            final(self).wf(),
            final(self).task == old(self).task,
            final(self).max_score == old(self).max_score,
            final(self)@ == next_state(old(self).task, old(self)@, message@),
            r == verdict(old(self).task, old(self)@, message@),
    {
        match self.phase {
            Phase::Aborted => {
                return Err(ProtocolViolation::RunAborted);
            },
            _ => {},
        }
        self.phase = Phase::Running;
        match message {
            UIMessage::Warning { message: text } => {
                self.diagnostics.warning(text.clone());
                Ok(())
            },
            _ => {
                match self.tree.update(&self.task, message) {
                    Ok(()) => Ok(()),
                    Err(violation) => {
                        self.diagnostics.error(violation.message());
                        self.phase = Phase::Aborted;
                        Err(violation)
                    },
                }
            },
        }
    }

    /// Applies one message of the run.
    ///
    /// A well formed message is never refused: a compilation status replaces
    /// what was recorded, a testcase status is recorded and the scores follow,
    /// a warning goes to the diagnostics channel. A message that contradicts
    /// the task or the tree is returned as a violation, reported on the
    /// diagnostics channel, and aborts the run.
    pub fn apply(&mut self, message: UIMessage) -> (r: Result<(), ProtocolViolation>)
        requires
            old(self).wf(),
        ensures
            final(self).wf(),
            final(self).task == old(self).task,
            final(self).max_score == old(self).max_score,
            final(self)@ == next_state(old(self).task, old(self)@, message@),
            r == verdict(old(self).task, old(self)@, message@),
    {
        self.apply_borrowed(&message)
    }

    /// Applies the messages of a run in order and stops at the first that is
    /// refused, which it returns.
    pub fn apply_all(&mut self, messages: &Vec<UIMessage>) -> (r: Result<(), ProtocolViolation>)
        requires
            old(self).wf(),
        ensures
            final(self).wf(),
            final(self).task == old(self).task,
            final(self).max_score == old(self).max_score,
            final(self)@ == replay(old(self).task, old(self)@, message_views(messages@)),
            r == (match first_violation(old(self).task, old(self)@, message_views(messages@)) {
                Some(violation) => Err::<(), ProtocolViolation>(violation),
                None => Ok::<(), ProtocolViolation>(()),
            }),
    {
        let ghost views = message_views(messages@);
        let mut i: usize = 0;
        while i < messages.len()
            invariant
                i <= messages@.len(),
                views == message_views(messages@),
                self.wf(),
                self.task == old(self).task,
                self.max_score == old(self).max_score,
                self@ == replay(old(self).task, old(self)@, views.take(i as int)),
                first_violation(old(self).task, old(self)@, views.take(i as int)) is None,
            decreases messages@.len() - i,
        {
            let r = self.apply_borrowed(&messages[i]);
            proof {
                assert(views.take(i + 1).drop_last() =~= views.take(i as int));
                assert(views.take(i + 1).last() == messages@[i as int]@);
            }
            match r {
                Ok(()) => {},
                Err(violation) => {
                    proof {
                        assert(self@.phase is Aborted);
                        lemma_replay_split(old(self).task, old(self)@, views, i + 1);
                        lemma_aborted_is_final(old(self).task, self@, views.skip(i + 1));
                        lemma_first_violation_stays(old(self).task, old(self)@, views, i + 1);
                    }
                    return Err(violation);
                },
            }
            i = i + 1;
        }
        proof {
            assert(views.take(i as int) =~= views);
        }
        Ok(())
    }

    /// Whether the run is judged complete: it was aborted, or every testcase
    /// that an event has named is resolved.
    pub open spec fn complete(&self) -> bool {
        self.phase is Aborted || self.tree@.complete()
    }

    /// Whether the run is judged complete.
    pub fn is_complete(&self) -> (r: bool)
        ensures
            r == self.complete(),
    {
        match self.phase {
            Phase::Aborted => true,
            _ => self.tree.is_complete(),
        }
    }

    /// Whether the run was aborted.
    pub fn is_aborted(&self) -> (r: bool)
        ensures
            r == (self.phase is Aborted),
    {
        match self.phase {
            Phase::Aborted => true,
            _ => false,
        }
    }

    /// The status of the compilation of `file`; `None` when no event has
    /// named the file.
    pub fn compilation_status(&self, file: &str) -> (r: Option<CompilationStatus>)
        ensures
            r == self@.tree.compilation(file@),
    {
        self.tree.compilation_status(file)
    }

    /// What is recorded for `solution` on a testcase; `None` when no event
    /// has named the testcase for this solution.
    pub fn testcase_status(&self, solution: &str, subtask: SubtaskId, testcase: TestcaseId) -> (r:
        Entry)
        requires
            self.wf(),
        ensures
            r == self@.tree.status(self.task, solution@, subtask, testcase),
    {
        self.tree.testcase_status(&self.task, solution, subtask, testcase)
    }

    /// The score contribution of `solution` on a testcase, in units of
    /// `1 / SCORE_UNIT`; `None` until the testcase is resolved.
    pub fn testcase_score(&self, solution: &str, subtask: SubtaskId, testcase: TestcaseId) -> (r:
        Option<u64>)
        requires
            self.wf(),
        ensures
            r == (match self@.tree.status(self.task, solution@, subtask, testcase) {
                Some(status) => if status.terminal() {
                    Some(status.contribution() as u64)
                } else {
                    None
                },
                None => None,
            }),
    {
        self.tree.testcase_score(&self.task, solution, subtask, testcase)
    }

    /// The score of `solution` on a subtask; `None` until the subtask is
    /// resolved.
    pub fn subtask_score(&self, solution: &str, subtask: SubtaskId) -> (r: Option<u64>)
        requires
            self.wf(),
        ensures
            r == self@.tree.subtask_score(self.task, solution@, subtask),
    {
        self.tree.subtask_score(&self.task, solution, subtask)
    }

    /// The score of `solution`; `None` until every subtask is resolved.
    pub fn solution_score(&self, solution: &str) -> (r: Option<u64>)
        requires
            self.wf(),
        ensures
            holds_score(r, self@.tree.solution_score(self.task, solution@)),
    {
        self.tree.solution_score(&self.task, solution)
    }

    /// Runs the hooks of the sanity checks that come before the evaluation.
    ///
    /// They run only while no event was applied, and once. Every hook runs.
    /// If a hook fails or reports an error, the run is aborted and accepts
    /// no event; warnings do not abort it. The result tree is not touched.
    pub fn run_pre_hooks(&mut self, checks: &mut SanityChecks) -> (r: Result<
        Vec<HookFailure>,
        LifecycleError,
    >)
        requires
            old(self).wf(),
        ensures
            final(self).wf(),
            final(self).task == old(self).task,
            final(self).max_score == old(self).max_score,
            final(self).tree == old(self).tree,
            same_checks(final(checks).checks@, old(checks).checks@),
            match r {
                Err(error) => {
                    &&& error == LifecycleError::AlreadyStarted
                    &&& !(old(self).phase is Created)
                    &&& final(self)@ == old(self)@
                    &&& final(checks).checks@ == old(checks).checks@
                },
                Ok(failures) => {
                    &&& old(self).phase is Created
                    &&& final(self)@.diagnostics == old(self)@.diagnostics + pre_report(
                        old(checks).checks@,
                        &old(self).task,
                    )
                    &&& failure_views(failures@) == pre_failures(
                        old(checks).checks@,
                        &old(self).task,
                    )
                    &&& final(self).phase == (if failures@.len() > 0 || has_error_from(
                        final(self)@.diagnostics,
                        old(self)@.diagnostics.len() as int,
                    ) {
                        Phase::Aborted
                    } else {
                        Phase::Running
                    })
                },
            },
    {
        match self.phase {
            Phase::Created => {},
            _ => {
                return Err(LifecycleError::AlreadyStarted);
            },
        }
        let start: usize = self.diagnostics.len();
        let failures = checks.run_pre_hooks(&self.task, &mut self.diagnostics);
        if failures.len() > 0 || self.diagnostics.has_error_since(start) {
            self.phase = Phase::Aborted;
        } else {
            self.phase = Phase::Running;
        }
        Ok(failures)
    }

    /// Runs the hooks of the sanity checks that come after the evaluation.
    ///
    /// They run only when the run is judged complete. Every hook runs. What
    /// the hooks report or whether they fail changes neither the result tree
    /// nor the scores in it.
    pub fn run_post_hooks(&mut self, checks: &mut SanityChecks) -> (r: Result<
        Vec<HookFailure>,
        LifecycleError,
    >)
        requires
            old(self).wf(),
        ensures
            final(self).wf(),
            final(self).task == old(self).task,
            final(self).max_score == old(self).max_score,
            final(self).tree == old(self).tree,
            final(self).phase == old(self).phase,
            same_checks(final(checks).checks@, old(checks).checks@),
            match r {
                Err(error) => {
                    &&& error == LifecycleError::Incomplete
                    &&& !old(self).complete()
                    &&& final(self)@ == old(self)@
                    &&& final(checks).checks@ == old(checks).checks@
                },
                Ok(failures) => {
                    &&& old(self).complete()
                    &&& final(self)@.diagnostics == old(self)@.diagnostics + post_report(
                        old(checks).checks@,
                        &old(self).task,
                        &old(self).tree,
                    )
                    &&& failure_views(failures@) == post_failures(
                        old(checks).checks@,
                        &old(self).task,
                        &old(self).tree,
                    )
                },
            },
    {
        if !self.is_complete() {
            return Err(LifecycleError::Incomplete);
        }
        let failures = checks.run_post_hooks(&self.task, &self.tree, &mut self.diagnostics);
        Ok(failures)
    }
}

} // verus!
