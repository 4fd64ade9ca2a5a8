//! The sanity checks: independent validators of a task that run before and
//! after its evaluation and report on the diagnostics channel.

use crate::diagnostics::{DiagnosticView, Diagnostics};
use crate::lookup::{lemma_no_index, lemma_push_new_key};
use crate::task::Task;
use crate::tree::ResultTree;
use vstd::prelude::*;

verus! {

/// Why a hook could not do its work.
#[derive(Clone, Copy, Debug, PartialEq, Eq, Structural)]
pub enum CheckError {
    /// The task directory could not be read.
    TaskUnreadable,
}

/// Why a check is not taken into the registry.
#[derive(Clone, Copy, Debug, PartialEq, Eq, Structural)]
pub enum RegistrationError {
    /// The check has neither a hook that runs before the evaluation nor one
    /// that runs after it.
    NoHooks,
    /// A check of the same name is registered already.
    DuplicateName,
}

/// A hook that failed, with the name of its check.
#[derive(Debug)]
pub struct HookFailure {
    /// The name of the check.
    pub check: String,
    /// Why the hook failed.
    pub error: CheckError,
}

impl View for HookFailure {
    type V = (Seq<char>, CheckError);

    open spec fn view(&self) -> (Seq<char>, CheckError) {
        (self.check@, self.error)
    }
}

/// The views of a sequence of failures.
pub open spec fn failure_views(failures: Seq<HookFailure>) -> Seq<(Seq<char>, CheckError)> {
    Seq::new(failures.len(), |i: int| failures[i]@)
}

/// A sanity check. It has a stable name and at least one of two hooks.
///
/// A hook reports what it finds about the task as warnings and errors on the
/// diagnostics channel, to which it can only add. It fails only when it
/// could not do its work. What a hook reports and whether it fails is a
/// function of the check and of what the hook is given.
pub trait SanityCheck {
    /// The name of the check.
    spec fn name_text(&self) -> Seq<char>;

    /// Whether the check has a hook that runs before the evaluation.
    spec fn runs_before(&self) -> bool;

    /// Whether the check has a hook that runs after the evaluation.
    spec fn runs_after(&self) -> bool;

    /// What the hook that runs before the evaluation reports.
    spec fn pre_findings(&self, task: &Task) -> Seq<DiagnosticView>;

    /// Whether the hook that runs before the evaluation fails.
    spec fn pre_outcome(&self, task: &Task) -> Result<(), CheckError>;

    /// What the hook that runs after the evaluation reports.
    spec fn post_findings(&self, task: &Task, tree: &ResultTree) -> Seq<DiagnosticView>;

    /// Whether the hook that runs after the evaluation fails.
    spec fn post_outcome(&self, task: &Task, tree: &ResultTree) -> Result<(), CheckError>;

    /// The name of the check.
    fn name(&self) -> (r: &'static str)
        ensures
            r@ == self.name_text(),
    ;

    /// Whether the check has a hook that runs before the evaluation.
    fn has_pre_hook(&self) -> (r: bool)
        ensures
            r == self.runs_before(),
    ;

    /// Whether the check has a hook that runs after the evaluation.
    fn has_post_hook(&self) -> (r: bool)
        ensures
            r == self.runs_after(),
    ;

    /// The hook that runs before the evaluation.
    fn pre_hook(&mut self, task: &Task, diagnostics: &mut Diagnostics) -> (r: Result<
        (),
        CheckError,
    >)
        requires
            task.wf(),
        ensures
            final(diagnostics)@ == old(diagnostics)@ + old(self).pre_findings(task),
            r == old(self).pre_outcome(task),
            final(self).name_text() == old(self).name_text(),
            final(self).runs_before() == old(self).runs_before(),
            final(self).runs_after() == old(self).runs_after(),
    ;

    /// The hook that runs after the evaluation. It reads the result tree
    /// and cannot change it.
    fn post_hook(&mut self, task: &Task, tree: &ResultTree, diagnostics: &mut Diagnostics) -> (r:
        Result<(), CheckError>)
        requires
            task.wf(),
            tree.wf(task),
        ensures
            final(diagnostics)@ == old(diagnostics)@ + old(self).post_findings(task, tree),
            r == old(self).post_outcome(task, tree),
            final(self).name_text() == old(self).name_text(),
            final(self).runs_before() == old(self).runs_before(),
            final(self).runs_after() == old(self).runs_after(),
    ;
}

/// A check as the registry holds it. The checks of a registry may be of
/// different types.
pub struct Registered {
    /// The check.
    pub check: Box<dyn SanityCheck>,
}

/// The names of the checks, in order.
pub open spec fn names_of(checks: Seq<Registered>) -> Seq<Seq<char>> {
    Seq::new(checks.len(), |i: int| checks[i].check.name_text())
}

/// What check `check` adds to the diagnostics channel before the
/// evaluation: its findings if it has the hook, else nothing.
pub open spec fn pre_entries(check: Registered, task: &Task) -> Seq<DiagnosticView> {
    if check.check.runs_before() {
        check.check.pre_findings(task)
    } else {
        Seq::empty()
    }
}

/// What the checks add to the diagnostics channel before the evaluation:
/// the findings of each check that has the hook, in the order of the checks.
pub open spec fn pre_report(checks: Seq<Registered>, task: &Task) -> Seq<DiagnosticView>
    decreases checks.len(),
{
    if checks.len() == 0 {
        Seq::empty()
    } else {
        pre_report(checks.drop_last(), task) + pre_entries(checks.last(), task)
    }
}

/// The hooks that fail before the evaluation, in the order of the checks.
pub open spec fn pre_failures(checks: Seq<Registered>, task: &Task) -> Seq<
    (Seq<char>, CheckError),
>
    decreases checks.len(),
{
    if checks.len() == 0 {
        Seq::empty()
    } else {
        let check = checks.last().check;
        let before = pre_failures(checks.drop_last(), task);
        if check.runs_before() {
            match check.pre_outcome(task) {
                Err(error) => before.push((check.name_text(), error)),
                Ok(_) => before,
            }
        } else {
            before
        }
    }
}

/// What check `check` adds to the diagnostics channel after the evaluation.
pub open spec fn post_entries(check: Registered, task: &Task, tree: &ResultTree) -> Seq<
    DiagnosticView,
> {
    if check.check.runs_after() {
        check.check.post_findings(task, tree)
    } else {
        Seq::empty()
    }
}

/// What the checks add to the diagnostics channel after the evaluation.
pub open spec fn post_report(
    checks: Seq<Registered>,
    task: &Task,
    tree: &ResultTree,
) -> Seq<DiagnosticView>
    decreases checks.len(),
{
    if checks.len() == 0 {
        Seq::empty()
    } else {
        post_report(checks.drop_last(), task, tree) + post_entries(checks.last(), task, tree)
    }
}

/// The hooks that fail after the evaluation, in the order of the checks.
pub open spec fn post_failures(
    checks: Seq<Registered>,
    task: &Task,
    tree: &ResultTree,
) -> Seq<(Seq<char>, CheckError)>
    decreases checks.len(),
{
    if checks.len() == 0 {
        Seq::empty()
    } else {
        let check = checks.last().check;
        let before = post_failures(checks.drop_last(), task, tree);
        if check.runs_after() {
            match check.post_outcome(task, tree) {
                Err(error) => before.push((check.name_text(), error)),
                Ok(_) => before,
            }
        } else {
            before
        }
    }
}

/// The checks are the same as to name and hooks.
pub open spec fn same_checks(a: Seq<Registered>, b: Seq<Registered>) -> bool {
    &&& a.len() == b.len()
    &&& forall|i: int|
        0 <= i < a.len() ==> (#[trigger] a[i]).check.name_text() == b[i].check.name_text()
            && a[i].check.runs_before() == b[i].check.runs_before() && a[i].check.runs_after()
            == b[i].check.runs_after()
}

/// The registry of the sanity checks, in the order of their registration.
pub struct SanityChecks {
    /// The registered checks.
    pub checks: Vec<Registered>,
}

impl SanityChecks {
    /// No name is registered twice, and every check has a hook.
    pub open spec fn wf(&self) -> bool {
        &&& names_of(self.checks@).no_duplicates()
        &&& forall|i: int|
            0 <= i < self.checks@.len() ==> (#[trigger] self.checks@[i]).check.runs_before()
                || self.checks@[i].check.runs_after()
    }

    /// An empty registry.
    pub fn new() -> (r: SanityChecks)
        ensures
            r.wf(),
            r.checks@.len() == 0,
    {
        SanityChecks { checks: Vec::new() }
    }

    /// The number of registered checks.
    pub fn len(&self) -> (r: usize)
        ensures
            r == self.checks@.len(),
    {
        self.checks.len()
    }

    /// Whether a check named `name` is registered.
    pub fn is_registered(&self, name: &str) -> (r: bool)
        ensures
            r == names_of(self.checks@).contains(name@),
    {
        let wanted: String = name.to_owned();
        let mut i: usize = 0;
        while i < self.checks.len()
            invariant
                i <= self.checks@.len(),
                wanted@ == name@,
                forall|a: int| 0 <= a < i ==> names_of(self.checks@)[a] != name@,
            decreases self.checks@.len() - i,
        {
            let candidate: String = self.checks[i].check.name().to_owned();
            if candidate == wanted {
                assert(names_of(self.checks@)[i as int] == name@);
                return true;
            }
            i = i + 1;
        }
        false
    }

    /// Registers a check at the end of the registry. A check without a hook
    /// is refused, and so is one whose name is registered already; the
    /// registry then stays as it was.
    pub fn register(&mut self, check: Registered) -> (r: Result<(), RegistrationError>)
        requires
            old(self).wf(),
        ensures
            final(self).wf(),
            r == (if !check.check.runs_before() && !check.check.runs_after() {
                Err::<(), RegistrationError>(RegistrationError::NoHooks)
            } else if names_of(old(self).checks@).contains(check.check.name_text()) {
                Err::<(), RegistrationError>(RegistrationError::DuplicateName)
            } else {
                Ok::<(), RegistrationError>(())
            }),
            final(self).checks@ == (if r is Ok {
                old(self).checks@.push(check)
            } else {
                old(self).checks@
            }),
    {
        if !check.check.has_pre_hook() && !check.check.has_post_hook() {
            return Err(RegistrationError::NoHooks);
        }
        if self.is_registered(check.check.name()) {
            return Err(RegistrationError::DuplicateName);
        }
        proof {
            lemma_no_index(names_of(self.checks@), check.check.name_text());
            lemma_push_new_key(names_of(self.checks@), check.check.name_text());
            assert(names_of(self.checks@.push(check)) =~= names_of(self.checks@).push(
                check.check.name_text(),
            ));
        }
        self.checks.push(check);
        Ok(())
    }

    /// Runs the hook of every check that has one, before the evaluation.
    /// Every hook runs, whatever the hooks before it reported and whether
    /// they failed or not. Returns the hooks that failed.
    pub fn run_pre_hooks(&mut self, task: &Task, diagnostics: &mut Diagnostics) -> (failures: Vec<
        HookFailure,
    >)
        requires
            task.wf(),
        ensures
            final(diagnostics)@ == old(diagnostics)@ + pre_report(old(self).checks@, task),
            failure_views(failures@) == pre_failures(old(self).checks@, task),
            same_checks(final(self).checks@, old(self).checks@),
    {
        let mut failures: Vec<HookFailure> = Vec::new();
        let mut i: usize = 0;
        while i < self.checks.len()
            invariant
                i <= self.checks@.len(),
                task.wf(),
                same_checks(self.checks@, old(self).checks@),
                forall|j: int| i <= j < self.checks@.len() ==> self.checks@[j] == old(self).checks@[j],
                diagnostics@ == old(diagnostics)@ + pre_report(
                    old(self).checks@.take(i as int),
                    task,
                ),
                failure_views(failures@) == pre_failures(old(self).checks@.take(i as int), task),
            decreases self.checks@.len() - i,
        {
            proof {
                assert(old(self).checks@.take(i + 1).drop_last() =~= old(self).checks@.take(
                    i as int,
                ));
                assert(old(self).checks@.take(i + 1).last() == old(self).checks@[i as int]);
            }
            let ghost entries = pre_entries(old(self).checks@[i as int], task);
            let ghost reported = diagnostics@;
            let ghost failed = failure_views(failures@);
            assert(self.checks@[i as int] == old(self).checks@[i as int]);
            if self.checks[i].check.has_pre_hook() {
                let name: String = self.checks[i].check.name().to_owned();
                let r = self.checks[i].check.pre_hook(task, diagnostics);
                match r {
                    Err(error) => {
                        failures.push(HookFailure { check: name, error });
                        assert(failure_views(failures@) =~= failed.push((name@, error)));
                    },
                    Ok(()) => {},
                }
            }
            proof {
                assert(diagnostics@ == reported + entries);
                assert(pre_report(old(self).checks@.take(i + 1), task) == pre_report(
                    old(self).checks@.take(i as int),
                    task,
                ) + entries);
                assert(diagnostics@ =~= old(diagnostics)@ + pre_report(
                    old(self).checks@.take(i + 1),
                    task,
                ));
            }
            i = i + 1;
        }
        proof {
            assert(old(self).checks@.take(i as int) =~= old(self).checks@);
        }
        failures
    }

    /// Runs the hook of every check that has one, after the evaluation.
    /// Every hook runs, whatever the hooks before it reported and whether
    /// they failed or not. Returns the hooks that failed.
    pub fn run_post_hooks(
        &mut self,
        task: &Task,
        tree: &ResultTree,
        diagnostics: &mut Diagnostics,
    ) -> (failures: Vec<HookFailure>)
        requires
            task.wf(),
            tree.wf(task),
        ensures
            final(diagnostics)@ == old(diagnostics)@ + post_report(old(self).checks@, task, tree),
            failure_views(failures@) == post_failures(old(self).checks@, task, tree),
            same_checks(final(self).checks@, old(self).checks@),
    {
        let mut failures: Vec<HookFailure> = Vec::new();
        let mut i: usize = 0;
        while i < self.checks.len()
            invariant
                i <= self.checks@.len(),
                task.wf(),
                tree.wf(task),
                same_checks(self.checks@, old(self).checks@),
                forall|j: int| i <= j < self.checks@.len() ==> self.checks@[j] == old(self).checks@[j],
                diagnostics@ == old(diagnostics)@ + post_report(
                    old(self).checks@.take(i as int),
                    task,
                    tree,
                ),
                failure_views(failures@) == post_failures(
                    old(self).checks@.take(i as int),
                    task,
                    tree,
                ),
            decreases self.checks@.len() - i,
        {
            proof {
                assert(old(self).checks@.take(i + 1).drop_last() =~= old(self).checks@.take(
                    i as int,
                ));
                assert(old(self).checks@.take(i + 1).last() == old(self).checks@[i as int]);
            }
            let ghost entries = post_entries(old(self).checks@[i as int], task, tree);
            let ghost reported = diagnostics@;
            let ghost failed = failure_views(failures@);
            assert(self.checks@[i as int] == old(self).checks@[i as int]);
            if self.checks[i].check.has_post_hook() {
                let name: String = self.checks[i].check.name().to_owned();
                let r = self.checks[i].check.post_hook(task, tree, diagnostics);
                match r {
                    Err(error) => {
                        failures.push(HookFailure { check: name, error });
                        assert(failure_views(failures@) =~= failed.push((name@, error)));
                    },
                    Ok(()) => {},
                }
            }
            proof {
                assert(diagnostics@ == reported + entries);
                assert(post_report(old(self).checks@.take(i + 1), task, tree) == post_report(
                    old(self).checks@.take(i as int),
                    task,
                    tree,
                ) + entries);
                assert(diagnostics@ =~= old(diagnostics)@ + post_report(
                    old(self).checks@.take(i + 1),
                    task,
                    tree,
                ));
            }
            i = i + 1;
        }
        proof {
            assert(old(self).checks@.take(i as int) =~= old(self).checks@);
        }
        failures
    }
}

/// Checks are isolated from each other: whatever the other checks report,
/// warnings or errors, and whether their hooks fail or not, the hook of each
/// check runs, and what it finds stands in the report in full, after the
/// findings of the checks before it.
pub proof fn lemma_pre_hooks_isolated(checks: Seq<Registered>, task: &Task, index: int)
    requires
        0 <= index < checks.len(),
    ensures
        ({
            let offset = pre_report(checks.take(index), task).len() as int;
            let entries = pre_entries(checks[index], task);
            &&& offset + entries.len() <= pre_report(checks, task).len()
            &&& pre_report(checks, task).subrange(offset, offset + entries.len()) == entries
        }),
    decreases checks.len(),
{
    let rest = checks.drop_last();
    let offset = pre_report(checks.take(index), task).len() as int;
    let entries = pre_entries(checks[index], task);
    if index == checks.len() - 1 {
        assert(checks.take(index) =~= rest);
        assert(pre_report(checks, task).subrange(offset, offset + entries.len()) =~= entries);
    } else {
        assert(rest.take(index) =~= checks.take(index));
        assert(rest[index] == checks[index]);
        lemma_pre_hooks_isolated(rest, task, index);
        assert(pre_report(checks, task).subrange(offset, offset + entries.len()) =~= pre_report(
            rest,
            task,
        ).subrange(offset, offset + entries.len()));
    }
}

/// The same holds after the evaluation: the hook of each check runs, and
/// what it finds stands in the report in full.
pub proof fn lemma_post_hooks_isolated(
    checks: Seq<Registered>,
    task: &Task,
    tree: &ResultTree,
    index: int,
)
    requires
        0 <= index < checks.len(),
    ensures
        ({
            let offset = post_report(checks.take(index), task, tree).len() as int;
            let entries = post_entries(checks[index], task, tree);
            &&& offset + entries.len() <= post_report(checks, task, tree).len()
            &&& post_report(checks, task, tree).subrange(offset, offset + entries.len())
                == entries
        }),
    decreases checks.len(),
{
    let rest = checks.drop_last();
    let offset = post_report(checks.take(index), task, tree).len() as int;
    let entries = post_entries(checks[index], task, tree);
    if index == checks.len() - 1 {
        assert(checks.take(index) =~= rest);
        assert(post_report(checks, task, tree).subrange(offset, offset + entries.len())
            =~= entries);
    } else {
        assert(rest.take(index) =~= checks.take(index));
        assert(rest[index] == checks[index]);
        lemma_post_hooks_isolated(rest, task, tree, index);
        assert(post_report(checks, task, tree).subrange(offset, offset + entries.len())
            =~= post_report(rest, task, tree).subrange(offset, offset + entries.len()));
    }
}

/// No failure is lost: every hook that fails before the evaluation is among
/// the failures that the run returns.
pub proof fn lemma_pre_failures_complete(checks: Seq<Registered>, task: &Task, index: int)
    requires
        0 <= index < checks.len(),
        checks[index].check.runs_before(),
        checks[index].check.pre_outcome(task) is Err,
    ensures
        pre_failures(checks, task).contains(
            (checks[index].check.name_text(), checks[index].check.pre_outcome(task)->Err_0),
        ),
    decreases checks.len(),
{
    let rest = checks.drop_last();
    let wanted = (checks[index].check.name_text(), checks[index].check.pre_outcome(task)->Err_0);
    if index == checks.len() - 1 {
        let all = pre_failures(checks, task);
        assert(all[all.len() - 1] == wanted);
    } else {
        assert(rest[index] == checks[index]);
        lemma_pre_failures_complete(rest, task, index);
        let before = pre_failures(rest, task);
        let at = choose|i: int| 0 <= i < before.len() && before[i] == wanted;
        assert(pre_failures(checks, task)[at] == wanted);
    }
}

} // verus!
