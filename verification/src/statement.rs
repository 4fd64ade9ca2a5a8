//! The check that a task has a statement.

use crate::diagnostics::{DiagnosticView, Diagnostics};
use crate::sanity_checks::{CheckError, SanityCheck};
use crate::task::{lists, Task};
use crate::tree::ResultTree;
use vstd::prelude::*;

verus! {

/// Checks that the statement file is present.
#[derive(Debug, Default)]
pub struct StatementPresent;

impl SanityCheck for StatementPresent {
    open spec fn name_text(&self) -> Seq<char> {
        "StatementPresent"@
    }

    open spec fn runs_before(&self) -> bool {
        true
    }

    open spec fn runs_after(&self) -> bool {
        false
    }

    /// One warning when the task directory was read and holds no
    /// `statement/statement.md`; nothing otherwise.
    open spec fn pre_findings(&self, task: &Task) -> Seq<DiagnosticView> {
        match task.listing {
            Some(files) => if lists(files@, "statement/statement.md"@) {
                Seq::empty()
            } else {
                seq![DiagnosticView::Warning("statement/statement.md does not exist"@)]
            },
            None => Seq::empty(),
        }
    }

    /// The hook fails only when the task directory could not be read.
    open spec fn pre_outcome(&self, task: &Task) -> Result<(), CheckError> {
        match task.listing {
            Some(_) => Ok(()),
            None => Err(CheckError::TaskUnreadable),
        }
    }

    open spec fn post_findings(&self, task: &Task, tree: &ResultTree) -> Seq<DiagnosticView> {
        Seq::empty()
    }

    open spec fn post_outcome(&self, task: &Task, tree: &ResultTree) -> Result<(), CheckError> {
        Ok(())
    }

    fn name(&self) -> (r: &'static str) {
        "StatementPresent"
    }

    fn has_pre_hook(&self) -> (r: bool) {
        true
    }

    fn has_post_hook(&self) -> (r: bool) {
        false
    }

    fn pre_hook(&mut self, task: &Task, diagnostics: &mut Diagnostics) -> (r: Result<
        (),
        CheckError,
    >) {
        match task.has_file("statement/statement.md") {
            None => {
                assert(diagnostics@ =~= old(diagnostics)@ + Seq::<DiagnosticView>::empty());
                Err(CheckError::TaskUnreadable)
            },
            Some(true) => {
                assert(diagnostics@ =~= old(diagnostics)@ + Seq::<DiagnosticView>::empty());
                Ok(())
            },
            Some(false) => {
                diagnostics.warning("statement/statement.md does not exist".to_owned());
                assert(diagnostics@ =~= old(diagnostics)@ + seq![
                    DiagnosticView::Warning("statement/statement.md does not exist"@),
                ]);
                Ok(())
            },
        }
    }

    fn post_hook(&mut self, task: &Task, tree: &ResultTree, diagnostics: &mut Diagnostics) -> (r:
        Result<(), CheckError>) {
        assert(diagnostics@ =~= old(diagnostics)@ + Seq::<DiagnosticView>::empty());
        Ok(())
    }
}

} // verus!
