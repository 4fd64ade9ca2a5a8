//! The ordered, append-only channel of warnings and errors.

use vstd::prelude::*;

verus! {

/// One entry of the channel.
#[derive(Debug)]
pub enum Diagnostic {
    /// A finding that never stops a run.
    Warning(String),
    /// A finding that is fatal to the caller.
    Error(String),
}

/// The mathematical value of a `Diagnostic`.
pub enum DiagnosticView {
    Warning(Seq<char>),
    Error(Seq<char>),
}

impl View for Diagnostic {
    type V = DiagnosticView;

    open spec fn view(&self) -> DiagnosticView {
        match self {
            Diagnostic::Warning(m) => DiagnosticView::Warning(m@),
            Diagnostic::Error(m) => DiagnosticView::Error(m@),
        }
    }
}

impl Diagnostic {
    /// Whether the entry is an error.
    pub fn is_error(&self) -> (r: bool)
        ensures
            r == (self@ is Error),
    {
        match self {
            Diagnostic::Warning(_) => false,
            Diagnostic::Error(_) => true,
        }
    }

    /// The text of the entry.
    pub fn message(&self) -> (r: &String)
        ensures
            self@ == DiagnosticView::Warning(r@) || self@ == DiagnosticView::Error(r@),
    {
        match self {
            Diagnostic::Warning(m) => m,
            Diagnostic::Error(m) => m,
        }
    }
}

/// Whether some entry of `entries` at position `start` or later is an error.
pub open spec fn has_error_from(entries: Seq<DiagnosticView>, start: int) -> bool {
    exists|i: int| start <= i < entries.len() && 0 <= i && #[trigger] entries[i] is Error
}

/// The diagnostics channel. Entries are only ever added at the end.
#[derive(Debug)]
pub struct Diagnostics {
    /// The entries in the order of their arrival.
    pub entries: Vec<Diagnostic>,
}

impl View for Diagnostics {
    type V = Seq<DiagnosticView>;

    open spec fn view(&self) -> Seq<DiagnosticView> {
        Seq::new(self.entries@.len(), |i: int| self.entries@[i]@)
    }
}

impl Diagnostics {
    /// An empty channel.
    pub fn new() -> (r: Diagnostics)
        ensures
            r@ == Seq::<DiagnosticView>::empty(),
    {
        let r = Diagnostics { entries: Vec::new() };
        assert(r@ =~= Seq::<DiagnosticView>::empty());
        r
    }

    /// Appends a warning.
    pub fn warning(&mut self, message: String)
        ensures
            final(self)@ == old(self)@.push(DiagnosticView::Warning(message@)),
    {
        self.entries.push(Diagnostic::Warning(message));
        assert(self@ =~= old(self)@.push(DiagnosticView::Warning(message@)));
    }

    /// Appends an error.
    pub fn error(&mut self, message: String)
        ensures
            final(self)@ == old(self)@.push(DiagnosticView::Error(message@)),
    {
        self.entries.push(Diagnostic::Error(message));
        assert(self@ =~= old(self)@.push(DiagnosticView::Error(message@)));
    }

    /// The number of entries.
    pub fn len(&self) -> (r: usize)
        ensures
            r == self@.len(),
    {
        self.entries.len()
    }

    /// The entry at position `index`, if there is one.
    pub fn get(&self, index: usize) -> (r: Option<&Diagnostic>)
        ensures
            match r {
                Some(d) => index < self@.len() && d@ == self@[index as int],
                None => index >= self@.len(),
            },
    {
        if index < self.entries.len() {
            Some(&self.entries[index])
        } else {
            None
        }
    }

    /// Whether an error was reported at position `start` or later.
    pub fn has_error_since(&self, start: usize) -> (r: bool)
        ensures
            r == has_error_from(self@, start as int),
    {
        let mut i: usize = start;
        while i < self.entries.len()
            invariant
                start <= i,
                forall|a: int| start <= a < i && a < self@.len() ==> !(#[trigger] self@[a] is Error),
            decreases self.entries.len() - i,
        {
            if self.entries[i].is_error() {
                assert(self@[i as int] is Error);
                return true;
            }
            i = i + 1;
        }
        false
    }

    /// Whether the channel holds an error.
    pub fn has_errors(&self) -> (r: bool)
        ensures
            r == has_error_from(self@, 0),
    {
        self.has_error_since(0)
    }
}

} // verus!
