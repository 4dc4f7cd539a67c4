//! Diagnostics and the verification report.

use vstd::prelude::*;
use crate::drops::DropAction;
use crate::tracker::Lifecycle;
use crate::values::Witness;

verus! {

/// What is wrong at a program point.
#[derive(Debug, PartialEq, Eq)]
pub enum DiagnosticKind {
    /// A binding is used before it was given a value.
    UseBeforeInit,
    /// A binding is used after its value was moved away or dropped.
    UseAfterMove,
    /// A borrow cannot coexist with a borrow that is already active.
    BorrowConflict,
    /// A binding is moved or written while its value is borrowed.
    MutateWhileBorrowed,
    /// A borrow would outlive what it points to.
    DanglingBorrow,
    /// A match leaves a value of type `ty` uncovered; `witness` is one.
    NonExhaustive { ty: usize, witness: Witness },
    /// An arm of a match can never be reached. This is a warning.
    Unreachable { arm: usize },
    /// The program model breaks its own rules. Verification of the function
    /// ends here.
    InternalConsistency,
}

/// A diagnostic kind without what it carries along.
#[derive(Clone, Copy, PartialEq, Eq, Debug, Structural)]
pub enum Finding {
    UseBeforeInit,
    UseAfterMove,
    BorrowConflict,
    MutateWhileBorrowed,
    DanglingBorrow,
    NonExhaustive { ty: usize },
    Unreachable { arm: usize },
    InternalConsistency,
}

/// One finding: where, about which binding, and what.
#[derive(Debug, PartialEq, Eq)]
pub struct Diagnostic {
    /// The program point of the offending statement.
    pub point: usize,
    /// The binding involved, if a single one is.
    pub binding: Option<usize>,
    pub kind: DiagnosticKind,
}

/// A diagnostic without its witness.
#[derive(Clone, Copy, PartialEq, Eq, Debug, Structural)]
pub struct Note {
    pub point: usize,
    pub binding: Option<usize>,
    pub finding: Finding,
}

impl DiagnosticKind {
    /// The kind without what it carries along.
    pub open spec fn finding(self) -> Finding {
        match self {
            DiagnosticKind::UseBeforeInit => Finding::UseBeforeInit,
            DiagnosticKind::UseAfterMove => Finding::UseAfterMove,
            DiagnosticKind::BorrowConflict => Finding::BorrowConflict,
            DiagnosticKind::MutateWhileBorrowed => Finding::MutateWhileBorrowed,
            DiagnosticKind::DanglingBorrow => Finding::DanglingBorrow,
            DiagnosticKind::NonExhaustive { ty, .. } => Finding::NonExhaustive { ty },
            DiagnosticKind::Unreachable { arm } => Finding::Unreachable { arm },
            DiagnosticKind::InternalConsistency => Finding::InternalConsistency,
        }
    }

    /// Whether the kind is a warning: it does not reject the program.
    pub fn is_warning(&self) -> (yes: bool)
        ensures
            yes == (self.finding() is Unreachable),
    {
        match self {
            DiagnosticKind::Unreachable { .. } => true,
            _ => false,
        }
    }
}

impl Diagnostic {
    /// The diagnostic without its witness.
    pub open spec fn note(self) -> Note {
        Note { point: self.point, binding: self.binding, finding: self.kind.finding() }
    }
}

/// The diagnostics without their witnesses.
pub open spec fn notes_of(diagnostics: Seq<Diagnostic>) -> Seq<Note> {
    Seq::new(diagnostics.len(), |i: int| diagnostics[i].note())
}

/// Some note is more than a warning.
pub open spec fn rejects(notes: Seq<Note>) -> bool {
    exists|i: int| 0 <= i < notes.len() && !((#[trigger] notes[i]).finding is Unreachable)
}

/// The overall answer.
#[derive(Clone, Copy, PartialEq, Eq, Debug, Structural)]
pub enum Verdict {
    Accept,
    Reject,
}

/// The verdict that belongs to a list of notes: reject when one of them is
/// more than a warning.
pub open spec fn verdict_of(notes: Seq<Note>) -> Verdict {
    if rejects(notes) {
        Verdict::Reject
    } else {
        Verdict::Accept
    }
}

/// A release and the program point of the scope exit that causes it.
#[derive(Clone, Copy, PartialEq, Eq, Debug, Structural)]
pub struct DropEvent {
    pub point: usize,
    pub action: DropAction,
}

/// What the verification of one function found.
#[derive(Debug)]
pub struct VerificationReport {
    /// The findings, in the order in which they were made.
    pub diagnostics: Vec<Diagnostic>,
    /// The releases at scope exits, in the order in which they happen.
    pub drops: Vec<DropEvent>,
    pub verdict: Verdict,
    /// The last lifecycle state of every binding, in declaration order.
    pub final_states: Vec<Lifecycle>,
}

/// Decides the verdict that belongs to the diagnostics.
pub fn decide(diagnostics: &Vec<Diagnostic>) -> (verdict: Verdict)
    ensures
        verdict == verdict_of(notes_of(diagnostics@)),
{
    let mut i: usize = 0;
    while i < diagnostics.len()
        invariant
            i <= diagnostics@.len(),
            forall|k: int| 0 <= k < i ==> (#[trigger] notes_of(diagnostics@)[k]).finding is Unreachable,
        decreases diagnostics@.len() - i,
    {
        if !diagnostics[i].kind.is_warning() {
            assert(!(notes_of(diagnostics@)[i as int].finding is Unreachable));
            return Verdict::Reject;
        }
        i += 1;
    }
    Verdict::Accept
}

} // verus!
