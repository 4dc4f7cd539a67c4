//! The verifier: one pass over the statements of a function, in the order in
//! which they run.
//!
//! A defect is recorded and the binding at fault is given up, so that one
//! pass finds every independent defect. Only a program model that breaks its
//! own rules ends the pass.

use vstd::prelude::*;
use crate::borrow::BorrowChecker;
use crate::classify::{Classification, Classifier};
use crate::diagnostics::{
    decide, notes_of, verdict_of, Diagnostic, DiagnosticKind, DropEvent, VerificationReport,
};
use crate::drops::{on_scope_exit, DropAction};
use crate::exhaustive::{check_with, left_over};
use crate::inhabit::Inhabitants;
use crate::model::{Arm, Expr, Function, Location, Program, ScopeKind, StatementKind, TypeKind, TypeTable};
use crate::semantics::{
    arrived, assigned, begun_function, blank, concluded, entered_child, enterable, evaluated, evaluated_all,
    fork_of, introduced, left, lent, loop_checked, matched, merged_all, ran, reached, registered,
    registered_one, released, states_of, stepped, stored, taken, taken_all, taken_location,
    unreachable_notes, value_location, verified, worse, Fork, State,
};
use crate::tracker::{Lifecycle, Slot, Tracker, UseMode};
use crate::values::has_type;

verus! {

/// What stays the same during the verification of one function.
pub struct Context<'a> {
    pub table: &'a TypeTable,
    pub function: &'a Function,
    pub classifier: Classifier,
    pub found: Inhabitants,
}

impl<'a> Context<'a> {
    /// The classifier and the samples are those of the table.
    pub open spec fn wf(&self) -> bool {
        self.classifier.describes(*self.table) && self.found.describes(*self.table)
    }

    /// Prepares the verification of `function`.
    pub fn new(table: &'a TypeTable, function: &'a Function) -> (cx: Context<'a>)
        ensures
            cx.wf(),
            cx.table == table,
            cx.function == function,
    {
        Context { table, function, classifier: Classifier::new(table), found: Inhabitants::new(table) }
    }
}

/// A diagnostic that carries a witness belongs to a match and carries a
/// value of the stated type that no arm without a guard takes.
pub open spec fn witness_valid(table: TypeTable, f: Function, d: Diagnostic) -> bool {
    d.kind matches DiagnosticKind::NonExhaustive { ty, witness } ==> {
        &&& d.point < f.body@.len()
        &&& f.body@[d.point as int].kind matches StatementKind::Match { arms, .. }
        &&& has_type(table, ty as int, witness@)
        &&& left_over(table, ty as int, arms@, arms@.len() as int, witness@)
    }
}

/// Every witness is valid.
pub open spec fn witnesses_valid(table: TypeTable, f: Function, diagnostics: Seq<Diagnostic>) -> bool {
    forall|k: int| 0 <= k < diagnostics.len() ==> witness_valid(table, f, #[trigger] diagnostics[k])
}

/// A choice between alternatives that is under way in a scope.
pub struct ForkRecord {
    /// The bindings as they were when the first alternative began.
    pub base: Vec<Slot>,
    /// The bindings as the alternatives before the current one leave them.
    pub merged: Option<Vec<Slot>>,
}

impl View for ForkRecord {
    type V = Fork;

    open spec fn view(&self) -> Fork {
        Fork {
            base: self.base@,
            merged: match self.merged {
                Some(slots) => Some(slots@),
                None => None,
            },
        }
    }
}

/// The fork that a record stands for, if there is one.
pub open spec fn seen_fork(record: Option<ForkRecord>) -> Option<Fork> {
    match record {
        Some(r) => Some(r@),
        None => None,
    }
}

/// The forks that the records stand for.
pub open spec fn forks_of(records: Seq<Option<ForkRecord>>) -> Seq<Option<Fork>> {
    Seq::new(records.len(), |s: int| seen_fork(records[s]))
}

/// A copy of the slots.
fn copy_slots(slots: &Vec<Slot>) -> (copy: Vec<Slot>)
    ensures
        copy@ == slots@,
{
    let mut copy: Vec<Slot> = Vec::new();
    let mut b: usize = 0;
    while b < slots.len()
        invariant
            b <= slots@.len(),
            copy@ == slots@.take(b as int),
        decreases slots@.len() - b,
    {
        copy.push(slots[b]);
        assert(slots@.take(b + 1) =~= slots@.take(b as int).push(slots@[b as int]));
        b += 1;
    }
    assert(slots@.take(slots@.len() as int) =~= slots@);
    copy
}

/// The worse of two lifecycle states for what comes after.
fn worse_of(x: Lifecycle, y: Lifecycle) -> (w: Lifecycle)
    ensures
        w == worse(x, y),
{
    if x == Lifecycle::Dropped || y == Lifecycle::Dropped {
        Lifecycle::Dropped
    } else if x == Lifecycle::MovedFrom || y == Lifecycle::MovedFrom {
        Lifecycle::MovedFrom
    } else if x == Lifecycle::Uninitialized || y == Lifecycle::Uninitialized {
        Lifecycle::Uninitialized
    } else {
        Lifecycle::Owned
    }
}

/// The verification of one function, under way.
pub struct Session {
    pub tracker: Tracker,
    pub borrows: BorrowChecker,
    pub open: Vec<usize>,
    pub entered: Vec<bool>,
    pub entry: Vec<usize>,
    pub forks: Vec<Option<ForkRecord>>,
    pub diagnostics: Vec<Diagnostic>,
    pub drops: Vec<DropEvent>,
    pub aborted: bool,
}

impl View for Session {
    type V = State;

    open spec fn view(&self) -> State {
        State {
            slots: self.tracker.slots(),
            clock: self.tracker.clock(),
            loans: self.borrows.loans(),
            open: self.open@,
            entered: self.entered@,
            entry: self.entry@,
            forks: forks_of(self.forks@),
            notes: notes_of(self.diagnostics@),
            drops: self.drops@,
            aborted: self.aborted,
        }
    }
}

impl Session {
    /// Every witness found so far is valid.
    pub open spec fn wf(&self, cx: &Context) -> bool {
        witnesses_valid(*cx.table, *cx.function, self.diagnostics@)
    }

    /// Records a finding.
    fn note(&mut self, cx: &Context, point: usize, binding: Option<usize>, kind: DiagnosticKind)
        requires
            old(self).wf(cx),
            witness_valid(*cx.table, *cx.function, Diagnostic { point, binding, kind }),
        ensures
            final(self).wf(cx),
            final(self)@ == old(self)@.noted(point, binding, kind.finding()),
    {
        let d = Diagnostic { point, binding, kind };
        self.diagnostics.push(d);
        assert(notes_of(self.diagnostics@) =~= notes_of(old(self).diagnostics@).push(d.note()));
    }

    /// Records a defect of binding `b` and gives the binding up.
    fn fail(&mut self, cx: &Context, point: usize, b: usize, kind: DiagnosticKind)
        requires
            old(self).wf(cx),
            witness_valid(*cx.table, *cx.function, Diagnostic { point, binding: Some(b), kind }),
        ensures
            final(self).wf(cx),
            final(self)@ == old(self)@.failed(point, b, kind.finding()),
    {
        self.note(cx, point, Some(b), kind);
        self.tracker.retire(b, point);
    }

    /// Ends verification: the program model breaks its rules.
    fn stop(&mut self, cx: &Context, point: usize)
        requires
            old(self).wf(cx),
        ensures
            final(self).wf(cx),
            final(self)@ == old(self)@.stopped(point),
    {
        self.note(cx, point, None, DiagnosticKind::InternalConsistency);
        self.aborted = true;
    }

    /// Whether binding `b` can be named here.
    fn resolves(&self, cx: &Context, b: usize) -> (yes: bool)
        ensures
            yes == self@.resolves(cx.function.scopes, b),
    {
        match self.tracker.slot(b) {
            Some(slot) => {
                let n = self.open.len();
                n > 0 && cx.function.scopes.is_enclosing(slot.scope, self.open[n - 1])
            },
            None => false,
        }
    }

    /// Takes the value of binding `b`.
    fn take(&mut self, cx: &Context, b: usize, point: usize) -> (location: Location)
        requires
            cx.wf(),
            old(self).wf(cx),
        ensures
            final(self).wf(cx),
            final(self)@ == taken(*cx.table, cx.function.scopes, old(self)@, b, point),
            location == taken_location(*cx.table, cx.function.scopes, old(self)@, b, point),
            final(self)@.slots.len() == old(self)@.slots.len(),
    {
        if !self.resolves(cx, b) {
            self.stop(cx, point);
            return Location::Created(point);
        }
        let slot = self.tracker.slot(b).unwrap();
        let class = cx.classifier.classify(slot.ty);
        match slot.state {
            Lifecycle::Uninitialized => {
                self.fail(cx, point, b, DiagnosticKind::UseBeforeInit);
                Location::Created(point)
            },
            Lifecycle::MovedFrom => {
                self.fail(cx, point, b, DiagnosticKind::UseAfterMove);
                Location::Created(point)
            },
            Lifecycle::Dropped => {
                self.fail(cx, point, b, DiagnosticKind::UseAfterMove);
                Location::Created(point)
            },
            Lifecycle::Owned => {
                if class == Classification::Move && self.borrows.is_borrowed(slot.location) {
                    self.fail(cx, point, b, DiagnosticKind::MutateWhileBorrowed);
                    Location::Created(point)
                } else {
                    let _ = self.tracker.record_use(b, UseMode::Move, class, point);
                    if class == Classification::Move {
                        slot.location
                    } else {
                        Location::Created(point)
                    }
                }
            },
        }
    }

    /// Takes the values of the bindings, one after the other.
    fn take_all(&mut self, cx: &Context, args: &Vec<usize>, point: usize)
        requires
            cx.wf(),
            old(self).wf(cx),
        ensures
            final(self).wf(cx),
            final(self)@ == taken_all(*cx.table, cx.function.scopes, old(self)@, args@, args@.len(), point),
            final(self)@.slots.len() == old(self)@.slots.len(),
    {
        let mut k: usize = 0;
        while k < args.len() && !self.aborted
            invariant
                k <= args@.len(),
                cx.wf(),
                self.wf(cx),
                self@ == taken_all(*cx.table, cx.function.scopes, old(self)@, args@, k as nat, point),
                self@.slots.len() == old(self)@.slots.len(),
            decreases args@.len() - k,
        {
            let _ = self.take(cx, args[k], point);
            k += 1;
        }
        proof {
            lemma_taken_all_aborted(*cx.table, cx.function.scopes, old(self)@, args@, k as nat, args@.len(), point);
        }
    }

    /// Borrows binding `b`, the borrow to be owned by scope `holder`.
    fn lend(&mut self, cx: &Context, b: usize, mutable: bool, holder: usize, point: usize)
        requires
            cx.wf(),
            old(self).wf(cx),
        ensures
            final(self).wf(cx),
            final(self)@ == lent(*cx.table, cx.function.scopes, old(self)@, b, mutable, holder, point),
            final(self)@.slots.len() == old(self)@.slots.len(),
    {
        if !self.resolves(cx, b) {
            self.stop(cx, point);
            return ;
        }
        let slot = self.tracker.slot(b).unwrap();
        match slot.state {
            Lifecycle::Uninitialized => {
                self.fail(cx, point, b, DiagnosticKind::UseBeforeInit);
            },
            Lifecycle::MovedFrom => {
                self.fail(cx, point, b, DiagnosticKind::UseAfterMove);
            },
            Lifecycle::Dropped => {
                self.fail(cx, point, b, DiagnosticKind::UseAfterMove);
            },
            Lifecycle::Owned => {
                let class = cx.classifier.classify(slot.ty);
                let ghost before = self@;
                match self.borrows.begin_borrow(&cx.function.scopes, slot.location, mutable, holder, slot.scope) {
                    Ok(_) => {
                        let _ = self.tracker.record_use(b, UseMode::Read, class, point);
                        assert(self.tracker.slots() =~= before.slots);
                    },
                    Err(crate::borrow::BorrowError::BorrowConflict) => {
                        self.fail(cx, point, b, DiagnosticKind::BorrowConflict);
                    },
                    Err(crate::borrow::BorrowError::DanglingBorrow) => {
                        self.fail(cx, point, b, DiagnosticKind::DanglingBorrow);
                    },
                }
            },
        }
    }

    /// Evaluates an expression and says where its value resides.
    fn evaluate(&mut self, cx: &Context, e: &Expr, holder: usize, point: usize) -> (location: Location)
        requires
            cx.wf(),
            old(self).wf(cx),
        ensures
            final(self).wf(cx),
            final(self)@ == evaluated(*cx.table, cx.function.scopes, old(self)@, *e, holder, point),
            location == value_location(*cx.table, cx.function.scopes, old(self)@, *e, point),
            final(self)@.slots.len() == old(self)@.slots.len(),
    {
        match e {
            Expr::Literal => Location::Created(point),
            Expr::Construct { args } => {
                self.take_all(cx, args, point);
                Location::Created(point)
            },
            Expr::Use { binding } => self.take(cx, *binding, point),
            Expr::Borrow { binding, mutable } => {
                self.lend(cx, *binding, *mutable, holder, point);
                Location::Created(point)
            },
        }
    }

    /// Evaluates the expressions, one after the other.
    fn evaluate_all(&mut self, cx: &Context, args: &Vec<Expr>, holder: usize, point: usize)
        requires
            cx.wf(),
            old(self).wf(cx),
        ensures
            final(self).wf(cx),
            final(self)@ == evaluated_all(
                *cx.table,
                cx.function.scopes,
                old(self)@,
                args@,
                args@.len(),
                holder,
                point,
            ),
    {
        let mut k: usize = 0;
        while k < args.len() && !self.aborted
            invariant
                k <= args@.len(),
                cx.wf(),
                self.wf(cx),
                self@ == evaluated_all(*cx.table, cx.function.scopes, old(self)@, args@, k as nat, holder, point),
            decreases args@.len() - k,
        {
            let _ = self.evaluate(cx, &args[k], holder, point);
            k += 1;
        }
        proof {
            lemma_evaluated_all_aborted(
                *cx.table,
                cx.function.scopes,
                old(self)@,
                args@,
                k as nat,
                args@.len(),
                holder,
                point,
            );
        }
    }

    /// Stores a value at `location` in binding `b`.
    fn store(&mut self, cx: &Context, b: usize, location: Location, point: usize)
        requires
            old(self).wf(cx),
        ensures
            final(self).wf(cx),
            final(self)@ == stored(old(self)@, b, location, point),
    {
        let _ = self.tracker.record_init(b, location, point);
    }

    /// Whether scope `s` can be entered now.
    fn can_enter(&self, cx: &Context, s: usize) -> (yes: bool)
        ensures
            yes == enterable(cx.function.scopes, self@, s),
    {
        let n = self.open.len();
        let tree = &cx.function.scopes;
        if n > 0 && s < tree.scopes.len() && s < self.entered.len() && s < self.entry.len()
            && self.open[n - 1] < self.forks.len() && !self.entered[s] {
            match tree.scopes[s].parent {
                Some(p) => p == self.open[n - 1],
                None => false,
            }
        } else {
            false
        }
    }

    /// Enters scope `s`, a child of the innermost open scope.
    fn enter(&mut self, cx: &Context, s: usize, point: usize)
        requires
            old(self).wf(cx),
            enterable(cx.function.scopes, old(self)@, s),
        ensures
            final(self).wf(cx),
            final(self)@ == entered_child(cx.function.scopes, old(self)@, s, point),
    {
        let n = self.open.len();
        let parent = self.open[n - 1];
        let record = match cx.function.scopes.scopes[s].kind {
            ScopeKind::Branch => {
                let base = match &self.forks[parent] {
                    Some(record) => Some(copy_slots(&record.base)),
                    None => None,
                };
                match base {
                    Some(base) => {
                        let merged = self.tracker.prefix(base.len());
                        self.tracker.rewind(&base);
                        Some(ForkRecord { base, merged: Some(merged) })
                    },
                    None => {
                        let base = self.tracker.prefix(self.tracker.len());
                        assert(base@ =~= self.tracker.slots());
                        Some(ForkRecord { base, merged: None })
                    },
                }
            },
            _ => None,
        };
        let ghost seen = seen_fork(record);
        self.forks.set(parent, record);
        assert(forks_of(self.forks@) =~= forks_of(old(self).forks@).update(parent as int, seen));
        self.open.push(s);
        self.entered.set(s, true);
        self.entry.set(s, point);
    }

    /// Makes scope `s` the innermost open scope.
    fn reach(&mut self, cx: &Context, s: usize, point: usize)
        requires
            old(self).wf(cx),
        ensures
            final(self).wf(cx),
            final(self)@ == reached(cx.function.scopes, old(self)@, s, point),
        decreases s,
    {
        let n = self.open.len();
        if n > 0 && self.open[n - 1] == s {
            return ;
        }
        if s >= cx.function.scopes.scopes.len() {
            self.stop(cx, point);
            return ;
        }
        match cx.function.scopes.scopes[s].parent {
            Some(parent) => {
                if parent < s {
                    self.reach(cx, parent, point);
                    if self.aborted {
                        return ;
                    }
                    if self.can_enter(cx, s) {
                        self.enter(cx, s, point);
                    } else {
                        self.stop(cx, point);
                    }
                } else {
                    self.stop(cx, point);
                }
            },
            None => {
                self.stop(cx, point);
            },
        }
    }

    /// Reaches a statement of scope `s`.
    fn arrive(&mut self, cx: &Context, s: usize, point: usize)
        requires
            old(self).wf(cx),
        ensures
            final(self).wf(cx),
            final(self)@ == arrived(cx.function.scopes, old(self)@, s, point),
    {
        let n = self.open.len();
        if n > 0 && self.open[n - 1] == s {
            if s < self.forks.len() {
                self.forks.set(s, None);
                assert(forks_of(self.forks@) =~= forks_of(old(self).forks@).update(s as int, None));
            }
            return ;
        }
        self.reach(cx, s, point);
    }

    /// Declares a binding of type `ty` in scope `s`, with or without a first
    /// value.
    fn introduce(&mut self, cx: &Context, ty: usize, init: &Option<Expr>, s: usize, point: usize)
        requires
            cx.wf(),
            old(self).wf(cx),
        ensures
            final(self).wf(cx),
            final(self)@ == introduced(*cx.table, cx.function.scopes, old(self)@, ty, *init, s, point),
    {
        if ty >= cx.table.defs.len() {
            self.stop(cx, point);
            return ;
        }
        let b = self.tracker.declare(ty, s, Location::Created(point), point);
        match init {
            None => {},
            Some(e) => {
                let location = self.evaluate(cx, e, s, point);
                if !self.aborted {
                    self.store(cx, b, location, point);
                }
            },
        }
    }

    /// Assigns to binding `b`.
    fn assign(&mut self, cx: &Context, b: usize, value: &Expr, point: usize)
        requires
            cx.wf(),
            old(self).wf(cx),
        ensures
            final(self).wf(cx),
            final(self)@ == assigned(*cx.table, cx.function.scopes, old(self)@, b, *value, point),
    {
        if !self.resolves(cx, b) {
            self.stop(cx, point);
            return ;
        }
        let holder = self.tracker.slot(b).unwrap().scope;
        let location = self.evaluate(cx, value, holder, point);
        if self.aborted {
            return ;
        }
        let slot = self.tracker.slot(b).unwrap();
        if slot.state == Lifecycle::Owned && self.borrows.is_borrowed(slot.location) {
            self.fail(cx, point, b, DiagnosticKind::MutateWhileBorrowed);
        } else {
            self.store(cx, b, location, point);
        }
    }

    /// Matches binding `b` against the arms of statement `point`.
    fn examine(&mut self, cx: &Context, b: usize, arms: &Vec<Arm>, point: usize)
        requires
            cx.wf(),
            old(self).wf(cx),
            point < cx.function.body@.len(),
            cx.function.body@[point as int].kind matches StatementKind::Match { arms: these, .. } && these
                == *arms,
        ensures
            final(self).wf(cx),
            final(self)@ == matched(*cx.table, cx.function.scopes, old(self)@, b, arms@, point),
    {
        if !self.resolves(cx, b) {
            self.stop(cx, point);
            return ;
        }
        let slot = self.tracker.slot(b).unwrap();
        let class = cx.classifier.classify(slot.ty);
        match slot.state {
            Lifecycle::Uninitialized => {
                self.fail(cx, point, b, DiagnosticKind::UseBeforeInit);
            },
            Lifecycle::MovedFrom => {
                self.fail(cx, point, b, DiagnosticKind::UseAfterMove);
            },
            Lifecycle::Dropped => {
                self.fail(cx, point, b, DiagnosticKind::UseAfterMove);
            },
            Lifecycle::Owned => {
                let ghost before = self@;
                let _ = self.tracker.record_use(b, UseMode::Read, class, point);
                assert(self.tracker.slots() =~= before.slots);
            },
        }
        let ghost read = self@;
        let coverage = check_with(cx.table, &cx.found, slot.ty, arms);
        let dead = coverage.unreachable;
        let mut k: usize = 0;
        while k < dead.len()
            invariant
                k <= dead@.len(),
                self.wf(cx),
                self@ == (State { notes: read.notes + unreachable_notes(dead@.take(k as int), b, point), ..read }),
            decreases dead@.len() - k,
        {
            let ghost notes_before = self@.notes;
            self.note(cx, point, Some(b), DiagnosticKind::Unreachable { arm: dead[k] });
            proof {
                assert(dead@.take(k + 1) =~= dead@.take(k as int).push(dead@[k as int]));
                assert(self@.notes =~= read.notes + unreachable_notes(dead@.take(k + 1), b, point));
            }
            k += 1;
        }
        assert(dead@.take(dead@.len() as int) =~= dead@);
        match coverage.missing {
            None => {},
            Some(witness) => {
                self.fail(cx, point, b, DiagnosticKind::NonExhaustive { ty: slot.ty, witness });
            },
        }
    }

    /// Checks, at the end of the loop body `s`, that no binding from outside
    /// was moved away for good.
    fn check_loop(&mut self, cx: &Context, s: usize, point: usize)
        requires
            old(self).wf(cx),
        ensures
            final(self).wf(cx),
            final(self)@ == loop_checked(cx.function.scopes, old(self)@, s, point, old(self)@.slots.len()),
            final(self)@.open == old(self)@.open,
    {
        let n = self.tracker.len();
        let mut b: usize = 0;
        while b < n
            invariant
                b <= n,
                n == old(self)@.slots.len(),
                self.wf(cx),
                self@.slots.len() == n,
                self@.open == old(self)@.open,
                self@ == loop_checked(cx.function.scopes, old(self)@, s, point, b as nat),
            decreases n - b,
        {
            let slot = self.tracker.slot(b).unwrap();
            if slot.state == Lifecycle::MovedFrom && s < self.entry.len() && slot.since >= self.entry[s]
                && !cx.function.scopes.is_enclosing(s, slot.scope) {
                self.fail(cx, point, b, DiagnosticKind::UseAfterMove);
            }
            b += 1;
        }
    }

    /// Carries out the releases.
    fn release(&mut self, cx: &Context, actions: &Vec<DropAction>, point: usize)
        requires
            old(self).wf(cx),
        ensures
            final(self).wf(cx),
            final(self)@ == released(old(self)@, actions@, actions@.len(), point),
            final(self)@.open == old(self)@.open,
    {
        let mut k: usize = 0;
        while k < actions.len()
            invariant
                k <= actions@.len(),
                self.wf(cx),
                self@.open == old(self)@.open,
                self@ == released(old(self)@, actions@, k as nat, point),
            decreases actions@.len() - k,
        {
            let action = actions[k];
            self.tracker.retire(action.binding, point);
            self.drops.push(DropEvent { point, action });
            k += 1;
        }
    }

    /// Takes what the current alternative leaves of the bindings together
    /// with what the alternatives before it left.
    fn merge(&mut self, cx: &Context, before: &Vec<Slot>, point: usize)
        requires
            old(self).wf(cx),
        ensures
            final(self).wf(cx),
            final(self)@ == merged_all(old(self)@, before@, point, before@.len()),
    {
        let n = self.tracker.len();
        let mut k: usize = 0;
        while k < before.len()
            invariant
                k <= before@.len(),
                self.wf(cx),
                n == self@.slots.len(),
                self@ == merged_all(old(self)@, before@, point, k as nat),
            decreases before@.len() - k,
        {
            if k < n {
                let a = before[k];
                let e = self.tracker.slot(k).unwrap();
                let state = worse_of(a.state, e.state);
                let since = if a.since >= e.since {
                    a.since
                } else {
                    e.since
                };
                let clash = state == Lifecycle::Owned && a.location != e.location && (
                self.borrows.is_borrowed(a.location) || self.borrows.is_borrowed(e.location));
                self.tracker.put(k, Slot { ty: e.ty, scope: e.scope, state, since, location: e.location });
                if clash {
                    self.fail(cx, point, k, DiagnosticKind::MutateWhileBorrowed);
                }
            }
            k += 1;
        }
    }

    /// What the alternatives before scope `s` left of the bindings, where `s`
    /// is an alternative that is not the first of its choice.
    fn merged_before(&self, cx: &Context, s: usize) -> (before: Option<Vec<Slot>>)
        ensures
            match fork_of(cx.function.scopes, self@, s) {
                Some(fork) => match fork.merged {
                    Some(slots) => before matches Some(copy) && copy@ == slots,
                    None => before is None,
                },
                None => before is None,
            },
    {
        let tree = &cx.function.scopes;
        if s >= tree.scopes.len() {
            return None;
        }
        match tree.scopes[s].kind {
            ScopeKind::Branch => {},
            _ => {
                return None;
            },
        }
        match tree.scopes[s].parent {
            Some(parent) => {
                if parent < self.forks.len() {
                    match &self.forks[parent] {
                        Some(record) => match &record.merged {
                            Some(slots) => Some(copy_slots(slots)),
                            None => None,
                        },
                        None => None,
                    }
                } else {
                    None
                }
            },
            None => None,
        }
    }

    /// Ends scope `s`, the innermost open scope.
    fn leave(&mut self, cx: &Context, s: usize, point: usize)
        requires
            old(self).wf(cx),
            old(self)@.open.len() > 0,
        ensures
            final(self).wf(cx),
            final(self)@ == left(*cx.table, cx.function.scopes, old(self)@, s, point),
    {
        let looping = s < cx.function.scopes.scopes.len() && match cx.function.scopes.scopes[s].kind {
            ScopeKind::Loop => true,
            _ => false,
        };
        if looping {
            self.check_loop(cx, s, point);
        }
        let actions = on_scope_exit(cx.table, &self.tracker, s);
        self.release(cx, &actions, point);
        self.borrows.end_borrows_of(s);
        let ghost before = self.open@;
        let _ = self.open.pop();
        assert(self.open@ =~= before.drop_last());
        match self.merged_before(cx, s) {
            Some(slots) => {
                self.merge(cx, &slots, point);
            },
            None => {},
        }
    }

    /// Verifies statement `i` of the function.
    pub fn step(&mut self, cx: &Context, i: usize)
        requires
            cx.wf(),
            old(self).wf(cx),
            i < cx.function.body@.len(),
        ensures
            final(self).wf(cx),
            final(self)@ == stepped(*cx.table, *cx.function, old(self)@, i as int),
    {
        let statement = &cx.function.body[i];
        self.arrive(cx, statement.scope, i);
        if self.aborted {
            return ;
        }
        match &statement.kind {
            StatementKind::Declare { binding, init } => {
                self.introduce(cx, binding.ty, init, statement.scope, i);
            },
            StatementKind::Assign { binding, value } => {
                self.assign(cx, *binding, value, i);
            },
            StatementKind::Call { args, .. } => {
                self.evaluate_all(cx, args, statement.scope, i);
            },
            StatementKind::Match { scrutinee, arms } => {
                self.examine(cx, *scrutinee, arms, i);
            },
            StatementKind::ScopeEnd => {
                self.leave(cx, statement.scope, i);
            },
        }
    }

    /// Registers parameter `j`, of type `ty`.
    fn register(&mut self, cx: &Context, ty: usize, j: usize)
        requires
            cx.wf(),
            old(self).wf(cx),
        ensures
            final(self).wf(cx),
            final(self)@ == registered_one(*cx.table, cx.function.scopes, old(self)@, ty, j),
    {
        if ty >= cx.table.defs.len() {
            self.stop(cx, 0);
            return ;
        }
        let b = self.tracker.declare(ty, 0, Location::Argument(j), 0);
        let _ = self.tracker.record_init(b, Location::Argument(j), 0);
        match cx.table.defs[ty].kind {
            TypeKind::Reference { mutable, .. } => {
                let _ = self.borrows.begin_borrow(&cx.function.scopes, Location::Referent(j), mutable, 0, 0);
            },
            _ => {},
        }
    }

    /// Starts the verification of the function of `cx`: the types and its
    /// scopes are checked and its parameters registered.
    pub fn begin(cx: &Context) -> (session: Session)
        requires
            cx.wf(),
        ensures
            session.wf(cx),
            session@ == begun_function(*cx.table, *cx.function),
    {
        let n = cx.function.scopes.scopes.len();
        let mut entered: Vec<bool> = Vec::new();
        let mut entry: Vec<usize> = Vec::new();
        let mut forks: Vec<Option<ForkRecord>> = Vec::new();
        while entered.len() < n
            invariant
                entered@.len() <= n,
                entry@.len() == entered@.len(),
                forks@.len() == entered@.len(),
                forall|s: int| 0 <= s < entered@.len() ==> entered@[s] == (s == 0),
                forall|s: int| 0 <= s < entry@.len() ==> entry@[s] == 0,
                forall|s: int| 0 <= s < forks@.len() ==> forks@[s] is None,
            decreases n - entered@.len(),
        {
            entered.push(entered.len() == 0);
            entry.push(0);
            forks.push(None);
        }
        let mut open: Vec<usize> = Vec::new();
        open.push(0);
        let mut session = Session {
            tracker: Tracker::new(),
            borrows: BorrowChecker::new(),
            open,
            entered,
            entry,
            forks,
            diagnostics: Vec::new(),
            drops: Vec::new(),
            aborted: false,
        };
        proof {
            let fresh = blank(cx.function.scopes);
            assert(session@.open =~= fresh.open);
            assert(session@.entered =~= fresh.entered);
            assert(session@.entry =~= fresh.entry);
            assert(session@.forks =~= fresh.forks);
            assert(session@.notes =~= fresh.notes);
            assert(session@ == fresh);
        }
        if !cx.table.is_resolved() || !cx.function.scopes.is_well_formed() {
            session.stop(cx, 0);
            return session;
        }
        let params = &cx.function.params;
        let mut j: usize = 0;
        while j < params.len() && !session.aborted
            invariant
                j <= params@.len(),
                cx.wf(),
                session.wf(cx),
                *params == cx.function.params,
                session@ == registered(
                    *cx.table,
                    cx.function.scopes,
                    blank(cx.function.scopes),
                    params@,
                    j as nat,
                ),
            decreases params@.len() - j,
        {
            session.register(cx, params[j].ty, j);
            j += 1;
        }
        proof {
            lemma_registered_aborted(
                *cx.table,
                cx.function.scopes,
                blank(cx.function.scopes),
                params@,
                j as nat,
                params@.len(),
            );
        }
        session
    }

    /// Ends the verification and hands out the report.
    pub fn finish(self, cx: &Context) -> (report: VerificationReport)
        requires
            self.wf(cx),
        ensures
            reports(*cx.table, *cx.function, concluded(*cx.function, self@), report),
    {
        let mut session = self;
        if !session.aborted && session.open.len() > 0 {
            session.stop(cx, cx.function.body.len());
        }
        let n = session.tracker.len();
        let mut final_states: Vec<Lifecycle> = Vec::new();
        let mut b: usize = 0;
        while b < n
            invariant
                b <= n,
                n == session@.slots.len(),
                final_states@.len() == b,
                forall|k: int| 0 <= k < b ==> final_states@[k] == session@.slots[k].state,
            decreases n - b,
        {
            final_states.push(session.tracker.slot(b).unwrap().state);
            b += 1;
        }
        assert(final_states@ =~= states_of(session@.slots));
        let verdict = decide(&session.diagnostics);
        VerificationReport { diagnostics: session.diagnostics, drops: session.drops, verdict, final_states }
    }
}

/// The report says what state `st` holds: its findings, its releases, the
/// verdict that belongs to the findings, and the last state of every binding;
/// and every witness in it is valid.
pub open spec fn reports(table: TypeTable, f: Function, st: State, report: VerificationReport) -> bool {
    &&& notes_of(report.diagnostics@) == st.notes
    &&& report.drops@ == st.drops
    &&& report.verdict == verdict_of(st.notes)
    &&& report.final_states@ == states_of(st.slots)
    &&& witnesses_valid(table, f, report.diagnostics@)
}

/// Once verification has ended, registering more parameters changes nothing.
pub proof fn lemma_registered_aborted(
    table: TypeTable,
    tree: crate::model::ScopeTree,
    st: State,
    params: Seq<crate::model::Binding>,
    k: nat,
    n: nat,
)
    requires
        k <= n,
        k < n ==> registered(table, tree, st, params, k).aborted,
    ensures
        registered(table, tree, st, params, n) == registered(table, tree, st, params, k),
    decreases n - k,
{
    if k < n {
        lemma_registered_aborted(table, tree, st, params, k, (n - 1) as nat);
    }
}

/// Once verification has ended, further statements change nothing.
pub proof fn lemma_ran_aborted(table: TypeTable, f: Function, st: State, k: nat, n: nat)
    requires
        k <= n,
        k < n ==> ran(table, f, st, k).aborted,
    ensures
        ran(table, f, st, n) == ran(table, f, st, k),
    decreases n - k,
{
    if k < n {
        lemma_ran_aborted(table, f, st, k, (n - 1) as nat);
    }
}

/// Verifies one function: walks its statements in order and reports every
/// defect found, the releases at scope exits, the verdict, and the last
/// state of every binding.
pub fn verify_function(table: &TypeTable, function: &Function) -> (report: VerificationReport)
    ensures
        reports(*table, *function, verified(*table, *function), report),
{
    let cx = Context::new(table, function);
    let mut session = Session::begin(&cx);
    let n = function.body.len();
    let mut i: usize = 0;
    while i < n && !session.aborted
        invariant
            i <= n,
            n == function.body@.len(),
            cx.wf(),
            cx.table == table,
            cx.function == function,
            session.wf(&cx),
            session@ == ran(*table, *function, begun_function(*table, *function), i as nat),
        decreases n - i,
    {
        session.step(&cx, i);
        i += 1;
    }
    proof {
        lemma_ran_aborted(*table, *function, begun_function(*table, *function), i as nat, n as nat);
    }
    session.finish(&cx)
}

/// Verifies every function of a program, each on its own.
pub fn verify_program(program: &Program) -> (all: Vec<VerificationReport>)
    ensures
        all@.len() == program.functions@.len(),
        forall|k: int|
            0 <= k < all@.len() ==> reports(
                program.types,
                program.functions@[k],
                verified(program.types, program.functions@[k]),
                #[trigger] all@[k],
            ),
{
    let mut all: Vec<VerificationReport> = Vec::new();
    let mut k: usize = 0;
    while k < program.functions.len()
        invariant
            k <= program.functions@.len(),
            all@.len() == k,
            forall|j: int|
                0 <= j < k ==> reports(
                    program.types,
                    program.functions@[j],
                    verified(program.types, program.functions@[j]),
                    #[trigger] all@[j],
                ),
        decreases program.functions@.len() - k,
    {
        all.push(verify_function(&program.types, &program.functions[k]));
        k += 1;
    }
    all
}

/// Once verification has ended, taking more values changes nothing.
pub proof fn lemma_taken_all_aborted(
    table: TypeTable,
    tree: crate::model::ScopeTree,
    st: State,
    args: Seq<usize>,
    k: nat,
    n: nat,
    point: usize,
)
    requires
        k <= n,
        k < n ==> taken_all(table, tree, st, args, k, point).aborted,
    ensures
        taken_all(table, tree, st, args, n, point) == taken_all(table, tree, st, args, k, point),
    decreases n - k,
{
    if k < n {
        lemma_taken_all_aborted(table, tree, st, args, k, (n - 1) as nat, point);
    }
}

/// Once verification has ended, evaluating more expressions changes nothing.
pub proof fn lemma_evaluated_all_aborted(
    table: TypeTable,
    tree: crate::model::ScopeTree,
    st: State,
    args: Seq<Expr>,
    k: nat,
    n: nat,
    holder: usize,
    point: usize,
)
    requires
        k <= n,
        k < n ==> evaluated_all(table, tree, st, args, k, holder, point).aborted,
    ensures
        evaluated_all(table, tree, st, args, n, holder, point) == evaluated_all(
            table,
            tree,
            st,
            args,
            k,
            holder,
            point,
        ),
    decreases n - k,
{
    if k < n {
        lemma_evaluated_all_aborted(table, tree, st, args, k, (n - 1) as nat, holder, point);
    }
}

} // verus!
