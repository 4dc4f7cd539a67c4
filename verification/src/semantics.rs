//! What verification does, statement by statement, stated over plain
//! sequences. The verifier is held to these definitions.

use vstd::prelude::*;
use crate::borrow::{begun, borrow_verdict, borrowed, ended, BorrowError, Loan};
use crate::classify::{classification_of, Classification};
use crate::diagnostics::{DropEvent, Finding, Note};
use crate::drops::{drop_schedule, is_reference, DropAction};
use crate::exhaustive::{exhaustive, unreachable_arms};
use crate::model::{
    Arm, Binding, Expr, Function, Location, ScopeKind, ScopeTree, StatementKind, TypeKind, TypeTable,
};
use crate::tracker::{
    declared, initialized, prefix_of, retired, rewound, stamp, use_outcome, used, Lifecycle, Slot, UseError,
    UseMode,
};

verus! {

/// A choice between alternatives that is under way in a scope.
pub struct Fork {
    /// The bindings as they were when the first alternative began. Every
    /// alternative begins with them.
    pub base: Seq<Slot>,
    /// The bindings as the alternatives before the current one leave them,
    /// taken together; `None` while the first alternative runs.
    pub merged: Option<Seq<Slot>>,
}

/// Everything that verification knows at a program point.
pub struct State {
    /// The bindings declared so far.
    pub slots: Seq<Slot>,
    /// The latest program point at which a binding changed.
    pub clock: usize,
    /// The borrows granted so far.
    pub loans: Seq<Loan>,
    /// The scopes that are open, the innermost last.
    pub open: Seq<usize>,
    /// For each scope, whether it was entered.
    pub entered: Seq<bool>,
    /// For each scope, the program point at which it was entered.
    pub entry: Seq<usize>,
    /// For each scope, the choice between alternatives that is under way in
    /// it, if there is one.
    pub forks: Seq<Option<Fork>>,
    /// The findings so far.
    pub notes: Seq<Note>,
    /// The releases so far.
    pub drops: Seq<DropEvent>,
    /// The program model broke its rules, and verification ended.
    pub aborted: bool,
}

/// The finding that a refused use leads to.
pub open spec fn use_finding(e: UseError) -> Finding {
    match e {
        UseError::UseBeforeInit => Finding::UseBeforeInit,
        UseError::UseAfterMove => Finding::UseAfterMove,
        UseError::Unresolved => Finding::InternalConsistency,
    }
}

/// The finding that a refused borrow leads to.
pub open spec fn borrow_finding(e: BorrowError) -> Finding {
    match e {
        BorrowError::BorrowConflict => Finding::BorrowConflict,
        BorrowError::DanglingBorrow => Finding::DanglingBorrow,
    }
}

impl State {
    /// The state with one more finding.
    pub open spec fn noted(self, point: usize, binding: Option<usize>, finding: Finding) -> State {
        State { notes: self.notes.push(Note { point, binding, finding }), ..self }
    }

    /// The state after binding `b` is given up: it counts as dropped.
    pub open spec fn forfeited(self, b: usize, point: usize) -> State {
        let at = stamp(self.clock, point);
        State { slots: retired(self.slots, b as int, at), clock: at, ..self }
    }

    /// The state after a defect of binding `b` is found: the finding is
    /// recorded and the binding is given up.
    pub open spec fn failed(self, point: usize, b: usize, finding: Finding) -> State {
        self.noted(point, Some(b), finding).forfeited(b, point)
    }

    /// The state after the program model is found to break its rules.
    pub open spec fn stopped(self, point: usize) -> State {
        State { aborted: true, ..self.noted(point, None, Finding::InternalConsistency) }
    }

    /// The state with the clock moved on to `point`.
    pub open spec fn ticked(self, point: usize) -> State {
        State { clock: stamp(self.clock, point), ..self }
    }

    /// Binding `b` can be named here: it was declared, in a scope that is
    /// still open.
    pub open spec fn resolves(self, tree: ScopeTree, b: usize) -> bool {
        &&& b < self.slots.len()
        &&& self.open.len() > 0
        &&& tree.encloses(self.slots[b as int].scope as int, self.open.last() as int)
    }
}

/// The state after the value of binding `b` is taken: moved out of it or
/// copied, as its type says. A move out of a borrowed binding is refused.
pub open spec fn taken(table: TypeTable, tree: ScopeTree, st: State, b: usize, point: usize) -> State {
    if !st.resolves(tree, b) {
        st.stopped(point)
    } else {
        let slot = st.slots[b as int];
        let class = classification_of(table, slot.ty as int);
        match use_outcome(slot.state, UseMode::Move, class) {
            Err(e) => st.failed(point, b, use_finding(e)),
            Ok(_) => if class == Classification::Move && borrowed(st.loans, slot.location) {
                st.failed(point, b, Finding::MutateWhileBorrowed)
            } else {
                let at = stamp(st.clock, point);
                State { slots: used(st.slots, b as int, UseMode::Move, class, at), clock: at, ..st }
            },
        }
    }
}

/// Where the value that is taken from binding `b` resides: where it was, when
/// it is moved; at a new place otherwise.
pub open spec fn taken_location(table: TypeTable, tree: ScopeTree, st: State, b: usize, point: usize) -> Location {
    if st.resolves(tree, b) && classification_of(table, st.slots[b as int].ty as int)
        == Classification::Move && st.slots[b as int].state == Lifecycle::Owned && !borrowed(
        st.loans,
        st.slots[b as int].location,
    ) {
        st.slots[b as int].location
    } else {
        Location::Created(point)
    }
}

/// The state after the values of the first `k` of the bindings are taken, one
/// after the other.
pub open spec fn taken_all(
    table: TypeTable,
    tree: ScopeTree,
    st: State,
    args: Seq<usize>,
    k: nat,
    point: usize,
) -> State
    decreases k,
{
    if k == 0 {
        st
    } else {
        let before = taken_all(table, tree, st, args, (k - 1) as nat, point);
        if before.aborted {
            before
        } else {
            taken(table, tree, before, args[k - 1], point)
        }
    }
}

/// The state after binding `b` is borrowed, the borrow to be owned by scope
/// `holder`.
pub open spec fn lent(
    table: TypeTable,
    tree: ScopeTree,
    st: State,
    b: usize,
    mutable: bool,
    holder: usize,
    point: usize,
) -> State {
    if !st.resolves(tree, b) {
        st.stopped(point)
    } else {
        let slot = st.slots[b as int];
        let class = classification_of(table, slot.ty as int);
        match use_outcome(slot.state, UseMode::Read, class) {
            Err(e) => st.failed(point, b, use_finding(e)),
            Ok(_) => match borrow_verdict(tree, st.loans, slot.location, mutable, holder, slot.scope) {
                Err(e) => st.failed(point, b, borrow_finding(e)),
                Ok(_) => State {
                    loans: begun(tree, st.loans, slot.location, mutable, holder, slot.scope),
                    ..st.ticked(point)
                },
            },
        }
    }
}

/// The state after an expression is evaluated. A reference that it makes is
/// owned by scope `holder`.
pub open spec fn evaluated(
    table: TypeTable,
    tree: ScopeTree,
    st: State,
    e: Expr,
    holder: usize,
    point: usize,
) -> State {
    match e {
        Expr::Literal => st,
        Expr::Construct { args } => taken_all(table, tree, st, args@, args@.len(), point),
        Expr::Use { binding } => taken(table, tree, st, binding, point),
        Expr::Borrow { binding, mutable } => lent(table, tree, st, binding, mutable, holder, point),
    }
}

/// Where the value of an expression resides.
pub open spec fn value_location(table: TypeTable, tree: ScopeTree, st: State, e: Expr, point: usize) -> Location {
    match e {
        Expr::Use { binding } => taken_location(table, tree, st, binding, point),
        _ => Location::Created(point),
    }
}

/// The state after the first `k` of the expressions are evaluated, one after
/// the other.
pub open spec fn evaluated_all(
    table: TypeTable,
    tree: ScopeTree,
    st: State,
    args: Seq<Expr>,
    k: nat,
    holder: usize,
    point: usize,
) -> State
    decreases k,
{
    if k == 0 {
        st
    } else {
        let before = evaluated_all(table, tree, st, args, (k - 1) as nat, holder, point);
        if before.aborted {
            before
        } else {
            evaluated(table, tree, before, args[k - 1], holder, point)
        }
    }
}

/// The state after a value at `location` is stored in binding `b`.
pub open spec fn stored(st: State, b: usize, location: Location, point: usize) -> State {
    let at = stamp(st.clock, point);
    State { slots: initialized(st.slots, b as int, location, at), clock: at, ..st }
}

/// The forks without the one of scope `s`.
pub open spec fn cleared(forks: Seq<Option<Fork>>, s: usize) -> Seq<Option<Fork>> {
    if s < forks.len() {
        forks.update(s as int, None)
    } else {
        forks
    }
}

/// Scope `s` can be entered now: it is a child of the innermost open scope
/// and was not entered before.
pub open spec fn enterable(tree: ScopeTree, st: State, s: usize) -> bool {
    &&& st.open.len() > 0
    &&& tree.knows(s as int)
    &&& s < st.entered.len()
    &&& s < st.entry.len()
    &&& st.open.last() < st.forks.len()
    &&& !st.entered[s as int]
    &&& tree.scopes@[s as int].parent == Some(st.open.last())
}

/// The state after scope `s`, a child of the innermost open scope, is
/// entered.
///
/// Where the child is an alternative, it begins with the bindings as they
/// were when the first alternative of its choice began: every alternative is
/// verified on its own. Borrows are not set back: a borrow lives to the end
/// of the scope that owns it, whichever alternative made it.
pub open spec fn entered_child(tree: ScopeTree, st: State, s: usize, point: usize) -> State {
    let parent = st.open.last();
    let inside = State {
        open: st.open.push(s),
        entered: st.entered.update(s as int, true),
        entry: st.entry.update(s as int, point),
        ..st
    };
    if tree.scopes@[s as int].kind == ScopeKind::Branch {
        match st.forks[parent as int] {
            Some(fork) => State {
                slots: rewound(st.slots, fork.base),
                forks: st.forks.update(
                    parent as int,
                    Some(Fork { base: fork.base, merged: Some(prefix_of(st.slots, fork.base.len())) }),
                ),
                ..inside
            },
            None => State {
                forks: st.forks.update(parent as int, Some(Fork { base: st.slots, merged: None })),
                ..inside
            },
        }
    } else {
        State { forks: st.forks.update(parent as int, None), ..inside }
    }
}

/// The state after scope `s` is made the innermost open scope: it is that
/// already, or its parent is made so first and then `s` is entered. A scope
/// that cannot be entered breaks the rules of the model.
pub open spec fn reached(tree: ScopeTree, st: State, s: usize, point: usize) -> State
    decreases s,
{
    if st.open.len() > 0 && st.open.last() == s {
        st
    } else if tree.knows(s as int) {
        match tree.scopes@[s as int].parent {
            Some(parent) => if parent < s {
                let outer = reached(tree, st, parent, point);
                if outer.aborted {
                    outer
                } else if enterable(tree, outer, s) {
                    entered_child(tree, outer, s, point)
                } else {
                    outer.stopped(point)
                }
            } else {
                st.stopped(point)
            },
            None => st.stopped(point),
        }
    } else {
        st.stopped(point)
    }
}

/// The state after a statement of scope `s` is reached. A statement of the
/// innermost open scope ends a choice that was under way in it; a statement
/// of a scope further in has the scopes down to its own entered.
pub open spec fn arrived(tree: ScopeTree, st: State, s: usize, point: usize) -> State {
    if st.open.len() > 0 && st.open.last() == s {
        State { forks: cleared(st.forks, s), ..st }
    } else {
        reached(tree, st, s, point)
    }
}

/// The state after a declaration of a binding of type `ty` in scope `s`.
pub open spec fn introduced(
    table: TypeTable,
    tree: ScopeTree,
    st: State,
    ty: usize,
    init: Option<Expr>,
    s: usize,
    point: usize,
) -> State {
    if !table.knows(ty as int) {
        st.stopped(point)
    } else {
        let at = stamp(st.clock, point);
        let b = st.slots.len() as usize;
        let fresh = State {
            slots: declared(st.slots, ty, s, Location::Created(point), at),
            clock: at,
            ..st
        };
        match init {
            None => fresh,
            Some(e) => {
                let after = evaluated(table, tree, fresh, e, s, point);
                if after.aborted {
                    after
                } else {
                    stored(after, b, value_location(table, tree, fresh, e, point), point)
                }
            },
        }
    }
}

/// The state after an assignment to binding `b`. Writing to a binding whose
/// value is borrowed is refused.
pub open spec fn assigned(table: TypeTable, tree: ScopeTree, st: State, b: usize, value: Expr, point: usize) -> State {
    if !st.resolves(tree, b) {
        st.stopped(point)
    } else {
        let after = evaluated(table, tree, st, value, st.slots[b as int].scope, point);
        if after.aborted {
            after
        } else if after.slots[b as int].state == Lifecycle::Owned && borrowed(
            after.loans,
            after.slots[b as int].location,
        ) {
            after.failed(point, b, Finding::MutateWhileBorrowed)
        } else {
            stored(after, b, value_location(table, tree, st, value, point), point)
        }
    }
}

/// One warning for each of the arms.
pub open spec fn unreachable_notes(arms: Seq<usize>, b: usize, point: usize) -> Seq<Note> {
    Seq::new(
        arms.len(),
        |i: int| Note { point, binding: Some(b), finding: Finding::Unreachable { arm: arms[i] } },
    )
}

/// The state after a match on binding `b`: the binding is read, every
/// unreachable arm is warned of, and a match that is not exhaustive is a
/// defect of the binding.
pub open spec fn matched(table: TypeTable, tree: ScopeTree, st: State, b: usize, arms: Seq<Arm>, point: usize) -> State {
    if !st.resolves(tree, b) {
        st.stopped(point)
    } else {
        let slot = st.slots[b as int];
        let class = classification_of(table, slot.ty as int);
        let read = match use_outcome(slot.state, UseMode::Read, class) {
            Err(e) => st.failed(point, b, use_finding(e)),
            Ok(_) => st.ticked(point),
        };
        let warned = State {
            notes: read.notes + unreachable_notes(
                unreachable_arms(table, slot.ty as int, arms, arms.len()),
                b,
                point,
            ),
            ..read
        };
        if exhaustive(table, slot.ty as int, arms) {
            warned
        } else {
            warned.failed(point, b, Finding::NonExhaustive { ty: slot.ty })
        }
    }
}

/// Binding `b`, declared outside the loop body `s`, was moved away inside it
/// and not given a value again: the next round would find it gone.
pub open spec fn moved_in_loop(tree: ScopeTree, st: State, s: usize, b: int) -> bool {
    &&& !tree.encloses(s as int, st.slots[b].scope as int)
    &&& st.slots[b].state == Lifecycle::MovedFrom
    &&& s < st.entry.len()
    &&& st.slots[b].since >= st.entry[s as int]
}

/// The state after the first `k` bindings are checked at the end of the loop
/// body `s`.
pub open spec fn loop_checked(tree: ScopeTree, st: State, s: usize, point: usize, k: nat) -> State
    decreases k,
{
    if k == 0 {
        st
    } else {
        let before = loop_checked(tree, st, s, point, (k - 1) as nat);
        if k <= before.slots.len() && moved_in_loop(tree, before, s, k - 1) {
            before.failed(point, (k - 1) as usize, Finding::UseAfterMove)
        } else {
            before
        }
    }
}

/// The state after the first `k` of the releases are carried out.
pub open spec fn released(st: State, actions: Seq<DropAction>, k: nat, point: usize) -> State
    decreases k,
{
    if k == 0 {
        st
    } else {
        let before = released(st, actions, (k - 1) as nat, point);
        let at = stamp(before.clock, point);
        State {
            slots: retired(before.slots, actions[k - 1].binding as int, at),
            clock: at,
            drops: before.drops.push(DropEvent { point, action: actions[k - 1] }),
            ..before
        }
    }
}

/// The worse of two lifecycle states for what comes after: a binding can be
/// used after a choice only if every alternative leaves it owned.
pub open spec fn worse(x: Lifecycle, y: Lifecycle) -> Lifecycle {
    if x == Lifecycle::Dropped || y == Lifecycle::Dropped {
        Lifecycle::Dropped
    } else if x == Lifecycle::MovedFrom || y == Lifecycle::MovedFrom {
        Lifecycle::MovedFrom
    } else if x == Lifecycle::Uninitialized || y == Lifecycle::Uninitialized {
        Lifecycle::Uninitialized
    } else {
        Lifecycle::Owned
    }
}

/// The later of two program points.
pub open spec fn later(x: usize, y: usize) -> usize {
    if x >= y {
        x
    } else {
        y
    }
}

/// The state after binding `b`, which the alternatives before left as `a`, is
/// taken together with what the current alternative leaves.
///
/// The binding is left in the worse of the two states. Where both leave it
/// owned but with different values, and one of the values is borrowed, the
/// borrow could not tell which value it is of: this is a defect of the
/// binding.
pub open spec fn merged_one(st: State, a: Slot, b: int, point: usize) -> State {
    let e = st.slots[b];
    let state = worse(a.state, e.state);
    let joined = State {
        slots: st.slots.update(b, Slot { state, since: later(a.since, e.since), ..e }),
        ..st
    };
    if state == Lifecycle::Owned && a.location != e.location && (borrowed(st.loans, a.location)
        || borrowed(st.loans, e.location)) {
        joined.failed(point, b as usize, Finding::MutateWhileBorrowed)
    } else {
        joined
    }
}

/// The state after the first `k` bindings are taken together with what the
/// alternatives before left of them.
pub open spec fn merged_all(st: State, before: Seq<Slot>, point: usize, k: nat) -> State
    decreases k,
{
    if k == 0 {
        st
    } else {
        let earlier = merged_all(st, before, point, (k - 1) as nat);
        if k <= earlier.slots.len() && k <= before.len() {
            merged_one(earlier, before[k - 1], k - 1, point)
        } else {
            earlier
        }
    }
}

/// The fork that scope `s`, an alternative, belongs to, if there is one.
pub open spec fn fork_of(tree: ScopeTree, st: State, s: usize) -> Option<Fork> {
    if tree.knows(s as int) && tree.scopes@[s as int].kind == ScopeKind::Branch {
        match tree.scopes@[s as int].parent {
            Some(parent) => if parent < st.forks.len() {
                st.forks[parent as int]
            } else {
                None
            },
            None => None,
        }
    } else {
        None
    }
}

/// The state after scope `s` ends: a loop body is checked for moves that the
/// next round would miss, the scope's bindings are released in reverse
/// declaration order, then its borrows end, and the scope is closed. Where
/// the scope is an alternative, what it leaves of the bindings is taken
/// together with what the alternatives before it left.
pub open spec fn left(table: TypeTable, tree: ScopeTree, st: State, s: usize, point: usize) -> State {
    let checked = if tree.knows(s as int) && tree.scopes@[s as int].kind == ScopeKind::Loop {
        loop_checked(tree, st, s, point, st.slots.len())
    } else {
        st
    };
    let actions = drop_schedule(table, checked.slots, s);
    let done = released(checked, actions, actions.len(), point);
    let closed = State { loans: ended(done.loans, s), open: done.open.drop_last(), ..done };
    match fork_of(tree, closed, s) {
        Some(fork) => match fork.merged {
            Some(before) => merged_all(closed, before, point, before.len()),
            None => closed,
        },
        None => closed,
    }
}

/// The state after statement `i` of the function.
pub open spec fn stepped(table: TypeTable, f: Function, st: State, i: int) -> State {
    let statement = f.body@[i];
    let point = i as usize;
    let inside = arrived(f.scopes, st, statement.scope, point);
    if inside.aborted {
        inside
    } else {
        match statement.kind {
            StatementKind::Declare { binding, init } => introduced(
                table,
                f.scopes,
                inside,
                binding.ty,
                init,
                statement.scope,
                point,
            ),
            StatementKind::Assign { binding, value } => assigned(table, f.scopes, inside, binding, value, point),
            StatementKind::Call { args, .. } => evaluated_all(
                table,
                f.scopes,
                inside,
                args@,
                args@.len(),
                statement.scope,
                point,
            ),
            StatementKind::Match { scrutinee, arms } => matched(table, f.scopes, inside, scrutinee, arms@, point),
            StatementKind::ScopeEnd => left(table, f.scopes, inside, statement.scope, point),
        }
    }
}

/// The state after the first `i` statements, from state `st`. Nothing more
/// happens once verification has ended.
pub open spec fn ran(table: TypeTable, f: Function, st: State, i: nat) -> State
    decreases i,
{
    if i == 0 {
        st
    } else {
        let before = ran(table, f, st, (i - 1) as nat);
        if before.aborted {
            before
        } else {
            stepped(table, f, before, i - 1)
        }
    }
}

/// Whether references of type `ty` are mutable.
pub open spec fn reference_mutable(table: TypeTable, ty: usize) -> bool {
    &&& table.knows(ty as int)
    &&& table.defs@[ty as int].kind matches TypeKind::Reference { mutable, .. }
    &&& mutable
}

/// The state after parameter `j`, of type `ty`, is registered: an owned
/// binding of the root scope, and for a reference a borrow of what it points
/// to.
pub open spec fn registered_one(table: TypeTable, tree: ScopeTree, st: State, ty: usize, j: usize) -> State {
    if !table.knows(ty as int) {
        st.stopped(0)
    } else {
        let at = stamp(st.clock, 0);
        let b = st.slots.len() as int;
        let slots = initialized(
            declared(st.slots, ty, 0, Location::Argument(j), at),
            b,
            Location::Argument(j),
            at,
        );
        let loans = if is_reference(table, ty) {
            begun(tree, st.loans, Location::Referent(j), reference_mutable(table, ty), 0, 0)
        } else {
            st.loans
        };
        State { slots, clock: at, loans, ..st }
    }
}

/// The state after the first `k` parameters are registered.
pub open spec fn registered(table: TypeTable, tree: ScopeTree, st: State, params: Seq<Binding>, k: nat) -> State
    decreases k,
{
    if k == 0 {
        st
    } else {
        let before = registered(table, tree, st, params, (k - 1) as nat);
        if before.aborted {
            before
        } else {
            registered_one(table, tree, before, params[k - 1].ty, (k - 1) as usize)
        }
    }
}

/// The state before anything happened: the root scope is open.
pub open spec fn blank(tree: ScopeTree) -> State {
    State {
        slots: Seq::empty(),
        clock: 0,
        loans: Seq::empty(),
        open: seq![0usize],
        entered: Seq::new(tree.scopes@.len(), |s: int| s == 0),
        entry: Seq::new(tree.scopes@.len(), |s: int| 0usize),
        forks: Seq::new(tree.scopes@.len(), |s: int| None::<Fork>),
        notes: Seq::empty(),
        drops: Seq::empty(),
        aborted: false,
    }
}

/// The state at the entry of a function: the types and its scopes are
/// checked and its parameters registered. Types that name a type that does
/// not exist, or scopes that are no tree, break the rules of the model.
pub open spec fn begun_function(table: TypeTable, f: Function) -> State {
    if !table.resolved() || !f.scopes.well_formed() {
        blank(f.scopes).stopped(0)
    } else {
        registered(table, f.scopes, blank(f.scopes), f.params@, f.params@.len())
    }
}

/// The state after the last statement: a scope that is still open breaks the
/// rules of the model.
pub open spec fn concluded(f: Function, st: State) -> State {
    if !st.aborted && st.open.len() > 0 {
        st.stopped(f.body@.len() as usize)
    } else {
        st
    }
}

/// The state in which the verification of a function ends.
pub open spec fn verified(table: TypeTable, f: Function) -> State {
    concluded(f, ran(table, f, begun_function(table, f), f.body@.len()))
}

/// The lifecycle states of the bindings.
pub open spec fn states_of(slots: Seq<Slot>) -> Seq<Lifecycle> {
    Seq::new(slots.len(), |b: int| slots[b].state)
}

} // verus!
