//! What holds of every verification, whatever the program.

use vstd::prelude::*;
use crate::borrow::{blocked, exclusive, lemma_begun_exclusive, lemma_ended_exclusive};
use crate::classify::{classification_of, Classification};
use crate::diagnostics::{Finding, Note};
use crate::drops::{drop_schedule, DropAction};
use crate::model::{Binding, Expr, Function, ScopeKind, ScopeTree, StatementKind, TypeTable};
use crate::semantics::{
    arrived, begun_function, blank, evaluated, evaluated_all, fork_of, lent, loop_checked, merged_all, ran,
    reached, registered, released, stepped, taken, taken_all, State,
};
use crate::tracker::{Lifecycle, Slot};

verus! {

/// Taking values leaves the borrows alone.
pub proof fn lemma_taken_all_loans(
    table: TypeTable,
    tree: ScopeTree,
    st: State,
    args: Seq<usize>,
    k: nat,
    point: usize,
)
    ensures
        taken_all(table, tree, st, args, k, point).loans == st.loans,
    decreases k,
{
    if k > 0 {
        lemma_taken_all_loans(table, tree, st, args, (k - 1) as nat, point);
    }
}

/// Evaluating an expression keeps the borrows exclusive.
pub proof fn lemma_evaluated_exclusive(
    table: TypeTable,
    tree: ScopeTree,
    st: State,
    e: Expr,
    holder: usize,
    point: usize,
)
    requires
        exclusive(st.loans),
    ensures
        exclusive(evaluated(table, tree, st, e, holder, point).loans),
{
    match e {
        Expr::Construct { args } => {
            lemma_taken_all_loans(table, tree, st, args@, args@.len(), point);
        },
        Expr::Borrow { binding, mutable } => {
            if st.resolves(tree, binding) {
                let slot = st.slots[binding as int];
                lemma_begun_exclusive(tree, st.loans, slot.location, mutable, holder, slot.scope);
            }
        },
        _ => {},
    }
}

/// Evaluating expressions keeps the borrows exclusive.
pub proof fn lemma_evaluated_all_exclusive(
    table: TypeTable,
    tree: ScopeTree,
    st: State,
    args: Seq<Expr>,
    k: nat,
    holder: usize,
    point: usize,
)
    requires
        exclusive(st.loans),
    ensures
        exclusive(evaluated_all(table, tree, st, args, k, holder, point).loans),
    decreases k,
{
    if k > 0 {
        lemma_evaluated_all_exclusive(table, tree, st, args, (k - 1) as nat, holder, point);
        let before = evaluated_all(table, tree, st, args, (k - 1) as nat, holder, point);
        lemma_evaluated_exclusive(table, tree, before, args[k - 1], holder, point);
    }
}

/// The check at the end of a loop body leaves the borrows alone.
pub proof fn lemma_loop_checked_loans(tree: ScopeTree, st: State, s: usize, point: usize, k: nat)
    ensures
        loop_checked(tree, st, s, point, k).loans == st.loans,
    decreases k,
{
    if k > 0 {
        lemma_loop_checked_loans(tree, st, s, point, (k - 1) as nat);
    }
}

/// Releases leave the borrows alone.
pub proof fn lemma_released_loans(st: State, actions: Seq<DropAction>, k: nat, point: usize)
    ensures
        released(st, actions, k, point).loans == st.loans,
    decreases k,
{
    if k > 0 {
        lemma_released_loans(st, actions, (k - 1) as nat, point);
    }
}

/// Taking alternatives together leaves the borrows alone.
pub proof fn lemma_merged_all_loans(st: State, before: Seq<Slot>, point: usize, k: nat)
    ensures
        merged_all(st, before, point, k).loans == st.loans,
    decreases k,
{
    if k > 0 {
        lemma_merged_all_loans(st, before, point, (k - 1) as nat);
    }
}

/// Entering scopes leaves the borrows alone.
pub proof fn lemma_reached_loans(tree: ScopeTree, st: State, s: usize, point: usize)
    ensures
        reached(tree, st, s, point).loans == st.loans,
    decreases s,
{
    if !(st.open.len() > 0 && st.open.last() == s) && tree.knows(s as int) {
        match tree.scopes@[s as int].parent {
            Some(parent) => {
                if parent < s {
                    lemma_reached_loans(tree, st, parent, point);
                }
            },
            None => {},
        }
    }
}

/// A statement keeps the borrows exclusive.
pub proof fn lemma_stepped_exclusive(table: TypeTable, f: Function, st: State, i: int)
    requires
        exclusive(st.loans),
    ensures
        exclusive(stepped(table, f, st, i).loans),
{
    let statement = f.body@[i];
    let point = i as usize;
    let tree = f.scopes;
    let inside = arrived(tree, st, statement.scope, point);
    lemma_reached_loans(tree, st, statement.scope, point);
    if !inside.aborted {
        match statement.kind {
            StatementKind::Declare { binding, init } => {
                if table.knows(binding.ty as int) {
                    match init {
                        Some(e) => {
                            let at = crate::tracker::stamp(inside.clock, point);
                            let fresh = State {
                                slots: crate::tracker::declared(
                                    inside.slots,
                                    binding.ty,
                                    statement.scope,
                                    crate::model::Location::Created(point),
                                    at,
                                ),
                                clock: at,
                                ..inside
                            };
                            lemma_evaluated_exclusive(table, tree, fresh, e, statement.scope, point);
                        },
                        None => {},
                    }
                }
            },
            StatementKind::Assign { binding, value } => {
                if inside.resolves(tree, binding) {
                    lemma_evaluated_exclusive(
                        table,
                        tree,
                        inside,
                        value,
                        inside.slots[binding as int].scope,
                        point,
                    );
                }
            },
            StatementKind::Call { args, .. } => {
                lemma_evaluated_all_exclusive(table, tree, inside, args@, args@.len(), statement.scope, point);
            },
            StatementKind::Match { scrutinee, arms } => {},
            StatementKind::ScopeEnd => {
                let s = statement.scope;
                let checked = if tree.knows(s as int) && tree.scopes@[s as int].kind == ScopeKind::Loop {
                    loop_checked(tree, inside, s, point, inside.slots.len())
                } else {
                    inside
                };
                lemma_loop_checked_loans(tree, inside, s, point, inside.slots.len());
                let actions = drop_schedule(table, checked.slots, s);
                let done = released(checked, actions, actions.len(), point);
                lemma_released_loans(checked, actions, actions.len(), point);
                lemma_ended_exclusive(inside.loans, s);
                let closed = State {
                    loans: crate::borrow::ended(done.loans, s),
                    open: done.open.drop_last(),
                    ..done
                };
                match fork_of(tree, closed, s) {
                    Some(fork) => match fork.merged {
                        Some(before) => {
                            lemma_merged_all_loans(closed, before, point, before.len());
                        },
                        None => {},
                    },
                    None => {},
                }
            },
        }
    }
}

/// Registering parameters keeps the borrows exclusive.
pub proof fn lemma_registered_exclusive(
    table: TypeTable,
    tree: ScopeTree,
    st: State,
    params: Seq<Binding>,
    k: nat,
)
    requires
        exclusive(st.loans),
    ensures
        exclusive(registered(table, tree, st, params, k).loans),
    decreases k,
{
    if k > 0 {
        lemma_registered_exclusive(table, tree, st, params, (k - 1) as nat);
        let before = registered(table, tree, st, params, (k - 1) as nat);
        let ty = params[k - 1].ty;
        lemma_begun_exclusive(
            tree,
            before.loans,
            crate::model::Location::Referent((k - 1) as usize),
            crate::semantics::reference_mutable(table, ty),
            0,
            0,
        );
    }
}

/// Borrow exclusivity at every program point: after any number of statements
/// of any function, no active mutable borrow shares its location with another
/// active borrow.
pub proof fn law_exclusive_throughout(table: TypeTable, f: Function, i: nat)
    ensures
        exclusive(ran(table, f, begun_function(table, f), i).loans),
    decreases i,
{
    if i == 0 {
        lemma_registered_exclusive(table, f.scopes, blank(f.scopes), f.params@, f.params@.len());
    } else {
        law_exclusive_throughout(table, f, (i - 1) as nat);
        let before = ran(table, f, begun_function(table, f), (i - 1) as nat);
        if !before.aborted {
            lemma_stepped_exclusive(table, f, before, i - 1);
        }
    }
}

/// Move exclusivity in a program: taking the value of a binding that was
/// moved from is reported as a use after move of that binding, and nothing
/// else is reported.
pub proof fn law_moved_binding_reported(table: TypeTable, tree: ScopeTree, st: State, b: usize, point: usize)
    requires
        st.resolves(tree, b),
        st.slots[b as int].state == Lifecycle::MovedFrom,
    ensures
        taken(table, tree, st, b, point).notes == st.notes.push(
            Note { point, binding: Some(b), finding: Finding::UseAfterMove },
        ),
        taken(table, tree, st, b, point).slots[b as int].state == Lifecycle::Dropped,
{
}

/// Copy transparency in a program: taking the value of an owned binding of a
/// copy type reports nothing and leaves the binding owned.
pub proof fn law_copy_stays_owned(table: TypeTable, tree: ScopeTree, st: State, b: usize, point: usize)
    requires
        st.resolves(tree, b),
        st.slots[b as int].state == Lifecycle::Owned,
        classification_of(table, st.slots[b as int].ty as int) == Classification::Copy,
    ensures
        taken(table, tree, st, b, point).notes == st.notes,
        taken(table, tree, st, b, point).slots == st.slots,
        taken(table, tree, st, b, point).aborted == st.aborted,
{
    assert(taken(table, tree, st, b, point).slots =~= st.slots);
}

/// Borrow exclusivity in a program: borrowing an owned binding in a way that
/// an active borrow of its value rules out is reported as a conflict, and no
/// borrow is granted.
pub proof fn law_conflict_reported(
    table: TypeTable,
    tree: ScopeTree,
    st: State,
    b: usize,
    mutable: bool,
    holder: usize,
    point: usize,
)
    requires
        st.resolves(tree, b),
        st.slots[b as int].state == Lifecycle::Owned,
        tree.encloses(st.slots[b as int].scope as int, holder as int),
        blocked(st.loans, st.slots[b as int].location, mutable),
    ensures
        lent(table, tree, st, b, mutable, holder, point).notes == st.notes.push(
            Note { point, binding: Some(b), finding: Finding::BorrowConflict },
        ),
        lent(table, tree, st, b, mutable, holder, point).loans == st.loans,
{
}

/// No dangling references in a program: a borrow of an owned binding that
/// would be owned by a proper ancestor of the binding's scope is reported as
/// dangling, and no borrow is granted.
pub proof fn law_dangling_reported(
    table: TypeTable,
    tree: ScopeTree,
    st: State,
    b: usize,
    mutable: bool,
    holder: usize,
    point: usize,
)
    requires
        st.resolves(tree, b),
        st.slots[b as int].state == Lifecycle::Owned,
        tree.strictly_encloses(holder as int, st.slots[b as int].scope as int),
    ensures
        lent(table, tree, st, b, mutable, holder, point).notes == st.notes.push(
            Note { point, binding: Some(b), finding: Finding::DanglingBorrow },
        ),
        lent(table, tree, st, b, mutable, holder, point).loans == st.loans,
{
    crate::borrow::law_no_dangling(
        tree,
        st.loans,
        st.slots[b as int].location,
        mutable,
        holder,
        st.slots[b as int].scope,
    );
}

} // verus!
