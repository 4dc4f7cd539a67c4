//! The drop scheduler: what is released when a scope exits, and in which
//! order.

use vstd::prelude::*;
use crate::model::{Location, TypeKind, TypeTable};
use crate::tracker::{retired, Lifecycle, Slot, Tracker};

verus! {

/// The release of one binding's value at the exit of its scope.
#[derive(Clone, Copy, PartialEq, Eq, Debug, Structural)]
pub struct DropAction {
    pub binding: usize,
    pub location: Location,
}

/// Type `ty` is a reference type.
pub open spec fn is_reference(table: TypeTable, ty: usize) -> bool {
    table.knows(ty as int) && table.defs@[ty as int].kind is Reference
}

/// The binding in `slot` is released when `scope` exits: it belongs to the
/// scope, its value was neither moved away nor dropped, and it is no
/// reference.
pub open spec fn released(table: TypeTable, slot: Slot, scope: usize) -> bool {
    &&& slot.scope == scope
    &&& slot.state != Lifecycle::MovedFrom
    &&& slot.state != Lifecycle::Dropped
    &&& !is_reference(table, slot.ty)
}

/// The releases among the first `k` bindings, the last declared first.
pub open spec fn schedule(table: TypeTable, slots: Seq<Slot>, scope: usize, k: nat) -> Seq<DropAction>
    decreases k,
{
    if k == 0 {
        Seq::empty()
    } else {
        let b = (k - 1) as nat;
        let rest = schedule(table, slots, scope, b);
        if k <= slots.len() && released(table, slots[b as int], scope) {
            seq![DropAction { binding: b as usize, location: slots[b as int].location }] + rest
        } else {
            rest
        }
    }
}

/// The releases at the exit of `scope`: its bindings in reverse declaration
/// order, without those that are not released.
pub open spec fn drop_schedule(table: TypeTable, slots: Seq<Slot>, scope: usize) -> Seq<DropAction> {
    schedule(table, slots, scope, slots.len())
}

/// What `schedule` holds: released bindings below `k` only, each with its
/// location, in strictly falling order, and all of them.
pub proof fn lemma_schedule(table: TypeTable, slots: Seq<Slot>, scope: usize, k: nat)
    requires
        k <= slots.len(),
        slots.len() <= usize::MAX,
    ensures
        forall|i: int|
            0 <= i < schedule(table, slots, scope, k).len() ==> {
                let action = #[trigger] schedule(table, slots, scope, k)[i];
                &&& action.binding < k
                &&& released(table, slots[action.binding as int], scope)
                &&& action.location == slots[action.binding as int].location
            },
        forall|i: int, j: int|
            0 <= i < j < schedule(table, slots, scope, k).len() ==> (#[trigger] schedule(
                table,
                slots,
                scope,
                k,
            )[i]).binding > (#[trigger] schedule(table, slots, scope, k)[j]).binding,
        forall|b: int|
            0 <= b < k && released(table, #[trigger] slots[b], scope) ==> exists|i: int|
                0 <= i < schedule(table, slots, scope, k).len() && (#[trigger] schedule(
                    table,
                    slots,
                    scope,
                    k,
                )[i]).binding == b,
    decreases k,
{
    if k > 0 {
        let b = (k - 1) as nat;
        let rest = schedule(table, slots, scope, b);
        let all = schedule(table, slots, scope, k);
        lemma_schedule(table, slots, scope, b);
        if released(table, slots[b as int], scope) {
            assert(all[0].binding == b);
            assert forall|i: int| 1 <= i < all.len() implies #[trigger] all[i] == rest[i - 1] by {}
            assert forall|b2: int| 0 <= b2 < k && released(table, #[trigger] slots[b2], scope) implies exists|
                i: int,
            |
                0 <= i < all.len() && (#[trigger] all[i]).binding == b2 by {
                if b2 == b {
                    assert(all[0].binding == b2);
                } else {
                    let i0 = choose|i: int| 0 <= i < rest.len() && (#[trigger] rest[i]).binding == b2;
                    assert(all[i0 + 1].binding == b2);
                }
            }
            assert forall|i: int, j: int| 0 <= i < j < all.len() implies (#[trigger] all[i]).binding > (
            #[trigger] all[j]).binding by {
                if i == 0 {
                    assert(all[j] == rest[j - 1]);
                } else {
                    assert(all[i] == rest[i - 1]);
                    assert(all[j] == rest[j - 1]);
                }
            }
            assert forall|i: int| 0 <= i < all.len() implies {
                let action = #[trigger] all[i];
                &&& action.binding < k
                &&& released(table, slots[action.binding as int], scope)
                &&& action.location == slots[action.binding as int].location
            } by {
                if i > 0 {
                    assert(all[i] == rest[i - 1]);
                }
            }
        }
    }
}

/// Bindings of one scope are released in reverse declaration order: of two
/// released bindings the one declared later comes first, every released
/// binding comes once, and nothing else comes.
pub proof fn law_drop_order(table: TypeTable, slots: Seq<Slot>, scope: usize)
    requires
        slots.len() <= usize::MAX,
    ensures
        forall|i: int|
            0 <= i < drop_schedule(table, slots, scope).len() ==> {
                let action = #[trigger] drop_schedule(table, slots, scope)[i];
                &&& action.binding < slots.len()
                &&& released(table, slots[action.binding as int], scope)
                &&& action.location == slots[action.binding as int].location
            },
        forall|i: int, j: int|
            0 <= i < j < drop_schedule(table, slots, scope).len() ==> (#[trigger] drop_schedule(
                table,
                slots,
                scope,
            )[i]).binding > (#[trigger] drop_schedule(table, slots, scope)[j]).binding,
        forall|b: int|
            0 <= b < slots.len() && released(table, #[trigger] slots[b], scope) ==> exists|i: int|
                0 <= i < drop_schedule(table, slots, scope).len() && (#[trigger] drop_schedule(
                    table,
                    slots,
                    scope,
                )[i]).binding == b,
{
    lemma_schedule(table, slots, scope, slots.len());
}

/// Where every binding of the table belongs to `scope` and is released, the
/// schedule is the whole table backwards.
pub proof fn law_drop_order_all(table: TypeTable, slots: Seq<Slot>, scope: usize, k: nat)
    requires
        k <= slots.len(),
        slots.len() <= usize::MAX,
        forall|b: int| 0 <= b < k ==> released(table, #[trigger] slots[b], scope),
    ensures
        schedule(table, slots, scope, k).len() == k,
        forall|i: int|
            0 <= i < k ==> #[trigger] schedule(table, slots, scope, k)[i] == (DropAction {
                binding: (k - 1 - i) as usize,
                location: slots[k - 1 - i].location,
            }),
    decreases k,
{
    if k > 0 {
        let b = (k - 1) as nat;
        law_drop_order_all(table, slots, scope, b);
        let rest = schedule(table, slots, scope, b);
        let all = schedule(table, slots, scope, k);
        assert forall|i: int| 0 <= i < k implies #[trigger] all[i] == (DropAction {
            binding: (k - 1 - i) as usize,
            location: slots[k - 1 - i].location,
        }) by {
            if i > 0 {
                assert(all[i] == rest[i - 1]);
            }
        }
    }
}

/// The slots after the first `k` of the releases are carried out.
pub open spec fn carried_out(slots: Seq<Slot>, actions: Seq<DropAction>, k: nat) -> Seq<Slot>
    decreases k,
{
    if k == 0 {
        slots
    } else {
        retired(carried_out(slots, actions, (k - 1) as nat), actions[k - 1].binding as int, 0)
    }
}

/// Carrying out releases drops the bindings released so far and changes the
/// state of no other binding.
pub proof fn lemma_carried_out(slots: Seq<Slot>, actions: Seq<DropAction>, k: nat)
    requires
        k <= actions.len(),
    ensures
        carried_out(slots, actions, k).len() == slots.len(),
        forall|b: int|
            0 <= b < slots.len() ==> {
                let after = #[trigger] carried_out(slots, actions, k)[b];
                &&& after.scope == slots[b].scope
                &&& after.ty == slots[b].ty
                &&& after.state == slots[b].state || after.state == Lifecycle::Dropped
            },
        forall|i: int|
            0 <= i < k && actions[i].binding < slots.len() ==> (#[trigger] carried_out(
                slots,
                actions,
                k,
            )[actions[i].binding as int]).state == Lifecycle::Dropped,
    decreases k,
{
    if k > 0 {
        lemma_carried_out(slots, actions, (k - 1) as nat);
        let before = carried_out(slots, actions, (k - 1) as nat);
        let after = carried_out(slots, actions, k);
        assert forall|i: int| 0 <= i < k && actions[i].binding < slots.len() implies (#[trigger] after[actions[i].binding as int]).state
            == Lifecycle::Dropped by {
            if i < k - 1 {
                assert(before[actions[i].binding as int].state == Lifecycle::Dropped);
            }
        }
    }
}

/// No value is released twice: once the releases of a scope are carried out,
/// nothing is left to release in it.
pub proof fn law_no_double_drop(table: TypeTable, slots: Seq<Slot>, scope: usize)
    requires
        slots.len() <= usize::MAX,
    ensures
        drop_schedule(
            table,
            carried_out(
                slots,
                drop_schedule(table, slots, scope),
                drop_schedule(table, slots, scope).len(),
            ),
            scope,
        ) == Seq::<DropAction>::empty(),
{
    let actions = drop_schedule(table, slots, scope);
    let after = carried_out(slots, actions, actions.len());
    lemma_schedule(table, slots, scope, slots.len());
    lemma_carried_out(slots, actions, actions.len());
    lemma_schedule(table, after, scope, after.len());
    if drop_schedule(table, after, scope).len() > 0 {
        let again = drop_schedule(table, after, scope)[0];
        let b = again.binding as int;
        assert(released(table, after[b], scope));
        assert(released(table, slots[b], scope));
        let i = choose|i: int| 0 <= i < actions.len() && (#[trigger] actions[i]).binding == b;
        assert(after[actions[i].binding as int].state == Lifecycle::Dropped);
    }
}

/// Decides whether type `ty` is a reference type.
pub fn type_is_reference(table: &TypeTable, ty: usize) -> (yes: bool)
    ensures
        yes == is_reference(*table, ty),
{
    if ty < table.defs.len() {
        match table.defs[ty].kind {
            TypeKind::Reference { .. } => true,
            _ => false,
        }
    } else {
        false
    }
}

/// Computes the releases at the exit of `scope`: its bindings in reverse
/// declaration order, without those whose value was moved away or dropped
/// and without references.
pub fn on_scope_exit(table: &TypeTable, tracker: &Tracker, scope: usize) -> (actions: Vec<DropAction>)
    ensures
        actions@ == drop_schedule(*table, tracker.slots(), scope),
{
    let n = tracker.len();
    let mut actions: Vec<DropAction> = Vec::new();
    let mut k = n;
    while k > 0
        invariant
            k <= n,
            n == tracker.slots().len(),
            actions@ + schedule(*table, tracker.slots(), scope, k as nat) == drop_schedule(
                *table,
                tracker.slots(),
                scope,
            ),
        decreases k,
    {
        let b = k - 1;
        let ghost before = actions@;
        match tracker.slot(b) {
            Some(slot) => {
                if slot.scope == scope && slot.state != Lifecycle::MovedFrom && slot.state
                    != Lifecycle::Dropped && !type_is_reference(table, slot.ty) {
                    actions.push(DropAction { binding: b, location: slot.location });
                    assert(actions@ + schedule(*table, tracker.slots(), scope, b as nat) =~= before
                        + schedule(*table, tracker.slots(), scope, k as nat));
                }
            },
            None => {},
        }
        k = b;
    }
    assert(actions@ + Seq::<DropAction>::empty() =~= actions@);
    actions
}

} // verus!
