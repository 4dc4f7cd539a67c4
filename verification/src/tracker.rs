//! The ownership tracker: one state machine per binding.
//!
//! A binding starts `Uninitialized`, becomes `Owned` when a value is stored in
//! it, `MovedFrom` when a move type is moved out of it, and `Dropped` when its
//! scope ends or when it is given up after an error. `Dropped` is final.

use vstd::prelude::*;
use crate::classify::Classification;
use crate::model::Location;

verus! {

/// Where a binding stands in its life.
#[derive(Clone, Copy, PartialEq, Eq, Debug, Structural)]
pub enum Lifecycle {
    Uninitialized,
    Owned,
    MovedFrom,
    Dropped,
}

/// How an expression uses a binding.
#[derive(Clone, Copy, PartialEq, Eq, Debug, Structural)]
pub enum UseMode {
    /// The value is looked at and stays where it is.
    Read,
    /// The value is taken: moved for a move type, duplicated for a copy type.
    Move,
}

/// Why a use of a binding is refused.
#[derive(Clone, Copy, PartialEq, Eq, Debug, Structural)]
pub enum UseError {
    /// The binding was never given a value.
    UseBeforeInit,
    /// The binding's value was moved away or dropped.
    UseAfterMove,
    /// No binding with this index was declared.
    Unresolved,
}

/// What the tracker knows of one binding.
#[derive(Clone, Copy, PartialEq, Eq, Debug, Structural)]
pub struct Slot {
    /// Index of the declared type.
    pub ty: usize,
    /// The scope that declared the binding.
    pub scope: usize,
    pub state: Lifecycle,
    /// Program point of the last change of `state`.
    pub since: usize,
    /// Where the binding's value resides.
    pub location: Location,
}

/// What a use of a binding in `state` leads to: the next state, or the reason
/// for which the use is refused.
pub open spec fn use_outcome(state: Lifecycle, mode: UseMode, class: Classification) -> Result<
    Lifecycle,
    UseError,
> {
    match state {
        Lifecycle::Uninitialized => Err(UseError::UseBeforeInit),
        Lifecycle::MovedFrom => Err(UseError::UseAfterMove),
        Lifecycle::Dropped => Err(UseError::UseAfterMove),
        Lifecycle::Owned => Ok(
            if mode == UseMode::Move && class == Classification::Move {
                Lifecycle::MovedFrom
            } else {
                Lifecycle::Owned
            },
        ),
    }
}

/// The later of the clock and a program point: the stamp of the next change.
pub open spec fn stamp(clock: usize, point: usize) -> usize {
    if point > clock {
        point
    } else {
        clock
    }
}

/// The slots after a new binding is declared.
pub open spec fn declared(slots: Seq<Slot>, ty: usize, scope: usize, location: Location, at: usize) -> Seq<
    Slot,
> {
    slots.push(Slot { ty, scope, state: Lifecycle::Uninitialized, since: at, location })
}

/// The slots after a value at `location` is stored in binding `b`.
pub open spec fn initialized(slots: Seq<Slot>, b: int, location: Location, at: usize) -> Seq<Slot> {
    if 0 <= b < slots.len() && slots[b].state != Lifecycle::Dropped {
        slots.update(b, Slot { state: Lifecycle::Owned, since: at, location, ..slots[b] })
    } else {
        slots
    }
}

/// The slots after binding `b` is used. Only a move out of a move type changes
/// anything.
pub open spec fn used(slots: Seq<Slot>, b: int, mode: UseMode, class: Classification, at: usize) -> Seq<
    Slot,
> {
    if 0 <= b < slots.len() && use_outcome(slots[b].state, mode, class) == Ok::<
        Lifecycle,
        UseError,
    >(Lifecycle::MovedFrom) {
        slots.update(b, Slot { state: Lifecycle::MovedFrom, since: at, ..slots[b] })
    } else {
        slots
    }
}

/// Whether a use of binding `b` is accepted, and why not.
pub open spec fn use_verdict(slots: Seq<Slot>, b: int, mode: UseMode, class: Classification) -> Result<
    (),
    UseError,
> {
    if 0 <= b < slots.len() {
        match use_outcome(slots[b].state, mode, class) {
            Ok(_) => Ok(()),
            Err(e) => Err(e),
        }
    } else {
        Err(UseError::Unresolved)
    }
}

/// The slots after binding `b` is dropped.
pub open spec fn retired(slots: Seq<Slot>, b: int, at: usize) -> Seq<Slot> {
    if 0 <= b < slots.len() && slots[b].state != Lifecycle::Dropped {
        slots.update(b, Slot { state: Lifecycle::Dropped, since: at, ..slots[b] })
    } else {
        slots
    }
}

/// The slots with the first ones set back to what `base` holds. Bindings that
/// `base` does not know stay as they are.
pub open spec fn rewound(slots: Seq<Slot>, base: Seq<Slot>) -> Seq<Slot> {
    Seq::new(
        slots.len(),
        |b: int|
            if b < base.len() {
                base[b]
            } else {
                slots[b]
            },
    )
}

/// The first `n` slots, or all of them where there are fewer.
pub open spec fn prefix_of(slots: Seq<Slot>, n: nat) -> Seq<Slot> {
    slots.take(
        if n <= slots.len() {
            n as int
        } else {
            slots.len() as int
        },
    )
}

/// The slots with `slot` in place of the one of binding `b`.
pub open spec fn replaced(slots: Seq<Slot>, b: int, slot: Slot) -> Seq<Slot> {
    if 0 <= b < slots.len() {
        slots.update(b, slot)
    } else {
        slots
    }
}

/// The lifecycle state of every binding declared so far, in declaration
/// order, and the clock that stamps their changes.
pub struct Tracker {
    slots: Vec<Slot>,
    now: usize,
}

impl Tracker {
    /// The bindings declared so far, in declaration order.
    pub closed spec fn slots(self) -> Seq<Slot> {
        self.slots@
    }

    /// The latest program point at which anything changed.
    pub closed spec fn clock(self) -> usize {
        self.now
    }

    /// A tracker without bindings, at program point 0.
    pub fn new() -> (tracker: Tracker)
        ensures
            tracker.slots() == Seq::<Slot>::empty(),
            tracker.clock() == 0,
    {
        Tracker { slots: Vec::new(), now: 0 }
    }

    fn tick(&mut self, point: usize)
        ensures
            final(self).slots() == old(self).slots(),
            final(self).clock() == stamp(old(self).clock(), point),
    {
        if point > self.now {
            self.now = point;
        }
    }

    /// Number of bindings declared so far.
    pub fn len(&self) -> (n: usize)
        ensures
            n == self.slots().len(),
    {
        self.slots.len()
    }

    /// What is known of binding `b`, if it was declared.
    pub fn slot(&self, b: usize) -> (slot: Option<Slot>)
        ensures
            slot == (if b < self.slots().len() {
                Some(self.slots()[b as int])
            } else {
                None
            }),
    {
        if b < self.slots.len() {
            Some(self.slots[b])
        } else {
            None
        }
    }

    /// The lifecycle state of binding `b`, if it was declared.
    pub fn state(&self, b: usize) -> (state: Option<Lifecycle>)
        ensures
            state == (if b < self.slots().len() {
                Some(self.slots()[b as int].state)
            } else {
                None
            }),
    {
        if b < self.slots.len() {
            Some(self.slots[b].state)
        } else {
            None
        }
    }

    /// What is known of the first `n` bindings, or of all where there are
    /// fewer.
    pub fn prefix(&self, n: usize) -> (slots: Vec<Slot>)
        ensures
            slots@ == prefix_of(self.slots(), n as nat),
    {
        let m = if n <= self.slots.len() {
            n
        } else {
            self.slots.len()
        };
        let mut out: Vec<Slot> = Vec::new();
        let mut b: usize = 0;
        while b < m
            invariant
                b <= m,
                m <= self.slots@.len(),
                out@ == self.slots@.take(b as int),
            decreases m - b,
        {
            out.push(self.slots[b]);
            assert(self.slots@.take(b + 1) =~= self.slots@.take(b as int).push(self.slots@[b as int]));
            b += 1;
        }
        out
    }

    /// Sets the first bindings back to what `base` holds. This is no step of
    /// a binding's life but a return to an earlier point of the analysis.
    pub fn rewind(&mut self, base: &Vec<Slot>)
        ensures
            final(self).clock() == old(self).clock(),
            final(self).slots() == rewound(old(self).slots(), base@),
    {
        let n = self.slots.len();
        let mut b: usize = 0;
        while b < n && b < base.len()
            invariant
                b <= n,
                b <= base@.len(),
                n == old(self).slots@.len(),
                self.slots@.len() == n,
                self.now == old(self).now,
                forall|k: int| 0 <= k < b ==> self.slots@[k] == base@[k],
                forall|k: int| b <= k < n ==> self.slots@[k] == old(self).slots@[k],
            decreases n - b,
        {
            self.slots.set(b, base[b]);
            b += 1;
        }
        assert(self.slots@ =~= rewound(old(self).slots@, base@));
    }

    /// Puts `slot` in place of what is known of binding `b`. Like `rewind`,
    /// this is no step of a binding's life.
    pub fn put(&mut self, b: usize, slot: Slot)
        ensures
            final(self).clock() == old(self).clock(),
            final(self).slots() == replaced(old(self).slots(), b as int, slot),
    {
        if b < self.slots.len() {
            self.slots.set(b, slot);
        }
    }

    /// Declares a binding of type `ty` in `scope` whose value will reside at
    /// `location`. The binding gets the next index and starts
    /// `Uninitialized`.
    pub fn declare(&mut self, ty: usize, scope: usize, location: Location, point: usize) -> (b: usize)
        ensures
            b == old(self).slots().len(),
            final(self).clock() == stamp(old(self).clock(), point),
            final(self).slots() == declared(old(self).slots(), ty, scope, location, final(self).clock()),
    {
        self.tick(point);
        let b = self.slots.len();
        self.slots.push(Slot { ty, scope, state: Lifecycle::Uninitialized, since: self.now, location });
        b
    }

    /// Records that a value residing at `location` is stored in binding `b`.
    pub fn record_init(&mut self, b: usize, location: Location, point: usize) -> (r: Result<(), UseError>)
        ensures
            r == (if b < old(self).slots().len() {
                Ok::<(), UseError>(())
            } else {
                Err::<(), UseError>(UseError::Unresolved)
            }),
            final(self).clock() == stamp(old(self).clock(), point),
            final(self).slots() == initialized(old(self).slots(), b as int, location, final(self).clock()),
    {
        self.tick(point);
        if b >= self.slots.len() {
            return Err(UseError::Unresolved);
        }
        let slot = self.slots[b];
        if slot.state != Lifecycle::Dropped {
            self.slots.set(
                b,
                Slot {
                    ty: slot.ty,
                    scope: slot.scope,
                    state: Lifecycle::Owned,
                    since: self.now,
                    location,
                },
            );
        }
        Ok(())
    }

    /// Records a use of binding `b`, whose type has classification `class`.
    pub fn record_use(&mut self, b: usize, mode: UseMode, class: Classification, point: usize) -> (r:
        Result<(), UseError>)
        ensures
            r == use_verdict(old(self).slots(), b as int, mode, class),
            final(self).clock() == stamp(old(self).clock(), point),
            final(self).slots() == used(old(self).slots(), b as int, mode, class, final(self).clock()),
    {
        self.tick(point);
        if b >= self.slots.len() {
            return Err(UseError::Unresolved);
        }
        let slot = self.slots[b];
        match slot.state {
            Lifecycle::Uninitialized => Err(UseError::UseBeforeInit),
            Lifecycle::MovedFrom => Err(UseError::UseAfterMove),
            Lifecycle::Dropped => Err(UseError::UseAfterMove),
            Lifecycle::Owned => {
                if mode == UseMode::Move && class == Classification::Move {
                    self.slots.set(
                        b,
                        Slot {
                            ty: slot.ty,
                            scope: slot.scope,
                            state: Lifecycle::MovedFrom,
                            since: self.now,
                            location: slot.location,
                        },
                    );
                }
                Ok(())
            },
        }
    }

    /// Records that binding `b` is dropped. Nothing changes when it already
    /// was, or when no such binding exists.
    pub fn retire(&mut self, b: usize, point: usize)
        ensures
            final(self).clock() == stamp(old(self).clock(), point),
            final(self).slots() == retired(old(self).slots(), b as int, final(self).clock()),
    {
        self.tick(point);
        if b < self.slots.len() {
            let slot = self.slots[b];
            if slot.state != Lifecycle::Dropped {
                self.slots.set(
                    b,
                    Slot {
                        ty: slot.ty,
                        scope: slot.scope,
                        state: Lifecycle::Dropped,
                        since: self.now,
                        location: slot.location,
                    },
                );
            }
        }
    }
}

/// Something that happens to the bindings.
pub enum Event {
    /// A value at `location` is stored in binding `binding`.
    Init { binding: int, location: Location },
    /// Binding `binding`, whose type has classification `class`, is used.
    Use { binding: int, mode: UseMode, class: Classification },
    /// Binding `binding` is dropped.
    Retire { binding: int },
}

/// The slots after one event at program point `at`.
pub open spec fn after_event(slots: Seq<Slot>, event: Event, at: usize) -> Seq<Slot> {
    match event {
        Event::Init { binding, location } => initialized(slots, binding, location, at),
        Event::Use { binding, mode, class } => used(slots, binding, mode, class, at),
        Event::Retire { binding } => retired(slots, binding, at),
    }
}

/// The slots after the first `k` events.
pub open spec fn replayed(slots: Seq<Slot>, events: Seq<Event>, k: nat) -> Seq<Slot>
    decreases k,
{
    if k == 0 {
        slots
    } else {
        after_event(replayed(slots, events, (k - 1) as nat), events[k - 1], (k - 1) as usize)
    }
}

/// Move exclusivity: once a binding is moved from, every later use of it is
/// refused as a use after move, whatever happens in between, unless a value
/// is stored in it again.
pub proof fn law_move_exclusivity(
    slots: Seq<Slot>,
    b: int,
    events: Seq<Event>,
    mode: UseMode,
    class: Classification,
)
    requires
        0 <= b < slots.len(),
        slots[b].state == Lifecycle::MovedFrom,
        forall|k: int|
            0 <= k < events.len() ==> !(#[trigger] events[k] matches Event::Init { binding, .. } && binding
                == b),
    ensures
        use_verdict(replayed(slots, events, events.len()), b, mode, class) == Err::<(), UseError>(
            UseError::UseAfterMove,
        ),
{
    lemma_stays_gone(slots, b, events, events.len());
}

/// A binding that is moved from or dropped stays so while no value is stored
/// in it.
pub proof fn lemma_stays_gone(slots: Seq<Slot>, b: int, events: Seq<Event>, k: nat)
    requires
        0 <= b < slots.len(),
        slots[b].state == Lifecycle::MovedFrom || slots[b].state == Lifecycle::Dropped,
        k <= events.len(),
        forall|j: int|
            0 <= j < events.len() ==> !(#[trigger] events[j] matches Event::Init { binding, .. } && binding
                == b),
    ensures
        replayed(slots, events, k).len() == slots.len(),
        replayed(slots, events, k)[b].state == Lifecycle::MovedFrom || replayed(slots, events, k)[b].state
            == Lifecycle::Dropped,
    decreases k,
{
    if k > 0 {
        lemma_stays_gone(slots, b, events, (k - 1) as nat);
        let event = events[k - 1];
        assert(!(event matches Event::Init { binding, .. } && binding == b));
    }
}

/// Dropped is final: whatever happens to a dropped binding, it stays dropped.
pub proof fn law_dropped_is_final(slots: Seq<Slot>, b: int, events: Seq<Event>, k: nat)
    requires
        0 <= b < slots.len(),
        slots[b].state == Lifecycle::Dropped,
        k <= events.len(),
    ensures
        replayed(slots, events, k).len() == slots.len(),
        replayed(slots, events, k)[b] == slots[b],
    decreases k,
{
    if k > 0 {
        law_dropped_is_final(slots, b, events, (k - 1) as nat);
    }
}

/// Copy transparency: an owned binding of a copy type stays owned through any
/// number of uses, move-style or not, so that none of them is refused.
pub proof fn law_copy_transparency(slots: Seq<Slot>, b: int, events: Seq<Event>, k: nat, mode: UseMode)
    requires
        0 <= b < slots.len(),
        slots[b].state == Lifecycle::Owned,
        k <= events.len(),
        forall|j: int|
            0 <= j < events.len() ==> (#[trigger] events[j] matches Event::Use { binding, class, .. }
                && binding == b && class == Classification::Copy),
    ensures
        replayed(slots, events, k).len() == slots.len(),
        replayed(slots, events, k)[b].state == Lifecycle::Owned,
        use_verdict(replayed(slots, events, k), b, mode, Classification::Copy) == Ok::<(), UseError>(()),
    decreases k,
{
    if k > 0 {
        law_copy_transparency(slots, b, events, (k - 1) as nat, mode);
        let event = events[k - 1];
        assert(event matches Event::Use { binding, class, .. } && binding == b && class
            == Classification::Copy);
    }
}

} // verus!
