//! The move/copy classifier.
//!
//! A type is `Copy` when no reference type can be reached from it by going
//! from a type to the types of its fields. A reference is where such a walk
//! ends: its target is never looked at, so types that refer to themselves
//! through a reference, or even directly, are classified like any other.

use vstd::prelude::*;
use crate::model::{TypeKind, TypeTable};

verus! {

/// What assigning or passing a value of a type does.
#[derive(Clone, Copy, PartialEq, Eq, Debug, Structural)]
pub enum Classification {
    /// The value is duplicated and the source stays usable.
    Copy,
    /// The value is transferred and the source is invalidated.
    Move,
}

/// `b` is the type of a field of one of the constructors of type `a`.
pub open spec fn component(table: TypeTable, a: int, b: int) -> bool {
    &&& table.knows(a)
    &&& exists|c: int, i: int|
        0 <= c < table.defs@[a].kind.ctor_count() && 0 <= i < table.defs@[a].kind.ctor_fields(
            c,
        ).len() && #[trigger] table.defs@[a].kind.ctor_fields(c)[i] == b
}

/// `p` is a non-empty walk in which every type is followed by one of its
/// components.
pub open spec fn containment_path(table: TypeTable, p: Seq<int>) -> bool {
    &&& p.len() > 0
    &&& forall|k: int| 0 <= k < p.len() - 1 ==> component(table, #[trigger] p[k], p[k + 1])
}

/// Some walk from `t` through fields ends at a reference type.
pub open spec fn holds_reference(table: TypeTable, t: int) -> bool {
    exists|p: Seq<int>|
        #![trigger containment_path(table, p)]
        containment_path(table, p) && p[0] == t && table.knows(p.last())
            && table.defs@[p.last()].kind is Reference
}

/// A type is copyable when it holds no reference, however deep.
pub open spec fn copyable(table: TypeTable, t: int) -> bool {
    !holds_reference(table, t)
}

/// The classification that belongs to type `t`.
pub open spec fn classification_of(table: TypeTable, t: int) -> Classification {
    if copyable(table, t) {
        Classification::Copy
    } else {
        Classification::Move
    }
}

/// The mark at `b` is set.
pub open spec fn lit(marks: Seq<bool>, b: int) -> bool {
    0 <= b < marks.len() && marks[b]
}

/// The marking rule at `t`: a reference is marked, and so is a type with a
/// marked component.
pub open spec fn rule(table: TypeTable, marks: Seq<bool>, t: int) -> bool {
    let kind = table.defs@[t].kind;
    ||| kind is Reference
    ||| exists|c: int, i: int|
        0 <= c < kind.ctor_count() && 0 <= i < kind.ctor_fields(c).len() && lit(
            marks,
            #[trigger] kind.ctor_fields(c)[i] as int,
        )
}

/// Every mark is justified by a walk to a reference.
pub open spec fn sound(table: TypeTable, marks: Seq<bool>) -> bool {
    forall|t: int| #![trigger marks[t]] 0 <= t < marks.len() && marks[t] ==> holds_reference(table, t)
}

/// The rule marks nothing new.
pub open spec fn closed(table: TypeTable, marks: Seq<bool>) -> bool {
    forall|t: int| 0 <= t < marks.len() && #[trigger] rule(table, marks, t) ==> marks[t]
}

/// Number of set marks.
pub open spec fn marked(marks: Seq<bool>) -> nat
    decreases marks.len(),
{
    if marks.len() == 0 {
        0
    } else {
        marked(marks.drop_last()) + if marks.last() {
            1nat
        } else {
            0nat
        }
    }
}

pub proof fn lemma_marked_bound(marks: Seq<bool>)
    ensures
        marked(marks) <= marks.len(),
    decreases marks.len(),
{
    if marks.len() > 0 {
        lemma_marked_bound(marks.drop_last());
    }
}

pub proof fn lemma_marked_set(marks: Seq<bool>, i: int)
    requires
        0 <= i < marks.len(),
        !marks[i],
    ensures
        marked(marks.update(i, true)) == marked(marks) + 1,
    decreases marks.len(),
{
    let after = marks.update(i, true);
    if i == marks.len() - 1 {
        assert(after.drop_last() =~= marks.drop_last());
    } else {
        lemma_marked_set(marks.drop_last(), i);
        assert(after.drop_last() =~= marks.drop_last().update(i, true));
    }
}

/// A reference type holds a reference: the walk of one step.
proof fn lemma_reference_holds(table: TypeTable, t: int)
    requires
        table.knows(t),
        table.defs@[t].kind is Reference,
    ensures
        holds_reference(table, t),
{
    let p = seq![t];
    assert(containment_path(table, p));
    assert(p[0] == t && p.last() == t);
}

/// A type with a component that holds a reference holds one too.
proof fn lemma_component_holds(table: TypeTable, a: int, b: int)
    requires
        component(table, a, b),
        holds_reference(table, b),
    ensures
        holds_reference(table, a),
{
    let q = choose|q: Seq<int>|
        #![trigger containment_path(table, q)]
        containment_path(table, q) && q[0] == b && table.knows(q.last())
            && table.defs@[q.last()].kind is Reference;
    let p = seq![a] + q;
    assert forall|k: int| 0 <= k < p.len() - 1 implies component(table, #[trigger] p[k], p[k + 1]) by {
        if k == 0 {
            assert(p[0] == a && p[1] == q[0]);
        } else {
            assert(p[k] == q[k - 1] && p[k + 1] == q[k]);
        }
    }
    assert(containment_path(table, p));
    assert(p[0] == a && p.last() == q.last());
}

/// Under a closed marking, the start of every walk to a reference is marked.
proof fn lemma_closed_marks_walk(table: TypeTable, marks: Seq<bool>, p: Seq<int>)
    requires
        marks.len() == table.defs@.len(),
        closed(table, marks),
        containment_path(table, p),
        table.knows(p.last()),
        table.defs@[p.last()].kind is Reference,
    ensures
        lit(marks, p[0]),
    decreases p.len(),
{
    if p.len() == 1 {
        assert(rule(table, marks, p[0]));
    } else {
        let q = p.subrange(1, p.len() as int);
        assert forall|k: int| 0 <= k < q.len() - 1 implies component(table, #[trigger] q[k], q[k + 1]) by {
            assert(q[k] == p[k + 1] && q[k + 1] == p[k + 2]);
            assert(component(table, p[k + 1], p[(k + 1) + 1]));
        }
        assert(q.last() == p.last());
        lemma_closed_marks_walk(table, marks, q);
        assert(component(table, p[0int], p[0int + 1]));
        assert(q[0] == p[1]);
        let kind = table.defs@[p[0]].kind;
        let (c, i) = choose|c: int, i: int|
            0 <= c < kind.ctor_count() && 0 <= i < kind.ctor_fields(c).len()
                && #[trigger] kind.ctor_fields(c)[i] == p[1];
        assert(lit(marks, kind.ctor_fields(c)[i] as int));
        assert(rule(table, marks, p[0]));
    }
}

/// A sound and closed marking marks exactly the types that hold a reference.
proof fn lemma_fixpoint_exact(table: TypeTable, marks: Seq<bool>)
    requires
        marks.len() == table.defs@.len(),
        sound(table, marks),
        closed(table, marks),
    ensures
        forall|t: int| lit(marks, t) == #[trigger] holds_reference(table, t),
{
    assert forall|t: int| lit(marks, t) == #[trigger] holds_reference(table, t) by {
        if holds_reference(table, t) {
            let p = choose|p: Seq<int>|
                #![trigger containment_path(table, p)]
                containment_path(table, p) && p[0] == t && table.knows(p.last())
                    && table.defs@[p.last()].kind is Reference;
            lemma_closed_marks_walk(table, marks, p);
        }
        if lit(marks, t) {
            assert(marks[t]);
        }
    }
}

/// What holding a reference comes to, one step at a time: a type holds a
/// reference exactly when it is a reference or one of its components holds
/// one. So a scalar is copyable, a reference is not, and any other type is
/// copyable exactly when all of its components are.
pub proof fn law_copyable_by_components(table: TypeTable, t: int)
    ensures
        holds_reference(table, t) == (table.knows(t) && (table.defs@[t].kind is Reference || exists|b: int|
            component(table, t, b) && #[trigger] holds_reference(table, b))),
        table.knows(t) && table.defs@[t].kind is Scalar ==> copyable(table, t),
        table.knows(t) && table.defs@[t].kind is Reference ==> !copyable(table, t),
{
    if holds_reference(table, t) {
        let p = choose|p: Seq<int>|
            #![trigger containment_path(table, p)]
            containment_path(table, p) && p[0] == t && table.knows(p.last())
                && table.defs@[p.last()].kind is Reference;
        if p.len() > 1 {
            let q = p.subrange(1, p.len() as int);
            assert forall|k: int| 0 <= k < q.len() - 1 implies component(table, #[trigger] q[k], q[k + 1]) by {
                assert(q[k] == p[k + 1] && q[k + 1] == p[k + 2]);
                assert(component(table, p[k + 1], p[(k + 1) + 1]));
            }
            assert(containment_path(table, q));
            assert(q[0] == p[1] && q.last() == p.last());
            assert(holds_reference(table, p[1]));
            assert(component(table, p[0int], p[0int + 1]));
        }
    }
    if table.knows(t) && table.defs@[t].kind is Reference {
        lemma_reference_holds(table, t);
    }
    if exists|b: int| component(table, t, b) && #[trigger] holds_reference(table, b) {
        let b = choose|b: int| component(table, t, b) && #[trigger] holds_reference(table, b);
        lemma_component_holds(table, t, b);
    }
}

/// Evaluates the marking rule at `t`.
fn fires(table: &TypeTable, marks: &Vec<bool>, t: usize) -> (r: bool)
    requires
        table.knows(t as int),
    ensures
        r == rule(*table, marks@, t as int),
{
    let kind = &table.defs[t].kind;
    match kind {
        TypeKind::Reference { .. } => { return true; },
        _ => {},
    }
    let count = kind.variant_count();
    let mut c: usize = 0;
    while c < count
        invariant
            c <= count,
            count == kind.ctor_count(),
            table.knows(t as int),
            *kind == table.defs@[t as int].kind,
            !(kind is Reference),
            forall|c2: int, i2: int|
                0 <= c2 < c && 0 <= i2 < kind.ctor_fields(c2).len() ==> !lit(
                    marks@,
                    #[trigger] kind.ctor_fields(c2)[i2] as int,
                ),
        decreases count - c,
    {
        let m = kind.arity(c);
        let mut i: usize = 0;
        while i < m
            invariant
                i <= m,
                c < count,
                count == kind.ctor_count(),
                m == kind.ctor_fields(c as int).len(),
                table.knows(t as int),
                *kind == table.defs@[t as int].kind,
                forall|i2: int|
                    0 <= i2 < i ==> !lit(marks@, #[trigger] kind.ctor_fields(c as int)[i2] as int),
            decreases m - i,
        {
            let child = kind.field_type(c, i);
            if child < marks.len() && marks[child] {
                assert(lit(marks@, kind.ctor_fields(c as int)[i as int] as int));
                return true;
            }
            i += 1;
        }
        c += 1;
    }
    false
}

/// One pass of the marking rule over the whole table.
fn sweep(table: &TypeTable, marks: &mut Vec<bool>) -> (changed: bool)
    requires
        old(marks)@.len() == table.defs@.len(),
        sound(*table, old(marks)@),
    ensures
        final(marks)@.len() == table.defs@.len(),
        sound(*table, final(marks)@),
        changed ==> marked(final(marks)@) > marked(old(marks)@),
        !changed ==> final(marks)@ == old(marks)@ && closed(*table, final(marks)@),
{
    let n = table.defs.len();
    let mut changed = false;
    let mut t: usize = 0;
    while t < n
        invariant
            t <= n,
            n == table.defs@.len(),
            marks@.len() == n,
            sound(*table, marks@),
            marked(marks@) >= marked(old(marks)@),
            changed ==> marked(marks@) > marked(old(marks)@),
            !changed ==> marks@ == old(marks)@,
            !changed ==> forall|t2: int| 0 <= t2 < t && #[trigger] rule(*table, marks@, t2) ==> marks@[t2],
        decreases n - t,
    {
        if !marks[t] && fires(table, marks, t) {
            proof {
                lemma_marked_set(marks@, t as int);
                if table.defs@[t as int].kind is Reference {
                    lemma_reference_holds(*table, t as int);
                } else {
                    let kind = table.defs@[t as int].kind;
                    let (c, i) = choose|c: int, i: int|
                        0 <= c < kind.ctor_count() && 0 <= i < kind.ctor_fields(c).len() && lit(
                            marks@,
                            #[trigger] kind.ctor_fields(c)[i] as int,
                        );
                    let b = kind.ctor_fields(c)[i] as int;
                    assert(marks@[b]);
                    assert(component(*table, t as int, b));
                    lemma_component_holds(*table, t as int, b);
                }
            }
            marks.set(t, true);
            changed = true;
        }
        t += 1;
    }
    changed
}

/// The classification of every type of one table, computed once.
pub struct Classifier {
    moves: Vec<bool>,
}

impl Classifier {
    /// For each type of the table, whether it is a move type.
    pub closed spec fn marks(self) -> Seq<bool> {
        self.moves@
    }

    /// The classifier holds the classification of every type of `table`.
    pub open spec fn describes(self, table: TypeTable) -> bool {
        &&& self.marks().len() == table.defs@.len()
        &&& forall|t: int| lit(self.marks(), t) == #[trigger] holds_reference(table, t)
    }

    /// Classifies every type of `table`.
    pub fn new(table: &TypeTable) -> (classifier: Classifier)
        ensures
            classifier.describes(*table),
    {
        let n = table.defs.len();
        let mut marks: Vec<bool> = Vec::new();
        while marks.len() < n
            invariant
                marks@.len() <= n,
                forall|t: int| 0 <= t < marks@.len() ==> !marks@[t],
            decreases n - marks@.len(),
        {
            marks.push(false);
        }
        assert(sound(*table, marks@));
        let mut changed = true;
        while changed
            invariant
                n == table.defs@.len(),
                marks@.len() == n,
                sound(*table, marks@),
                !changed ==> closed(*table, marks@),
            decreases
                    n - marked(marks@) + if changed {
                        1nat
                    } else {
                        0nat
                    },
        {
            proof {
                lemma_marked_bound(marks@);
            }
            changed = sweep(table, &mut marks);
            proof {
                lemma_marked_bound(marks@);
            }
        }
        proof {
            lemma_fixpoint_exact(*table, marks@);
        }
        Classifier { moves: marks }
    }

    /// The classification of type `ty`.
    pub fn classify(&self, ty: usize) -> (class: Classification)
        ensures
            class == (if lit(self.marks(), ty as int) {
                Classification::Move
            } else {
                Classification::Copy
            }),
    {
        if ty < self.moves.len() && self.moves[ty] {
            Classification::Move
        } else {
            Classification::Copy
        }
    }

    /// Whether values of type `ty` are duplicated rather than moved.
    pub fn is_copyable(&self, ty: usize) -> (yes: bool)
        ensures
            yes == !lit(self.marks(), ty as int),
    {
        !(ty < self.moves.len() && self.moves[ty])
    }
}

/// Decides whether assigning or passing a value of type `ty` duplicates or
/// transfers it.
pub fn classify(table: &TypeTable, ty: usize) -> (class: Classification)
    ensures
        class == classification_of(*table, ty as int),
{
    let classifier = Classifier::new(table);
    classifier.classify(ty)
}

} // verus!
