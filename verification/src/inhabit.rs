//! Which types have values, with a sample value of each.
//!
//! A type that contains itself without a reference in between has no finite
//! value, and neither has an enum without variants. The samples are found by
//! marking, over and over, every type that can be built from types already
//! marked, until nothing changes.

use vstd::prelude::*;
use crate::classify::{lemma_marked_bound, lemma_marked_set, marked};
use crate::model::{TypeKind, TypeTable};
use crate::values::{has_type, inhabited, Value, Witness};

verus! {

/// Type `b` has a sample.
pub open spec fn has_sample(samples: Seq<Option<Witness>>, b: int) -> bool {
    0 <= b < samples.len() && samples[b] is Some
}

/// For each type, whether it has a sample.
pub open spec fn sampled(samples: Seq<Option<Witness>>) -> Seq<bool> {
    Seq::new(samples.len(), |i: int| samples[i] is Some)
}

/// Every sample is a value of its type.
pub open spec fn samples_sound(table: TypeTable, samples: Seq<Option<Witness>>) -> bool {
    forall|t: int| #[trigger] has_sample(samples, t) ==> has_type(table, t, samples[t]->0@)
}

/// Every field of constructor `c` of type `t` has a type with a sample.
pub open spec fn buildable(table: TypeTable, samples: Seq<Option<Witness>>, t: int, c: int) -> bool {
    forall|i: int|
        0 <= i < table.defs@[t].kind.ctor_fields(c).len() ==> has_sample(
            samples,
            #[trigger] table.defs@[t].kind.ctor_fields(c)[i] as int,
        )
}

/// A value of type `t` can be made from the samples: `t` is a scalar or a
/// reference, or one of its constructors is buildable.
pub open spec fn makeable(table: TypeTable, samples: Seq<Option<Witness>>, t: int) -> bool {
    let kind = table.defs@[t].kind;
    ||| kind is Scalar
    ||| kind is Reference
    ||| exists|c: int| 0 <= c < kind.ctor_count() && #[trigger] buildable(table, samples, t, c)
}

/// Nothing more can be sampled.
pub open spec fn settled(table: TypeTable, samples: Seq<Option<Witness>>) -> bool {
    forall|t: int| 0 <= t < samples.len() && #[trigger] makeable(table, samples, t) ==> samples[t] is Some
}

/// Once nothing more can be sampled, every type with a value has a sample.
proof fn lemma_settled_complete(table: TypeTable, samples: Seq<Option<Witness>>, t: int, v: Value)
    requires
        samples.len() == table.defs@.len(),
        settled(table, samples),
        has_type(table, t, v),
    ensures
        has_sample(samples, t),
    decreases v,
{
    let kind = table.defs@[t].kind;
    if kind is Scalar || kind is Reference {
        assert(makeable(table, samples, t));
    } else {
        let c = v->ctor;
        let fields = v->fields;
        assert forall|i: int| 0 <= i < kind.ctor_fields(c).len() implies has_sample(
            samples,
            #[trigger] kind.ctor_fields(c)[i] as int,
        ) by {
            lemma_settled_complete(table, samples, kind.ctor_fields(c)[i] as int, fields[i]);
        }
        assert(buildable(table, samples, t, c));
        assert(makeable(table, samples, t));
    }
}

/// Copies the samples of the fields of constructor `c` of type `t`, if every
/// field has one.
fn build_fields(table: &TypeTable, samples: &Vec<Option<Witness>>, t: usize, c: usize) -> (r: Option<
    Vec<Witness>,
>)
    requires
        table.knows(t as int),
        c < table.defs@[t as int].kind.ctor_count(),
        samples_sound(*table, samples@),
    ensures
        r is Some == buildable(*table, samples@, t as int, c as int),
        r matches Some(ws) ==> ws@.len() == table.defs@[t as int].kind.ctor_fields(c as int).len()
            && forall|i: int|
            0 <= i < ws@.len() ==> has_type(
                *table,
                table.defs@[t as int].kind.ctor_fields(c as int)[i] as int,
                #[trigger] ws@[i]@,
            ),
{
    let kind = &table.defs[t].kind;
    let m = kind.arity(c);
    let mut ws: Vec<Witness> = Vec::new();
    let mut i: usize = 0;
    while i < m
        invariant
            i <= m,
            m == kind.ctor_fields(c as int).len(),
            table.knows(t as int),
            *kind == table.defs@[t as int].kind,
            c < kind.ctor_count(),
            samples_sound(*table, samples@),
            ws@.len() == i,
            forall|k: int| 0 <= k < i ==> has_sample(samples@, #[trigger] kind.ctor_fields(c as int)[k] as int),
            forall|k: int|
                0 <= k < i ==> has_type(*table, kind.ctor_fields(c as int)[k] as int, #[trigger] ws@[k]@),
        decreases m - i,
    {
        let ft = kind.field_type(c, i);
        if ft >= samples.len() {
            assert(!has_sample(samples@, kind.ctor_fields(c as int)[i as int] as int));
            return None;
        }
        match &samples[ft] {
            Some(w) => {
                assert(has_sample(samples@, ft as int));
                ws.push(w.copy());
            },
            None => {
                assert(!has_sample(samples@, kind.ctor_fields(c as int)[i as int] as int));
                return None;
            },
        }
        i += 1;
    }
    Some(ws)
}

/// Makes a value of type `t` from the samples, if one can be made.
fn make(table: &TypeTable, samples: &Vec<Option<Witness>>, t: usize) -> (r: Option<Witness>)
    requires
        table.knows(t as int),
        samples_sound(*table, samples@),
    ensures
        r is Some == makeable(*table, samples@, t as int),
        r matches Some(w) ==> has_type(*table, t as int, w@),
{
    let kind = &table.defs[t].kind;
    match kind {
        TypeKind::Scalar => { return Some(Witness::Scalar(i64::MIN)); },
        TypeKind::Reference { .. } => { return Some(Witness::Opaque); },
        _ => {},
    }
    let count = kind.variant_count();
    let mut c: usize = 0;
    while c < count
        invariant
            c <= count,
            count == kind.ctor_count(),
            table.knows(t as int),
            *kind == table.defs@[t as int].kind,
            !(kind is Scalar),
            !(kind is Reference),
            samples_sound(*table, samples@),
            forall|c2: int| 0 <= c2 < c ==> !#[trigger] buildable(*table, samples@, t as int, c2),
        decreases count - c,
    {
        match build_fields(table, samples, t, c) {
            Some(ws) => {
                let w = Witness::Data(c, ws);
                proof {
                    let fields = w@->fields;
                    assert(fields.len() == ws@.len());
                    assert forall|i: int| 0 <= i < fields.len() implies has_type(
                        *table,
                        kind.ctor_fields(c as int)[i] as int,
                        fields[i],
                    ) by {
                        assert(fields[i] == ws@[i]@);
                    }
                }
                return Some(w);
            },
            None => {},
        }
        c += 1;
    }
    None
}

/// One pass over the table that samples every type that can be made.
fn sweep(table: &TypeTable, samples: &mut Vec<Option<Witness>>) -> (changed: bool)
    requires
        old(samples)@.len() == table.defs@.len(),
        samples_sound(*table, old(samples)@),
    ensures
        final(samples)@.len() == table.defs@.len(),
        samples_sound(*table, final(samples)@),
        changed ==> marked(sampled(final(samples)@)) > marked(sampled(old(samples)@)),
        !changed ==> final(samples)@ == old(samples)@ && settled(*table, final(samples)@),
{
    let n = table.defs.len();
    let mut changed = false;
    let mut t: usize = 0;
    while t < n
        invariant
            t <= n,
            n == table.defs@.len(),
            samples@.len() == n,
            samples_sound(*table, samples@),
            marked(sampled(samples@)) >= marked(sampled(old(samples)@)),
            changed ==> marked(sampled(samples@)) > marked(sampled(old(samples)@)),
            !changed ==> samples@ == old(samples)@,
            !changed ==> forall|t2: int|
                0 <= t2 < t && #[trigger] makeable(*table, samples@, t2) ==> samples@[t2] is Some,
        decreases n - t,
    {
        if samples[t].is_none() {
            match make(table, samples, t) {
                Some(w) => {
                    let ghost before = samples@;
                    samples.set(t, Some(w));
                    changed = true;
                    proof {
                        lemma_marked_set(sampled(before), t as int);
                        assert(sampled(samples@) =~= sampled(before).update(t as int, true));
                        assert forall|t2: int| #[trigger] has_sample(samples@, t2) implies has_type(
                            *table,
                            t2,
                            samples@[t2]->0@,
                        ) by {
                            if t2 != t {
                                assert(has_sample(before, t2));
                            }
                        }
                    }
                },
                None => {},
            }
        }
        t += 1;
    }
    changed
}

/// A sample value of every type that has values.
pub struct Inhabitants {
    samples: Vec<Option<Witness>>,
}

impl Inhabitants {
    /// The sample of each type, where it has one.
    pub closed spec fn samples(self) -> Seq<Option<Witness>> {
        self.samples@
    }

    /// The samples are those of `table`: a type has a sample exactly when it
    /// has a value, and the sample is one of its values.
    pub open spec fn describes(self, table: TypeTable) -> bool {
        &&& self.samples().len() == table.defs@.len()
        &&& forall|t: int| has_sample(self.samples(), t) == #[trigger] inhabited(table, t)
        &&& samples_sound(table, self.samples())
    }

    /// Finds a sample for every type of `table` that has values.
    pub fn new(table: &TypeTable) -> (found: Inhabitants)
        ensures
            found.describes(*table),
    {
        let n = table.defs.len();
        let mut samples: Vec<Option<Witness>> = Vec::new();
        while samples.len() < n
            invariant
                samples@.len() <= n,
                forall|t: int| 0 <= t < samples@.len() ==> samples@[t] is None,
            decreases n - samples@.len(),
        {
            samples.push(None);
        }
        let mut changed = true;
        while changed
            invariant
                n == table.defs@.len(),
                samples@.len() == n,
                samples_sound(*table, samples@),
                !changed ==> settled(*table, samples@),
            decreases
                    n - marked(sampled(samples@)) + if changed {
                        1nat
                    } else {
                        0nat
                    },
        {
            proof {
                lemma_marked_bound(sampled(samples@));
            }
            changed = sweep(table, &mut samples);
            proof {
                lemma_marked_bound(sampled(samples@));
            }
        }
        proof {
            assert forall|t: int| has_sample(samples@, t) == #[trigger] inhabited(*table, t) by {
                if inhabited(*table, t) {
                    let v = choose|v: Value| has_type(*table, t, v);
                    lemma_settled_complete(*table, samples@, t, v);
                }
            }
        }
        Inhabitants { samples }
    }

    /// A value of type `t`, if the type has values.
    pub fn sample(&self, t: usize) -> (r: Option<Witness>)
        ensures
            r is Some == has_sample(self.samples(), t as int),
            r matches Some(w) ==> w@ == self.samples()[t as int]->0@,
    {
        if t < self.samples.len() {
            match &self.samples[t] {
                Some(w) => Some(w.copy()),
                None => None,
            }
        } else {
            None
        }
    }
}

} // verus!
