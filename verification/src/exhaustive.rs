//! The exhaustiveness checker: do the arms of a match cover every value of
//! the scrutinee's type, and is every arm of use?
//!
//! The arms are taken in order. Each one takes its share out of what the
//! earlier arms left over; an arm with a guard takes nothing, since it may
//! decline any value. An arm whose pattern matches nothing of a non-empty
//! remainder is unreachable. What remains after the last arm is missing.

use vstd::prelude::*;
use crate::inhabit::{has_sample, Inhabitants};
use crate::model::{Arm, Pattern, TypeKind, TypeTable};
use crate::space::{
    any_fields, any_holds, lemma_any_holds_concat, lemma_any_holds_push, lemma_data_holds, region_holds, split,
    Region,
};
use crate::values::{has_type, inhabited, pattern_matches, Value, Witness};

verus! {

/// What a match covers.
#[derive(Debug, PartialEq, Eq)]
pub struct Coverage {
    /// A value that no arm is sure to take, if there is one.
    pub missing: Option<Witness>,
    /// The arms that can never be reached, by position, in rising order.
    pub unreachable: Vec<usize>,
}

/// None of the first `k` arms is sure to take value `v`: each of them has a
/// guard or a pattern that does not match.
pub open spec fn left_over(table: TypeTable, t: int, arms: Seq<Arm>, k: int, v: Value) -> bool {
    forall|i: int| 0 <= i < k && !(#[trigger] arms[i]).guarded ==> !pattern_matches(table, t, arms[i].pattern, v)
}

/// Every value of type `t` is taken by an arm without a guard.
pub open spec fn exhaustive(table: TypeTable, t: int, arms: Seq<Arm>) -> bool {
    forall|v: Value| #[trigger] has_type(table, t, v) ==> !left_over(table, t, arms, arms.len() as int, v)
}

/// Value `v` of type `t` is left over by the arms before arm `i`.
pub open spec fn reaches(table: TypeTable, t: int, arms: Seq<Arm>, i: int, v: Value) -> bool {
    has_type(table, t, v) && left_over(table, t, arms, i, v)
}

/// Arm `i` is unreachable: the arms before it leave some value over, but none
/// that its pattern matches.
pub open spec fn arm_unreachable(table: TypeTable, t: int, arms: Seq<Arm>, i: int) -> bool {
    &&& exists|v: Value| #[trigger] reaches(table, t, arms, i, v)
    &&& forall|v: Value| #[trigger] reaches(table, t, arms, i, v) ==> !pattern_matches(table, t, arms[i].pattern, v)
}

/// `list` names, in rising order, exactly the unreachable arms among the
/// first `k`.
pub open spec fn lists_unreachable(table: TypeTable, t: int, arms: Seq<Arm>, list: Seq<usize>, k: int) -> bool {
    &&& forall|a: int, b: int| 0 <= a < b < list.len() ==> list[a] < list[b]
    &&& forall|a: int| 0 <= a < list.len() ==> (#[trigger] list[a]) < k
    &&& forall|i: int| 0 <= i < k ==> list.contains(i as usize) == #[trigger] arm_unreachable(table, t, arms, i)
}

/// The unreachable arms among the first `k`, in rising order.
pub open spec fn unreachable_arms(table: TypeTable, t: int, arms: Seq<Arm>, k: nat) -> Seq<usize>
    decreases k,
{
    if k == 0 {
        Seq::empty()
    } else {
        let before = unreachable_arms(table, t, arms, (k - 1) as nat);
        if arm_unreachable(table, t, arms, k - 1) {
            before.push((k - 1) as usize)
        } else {
            before
        }
    }
}

/// What `unreachable_arms` holds: exactly the unreachable arms below `k`, in
/// rising order.
pub proof fn lemma_unreachable_arms(table: TypeTable, t: int, arms: Seq<Arm>, k: nat)
    requires
        k <= usize::MAX,
    ensures
        lists_unreachable(table, t, arms, unreachable_arms(table, t, arms, k), k as int),
    decreases k,
{
    if k > 0 {
        let before = unreachable_arms(table, t, arms, (k - 1) as nat);
        let list = unreachable_arms(table, t, arms, k);
        lemma_unreachable_arms(table, t, arms, (k - 1) as nat);
        assert forall|i: int| 0 <= i < k implies list.contains(i as usize) == #[trigger] arm_unreachable(
            table,
            t,
            arms,
            i,
        ) by {
            if before.contains(i as usize) {
                let a = choose|a: int| 0 <= a < before.len() && before[a] == i as usize;
                assert(list[a] == i as usize);
            }
            if list.contains(i as usize) {
                let a = choose|a: int| 0 <= a < list.len() && list[a] == i as usize;
                if a < before.len() {
                    assert(before[a] == i as usize);
                }
            }
            if i == k - 1 && arm_unreachable(table, t, arms, i) {
                assert(list[list.len() - 1] == i as usize);
            }
        }
    }
}

/// Some value of type `t` lies in the region.
pub open spec fn occupied(table: TypeTable, t: int, cube: Region) -> bool {
    exists|v: Value| #[trigger] has_type(table, t, v) && region_holds(cube, v)
}

/// Some value of type `t` lies in one of the regions.
pub open spec fn any_occupied(table: TypeTable, t: int, cubes: Seq<Region>) -> bool {
    exists|v: Value| #[trigger] has_type(table, t, v) && any_holds(cubes, v)
}

/// Finds a value of type `t` in the region, if there is one.
#[verifier::loop_isolation(false)]
pub fn inhabitant(table: &TypeTable, found: &Inhabitants, t: usize, cube: &Region) -> (r: Option<Witness>)
    requires
        found.describes(*table),
    ensures
        r is Some == occupied(*table, t as int, *cube),
        r matches Some(w) ==> has_type(*table, t as int, w@) && region_holds(*cube, w@),
    decreases cube,
{
    match cube {
        Region::Any => {
            let r = found.sample(t);
            proof {
                if r is Some {
                    assert(has_sample(found.samples(), t as int));
                    assert(has_type(*table, t as int, r->0@));
                } else {
                    assert(!inhabited(*table, t as int));
                }
            }
            r
        },
        Region::Ints(a, b) => {
            let scalar = t < table.defs.len() && match table.defs[t].kind {
                TypeKind::Scalar => true,
                _ => false,
            };
            if scalar && *a <= *b {
                let w = Witness::Scalar(*a);
                assert(has_type(*table, t as int, w@));
                Some(w)
            } else {
                None
            }
        },
        Region::Data(c, rs) => {
            if t >= table.defs.len() {
                return None;
            }
            let kind = &table.defs[t].kind;
            if *c >= kind.variant_count() {
                return None;
            }
            let m = kind.arity(*c);
            if rs.len() != m {
                return None;
            }
            let mut ws: Vec<Witness> = Vec::new();
            let mut i: usize = 0;
            while i < m
                invariant
                    i <= m,
                    ws@.len() == i,
                    forall|k: int|
                        0 <= k < i ==> has_type(*table, kind.ctor_fields(*c as int)[k] as int, (#[trigger] ws@[k])@)
                            && region_holds(rs@[k], ws@[k]@),
                decreases m - i,
            {
                let ft = kind.field_type(*c, i);
                match inhabitant(table, found, ft, &rs[i]) {
                    Some(w) => {
                        ws.push(w);
                    },
                    None => {
                        proof {
                            assert forall|v: Value| #[trigger] has_type(*table, t as int, v) implies !region_holds(
                                *cube,
                                v,
                            ) by {
                                if region_holds(*cube, v) {
                                    let fv = v->fields[i as int];
                                    assert(has_type(*table, ft as int, fv));
                                    assert(region_holds(rs@[i as int], fv));
                                    assert(occupied(*table, ft as int, rs@[i as int]));
                                }
                            }
                        }
                        return None;
                    },
                }
                i += 1;
            }
            let w = Witness::Data(*c, ws);
            proof {
                let fields = w@->fields;
                assert(fields.len() == ws@.len());
                assert forall|k: int| 0 <= k < fields.len() implies has_type(
                    *table,
                    kind.ctor_fields(*c as int)[k] as int,
                    fields[k],
                ) && region_holds(rs@[k], fields[k]) by {
                    assert(fields[k] == ws@[k]@);
                }
                assert(has_type(*table, t as int, w@));
                lemma_data_holds(*c, *rs, w@);
                assert(region_holds(*cube, w@));
            }
            Some(w)
        },
    }
}

/// Value `w` comes no later than value `v` of type `t` in the order in which
/// missing values are looked for: by size for scalars, by variant for enums.
/// Other types have no such order.
pub open spec fn no_later(table: TypeTable, t: int, w: Value, v: Value) -> bool {
    if table.knows(t) {
        match table.defs@[t].kind {
            TypeKind::Scalar => w->Scalar_0 <= v->Scalar_0,
            TypeKind::Enum { .. } => w->ctor <= v->ctor,
            _ => true,
        }
    } else {
        true
    }
}

/// Finds a value of the first variant of enum `t` that has values.
fn least_variant(table: &TypeTable, found: &Inhabitants, t: usize) -> (r: Option<Witness>)
    requires
        found.describes(*table),
        table.knows(t as int),
        table.defs@[t as int].kind is Enum,
    ensures
        r is Some == inhabited(*table, t as int),
        r matches Some(w) ==> has_type(*table, t as int, w@) && forall|v: Value| #[trigger]
            has_type(*table, t as int, v) ==> w@->ctor <= v->ctor,
{
    let kind = &table.defs[t].kind;
    let count = kind.variant_count();
    let mut j: usize = 0;
    while j < count
        invariant
            j <= count,
            count == kind.ctor_count(),
            found.describes(*table),
            table.knows(t as int),
            *kind == table.defs@[t as int].kind,
            kind is Enum,
            forall|v: Value| #[trigger] has_type(*table, t as int, v) ==> v->ctor >= j,
        decreases count - j,
    {
        let fields = any_fields(kind.arity(j));
        let cube = Region::Data(j, fields);
        match inhabitant(table, found, t, &cube) {
            Some(w) => {
                proof {
                    lemma_data_holds(j, fields, w@);
                }
                return Some(w);
            },
            None => {
                proof {
                    assert forall|v: Value| #[trigger] has_type(*table, t as int, v) implies v->ctor >= j
                        + 1 by {
                        if v->ctor == j {
                            lemma_data_holds(j, fields, v);
                            assert(region_holds(cube, v));
                            assert(occupied(*table, t as int, cube));
                        }
                    }
                }
            },
        }
        j += 1;
    }
    None
}

/// Finds the first value of type `t` in the region, if there is one: the
/// smallest for a scalar, one of the first variant for an enum, any for
/// another type.
fn least_in(table: &TypeTable, found: &Inhabitants, t: usize, cube: &Region) -> (r: Option<Witness>)
    requires
        found.describes(*table),
    ensures
        r is Some == occupied(*table, t as int, *cube),
        r matches Some(w) ==> has_type(*table, t as int, w@) && region_holds(*cube, w@) && forall|
            v: Value,
        | #[trigger]
            has_type(*table, t as int, v) && region_holds(*cube, v) ==> no_later(
                *table,
                t as int,
                w@,
                v,
            ),
{
    if t >= table.defs.len() {
        return None;
    }
    match table.defs[t].kind {
        TypeKind::Scalar => {
            let (a, b): (i64, i64) = match cube {
                Region::Any => (i64::MIN, i64::MAX),
                Region::Ints(a, b) => (*a, *b),
                Region::Data(_, _) => {
                    return None;
                },
            };
            if a <= b {
                let w = Witness::Scalar(a);
                assert(has_type(*table, t as int, w@));
                Some(w)
            } else {
                None
            }
        },
        TypeKind::Enum { .. } => {
            match cube {
                Region::Any => {
                    let r = least_variant(table, found, t);
                    proof {
                        if r is None {
                            assert(!inhabited(*table, t as int));
                        }
                    }
                    r
                },
                _ => inhabitant(table, found, t, cube),
            }
        },
        _ => inhabitant(table, found, t, cube),
    }
}

/// Whether witness `w` comes before witness `other`: a smaller scalar, or an
/// earlier variant.
fn comes_before(w: &Witness, other: &Witness) -> (yes: bool)
    ensures
        yes == match (w@, other@) {
            (Value::Scalar(x), Value::Scalar(y)) => x < y,
            (Value::Data { ctor: c, .. }, Value::Data { ctor: d, .. }) => c < d,
            _ => false,
        },
{
    match (w, other) {
        (Witness::Scalar(x), Witness::Scalar(y)) => *x < *y,
        (Witness::Data(c, _), Witness::Data(d, _)) => *c < *d,
        _ => false,
    }
}

/// Finds the first value of type `t` in one of the regions, if there is one.
fn least_inhabitant(table: &TypeTable, found: &Inhabitants, t: usize, cubes: &Vec<Region>) -> (r: Option<
    Witness,
>)
    requires
        found.describes(*table),
    ensures
        r is Some == any_occupied(*table, t as int, cubes@),
        r matches Some(w) ==> has_type(*table, t as int, w@) && any_holds(cubes@, w@) && forall|v: Value| #[trigger]
            has_type(*table, t as int, v) && any_holds(cubes@, v) ==> no_later(*table, t as int, w@, v),
{
    let mut best: Option<Witness> = None;
    let mut j: usize = 0;
    while j < cubes.len()
        invariant
            j <= cubes@.len(),
            found.describes(*table),
            best is Some == any_occupied(*table, t as int, cubes@.take(j as int)),
            best matches Some(w) ==> has_type(*table, t as int, w@) && any_holds(cubes@.take(j as int), w@)
                && forall|v: Value| #[trigger]
                has_type(*table, t as int, v) && any_holds(cubes@.take(j as int), v) ==> no_later(
                    *table,
                    t as int,
                    w@,
                    v,
                ),
        decreases cubes@.len() - j,
    {
        let ghost before = best;
        let found_here = least_in(table, found, t, &cubes[j]);
        let ghost here = found_here;
        match found_here {
            Some(w) => {
                let better = match &best {
                    Some(held) => comes_before(&w, held),
                    None => true,
                };
                if better {
                    best = Some(w);
                }
            },
            None => {},
        }
        proof {
            let earlier = cubes@.take(j as int);
            let now = cubes@.take(j + 1);
            assert(now =~= earlier.push(cubes@[j as int]));
            assert forall|v: Value| any_holds(now, v) == (any_holds(earlier, v) || region_holds(
                cubes@[j as int],
                v,
            )) by {
                lemma_any_holds_push(earlier, cubes@[j as int], v);
            }
            if here is Some {
                assert(has_type(*table, t as int, here->0@) && any_holds(now, here->0@));
            }
            if any_occupied(*table, t as int, now) {
                let v = choose|v: Value| #[trigger] has_type(*table, t as int, v) && any_holds(now, v);
                if any_holds(earlier, v) {
                    assert(any_occupied(*table, t as int, earlier));
                } else {
                    assert(occupied(*table, t as int, cubes@[j as int]));
                }
            }
            if before is Some {
                assert(has_type(*table, t as int, before->0@) && any_holds(now, before->0@));
            }
        }
        j += 1;
    }
    assert(cubes@.take(cubes@.len() as int) =~= cubes@);
    best
}

/// Finds a value of type `t` in one of the regions, if there is one.
fn first_inhabitant(table: &TypeTable, found: &Inhabitants, t: usize, cubes: &Vec<Region>) -> (r:
    Option<Witness>)
    requires
        found.describes(*table),
    ensures
        r is Some == any_occupied(*table, t as int, cubes@),
        r matches Some(w) ==> has_type(*table, t as int, w@) && any_holds(cubes@, w@),
{
    let mut j: usize = 0;
    while j < cubes.len()
        invariant
            j <= cubes@.len(),
            found.describes(*table),
            forall|j2: int| 0 <= j2 < j ==> !occupied(*table, t as int, #[trigger] cubes@[j2]),
        decreases cubes@.len() - j,
    {
        match inhabitant(table, found, t, &cubes[j]) {
            Some(w) => {
                assert(region_holds(cubes@[j as int], w@));
                return Some(w);
            },
            None => {},
        }
        j += 1;
    }
    proof {
        assert forall|v: Value| #[trigger] has_type(*table, t as int, v) implies !any_holds(cubes@, v) by {
            if any_holds(cubes@, v) {
                let j2 = choose|j2: int| 0 <= j2 < cubes@.len() && region_holds(#[trigger] cubes@[j2], v);
                assert(occupied(*table, t as int, cubes@[j2]));
            }
        }
    }
    None
}

/// Parts each of the regions by a pattern: all that the pattern matches, and
/// all that it does not.
fn split_all(table: &TypeTable, t: usize, cubes: &Vec<Region>, p: &Pattern) -> (r: (Vec<Region>, Vec<Region>))
    ensures
        forall|v: Value| #[trigger]
            has_type(*table, t as int, v) ==> {
                &&& any_holds(r.0@, v) == (any_holds(cubes@, v) && pattern_matches(*table, t as int, *p, v))
                &&& any_holds(r.1@, v) == (any_holds(cubes@, v) && !pattern_matches(*table, t as int, *p, v))
            },
{
    let mut ins: Vec<Region> = Vec::new();
    let mut outs: Vec<Region> = Vec::new();
    let mut j: usize = 0;
    while j < cubes.len()
        invariant
            j <= cubes@.len(),
            forall|v: Value| #[trigger]
                has_type(*table, t as int, v) ==> {
                    let here = any_holds(cubes@.take(j as int), v);
                    let hit = pattern_matches(*table, t as int, *p, v);
                    &&& any_holds(ins@, v) == (here && hit)
                    &&& any_holds(outs@, v) == (here && !hit)
                },
        decreases cubes@.len() - j,
    {
        let (mut more, mut less) = split(table, t, &cubes[j], p);
        let ghost ins_before = ins@;
        let ghost outs_before = outs@;
        let ghost more_seq = more@;
        let ghost less_seq = less@;
        ins.append(&mut more);
        outs.append(&mut less);
        proof {
            assert(cubes@.take(j + 1) =~= cubes@.take(j as int).push(cubes@[j as int]));
            assert forall|v: Value| #[trigger] has_type(*table, t as int, v) implies {
                let here = any_holds(cubes@.take(j + 1), v);
                let hit = pattern_matches(*table, t as int, *p, v);
                &&& any_holds(ins@, v) == (here && hit)
                &&& any_holds(outs@, v) == (here && !hit)
            } by {
                lemma_any_holds_concat(ins_before, more_seq, v);
                lemma_any_holds_concat(outs_before, less_seq, v);
                lemma_any_holds_push(cubes@.take(j as int), cubes@[j as int], v);
            }
        }
        j += 1;
    }
    assert(cubes@.take(cubes@.len() as int) =~= cubes@);
    (ins, outs)
}

/// Checks the arms of a match on a value of type `ty`.
///
/// Nothing is missing exactly when every value of the type is taken by an arm
/// without a guard; otherwise a value that none of them takes is handed out:
/// the smallest such scalar, or such a value of the first variant that has
/// one. The unreachable arms are exactly those whose pattern matches nothing
/// of a non-empty remainder.
pub fn check(table: &TypeTable, ty: usize, arms: &Vec<Arm>) -> (coverage: Coverage)
    ensures
        coverage.missing is None == exhaustive(*table, ty as int, arms@),
        coverage.missing matches Some(w) ==> has_type(*table, ty as int, w@) && left_over(
            *table,
            ty as int,
            arms@,
            arms@.len() as int,
            w@,
        ),
        coverage.missing matches Some(w) ==> forall|v: Value| #[trigger]
            has_type(*table, ty as int, v) && left_over(*table, ty as int, arms@, arms@.len() as int, v)
                ==> no_later(*table, ty as int, w@, v),
        coverage.unreachable@ == unreachable_arms(*table, ty as int, arms@, arms@.len()),
        lists_unreachable(*table, ty as int, arms@, coverage.unreachable@, arms@.len() as int),
{
    let found = Inhabitants::new(table);
    check_with(table, &found, ty, arms)
}

/// Checks the arms of a match on a value of type `ty`, with the samples of
/// the table at hand.
pub fn check_with(table: &TypeTable, found: &Inhabitants, ty: usize, arms: &Vec<Arm>) -> (coverage: Coverage)
    requires
        found.describes(*table),
    ensures
        coverage.missing is None == exhaustive(*table, ty as int, arms@),
        coverage.missing matches Some(w) ==> has_type(*table, ty as int, w@) && left_over(
            *table,
            ty as int,
            arms@,
            arms@.len() as int,
            w@,
        ),
        coverage.missing matches Some(w) ==> forall|v: Value| #[trigger]
            has_type(*table, ty as int, v) && left_over(*table, ty as int, arms@, arms@.len() as int, v)
                ==> no_later(*table, ty as int, w@, v),
        coverage.unreachable@ == unreachable_arms(*table, ty as int, arms@, arms@.len()),
        lists_unreachable(*table, ty as int, arms@, coverage.unreachable@, arms@.len() as int),
{
    let mut remaining: Vec<Region> = Vec::new();
    remaining.push(Region::Any);
    let mut unreachable: Vec<usize> = Vec::new();
    proof {
        assert forall|v: Value| #[trigger] has_type(*table, ty as int, v) implies any_holds(remaining@, v)
            == left_over(*table, ty as int, arms@, 0, v) by {
            lemma_any_holds_push(Seq::empty(), Region::Any, v);
        }
    }
    let mut i: usize = 0;
    while i < arms.len()
        invariant
            i <= arms@.len(),
            found.describes(*table),
            forall|v: Value| #[trigger]
                has_type(*table, ty as int, v) ==> any_holds(remaining@, v) == left_over(
                    *table,
                    ty as int,
                    arms@,
                    i as int,
                    v,
                ),
            unreachable@ == unreachable_arms(*table, ty as int, arms@, i as nat),
        decreases arms@.len() - i,
    {
        let (ins, outs) = split_all(table, ty, &remaining, &arms[i].pattern);
        let some_left = first_inhabitant(table, found, ty, &remaining);
        let some_hit = first_inhabitant(table, found, ty, &ins);
        let dead = some_left.is_some() && some_hit.is_none();
        proof {
            let p = arms@[i as int].pattern;
            if some_left is Some {
                assert(reaches(*table, ty as int, arms@, i as int, some_left->0@));
            } else {
                assert forall|v: Value| !#[trigger] reaches(*table, ty as int, arms@, i as int, v) by {
                    if has_type(*table, ty as int, v) {
                        assert(!any_holds(remaining@, v));
                    }
                }
            }
            if some_hit is Some {
                let v = some_hit->0@;
                assert(reaches(*table, ty as int, arms@, i as int, v) && pattern_matches(
                    *table,
                    ty as int,
                    p,
                    v,
                ));
            } else {
                assert forall|v: Value| #[trigger]
                    reaches(*table, ty as int, arms@, i as int, v) implies !pattern_matches(
                    *table,
                    ty as int,
                    p,
                    v,
                ) by {
                    assert(!any_holds(ins@, v));
                }
            }
            assert(dead == arm_unreachable(*table, ty as int, arms@, i as int));
        }
        if dead {
            unreachable.push(i);
        }
        if !arms[i].guarded {
            remaining = outs;
        }
        proof {
            assert forall|v: Value| #[trigger] has_type(*table, ty as int, v) implies any_holds(remaining@, v)
                == left_over(*table, ty as int, arms@, i + 1, v) by {
                let was = left_over(*table, ty as int, arms@, i as int, v);
                let hit = !arms@[i as int].guarded && pattern_matches(
                    *table,
                    ty as int,
                    arms@[i as int].pattern,
                    v,
                );
                assert(left_over(*table, ty as int, arms@, i + 1, v) == (was && !hit)) by {
                    if left_over(*table, ty as int, arms@, i + 1, v) {
                        assert(!arms@[i as int].guarded ==> !pattern_matches(
                            *table,
                            ty as int,
                            arms@[i as int].pattern,
                            v,
                        ));
                    }
                }
            }
        }
        i += 1;
    }
    let missing = least_inhabitant(table, found, ty, &remaining);
    proof {
        lemma_unreachable_arms(*table, ty as int, arms@, arms@.len());
        if missing is None {
            assert forall|v: Value| #[trigger] has_type(*table, ty as int, v) implies !left_over(
                *table,
                ty as int,
                arms@,
                arms@.len() as int,
                v,
            ) by {
                assert(!any_holds(remaining@, v));
            }
        } else {
            assert(has_type(*table, ty as int, missing->0@));
        }
    }
    Coverage { missing, unreachable }
}

} // verus!
