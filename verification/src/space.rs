//! Regions of values: what a match has not covered yet.
//!
//! A region is one cube of the value space of a type: every value, a range
//! of scalars, or one constructor applied to a region for each field. What
//! remains of a region after a pattern has taken its share is a list of such
//! cubes.

use vstd::prelude::*;
use crate::model::{Pattern, TypeKind, TypeTable};
use crate::values::{field_type, has_type, is_product, pattern_matches, Value};

verus! {

/// One cube of values.
#[derive(Debug)]
pub enum Region {
    /// Every value.
    Any,
    /// The scalars from the first bound to the second, both included.
    Ints(i64, i64),
    /// The values built by one constructor whose fields lie in the given
    /// regions.
    Data(usize, Vec<Region>),
}

/// Value `v` lies in region `r`.
pub open spec fn region_holds(r: Region, v: Value) -> bool
    decreases r,
{
    match r {
        Region::Any => true,
        Region::Ints(lo, hi) => {
            &&& v matches Value::Scalar(x)
            &&& lo <= x <= hi
        },
        Region::Data(c, rs) => {
            &&& v matches Value::Data { ctor, fields }
            &&& ctor == c
            &&& fields.len() == rs@.len()
            &&& forall|i: int| 0 <= i < rs@.len() ==> region_holds(rs@[i], fields[i])
        },
    }
}

/// Each of the values lies in the region of the same position.
pub open spec fn fields_hold(rs: Seq<Region>, fields: Seq<Value>) -> bool {
    &&& fields.len() == rs.len()
    &&& forall|i: int| 0 <= i < rs.len() ==> region_holds(#[trigger] rs[i], fields[i])
}

/// Value `v` lies in one of the regions.
pub open spec fn any_holds(rs: Seq<Region>, v: Value) -> bool {
    exists|j: int| 0 <= j < rs.len() && region_holds(#[trigger] rs[j], v)
}

/// The values lie, position by position, in one of the lists of regions.
pub open spec fn any_fields_hold(list: Seq<Vec<Region>>, fields: Seq<Value>) -> bool {
    exists|j: int| 0 <= j < list.len() && fields_hold((#[trigger] list[j])@, fields)
}

/// Two regions hold the same values.
pub open spec fn alike(a: Region, b: Region) -> bool {
    forall|v: Value| #[trigger] region_holds(a, v) == region_holds(b, v)
}

/// The regions `ins` and `outs` part the values of type `t` in `cube` by
/// pattern `p`: `ins` holds those that it matches, `outs` the others.
pub open spec fn split_ok(
    table: TypeTable,
    t: int,
    cube: Region,
    p: Pattern,
    ins: Seq<Region>,
    outs: Seq<Region>,
) -> bool {
    forall|v: Value| #[trigger]
        has_type(table, t, v) ==> {
            &&& any_holds(ins, v) == (region_holds(cube, v) && pattern_matches(table, t, p, v))
            &&& any_holds(outs, v) == (region_holds(cube, v) && !pattern_matches(table, t, p, v))
        }
}

/// A region built by a constructor holds the values built by it whose fields
/// lie in its field regions.
pub proof fn lemma_data_holds(c: usize, rs: Vec<Region>, v: Value)
    ensures
        region_holds(Region::Data(c, rs), v) == (v matches Value::Data { ctor, fields } && ctor == c
            && fields_hold(rs@, fields)),
{
}

/// Regions that are alike position by position hold the same lists of values.
pub proof fn lemma_alike_fields(a: Seq<Region>, b: Seq<Region>, fields: Seq<Value>)
    requires
        a.len() == b.len(),
        forall|i: int| 0 <= i < a.len() ==> alike(#[trigger] a[i], b[i]),
    ensures
        fields_hold(a, fields) == fields_hold(b, fields),
{
    if fields.len() == a.len() {
        assert forall|i: int| 0 <= i < a.len() implies region_holds(a[i], fields[i]) == region_holds(
            b[i],
            fields[i],
        ) by {
            assert(alike(a[i], b[i]));
        }
    }
}

impl Region {
    /// A copy of the region.
    #[verifier::loop_isolation(false)]
    pub fn copy(&self) -> (r: Region)
        ensures
            alike(r, *self),
        decreases self,
    {
        match self {
            Region::Any => Region::Any,
            Region::Ints(lo, hi) => Region::Ints(*lo, *hi),
            Region::Data(c, rs) => {
                let mut out: Vec<Region> = Vec::new();
                let mut i: usize = 0;
                while i < rs.len()
                    invariant
                        i <= rs.len(),
                        out@.len() == i,
                        forall|k: int| 0 <= k < i ==> alike(#[trigger] out@[k], rs@[k]),
                    decreases rs.len() - i,
                {
                    out.push(rs[i].copy());
                    i += 1;
                }
                let r = Region::Data(*c, out);
                proof {
                    assert forall|v: Value| #[trigger] region_holds(r, v) == region_holds(*self, v) by {
                        lemma_data_holds(*c, out, v);
                        lemma_data_holds(*c, *rs, v);
                        if v is Data {
                            lemma_alike_fields(out@, rs@, v->fields);
                        }
                    }
                }
                r
            },
        }
    }
}

/// Copies a list of regions.
fn copy_fields(rs: &Vec<Region>) -> (out: Vec<Region>)
    ensures
        out@.len() == rs@.len(),
        forall|i: int| 0 <= i < rs@.len() ==> alike(#[trigger] out@[i], rs@[i]),
{
    let mut out: Vec<Region> = Vec::new();
    let mut i: usize = 0;
    while i < rs.len()
        invariant
            i <= rs.len(),
            out@.len() == i,
            forall|k: int| 0 <= k < i ==> alike(#[trigger] out@[k], rs@[k]),
        decreases rs.len() - i,
    {
        out.push(rs[i].copy());
        i += 1;
    }
    out
}

/// Copies a list of regions, with region `x` in place of the one at `f`.
fn with_field(rs: &Vec<Region>, f: usize, x: &Region) -> (out: Vec<Region>)
    requires
        f < rs@.len(),
    ensures
        out@.len() == rs@.len(),
        alike(out@[f as int], *x),
        forall|i: int| 0 <= i < rs@.len() && i != f ==> alike(#[trigger] out@[i], rs@[i]),
{
    let mut out: Vec<Region> = Vec::new();
    let mut i: usize = 0;
    while i < rs.len()
        invariant
            i <= rs.len(),
            f < rs@.len(),
            out@.len() == i,
            i > f ==> alike(out@[f as int], *x),
            forall|k: int| 0 <= k < i && k != f ==> alike(#[trigger] out@[k], rs@[k]),
        decreases rs.len() - i,
    {
        if i == f {
            out.push(x.copy());
        } else {
            out.push(rs[i].copy());
        }
        i += 1;
    }
    out
}

/// A list of `n` regions that each hold every value.
pub fn any_fields(n: usize) -> (out: Vec<Region>)
    ensures
        out@.len() == n,
        forall|i: int| 0 <= i < n ==> #[trigger] out@[i] == Region::Any,
{
    let mut out: Vec<Region> = Vec::new();
    while out.len() < n
        invariant
            out@.len() <= n,
            forall|i: int| 0 <= i < out@.len() ==> #[trigger] out@[i] == Region::Any,
        decreases n - out@.len(),
    {
        out.push(Region::Any);
    }
    out
}

/// The constructor that a pattern for structured values addresses.
pub open spec fn target(p: Pattern) -> int {
    match p {
        Pattern::EnumVariant(variant, _) => variant as int,
        _ => 0,
    }
}

/// Number of field constraints of a pattern for structured values.
pub open spec fn constraint_count(p: Pattern) -> nat {
    match p {
        Pattern::Tuple(ps) => ps@.len(),
        Pattern::StructFields(fps) => fps@.len(),
        Pattern::EnumVariant(_, ps) => ps@.len(),
        _ => 0,
    }
}

/// The field that constraint `k` of the pattern speaks of.
pub open spec fn constraint_field(p: Pattern, k: int) -> int {
    match p {
        Pattern::StructFields(fps) => fps@[k].field as int,
        _ => k,
    }
}

/// The pattern that constraint `k` asks of its field.
pub open spec fn constraint_pattern(p: Pattern, k: int) -> Pattern {
    match p {
        Pattern::Tuple(ps) => ps@[k],
        Pattern::StructFields(fps) => fps@[k].pattern,
        Pattern::EnumVariant(_, ps) => ps@[k],
        _ => Pattern::Wildcard,
    }
}

/// The pattern is one for structured values.
pub open spec fn is_data_pattern(p: Pattern) -> bool {
    p is Tuple || p is StructFields || p is EnumVariant
}

/// A pattern for structured values fits type `t`: it addresses a constructor
/// of the type and fields of that constructor.
pub open spec fn fits(table: TypeTable, t: int, p: Pattern) -> bool {
    &&& table.knows(t)
    &&& match p {
        Pattern::Tuple(ps) => is_product(table, t) && ps@.len() == table.defs@[t].kind.ctor_fields(
            0,
        ).len(),
        Pattern::StructFields(fps) => is_product(table, t) && forall|k: int|
            0 <= k < fps@.len() ==> (#[trigger] fps@[k]).field < table.defs@[t].kind.ctor_fields(0).len(),
        Pattern::EnumVariant(variant, ps) => table.defs@[t].kind is Enum && variant
            < table.defs@[t].kind.ctor_count() && ps@.len() == table.defs@[t].kind.ctor_fields(
            variant as int,
        ).len(),
        _ => false,
    }
}

/// Constraint `k` of pattern `p` holds of value `v` of type `t`.
pub open spec fn constraint_ok(table: TypeTable, t: int, p: Pattern, k: int, v: Value) -> bool {
    pattern_matches(
        table,
        field_type(table, t, target(p), constraint_field(p, k)),
        constraint_pattern(p, k),
        v->fields[constraint_field(p, k)],
    )
}

/// The first `k` constraints of pattern `p` hold of value `v`, which was built
/// by the constructor that the pattern addresses.
pub open spec fn constraints_ok(table: TypeTable, t: int, p: Pattern, k: int, v: Value) -> bool {
    &&& v->ctor == target(p)
    &&& forall|k2: int| 0 <= k2 < k ==> #[trigger] constraint_ok(table, t, p, k2, v)
}

/// A pattern for structured values matches a value of type `t` exactly when
/// it fits the type, addresses the value's constructor, and all of its
/// constraints hold.
pub proof fn lemma_data_pattern(table: TypeTable, t: int, p: Pattern, v: Value)
    requires
        has_type(table, t, v),
        is_data_pattern(p),
    ensures
        pattern_matches(table, t, p, v) == (fits(table, t, p) && constraints_ok(
            table,
            t,
            p,
            constraint_count(p) as int,
            v,
        )),
{
    let n = constraint_count(p) as int;
    match p {
        Pattern::Tuple(ps) => {
            if pattern_matches(table, t, p, v) {
                assert forall|k2: int| 0 <= k2 < n implies #[trigger] constraint_ok(table, t, p, k2, v) by {}
            }
            if fits(table, t, p) && constraints_ok(table, t, p, n, v) {
                assert forall|i: int| 0 <= i < ps@.len() implies pattern_matches(
                    table,
                    field_type(table, t, 0, i),
                    ps@[i],
                    v->fields[i],
                ) by {
                    assert(constraint_ok(table, t, p, i, v));
                }
            }
        },
        Pattern::StructFields(fps) => {
            if pattern_matches(table, t, p, v) {
                assert forall|k2: int| 0 <= k2 < n implies #[trigger] constraint_ok(table, t, p, k2, v) by {}
                assert forall|k: int| 0 <= k < fps@.len() implies (#[trigger] fps@[k]).field
                    < table.defs@[t].kind.ctor_fields(0).len() by {}
            }
            if fits(table, t, p) && constraints_ok(table, t, p, n, v) {
                assert forall|k: int| 0 <= k < fps@.len() implies fps@[k].field < v->fields.len()
                    && pattern_matches(
                    table,
                    field_type(table, t, 0, fps@[k].field as int),
                    fps@[k].pattern,
                    v->fields[fps@[k].field as int],
                ) by {
                    assert(constraint_ok(table, t, p, k, v));
                    assert(fps@[k].field < table.defs@[t].kind.ctor_fields(0).len());
                }
            }
        },
        Pattern::EnumVariant(variant, ps) => {
            if pattern_matches(table, t, p, v) {
                assert forall|k2: int| 0 <= k2 < n implies #[trigger] constraint_ok(table, t, p, k2, v) by {}
            }
            if fits(table, t, p) && constraints_ok(table, t, p, n, v) {
                assert forall|i: int| 0 <= i < ps@.len() implies pattern_matches(
                    table,
                    field_type(table, t, variant as int, i),
                    ps@[i],
                    v->fields[i],
                ) by {
                    assert(constraint_ok(table, t, p, i, v));
                }
            }
        },
        _ => {},
    }
}

/// Decides whether a pattern for structured values fits type `t`.
pub fn pattern_fits(table: &TypeTable, t: usize, p: &Pattern) -> (yes: bool)
    ensures
        yes == fits(*table, t as int, *p),
{
    if t >= table.defs.len() {
        return false;
    }
    let kind = &table.defs[t].kind;
    let product = match kind {
        TypeKind::Struct { .. } => true,
        TypeKind::Tuple { .. } => true,
        _ => false,
    };
    match p {
        Pattern::Tuple(ps) => product && ps.len() == kind.arity(0),
        Pattern::StructFields(fps) => {
            if !product {
                return false;
            }
            let m = kind.arity(0);
            let mut k: usize = 0;
            while k < fps.len()
                invariant
                    k <= fps@.len(),
                    table.knows(t as int),
                    is_product(*table, t as int),
                    *p == Pattern::StructFields(*fps),
                    m == table.defs@[t as int].kind.ctor_fields(0).len(),
                    forall|k2: int| 0 <= k2 < k ==> (#[trigger] fps@[k2]).field < m,
                decreases fps@.len() - k,
            {
                if fps[k].field >= m {
                    assert(!(fps@[k as int].field < m));
                    return false;
                }
                k += 1;
            }
            true
        },
        Pattern::EnumVariant(variant, ps) => {
            match kind {
                TypeKind::Enum { .. } => *variant < kind.variant_count() && ps.len() == kind.arity(
                    *variant,
                ),
                _ => false,
            }
        },
        _ => false,
    }
}

/// A list holds a value when one of its two parts does.
pub proof fn lemma_any_holds_concat(a: Seq<Region>, b: Seq<Region>, v: Value)
    ensures
        any_holds(a + b, v) == (any_holds(a, v) || any_holds(b, v)),
{
    let ab = a + b;
    if any_holds(a, v) {
        let j = choose|j: int| 0 <= j < a.len() && region_holds(#[trigger] a[j], v);
        assert(ab[j] == a[j]);
    }
    if any_holds(b, v) {
        let j = choose|j: int| 0 <= j < b.len() && region_holds(#[trigger] b[j], v);
        assert(ab[a.len() + j] == b[j]);
    }
    if any_holds(ab, v) {
        let j = choose|j: int| 0 <= j < ab.len() && region_holds(#[trigger] ab[j], v);
        if j < a.len() {
            assert(ab[j] == a[j]);
        } else {
            assert(ab[j] == b[j - a.len()]);
        }
    }
}

/// A list of field regions holds a list of values when one of its two parts
/// does.
pub proof fn lemma_any_fields_concat(a: Seq<Vec<Region>>, b: Seq<Vec<Region>>, fields: Seq<Value>)
    ensures
        any_fields_hold(a + b, fields) == (any_fields_hold(a, fields) || any_fields_hold(b, fields)),
{
    let ab = a + b;
    if any_fields_hold(a, fields) {
        let j = choose|j: int| 0 <= j < a.len() && fields_hold((#[trigger] a[j])@, fields);
        assert(ab[j] == a[j]);
    }
    if any_fields_hold(b, fields) {
        let j = choose|j: int| 0 <= j < b.len() && fields_hold((#[trigger] b[j])@, fields);
        assert(ab[a.len() + j] == b[j]);
    }
    if any_fields_hold(ab, fields) {
        let j = choose|j: int| 0 <= j < ab.len() && fields_hold((#[trigger] ab[j])@, fields);
        if j < a.len() {
            assert(ab[j] == a[j]);
        } else {
            assert(ab[j] == b[j - a.len()]);
        }
    }
}

/// A list with one more region holds a value when the list or the region
/// does.
pub proof fn lemma_any_holds_push(a: Seq<Region>, r: Region, v: Value)
    ensures
        any_holds(a.push(r), v) == (any_holds(a, v) || region_holds(r, v)),
{
    assert(a.push(r) =~= a + seq![r]);
    lemma_any_holds_concat(a, seq![r], v);
    if region_holds(r, v) {
        assert(seq![r][0] == r);
    }
}

/// A list with one more list of field regions holds a list of values when
/// the list or the added one does.
pub proof fn lemma_any_fields_push(a: Seq<Vec<Region>>, rs: Vec<Region>, fields: Seq<Value>)
    ensures
        any_fields_hold(a.push(rs), fields) == (any_fields_hold(a, fields) || fields_hold(rs@, fields)),
{
    assert(a.push(rs) =~= a + seq![rs]);
    lemma_any_fields_concat(a, seq![rs], fields);
    if fields_hold(rs@, fields) {
        assert(seq![rs][0] == rs);
    }
}

/// The value is a scalar from `lo` to `hi`.
pub open spec fn in_range(v: Value, lo: int, hi: int) -> bool {
    &&& v matches Value::Scalar(x)
    &&& lo <= x <= hi
}

/// Type `t` is built by constructors: it is a struct, a tuple or an enum.
pub open spec fn is_built(table: TypeTable, t: int) -> bool {
    table.knows(t) && !(table.defs@[t].kind is Scalar) && !(table.defs@[t].kind is Reference)
}

/// Parts the scalars of a region by a range: those inside it and those
/// outside.
fn split_range(table: &TypeTable, t: usize, cube: &Region, lo: i64, hi: i64) -> (r: (
    Vec<Region>,
    Vec<Region>,
))
    ensures
        forall|v: Value| #[trigger]
            has_type(*table, t as int, v) ==> {
                &&& any_holds(r.0@, v) == (region_holds(*cube, v) && in_range(v, lo as int, hi as int))
                &&& any_holds(r.1@, v) == (region_holds(*cube, v) && !in_range(v, lo as int, hi as int))
            },
{
    let mut ins: Vec<Region> = Vec::new();
    let mut outs: Vec<Region> = Vec::new();
    let scalar = t < table.defs.len() && match table.defs[t].kind {
        TypeKind::Scalar => true,
        _ => false,
    };
    if !scalar {
        let copy = cube.copy();
        outs.push(copy);
        proof {
            assert forall|v: Value| #[trigger] has_type(*table, t as int, v) implies {
                &&& any_holds(ins@, v) == (region_holds(*cube, v) && in_range(v, lo as int, hi as int))
                &&& any_holds(outs@, v) == (region_holds(*cube, v) && !in_range(
                    v,
                    lo as int,
                    hi as int,
                ))
            } by {
                lemma_any_holds_push(Seq::empty(), copy, v);
                assert(region_holds(copy, v) == region_holds(*cube, v));
            }
        }
        return (ins, outs);
    }
    let (a, b): (i64, i64) = match cube {
        Region::Any => (i64::MIN, i64::MAX),
        Region::Ints(a, b) => (*a, *b),
        Region::Data(_, _) => {
            return (ins, outs);
        },
    };
    let lo2: i64 = if a > lo {
        a
    } else {
        lo
    };
    let hi2: i64 = if b < hi {
        b
    } else {
        hi
    };
    if lo2 <= hi2 {
        ins.push(Region::Ints(lo2, hi2));
    }
    proof {
        assert forall|v: Value| #[trigger] has_type(*table, t as int, v) implies any_holds(ins@, v) == (
        region_holds(*cube, v) && in_range(v, lo as int, hi as int)) by {
            if lo2 <= hi2 {
                lemma_any_holds_push(Seq::empty(), Region::Ints(lo2, hi2), v);
            }
        }
    }
    if lo > hi {
        if a <= b {
            outs.push(Region::Ints(a, b));
        }
        proof {
            assert forall|v: Value| #[trigger] has_type(*table, t as int, v) implies any_holds(outs@, v)
                == (region_holds(*cube, v) && !in_range(v, lo as int, hi as int)) by {
                if a <= b {
                    lemma_any_holds_push(Seq::empty(), Region::Ints(a, b), v);
                }
            }
        }
        return (ins, outs);
    }
    if lo > i64::MIN {
        let left: i64 = if b < lo - 1 {
            b
        } else {
            lo - 1
        };
        if a <= left {
            outs.push(Region::Ints(a, left));
        }
    }
    let ghost below = outs@;
    proof {
        assert forall|v: Value| #[trigger] has_type(*table, t as int, v) implies any_holds(below, v) == (
        region_holds(*cube, v) && v->Scalar_0 < lo) by {
            if below.len() > 0 {
                lemma_any_holds_push(Seq::empty(), below[0], v);
                assert(below =~= Seq::<Region>::empty().push(below[0]));
            }
        }
    }
    if hi < i64::MAX {
        let right: i64 = if a > hi + 1 {
            a
        } else {
            hi + 1
        };
        if right <= b {
            outs.push(Region::Ints(right, b));
        }
    }
    proof {
        assert forall|v: Value| #[trigger] has_type(*table, t as int, v) implies any_holds(outs@, v) == (
        region_holds(*cube, v) && !in_range(v, lo as int, hi as int)) by {
            if outs@.len() > below.len() {
                lemma_any_holds_push(below, outs@.last(), v);
                assert(outs@ =~= below.push(outs@.last()));
            }
        }
    }
    (ins, outs)
}

/// Parts a region of a constructor-built type by a constructor: the field
/// regions of its values built by constructor `c`, and regions for its other
/// values.
fn expand(table: &TypeTable, t: usize, cube: &Region, c: usize) -> (r: (Vec<Vec<Region>>, Vec<Region>))
    requires
        is_built(*table, t as int),
        c < table.defs@[t as int].kind.ctor_count(),
    ensures
        forall|j: int|
            0 <= j < r.0@.len() ==> (#[trigger] r.0@[j])@.len() == table.defs@[t as int].kind.ctor_fields(
                c as int,
            ).len(),
        forall|v: Value| #[trigger]
            has_type(*table, t as int, v) ==> {
                &&& (v->ctor == c && any_fields_hold(r.0@, v->fields)) == (region_holds(*cube, v)
                    && v->ctor == c)
                &&& any_holds(r.1@, v) == (region_holds(*cube, v) && v->ctor != c)
            },
{
    let kind = &table.defs[t].kind;
    let mut inside: Vec<Vec<Region>> = Vec::new();
    let mut rest: Vec<Region> = Vec::new();
    match cube {
        Region::Any => {
            let fields = any_fields(kind.arity(c));
            inside.push(fields);
            let count = kind.variant_count();
            let mut j: usize = 0;
            while j < count
                invariant
                    j <= count,
                    count == kind.ctor_count(),
                    is_built(*table, t as int),
                    *kind == table.defs@[t as int].kind,
                    forall|v: Value| #[trigger]
                        has_type(*table, t as int, v) ==> any_holds(rest@, v) == (v->ctor != c && v->ctor
                            < j),
                decreases count - j,
            {
                if j != c {
                    let others = any_fields(kind.arity(j));
                    let ghost before = rest@;
                    let region = Region::Data(j, others);
                    rest.push(region);
                    proof {
                        assert forall|v: Value| #[trigger] has_type(*table, t as int, v) implies any_holds(
                            rest@,
                            v,
                        ) == (v->ctor != c && v->ctor < j + 1) by {
                            lemma_any_holds_push(before, region, v);
                            lemma_data_holds(j, others, v);
                        }
                    }
                }
                j += 1;
            }
            proof {
                assert forall|v: Value| #[trigger] has_type(*table, t as int, v) implies (v->ctor == c
                    && any_fields_hold(inside@, v->fields)) == (region_holds(*cube, v) && v->ctor == c) by {
                    lemma_any_fields_push(Seq::empty(), fields, v->fields);
                }
            }
        },
        Region::Ints(_, _) => {},
        Region::Data(j, rs) => {
            if *j == c {
                if rs.len() == kind.arity(c) {
                    let fields = copy_fields(rs);
                    inside.push(fields);
                    proof {
                        assert forall|v: Value| #[trigger] has_type(*table, t as int, v) implies (v->ctor
                            == c && any_fields_hold(inside@, v->fields)) == (region_holds(*cube, v)
                            && v->ctor == c) by {
                            lemma_any_fields_push(Seq::empty(), fields, v->fields);
                            lemma_alike_fields(fields@, rs@, v->fields);
                            lemma_data_holds(*j, *rs, v);
                        }
                    }
                }
            } else {
                let copy = cube.copy();
                rest.push(copy);
                proof {
                    assert forall|v: Value| #[trigger] has_type(*table, t as int, v) implies any_holds(
                        rest@,
                        v,
                    ) == (region_holds(*cube, v) && v->ctor != c) by {
                        lemma_any_holds_push(Seq::empty(), copy, v);
                        assert(region_holds(copy, v) == region_holds(*cube, v));
                    }
                }
            }
        },
    }
    (inside, rest)
}

/// Each of the values lies in the region of the same position, but for the
/// one at `f`, of which nothing is asked.
pub open spec fn fields_hold_except(rs: Seq<Region>, f: int, fields: Seq<Value>) -> bool {
    &&& fields.len() == rs.len()
    &&& forall|i: int| 0 <= i < rs.len() && i != f ==> region_holds(#[trigger] rs[i], fields[i])
}

/// Holding everywhere is holding at `f` and everywhere else.
pub proof fn lemma_fields_except(rs: Seq<Region>, f: int, fields: Seq<Value>)
    requires
        0 <= f < rs.len(),
    ensures
        fields_hold(rs, fields) == (fields_hold_except(rs, f, fields) && region_holds(rs[f], fields[f])),
{
}

/// What a list of field regions with a replaced region holds.
pub proof fn lemma_replaced_fields(rs: Seq<Region>, f: int, x: Region, out: Seq<Region>, fields: Seq<Value>)
    requires
        0 <= f < rs.len(),
        out.len() == rs.len(),
        alike(out[f], x),
        forall|i: int| 0 <= i < rs.len() && i != f ==> alike(#[trigger] out[i], rs[i]),
    ensures
        fields_hold(out, fields) == (fields_hold_except(rs, f, fields) && region_holds(x, fields[f])),
{
    if fields.len() == rs.len() {
        assert(region_holds(out[f], fields[f]) == region_holds(x, fields[f]));
        assert forall|i: int| 0 <= i < rs.len() && i != f implies region_holds(out[i], fields[i])
            == region_holds(rs[i], fields[i]) by {
            assert(alike(out[i], rs[i]));
        }
        if fields_hold(out, fields) {
            assert forall|i: int| 0 <= i < rs.len() && i != f implies region_holds(
                #[trigger] rs[i],
                fields[i],
            ) by {
                assert(region_holds(out[i], fields[i]));
            }
        }
        if fields_hold_except(rs, f, fields) && region_holds(x, fields[f]) {
            assert forall|i: int| 0 <= i < out.len() implies region_holds(#[trigger] out[i], fields[i]) by {
                if i != f {
                    assert(region_holds(rs[i], fields[i]));
                }
            }
        }
    }
}

/// For each region of `xs`, a copy of the field regions `rs` with that region
/// at `f`.
fn spread(rs: &Vec<Region>, f: usize, xs: &Vec<Region>) -> (out: Vec<Vec<Region>>)
    requires
        f < rs@.len(),
    ensures
        forall|j: int| 0 <= j < out@.len() ==> (#[trigger] out@[j])@.len() == rs@.len(),
        forall|fields: Seq<Value>| #[trigger]
            any_fields_hold(out@, fields) == (fields_hold_except(rs@, f as int, fields) && any_holds(
                xs@,
                fields[f as int],
            )),
{
    let mut out: Vec<Vec<Region>> = Vec::new();
    let mut k: usize = 0;
    while k < xs.len()
        invariant
            k <= xs@.len(),
            f < rs@.len(),
            forall|j: int| 0 <= j < out@.len() ==> (#[trigger] out@[j])@.len() == rs@.len(),
            forall|fields: Seq<Value>| #[trigger]
                any_fields_hold(out@, fields) == (fields_hold_except(rs@, f as int, fields) && any_holds(
                    xs@.take(k as int),
                    fields[f as int],
                )),
        decreases xs@.len() - k,
    {
        let made = with_field(rs, f, &xs[k]);
        let ghost before = out@;
        out.push(made);
        proof {
            assert(xs@.take(k + 1) =~= xs@.take(k as int).push(xs@[k as int]));
            assert forall|fields: Seq<Value>| #[trigger]
                any_fields_hold(out@, fields) == (fields_hold_except(rs@, f as int, fields) && any_holds(
                    xs@.take(k + 1),
                    fields[f as int],
                )) by {
                lemma_any_fields_push(before, made, fields);
                lemma_replaced_fields(rs@, f as int, xs@[k as int], made@, fields);
                lemma_any_holds_push(xs@.take(k as int), xs@[k as int], fields[f as int]);
                assert(any_fields_hold(before, fields) == (fields_hold_except(rs@, f as int, fields)
                    && any_holds(xs@.take(k as int), fields[f as int])));
            }
        }
        k += 1;
    }
    assert(xs@.take(xs@.len() as int) =~= xs@);
    out
}

/// For each region of `xs`, the region of constructor `c` whose field regions
/// are `rs` with that region at `f`.
fn spread_data(c: usize, rs: &Vec<Region>, f: usize, xs: &Vec<Region>) -> (out: Vec<Region>)
    requires
        f < rs@.len(),
    ensures
        forall|v: Value| #[trigger]
            any_holds(out@, v) == (v is Data && v->ctor == c && fields_hold_except(
                rs@,
                f as int,
                v->fields,
            ) && any_holds(xs@, v->fields[f as int])),
{
    let mut out: Vec<Region> = Vec::new();
    let mut k: usize = 0;
    while k < xs.len()
        invariant
            k <= xs@.len(),
            f < rs@.len(),
            forall|v: Value| #[trigger]
                any_holds(out@, v) == (v is Data && v->ctor == c && fields_hold_except(
                    rs@,
                    f as int,
                    v->fields,
                ) && any_holds(xs@.take(k as int), v->fields[f as int])),
        decreases xs@.len() - k,
    {
        let made = with_field(rs, f, &xs[k]);
        let ghost before = out@;
        let region = Region::Data(c, made);
        out.push(region);
        proof {
            assert(xs@.take(k + 1) =~= xs@.take(k as int).push(xs@[k as int]));
            assert forall|v: Value| #[trigger]
                any_holds(out@, v) == (v is Data && v->ctor == c && fields_hold_except(
                    rs@,
                    f as int,
                    v->fields,
                ) && any_holds(xs@.take(k + 1), v->fields[f as int])) by {
                lemma_any_holds_push(before, region, v);
                lemma_data_holds(c, made, v);
                assert(any_holds(before, v) == (v is Data && v->ctor == c && fields_hold_except(
                    rs@,
                    f as int,
                    v->fields,
                ) && any_holds(xs@.take(k as int), v->fields[f as int])));
                if v is Data {
                    lemma_replaced_fields(rs@, f as int, xs@[k as int], made@, v->fields);
                    lemma_any_holds_push(xs@.take(k as int), xs@[k as int], v->fields[f as int]);
                }
            }
        }
        k += 1;
    }
    assert(xs@.take(xs@.len() as int) =~= xs@);
    out
}

/// Turns lists of field regions into regions of constructor `c`.
fn wrap(c: usize, list: Vec<Vec<Region>>) -> (out: Vec<Region>)
    ensures
        forall|v: Value| #[trigger]
            any_holds(out@, v) == (v is Data && v->ctor == c && any_fields_hold(list@, v->fields)),
{
    let mut list = list;
    let ghost all = list@;
    let mut out: Vec<Region> = Vec::new();
    while list.len() > 0
        invariant
            forall|v: Value|
                #![trigger any_holds(out@, v)]
                (any_holds(out@, v) || (v is Data && v->ctor == c && any_fields_hold(list@, v->fields)))
                    == (v is Data && v->ctor == c && any_fields_hold(all, v->fields)),
        decreases list@.len(),
    {
        let ghost before_list = list@;
        let ghost before_out = out@;
        let rs = list.pop().unwrap();
        let region = Region::Data(c, rs);
        out.push(region);
        proof {
            assert(before_list =~= list@.push(rs));
            assert forall|v: Value|
                #![trigger any_holds(out@, v)]
                (any_holds(out@, v) || (v is Data && v->ctor == c && any_fields_hold(list@, v->fields)))
                    == (v is Data && v->ctor == c && any_fields_hold(all, v->fields)) by {
                lemma_any_holds_push(before_out, region, v);
                lemma_data_holds(c, rs, v);
                lemma_any_fields_push(list@, rs, v->fields);
                assert((any_holds(before_out, v) || (v is Data && v->ctor == c && any_fields_hold(
                    before_list,
                    v->fields,
                ))) == (v is Data && v->ctor == c && any_fields_hold(all, v->fields)));
            }
        }
    }
    proof {
        assert forall|v: Value| #[trigger]
            any_holds(out@, v) == (v is Data && v->ctor == c && any_fields_hold(all, v->fields)) by {
            assert((any_holds(out@, v) || (v is Data && v->ctor == c && any_fields_hold(list@, v->fields)))
                == (v is Data && v->ctor == c && any_fields_hold(all, v->fields)));
        }
    }
    out
}

/// One of the first `k` patterns matches value `v` of type `t`.
pub open spec fn some_matches(table: TypeTable, t: int, ps: Seq<Pattern>, k: int, v: Value) -> bool {
    exists|k2: int| 0 <= k2 < k && #[trigger] pattern_matches(table, t, ps[k2], v)
}

/// Asks pattern `q` of field `f` in every list of field regions of `inside`,
/// all for constructor `c` of type `t`. What matches is returned; what does
/// not is added to `outside`, as regions of constructor `c`.
#[verifier::loop_isolation(false)]
fn refine(
    table: &TypeTable,
    t: usize,
    c: usize,
    f: usize,
    q: &Pattern,
    inside: &Vec<Vec<Region>>,
    outside: &mut Vec<Region>,
) -> (kept: Vec<Vec<Region>>)
    requires
        is_built(*table, t as int),
        c < table.defs@[t as int].kind.ctor_count(),
        f < table.defs@[t as int].kind.ctor_fields(c as int).len(),
        forall|j: int|
            0 <= j < inside@.len() ==> (#[trigger] inside@[j])@.len() == table.defs@[t as int].kind.ctor_fields(
                c as int,
            ).len(),
    ensures
        forall|j: int|
            0 <= j < kept@.len() ==> (#[trigger] kept@[j])@.len() == table.defs@[t as int].kind.ctor_fields(
                c as int,
            ).len(),
        forall|v: Value| #[trigger]
            has_type(*table, t as int, v) ==> {
                let hit = pattern_matches(
                    *table,
                    field_type(*table, t as int, c as int, f as int),
                    *q,
                    v->fields[f as int],
                );
                let here = v->ctor == c && any_fields_hold(inside@, v->fields);
                &&& (v->ctor == c && any_fields_hold(kept@, v->fields)) == (here && hit)
                &&& any_holds(final(outside)@, v) == (any_holds(old(outside)@, v) || (here && !hit))
            },
    decreases q, 2nat,
{
    let ft = table.defs[t].kind.field_type(c, f);
    let mut kept: Vec<Vec<Region>> = Vec::new();
    let mut j: usize = 0;
    while j < inside.len()
        invariant
            j <= inside@.len(),
            ft == field_type(*table, t as int, c as int, f as int),
            forall|j2: int|
                0 <= j2 < kept@.len() ==> (#[trigger] kept@[j2])@.len()
                    == table.defs@[t as int].kind.ctor_fields(c as int).len(),
            forall|v: Value| #[trigger]
                has_type(*table, t as int, v) ==> {
                    let hit = pattern_matches(*table, ft as int, *q, v->fields[f as int]);
                    let here = v->ctor == c && any_fields_hold(inside@.take(j as int), v->fields);
                    &&& (v->ctor == c && any_fields_hold(kept@, v->fields)) == (here && hit)
                    &&& any_holds(outside@, v) == (any_holds(old(outside)@, v) || (here && !hit))
                },
        decreases inside@.len() - j,
    {
        let rs = &inside[j];
        let (ins, outs) = split(table, ft, &rs[f], q);
        let mut more = spread(rs, f, &ins);
        let mut less = spread_data(c, rs, f, &outs);
        let ghost kept_before = kept@;
        let ghost outside_before = outside@;
        let ghost more_seq = more@;
        let ghost less_seq = less@;
        kept.append(&mut more);
        outside.append(&mut less);
        proof {
            assert(inside@.take(j + 1) =~= inside@.take(j as int).push(*rs));
            assert forall|v: Value| #[trigger] has_type(*table, t as int, v) implies {
                let hit = pattern_matches(*table, ft as int, *q, v->fields[f as int]);
                let here = v->ctor == c && any_fields_hold(inside@.take(j + 1), v->fields);
                &&& (v->ctor == c && any_fields_hold(kept@, v->fields)) == (here && hit)
                &&& any_holds(outside@, v) == (any_holds(old(outside)@, v) || (here && !hit))
            } by {
                let fields = v->fields;
                lemma_any_fields_concat(kept_before, more_seq, fields);
                lemma_any_holds_concat(outside_before, less_seq, v);
                lemma_any_fields_push(inside@.take(j as int), *rs, fields);
                assert(any_fields_hold(more_seq, fields) == (fields_hold_except(rs@, f as int, fields)
                    && any_holds(ins@, fields[f as int])));
                assert(any_holds(less_seq, v) == (v is Data && v->ctor == c && fields_hold_except(
                    rs@,
                    f as int,
                    v->fields,
                ) && any_holds(outs@, v->fields[f as int])));
                lemma_fields_except(rs@, f as int, fields);
                if v->ctor == c {
                    assert(has_type(*table, ft as int, fields[f as int]));
                }
            }
        }
        j += 1;
    }
    assert(inside@.take(inside@.len() as int) =~= inside@);
    kept
}

/// Parts a region by a pattern for structured values.
#[verifier::loop_isolation(false)]
fn split_data(table: &TypeTable, t: usize, cube: &Region, p: &Pattern) -> (r: (Vec<Region>, Vec<Region>))
    requires
        is_data_pattern(*p),
    ensures
        split_ok(*table, t as int, *cube, *p, r.0@, r.1@),
    decreases p, 0nat,
{
    if !pattern_fits(table, t, p) {
        let copy = cube.copy();
        let mut outs: Vec<Region> = Vec::new();
        outs.push(copy);
        proof {
            assert forall|v: Value| #[trigger] has_type(*table, t as int, v) implies {
                &&& any_holds(Seq::<Region>::empty(), v) == (region_holds(*cube, v) && pattern_matches(
                    *table,
                    t as int,
                    *p,
                    v,
                ))
                &&& any_holds(outs@, v) == (region_holds(*cube, v) && !pattern_matches(
                    *table,
                    t as int,
                    *p,
                    v,
                ))
            } by {
                lemma_data_pattern(*table, t as int, *p, v);
                lemma_any_holds_push(Seq::empty(), copy, v);
                assert(region_holds(copy, v) == region_holds(*cube, v));
            }
        }
        return (Vec::new(), outs);
    }
    let c: usize = match p {
        Pattern::EnumVariant(variant, _) => *variant,
        _ => 0,
    };
    let count: usize = match p {
        Pattern::Tuple(ps) => ps.len(),
        Pattern::StructFields(fps) => fps.len(),
        Pattern::EnumVariant(_, ps) => ps.len(),
        _ => 0,
    };
    let (mut inside, mut outside) = expand(table, t, cube, c);
    let mut k: usize = 0;
    while k < count
        invariant
            k <= count,
            count == constraint_count(*p),
            c == target(*p),
            fits(*table, t as int, *p),
            forall|j: int|
                0 <= j < inside@.len() ==> (#[trigger] inside@[j])@.len()
                    == table.defs@[t as int].kind.ctor_fields(c as int).len(),
            forall|v: Value| #[trigger]
                has_type(*table, t as int, v) ==> {
                    let ok = constraints_ok(*table, t as int, *p, k as int, v);
                    &&& (v->ctor == c && any_fields_hold(inside@, v->fields)) == (region_holds(*cube, v)
                        && ok)
                    &&& any_holds(outside@, v) == (region_holds(*cube, v) && !ok)
                },
        decreases count - k,
    {
        let ghost inside_before = inside@;
        let ghost outside_before = outside@;
        let kept = match p {
            Pattern::Tuple(ps) => refine(table, t, c, k, &ps[k], &inside, &mut outside),
            Pattern::StructFields(fps) => refine(
                table,
                t,
                c,
                fps[k].field,
                &fps[k].pattern,
                &inside,
                &mut outside,
            ),
            Pattern::EnumVariant(_, ps) => refine(table, t, c, k, &ps[k], &inside, &mut outside),
            _ => Vec::new(),
        };
        inside = kept;
        proof {
            assert forall|v: Value| #[trigger] has_type(*table, t as int, v) implies {
                let ok = constraints_ok(*table, t as int, *p, k + 1, v);
                &&& (v->ctor == c && any_fields_hold(inside@, v->fields)) == (region_holds(*cube, v) && ok)
                &&& any_holds(outside@, v) == (region_holds(*cube, v) && !ok)
            } by {
                let before = constraints_ok(*table, t as int, *p, k as int, v);
                let now = constraint_ok(*table, t as int, *p, k as int, v);
                assert(constraints_ok(*table, t as int, *p, k + 1, v) == (before && now)) by {
                    if before && now {
                        assert forall|k2: int| 0 <= k2 < k + 1 implies #[trigger] constraint_ok(
                            *table,
                            t as int,
                            *p,
                            k2,
                            v,
                        ) by {}
                    }
                    if constraints_ok(*table, t as int, *p, k + 1, v) {
                        assert(constraint_ok(*table, t as int, *p, k as int, v));
                    }
                }
                assert((v->ctor == c && any_fields_hold(inside_before, v->fields)) == (region_holds(
                    *cube,
                    v,
                ) && before));
                assert(any_holds(outside_before, v) == (region_holds(*cube, v) && !before));
            }
        }
        k += 1;
    }
    let ins = wrap(c, inside);
    proof {
        assert forall|v: Value| #[trigger] has_type(*table, t as int, v) implies {
            &&& any_holds(ins@, v) == (region_holds(*cube, v) && pattern_matches(*table, t as int, *p, v))
            &&& any_holds(outside@, v) == (region_holds(*cube, v) && !pattern_matches(
                *table,
                t as int,
                *p,
                v,
            ))
        } by {
            lemma_data_pattern(*table, t as int, *p, v);
        }
    }
    (ins, outside)
}

/// Parts a region of type `t` by a pattern: the regions of the values that
/// the pattern matches, and the regions of those that it does not.
#[verifier::loop_isolation(false)]
pub fn split(table: &TypeTable, t: usize, cube: &Region, p: &Pattern) -> (r: (Vec<Region>, Vec<Region>))
    ensures
        split_ok(*table, t as int, *cube, *p, r.0@, r.1@),
    decreases p, 1nat,
{
    match p {
        Pattern::Wildcard | Pattern::Binding(_) => {
            let copy = cube.copy();
            let mut ins: Vec<Region> = Vec::new();
            ins.push(copy);
            proof {
                assert forall|v: Value| #[trigger] has_type(*table, t as int, v) implies {
                    &&& any_holds(ins@, v) == (region_holds(*cube, v) && pattern_matches(
                        *table,
                        t as int,
                        *p,
                        v,
                    ))
                    &&& any_holds(Seq::<Region>::empty(), v) == (region_holds(*cube, v)
                        && !pattern_matches(*table, t as int, *p, v))
                } by {
                    lemma_any_holds_push(Seq::empty(), copy, v);
                    assert(region_holds(copy, v) == region_holds(*cube, v));
                }
            }
            (ins, Vec::new())
        },
        Pattern::Literal(c) => split_range(table, t, cube, *c, *c),
        Pattern::Range(lo, hi) => split_range(table, t, cube, *lo, *hi),
        Pattern::Or(ps) => {
            let copy = cube.copy();
            let mut ins: Vec<Region> = Vec::new();
            let mut outs: Vec<Region> = Vec::new();
            outs.push(copy);
            proof {
                assert forall|v: Value| #[trigger] has_type(*table, t as int, v) implies any_holds(outs@, v)
                    == region_holds(*cube, v) by {
                    lemma_any_holds_push(Seq::empty(), copy, v);
                    assert(region_holds(copy, v) == region_holds(*cube, v));
                }
            }
            let mut k: usize = 0;
            while k < ps.len()
                invariant
                    k <= ps@.len(),
                    forall|v: Value| #[trigger]
                        has_type(*table, t as int, v) ==> {
                            let some = some_matches(*table, t as int, ps@, k as int, v);
                            &&& any_holds(ins@, v) == (region_holds(*cube, v) && some)
                            &&& any_holds(outs@, v) == (region_holds(*cube, v) && !some)
                        },
                decreases ps@.len() - k,
            {
                let ghost ins_start = ins@;
                let ghost outs_start = outs@;
                let mut next: Vec<Region> = Vec::new();
                let mut j: usize = 0;
                while j < outs.len()
                    invariant
                        j <= outs@.len(),
                        outs@ == outs_start,
                        k < ps@.len(),
                        forall|v: Value| #[trigger]
                            has_type(*table, t as int, v) ==> {
                                let hit = pattern_matches(*table, t as int, ps@[k as int], v);
                                let here = any_holds(outs_start.take(j as int), v);
                                &&& any_holds(ins@, v) == (any_holds(ins_start, v) || (here && hit))
                                &&& any_holds(next@, v) == (here && !hit)
                            },
                    decreases outs@.len() - j,
                {
                    let (mut more, mut less) = split(table, t, &outs[j], &ps[k]);
                    let ghost ins_before = ins@;
                    let ghost next_before = next@;
                    let ghost more_seq = more@;
                    let ghost less_seq = less@;
                    ins.append(&mut more);
                    next.append(&mut less);
                    proof {
                        assert(outs_start.take(j + 1) =~= outs_start.take(j as int).push(outs_start[j as int]));
                        assert forall|v: Value| #[trigger] has_type(*table, t as int, v) implies {
                            let hit = pattern_matches(*table, t as int, ps@[k as int], v);
                            let here = any_holds(outs_start.take(j + 1), v);
                            &&& any_holds(ins@, v) == (any_holds(ins_start, v) || (here && hit))
                            &&& any_holds(next@, v) == (here && !hit)
                        } by {
                            lemma_any_holds_concat(ins_before, more_seq, v);
                            lemma_any_holds_concat(next_before, less_seq, v);
                            lemma_any_holds_push(outs_start.take(j as int), outs_start[j as int], v);
                        }
                    }
                    j += 1;
                }
                outs = next;
                proof {
                    assert(outs_start.take(outs_start.len() as int) =~= outs_start);
                    assert forall|v: Value| #[trigger] has_type(*table, t as int, v) implies {
                        let some = some_matches(*table, t as int, ps@, k + 1, v);
                        &&& any_holds(ins@, v) == (region_holds(*cube, v) && some)
                        &&& any_holds(outs@, v) == (region_holds(*cube, v) && !some)
                    } by {
                        let before = some_matches(*table, t as int, ps@, k as int, v);
                        let hit = pattern_matches(*table, t as int, ps@[k as int], v);
                        assert(some_matches(*table, t as int, ps@, k + 1, v) == (before || hit)) by {
                            if before {
                                let k2 = choose|k2: int|
                                    0 <= k2 < k && #[trigger] pattern_matches(*table, t as int, ps@[k2], v);
                                assert(0 <= k2 < k + 1);
                            }
                        }
                        assert(any_holds(ins_start, v) == (region_holds(*cube, v) && before));
                        assert(any_holds(outs_start, v) == (region_holds(*cube, v) && !before));
                    }
                }
                k += 1;
            }
            proof {
                assert forall|v: Value| #[trigger] has_type(*table, t as int, v) implies some_matches(
                    *table,
                    t as int,
                    ps@,
                    ps@.len() as int,
                    v,
                ) == pattern_matches(*table, t as int, *p, v) by {
                    if some_matches(*table, t as int, ps@, ps@.len() as int, v) {
                        let k2 = choose|k2: int|
                            0 <= k2 < ps@.len() && #[trigger] pattern_matches(*table, t as int, ps@[k2], v);
                        assert(0 <= k2 < ps@.len() && pattern_matches(*table, t as int, ps@[k2], v));
                    }
                    if pattern_matches(*table, t as int, *p, v) {
                        let k2 = choose|k2: int|
                            0 <= k2 < ps@.len() && pattern_matches(*table, t as int, ps@[k2], v);
                        assert(0 <= k2 < ps@.len() && pattern_matches(*table, t as int, ps@[k2], v));
                    }
                }
            }
            (ins, outs)
        },
        _ => split_data(table, t, cube, p),
    }
}

} // verus!
