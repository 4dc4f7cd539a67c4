//! Values, as far as patterns can tell them apart, and which values a pattern
//! matches.

use vstd::prelude::*;
use crate::model::{Pattern, TypeKind, TypeTable};

verus! {

/// A value of the analysed language, seen as a finite tree.
pub enum Value {
    /// A scalar.
    Scalar(int),
    /// A reference. Patterns do not look through it.
    Opaque,
    /// A struct, tuple or enum value: the constructor that built it (0 for a
    /// struct or tuple, the variant's index for an enum) and its fields.
    Data { ctor: int, fields: Seq<Value> },
}

/// `v` is a value of type `t`.
pub open spec fn has_type(table: TypeTable, t: int, v: Value) -> bool
    decreases v,
{
    &&& table.knows(t)
    &&& match table.defs@[t].kind {
        TypeKind::Scalar => {
            &&& v matches Value::Scalar(x)
            &&& i64::MIN <= x <= i64::MAX
        },
        TypeKind::Reference { .. } => v is Opaque,
        kind => {
            &&& v matches Value::Data { ctor, fields }
            &&& 0 <= ctor < kind.ctor_count()
            &&& fields.len() == kind.ctor_fields(ctor).len()
            &&& forall|i: int|
                0 <= i < fields.len() ==> has_type(table, kind.ctor_fields(ctor)[i] as int, fields[i])
        },
    }
}

/// Type `t` has a value.
pub open spec fn inhabited(table: TypeTable, t: int) -> bool {
    exists|v: Value| has_type(table, t, v)
}

/// Values of type `t` have a single constructor with positional fields.
pub open spec fn is_product(table: TypeTable, t: int) -> bool {
    table.knows(t) && (table.defs@[t].kind is Struct || table.defs@[t].kind is Tuple)
}

/// The type of field `i` of constructor `c` of type `t`.
pub open spec fn field_type(table: TypeTable, t: int, c: int, i: int) -> int {
    table.defs@[t].kind.ctor_fields(c)[i] as int
}

/// Pattern `p` matches value `v` of type `t`. A pattern that does not fit the
/// type matches nothing.
pub open spec fn pattern_matches(table: TypeTable, t: int, p: Pattern, v: Value) -> bool
    decreases p,
{
    match p {
        Pattern::Wildcard => true,
        Pattern::Binding(_) => true,
        Pattern::Literal(c) => v == Value::Scalar(c as int),
        Pattern::Range(lo, hi) => {
            &&& v matches Value::Scalar(x)
            &&& lo <= x <= hi
        },
        Pattern::Tuple(ps) => {
            &&& is_product(table, t)
            &&& v matches Value::Data { ctor, fields }
            &&& ctor == 0
            &&& ps@.len() == fields.len()
            &&& ps@.len() == table.defs@[t].kind.ctor_fields(0).len()
            &&& forall|i: int|
                0 <= i < ps@.len() ==> pattern_matches(table, field_type(table, t, 0, i), ps@[i], fields[i])
        },
        Pattern::StructFields(fps) => {
            &&& is_product(table, t)
            &&& v matches Value::Data { ctor, fields }
            &&& ctor == 0
            &&& fields.len() == table.defs@[t].kind.ctor_fields(0).len()
            &&& forall|k: int|
                0 <= k < fps@.len() ==> fps@[k].field < fields.len() && pattern_matches(
                    table,
                    field_type(table, t, 0, fps@[k].field as int),
                    fps@[k].pattern,
                    fields[fps@[k].field as int],
                )
        },
        Pattern::EnumVariant(variant, ps) => {
            &&& table.knows(t)
            &&& table.defs@[t].kind is Enum
            &&& v matches Value::Data { ctor, fields }
            &&& ctor == variant
            &&& variant < table.defs@[t].kind.ctor_count()
            &&& ps@.len() == fields.len()
            &&& ps@.len() == table.defs@[t].kind.ctor_fields(variant as int).len()
            &&& forall|i: int|
                0 <= i < ps@.len() ==> pattern_matches(
                    table,
                    field_type(table, t, variant as int, i),
                    ps@[i],
                    fields[i],
                )
        },
        Pattern::Or(ps) => exists|k: int| 0 <= k < ps@.len() && pattern_matches(table, t, ps@[k], v),
    }
}

/// A value that can be handed out: the executable form of [`Value`].
#[derive(Debug, PartialEq, Eq)]
pub enum Witness {
    Scalar(i64),
    Opaque,
    Data(usize, Vec<Witness>),
}

impl Witness {
    /// The value that the witness stands for.
    pub open spec fn view(self) -> Value
        decreases self,
    {
        match self {
            Witness::Scalar(x) => Value::Scalar(x as int),
            Witness::Opaque => Value::Opaque,
            Witness::Data(c, ws) => Value::Data {
                ctor: c as int,
                fields: Seq::new(
                    ws@.len(),
                    |i: int|
                        if 0 <= i < ws@.len() {
                            ws@[i].view()
                        } else {
                            Value::Opaque
                        },
                ),
            },
        }
    }

    /// A copy of the witness.
    #[verifier::loop_isolation(false)]
    pub fn copy(&self) -> (w: Witness)
        ensures
            w@ == self@,
        decreases self,
    {
        match self {
            Witness::Scalar(x) => Witness::Scalar(*x),
            Witness::Opaque => Witness::Opaque,
            Witness::Data(c, ws) => {
                let mut out: Vec<Witness> = Vec::new();
                let mut i: usize = 0;
                while i < ws.len()
                    invariant
                        i <= ws.len(),
                        out@.len() == i,
                        forall|k: int| 0 <= k < i ==> out@[k]@ == ws@[k]@,
                    decreases ws.len() - i,
                {
                    out.push(ws[i].copy());
                    i += 1;
                }
                let w = Witness::Data(*c, out);
                assert(w@->fields =~= self@->fields);
                w
            },
        }
    }
}

} // verus!
