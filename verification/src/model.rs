//! The program model: types, scopes, bindings, patterns and statements.
//!
//! Everything here is plain data that an external front end fills in. The
//! other modules only read it.

use vstd::prelude::*;

verus! {

/// A named field of a struct type.
pub struct Field {
    pub name: String,
    /// Index of the field's type in the type table.
    pub ty: usize,
}

/// A variant of an enum type with its ordered payload.
pub struct Variant {
    pub name: String,
    /// Indices of the payload types in the type table.
    pub payload: Vec<usize>,
}

/// The structural shape of a type.
pub enum TypeKind {
    Scalar,
    Struct { fields: Vec<Field> },
    Enum { variants: Vec<Variant> },
    Reference { mutable: bool, target: usize },
    Tuple { elements: Vec<usize> },
}

/// One entry of the type table.
pub struct TypeDef {
    pub name: String,
    pub kind: TypeKind,
}

/// All types of a program. A type is identified by its index.
pub struct TypeTable {
    pub defs: Vec<TypeDef>,
}

impl TypeKind {
    /// How many constructors build a value of this shape: one for a struct or
    /// a tuple, one per variant for an enum, none for a scalar or a reference.
    pub open spec fn ctor_count(self) -> nat {
        match self {
            TypeKind::Scalar => 0,
            TypeKind::Struct { .. } => 1,
            TypeKind::Enum { variants } => variants@.len(),
            TypeKind::Reference { .. } => 0,
            TypeKind::Tuple { .. } => 1,
        }
    }

    /// The field types of constructor `c`, in order.
    pub open spec fn ctor_fields(self, c: int) -> Seq<usize> {
        match self {
            TypeKind::Struct { fields } => Seq::new(fields@.len(), |i: int| fields@[i].ty),
            TypeKind::Enum { variants } => variants@[c].payload@,
            TypeKind::Tuple { elements } => elements@,
            _ => Seq::empty(),
        }
    }

    /// Number of constructors of this shape.
    pub fn variant_count(&self) -> (n: usize)
        ensures
            n == self.ctor_count(),
    {
        match self {
            TypeKind::Scalar => 0,
            TypeKind::Struct { .. } => 1,
            TypeKind::Enum { variants } => variants.len(),
            TypeKind::Reference { .. } => 0,
            TypeKind::Tuple { .. } => 1,
        }
    }

    /// Number of fields of constructor `c`.
    pub fn arity(&self, c: usize) -> (n: usize)
        requires
            c < self.ctor_count(),
        ensures
            n == self.ctor_fields(c as int).len(),
    {
        match self {
            TypeKind::Struct { fields } => fields.len(),
            TypeKind::Enum { variants } => variants[c].payload.len(),
            TypeKind::Tuple { elements } => elements.len(),
            _ => 0,
        }
    }

    /// Type of field `i` of constructor `c`.
    pub fn field_type(&self, c: usize, i: usize) -> (t: usize)
        requires
            c < self.ctor_count(),
            i < self.ctor_fields(c as int).len(),
        ensures
            t == self.ctor_fields(c as int)[i as int],
    {
        match self {
            TypeKind::Struct { fields } => fields[i].ty,
            TypeKind::Enum { variants } => variants[c].payload[i],
            TypeKind::Tuple { elements } => elements[i],
            _ => 0,
        }
    }
}

impl TypeTable {
    /// Whether `t` names a type of this table.
    pub open spec fn knows(self, t: int) -> bool {
        0 <= t < self.defs@.len()
    }

    /// Every type index written inside definition `t` names a type of the
    /// table.
    pub open spec fn def_resolved(self, t: int) -> bool {
        let kind = self.defs@[t].kind;
        &&& (kind matches TypeKind::Reference { target, .. } ==> self.knows(target as int))
        &&& forall|c: int, i: int|
            0 <= c < kind.ctor_count() && 0 <= i < kind.ctor_fields(c).len() ==> self.knows(
                #[trigger] kind.ctor_fields(c)[i] as int,
            )
    }

    /// Every type index written anywhere in the table names a type of the
    /// table.
    pub open spec fn resolved(self) -> bool {
        forall|t: int| self.knows(t) ==> #[trigger] self.def_resolved(t)
    }

    fn check_def(&self, t: usize) -> (ok: bool)
        requires
            self.knows(t as int),
        ensures
            ok == self.def_resolved(t as int),
    {
        let n = self.defs.len();
        let kind = &self.defs[t].kind;
        match kind {
            TypeKind::Reference { target, .. } => { return *target < n; },
            _ => {},
        }
        let count = kind.variant_count();
        let mut c: usize = 0;
        while c < count
            invariant
                c <= count,
                count == kind.ctor_count(),
                n == self.defs@.len(),
                self.knows(t as int),
                *kind == self.defs@[t as int].kind,
                !(kind is Reference),
                forall|c2: int, i2: int|
                    0 <= c2 < c && 0 <= i2 < kind.ctor_fields(c2).len() ==> self.knows(
                        #[trigger] kind.ctor_fields(c2)[i2] as int,
                    ),
            decreases count - c,
        {
            let m = kind.arity(c);
            let mut i: usize = 0;
            while i < m
                invariant
                    i <= m,
                    c < count,
                    count == kind.ctor_count(),
                    m == kind.ctor_fields(c as int).len(),
                    n == self.defs@.len(),
                    self.knows(t as int),
                    *kind == self.defs@[t as int].kind,
                    forall|c2: int, i2: int|
                        0 <= c2 < c && 0 <= i2 < kind.ctor_fields(c2).len() ==> self.knows(
                            #[trigger] kind.ctor_fields(c2)[i2] as int,
                        ),
                    forall|i2: int|
                        0 <= i2 < i ==> self.knows(#[trigger] kind.ctor_fields(c as int)[i2] as int),
                decreases m - i,
            {
                if kind.field_type(c, i) >= n {
                    assert(!self.knows(kind.ctor_fields(c as int)[i as int] as int));
                    return false;
                }
                i += 1;
            }
            c += 1;
        }
        true
    }

    /// Decides whether the table is resolved.
    pub fn is_resolved(&self) -> (ok: bool)
        ensures
            ok == self.resolved(),
    {
        let n = self.defs.len();
        let mut t: usize = 0;
        while t < n
            invariant
                t <= n,
                n == self.defs@.len(),
                forall|t2: int| 0 <= t2 < t ==> #[trigger] self.def_resolved(t2),
            decreases n - t,
        {
            if !self.check_def(t) {
                return false;
            }
            t += 1;
        }
        true
    }
}

/// A pattern for one field of a struct, addressed by the field's position.
pub struct FieldPattern {
    pub field: usize,
    pub pattern: Pattern,
}

/// A pattern: a test on the shape of a value.
pub enum Pattern {
    /// Matches every value.
    Wildcard,
    /// Matches every value and gives it a name.
    Binding(String),
    /// Matches one scalar.
    Literal(i64),
    /// Matches the scalars from the first bound to the second, both included.
    Range(i64, i64),
    /// Matches a tuple or struct whose fields, in order, match the patterns.
    Tuple(Vec<Pattern>),
    /// Matches a tuple or struct whose named fields match their patterns.
    StructFields(Vec<FieldPattern>),
    /// Matches the variant with this index whose payload, in order, matches
    /// the patterns.
    EnumVariant(usize, Vec<Pattern>),
    /// Matches what any of the patterns matches.
    Or(Vec<Pattern>),
}

/// One arm of a match.
pub struct Arm {
    pub pattern: Pattern,
    /// The arm has a guard, so it may decline a value that its pattern
    /// matches.
    pub guarded: bool,
}

/// A name for a value, as a declaration introduces it. A binding is
/// identified by its position among the declarations of its function, the
/// parameters first.
pub struct Binding {
    pub name: String,
    /// Index of the declared type in the type table.
    pub ty: usize,
    pub mutable: bool,
}

/// An expression: something that produces a value or a reference.
pub enum Expr {
    /// A value written out in the program.
    Literal,
    /// A constructor applied to the values of bindings, each taken by value.
    Construct { args: Vec<usize> },
    /// The value of a binding: moved out of it or copied, as its type says.
    Use { binding: usize },
    /// A reference to a binding, shared or mutable.
    Borrow { binding: usize, mutable: bool },
}

/// What a statement does.
#[allow(inconsistent_fields)]
pub enum StatementKind {
    /// Introduces a binding, with or without a first value.
    Declare { binding: Binding, init: Option<Expr> },
    /// Stores a value in a binding.
    Assign { binding: usize, value: Expr },
    /// Calls a function with the given arguments.
    Call { callee: usize, args: Vec<Expr> },
    /// Matches the value of a binding against the arms. What the arms do
    /// stands in scopes of kind [`ScopeKind::Branch`] that follow.
    Match { scrutinee: usize, arms: Vec<Arm> },
    /// Ends the scope of the statement.
    ScopeEnd,
}

/// A statement and the scope that it stands in.
///
/// A scope is entered by the first statement of it or of a scope inside it,
/// and left by its `ScopeEnd`. It is entered once.
pub struct Statement {
    pub scope: usize,
    pub kind: StatementKind,
}

/// A function: its parameters, its scopes, and its statements in the order
/// in which they are written, each scope's statements and inner scopes in
/// their place. The position of a statement is its program point. The
/// parameters belong to the root scope, which is open from the start.
pub struct Function {
    pub name: String,
    pub params: Vec<Binding>,
    pub scopes: ScopeTree,
    pub body: Vec<Statement>,
}

/// A program: the types and the functions.
pub struct Program {
    pub types: TypeTable,
    pub functions: Vec<Function>,
}

/// The identity of the place where a value resides. It says where the value
/// came from; nothing else is known of it.
#[derive(Clone, Copy, PartialEq, Eq, Debug, Structural)]
pub enum Location {
    /// The value passed in as the parameter with this index.
    Argument(usize),
    /// What the reference passed in as the parameter with this index points
    /// to.
    Referent(usize),
    /// The value created by the statement at this program point.
    Created(usize),
}

/// What a scope is the body of.
#[derive(Clone, Copy, PartialEq, Eq, Debug, Structural)]
pub enum ScopeKind {
    /// A block that runs once.
    Block,
    /// The body of a loop: it may run again after it has run.
    Loop,
    /// One of several alternatives of which exactly one runs, such as the
    /// branches of a conditional or the arms of a match. The alternatives of
    /// one choice are children of the same scope and follow one another
    /// without a statement of their parent in between; a choice that may
    /// run none of its branches has an empty alternative for that.
    Branch,
}

/// A lexical region. Scopes nest: each scope but the root lies inside its
/// parent.
#[derive(Clone, Copy, PartialEq, Eq, Debug, Structural)]
pub struct Scope {
    pub parent: Option<usize>,
    pub kind: ScopeKind,
}

/// The scopes of one function. A scope is identified by its index.
pub struct ScopeTree {
    pub scopes: Vec<Scope>,
}

impl ScopeTree {
    /// Whether `s` names a scope of this tree.
    pub open spec fn knows(self, s: int) -> bool {
        0 <= s < self.scopes@.len()
    }

    /// Scope 0 is the only root, and every other scope comes after its parent.
    pub open spec fn well_formed(self) -> bool {
        &&& self.scopes@.len() > 0
        &&& forall|s: int|
            self.knows(s) ==> match (#[trigger] self.scopes@[s]).parent {
                None => s == 0,
                Some(p) => p < s,
            }
    }

    /// `outer` is `inner` or one of its ancestors.
    pub open spec fn encloses(self, outer: int, inner: int) -> bool
        decreases inner,
    {
        if !self.knows(inner) {
            false
        } else if outer == inner {
            true
        } else {
            match self.scopes@[inner].parent {
                Some(p) => p < inner && self.encloses(outer, p as int),
                None => false,
            }
        }
    }

    /// `outer` is a proper ancestor of `inner`.
    pub open spec fn strictly_encloses(self, outer: int, inner: int) -> bool {
        outer != inner && self.encloses(outer, inner)
    }

    /// Decides whether the tree is well formed.
    pub fn is_well_formed(&self) -> (ok: bool)
        ensures
            ok == self.well_formed(),
    {
        let n = self.scopes.len();
        if n == 0 {
            return false;
        }
        let mut s: usize = 0;
        while s < n
            invariant
                s <= n,
                n == self.scopes@.len(),
                forall|s2: int|
                    0 <= s2 < s ==> match (#[trigger] self.scopes@[s2]).parent {
                        None => s2 == 0,
                        Some(p) => p < s2,
                    },
            decreases n - s,
        {
            let ok = match self.scopes[s].parent {
                None => s == 0,
                Some(p) => p < s,
            };
            if !ok {
                return false;
            }
            s += 1;
        }
        true
    }

    /// Decides whether `outer` is `inner` or one of its ancestors.
    pub fn is_enclosing(&self, outer: usize, inner: usize) -> (yes: bool)
        ensures
            yes == self.encloses(outer as int, inner as int),
    {
        let mut cur = inner;
        loop
            invariant
                self.encloses(outer as int, inner as int) == self.encloses(outer as int, cur as int),
            decreases cur,
        {
            if cur >= self.scopes.len() {
                return false;
            }
            if cur == outer {
                return true;
            }
            match self.scopes[cur].parent {
                Some(p) => {
                    if p < cur {
                        cur = p;
                    } else {
                        return false;
                    }
                },
                None => {
                    return false;
                },
            }
        }
    }
}

/// An ancestor has an index no larger than its descendant's.
pub proof fn lemma_encloses_order(tree: ScopeTree, outer: int, inner: int)
    requires
        tree.encloses(outer, inner),
    ensures
        0 <= outer <= inner,
        tree.knows(outer),
    decreases inner,
{
    if outer != inner {
        lemma_encloses_order(tree, outer, tree.scopes@[inner].parent->0 as int);
    }
}

/// Of two different scopes at most one encloses the other.
pub proof fn lemma_encloses_antisymmetric(tree: ScopeTree, a: int, b: int)
    requires
        tree.encloses(a, b),
        tree.encloses(b, a),
    ensures
        a == b,
{
    lemma_encloses_order(tree, a, b);
    lemma_encloses_order(tree, b, a);
}

} // verus!
