use ownership_verifier::diagnostics::{decide, Diagnostic, DiagnosticKind, DropEvent, Verdict};
use ownership_verifier::drops::DropAction;
use ownership_verifier::model::{
    Arm, Binding, Expr, Field, Function, Location, Pattern, Program, Scope, ScopeTree, Statement,
    StatementKind, TypeDef, TypeKind, TypeTable, ScopeKind};
use ownership_verifier::orchestrator::{verify_function, verify_program, Context, Session};
use ownership_verifier::tracker::Lifecycle;
use ownership_verifier::values::Witness;

const INT: usize = 0;
const SHARED: usize = 1;
const UNIQUE: usize = 2;
const TEXT: usize = 3;

fn def(name: &str, kind: TypeKind) -> TypeDef {
    TypeDef { name: String::from(name), kind }
}

/// 0 a scalar, 1 a shared and 2 a mutable reference to it, 3 a string that
/// owns its buffer through a reference.
fn types() -> TypeTable {
    TypeTable {
        defs: vec![
            def("i32", TypeKind::Scalar),
            def("&i32", TypeKind::Reference { mutable: false, target: INT }),
            def("&mut i32", TypeKind::Reference { mutable: true, target: INT }),
            def("String", TypeKind::Struct { fields: vec![Field { name: String::from("buffer"), ty: UNIQUE }] }),
        ],
    }
}

fn binding(name: &str, ty: usize) -> Binding {
    Binding { name: String::from(name), ty, mutable: true }
}

fn declare(scope: usize, name: &str, ty: usize, init: Option<Expr>) -> Statement {
    Statement { scope, kind: StatementKind::Declare { binding: binding(name, ty), init } }
}

fn assign(scope: usize, b: usize, value: Expr) -> Statement {
    Statement { scope, kind: StatementKind::Assign { binding: b, value } }
}

fn call(scope: usize, args: Vec<Expr>) -> Statement {
    Statement { scope, kind: StatementKind::Call { callee: 0, args } }
}

fn end(scope: usize) -> Statement {
    Statement { scope, kind: StatementKind::ScopeEnd }
}

fn take(b: usize) -> Expr {
    Expr::Use { binding: b }
}

fn shared(b: usize) -> Expr {
    Expr::Borrow { binding: b, mutable: false }
}

fn unique(b: usize) -> Expr {
    Expr::Borrow { binding: b, mutable: true }
}

fn scopes(parents: &[Option<usize>]) -> ScopeTree {
    ScopeTree { scopes: parents.iter().map(|p| Scope { parent: *p, kind: ScopeKind::Block }).collect() }
}

fn function(scopes: ScopeTree, body: Vec<Statement>) -> Function {
    Function { name: String::from("f"), params: Vec::new(), scopes, body }
}

fn note(point: usize, b: usize, kind: DiagnosticKind) -> Diagnostic {
    Diagnostic { point, binding: Some(b), kind }
}

fn internal(point: usize) -> Diagnostic {
    Diagnostic { point, binding: None, kind: DiagnosticKind::InternalConsistency }
}

#[test]
fn a_clean_function_is_accepted() {
    let f = function(
        scopes(&[None]),
        vec![
            declare(0, "s", TEXT, Some(Expr::Literal)),
            declare(0, "r", SHARED, None),
            declare(0, "t", TEXT, Some(take(0))),
            call(0, vec![take(2)]),
            end(0),
        ],
    );
    let report = verify_function(&types(), &f);
    assert_eq!(report.verdict, Verdict::Accept);
    assert!(report.diagnostics.is_empty());
    // `s` and `t` were moved away; `r` is a reference.
    assert!(report.drops.is_empty());
    assert_eq!(report.final_states, vec![Lifecycle::MovedFrom, Lifecycle::Uninitialized, Lifecycle::MovedFrom]);
}

#[test]
fn a_moved_value_keeps_its_location() {
    let f = function(
        scopes(&[None]),
        vec![declare(0, "s", TEXT, Some(Expr::Literal)), declare(0, "t", TEXT, Some(take(0))), end(0)],
    );
    let report = verify_function(&types(), &f);
    assert_eq!(
        report.drops,
        vec![DropEvent { point: 2, action: DropAction { binding: 1, location: Location::Created(0) } }]
    );
    assert_eq!(report.final_states, vec![Lifecycle::MovedFrom, Lifecycle::Dropped]);
}

#[test]
fn a_copy_gets_a_place_of_its_own() {
    let f = function(
        scopes(&[None]),
        vec![declare(0, "x", INT, Some(Expr::Literal)), declare(0, "y", INT, Some(take(0))), end(0)],
    );
    let report = verify_function(&types(), &f);
    assert_eq!(
        report.drops,
        vec![
            DropEvent { point: 2, action: DropAction { binding: 1, location: Location::Created(1) } },
            DropEvent { point: 2, action: DropAction { binding: 0, location: Location::Created(0) } },
        ]
    );
}

#[test]
fn use_before_init_is_reported() {
    let f = function(scopes(&[None]), vec![declare(0, "x", INT, None), call(0, vec![take(0)]), end(0)]);
    let report = verify_function(&types(), &f);
    assert_eq!(report.verdict, Verdict::Reject);
    assert_eq!(report.diagnostics, vec![note(1, 0, DiagnosticKind::UseBeforeInit)]);
    assert_eq!(report.final_states, vec![Lifecycle::Dropped]);
    assert!(report.drops.is_empty());
}

#[test]
fn every_read_of_a_moved_binding_is_reported() {
    let f = function(
        scopes(&[None]),
        vec![
            declare(0, "s", TEXT, Some(Expr::Literal)),
            call(0, vec![take(0)]),
            call(0, vec![take(0)]),
            declare(0, "r", SHARED, Some(shared(0))),
            call(0, vec![take(0)]),
            end(0),
        ],
    );
    let report = verify_function(&types(), &f);
    assert_eq!(
        report.diagnostics,
        vec![
            note(2, 0, DiagnosticKind::UseAfterMove),
            note(3, 0, DiagnosticKind::UseAfterMove),
            note(4, 0, DiagnosticKind::UseAfterMove),
        ]
    );
}

#[test]
fn an_assignment_after_a_move_makes_the_binding_usable() {
    let f = function(
        scopes(&[None]),
        vec![
            declare(0, "s", TEXT, Some(Expr::Literal)),
            declare(0, "t", TEXT, Some(take(0))),
            assign(0, 0, Expr::Literal),
            call(0, vec![take(0)]),
            end(0),
        ],
    );
    let report = verify_function(&types(), &f);
    assert_eq!(report.verdict, Verdict::Accept);
    assert!(report.diagnostics.is_empty());
}

#[test]
fn moving_a_borrowed_value_is_refused() {
    let f = function(
        scopes(&[None]),
        vec![
            declare(0, "s", TEXT, Some(Expr::Literal)),
            declare(0, "r", SHARED, Some(shared(0))),
            declare(0, "t", TEXT, Some(take(0))),
            end(0),
        ],
    );
    let report = verify_function(&types(), &f);
    assert_eq!(report.verdict, Verdict::Reject);
    assert_eq!(report.diagnostics, vec![note(2, 0, DiagnosticKind::MutateWhileBorrowed)]);
    assert_eq!(
        report.drops,
        vec![DropEvent { point: 3, action: DropAction { binding: 2, location: Location::Created(2) } }]
    );
    assert_eq!(report.final_states, vec![Lifecycle::Dropped, Lifecycle::Owned, Lifecycle::Dropped]);
}

#[test]
fn copying_a_borrowed_value_is_fine() {
    let f = function(
        scopes(&[None]),
        vec![
            declare(0, "x", INT, Some(Expr::Literal)),
            declare(0, "r", SHARED, Some(shared(0))),
            declare(0, "y", INT, Some(take(0))),
            end(0),
        ],
    );
    let report = verify_function(&types(), &f);
    assert_eq!(report.verdict, Verdict::Accept);
}

#[test]
fn writing_to_a_borrowed_binding_is_refused() {
    let f = function(
        scopes(&[None]),
        vec![
            declare(0, "x", INT, Some(Expr::Literal)),
            declare(0, "r", SHARED, Some(shared(0))),
            assign(0, 0, Expr::Literal),
            end(0),
        ],
    );
    let report = verify_function(&types(), &f);
    assert_eq!(report.diagnostics, vec![note(2, 0, DiagnosticKind::MutateWhileBorrowed)]);
}

#[test]
fn borrows_end_with_the_scope_that_owns_them() {
    let f = function(
        scopes(&[None, Some(0)]),
        vec![
            declare(0, "x", INT, Some(Expr::Literal)),
            declare(1, "r", UNIQUE, Some(unique(0))),
            end(1),
            declare(0, "q", UNIQUE, Some(unique(0))),
            end(0),
        ],
    );
    let report = verify_function(&types(), &f);
    assert_eq!(report.verdict, Verdict::Accept);
    assert!(report.diagnostics.is_empty());
}

#[test]
fn a_mutable_borrow_after_shared_ones_conflicts() {
    let f = function(
        scopes(&[None]),
        vec![
            declare(0, "x", INT, Some(Expr::Literal)),
            declare(0, "r1", SHARED, Some(shared(0))),
            declare(0, "r2", SHARED, Some(shared(0))),
            declare(0, "r3", UNIQUE, Some(unique(0))),
            end(0),
        ],
    );
    let report = verify_function(&types(), &f);
    assert_eq!(report.diagnostics, vec![note(3, 0, DiagnosticKind::BorrowConflict)]);
}

#[test]
fn a_borrow_in_a_call_lives_to_the_end_of_the_scope() {
    let f = function(
        scopes(&[None]),
        vec![
            declare(0, "x", INT, Some(Expr::Literal)),
            call(0, vec![unique(0)]),
            call(0, vec![shared(0)]),
            end(0),
        ],
    );
    let report = verify_function(&types(), &f);
    assert_eq!(report.diagnostics, vec![note(2, 0, DiagnosticKind::BorrowConflict)]);
}

#[test]
fn a_reference_that_outlives_its_target_dangles() {
    let f = function(
        scopes(&[None, Some(0)]),
        vec![
            declare(0, "r", SHARED, None),
            declare(1, "x", INT, Some(Expr::Literal)),
            assign(1, 0, shared(1)),
            end(1),
            call(0, vec![take(0)]),
            end(0),
        ],
    );
    let report = verify_function(&types(), &f);
    assert_eq!(report.verdict, Verdict::Reject);
    assert_eq!(report.diagnostics, vec![note(2, 1, DiagnosticKind::DanglingBorrow)]);
}

#[test]
fn a_reference_to_an_outer_binding_is_fine() {
    let f = function(
        scopes(&[None, Some(0)]),
        vec![
            declare(0, "x", INT, Some(Expr::Literal)),
            declare(0, "r", SHARED, None),
            assign(1, 1, shared(0)),
            end(1),
            call(0, vec![take(1)]),
            end(0),
        ],
    );
    let report = verify_function(&types(), &f);
    assert_eq!(report.verdict, Verdict::Accept);
}

#[test]
fn independent_defects_are_all_found() {
    let f = function(
        scopes(&[None]),
        vec![
            declare(0, "s", TEXT, Some(Expr::Literal)),
            declare(0, "u", INT, None),
            declare(0, "t", TEXT, Some(take(0))),
            call(0, vec![take(0), take(1)]),
            declare(0, "x", INT, Some(Expr::Literal)),
            declare(0, "a", UNIQUE, Some(unique(3))),
            declare(0, "b", SHARED, Some(shared(3))),
            end(0),
        ],
    );
    let report = verify_function(&types(), &f);
    assert_eq!(
        report.diagnostics,
        vec![
            note(3, 0, DiagnosticKind::UseAfterMove),
            note(3, 1, DiagnosticKind::UseBeforeInit),
            note(6, 3, DiagnosticKind::BorrowConflict),
        ]
    );
    assert_eq!(report.verdict, Verdict::Reject);
}

#[test]
fn a_constructor_takes_its_arguments() {
    let f = function(
        scopes(&[None]),
        vec![
            declare(0, "s", TEXT, Some(Expr::Literal)),
            declare(0, "x", INT, Some(Expr::Literal)),
            declare(0, "pair", TEXT, Some(Expr::Construct { args: vec![0, 1] })),
            call(0, vec![take(1)]),
            call(0, vec![take(0)]),
            end(0),
        ],
    );
    let report = verify_function(&types(), &f);
    assert_eq!(report.diagnostics, vec![note(4, 0, DiagnosticKind::UseAfterMove)]);
}

fn looping(body: Vec<Statement>) -> Function {
    let tree = ScopeTree {
        scopes: vec![Scope { parent: None, kind: ScopeKind::Block }, Scope { parent: Some(0), kind: ScopeKind::Loop }],
    };
    function(tree, body)
}

#[test]
fn a_loop_must_not_move_an_outer_binding_for_good() {
    let f = looping(vec![
        declare(0, "s", TEXT, Some(Expr::Literal)),
        call(1, vec![take(0)]),
        end(1),
        end(0),
    ]);
    let report = verify_function(&types(), &f);
    assert_eq!(report.verdict, Verdict::Reject);
    assert_eq!(report.diagnostics, vec![note(2, 0, DiagnosticKind::UseAfterMove)]);
}

#[test]
fn a_loop_may_move_what_it_gives_back() {
    let f = looping(vec![
        declare(0, "s", TEXT, Some(Expr::Literal)),
        call(1, vec![take(0)]),
        assign(1, 0, Expr::Literal),
        end(1),
        end(0),
    ]);
    let report = verify_function(&types(), &f);
    assert_eq!(report.verdict, Verdict::Accept);
    assert!(report.diagnostics.is_empty());
}

#[test]
fn a_loop_may_move_its_own_bindings_and_copies() {
    let f = looping(vec![
        declare(0, "x", INT, Some(Expr::Literal)),
        declare(0, "gone", TEXT, Some(Expr::Literal)),
        call(0, vec![take(1)]),
        declare(1, "s", TEXT, Some(Expr::Literal)),
        call(1, vec![take(2), take(0)]),
        end(1),
        end(0),
    ]);
    let report = verify_function(&types(), &f);
    assert_eq!(report.verdict, Verdict::Accept);
    assert!(report.diagnostics.is_empty());
}

#[test]
fn an_unknown_binding_ends_verification() {
    let f = function(
        scopes(&[None]),
        vec![
            declare(0, "x", INT, None),
            call(0, vec![take(5)]),
            call(0, vec![take(0)]),
            end(0),
        ],
    );
    let report = verify_function(&types(), &f);
    assert_eq!(report.verdict, Verdict::Reject);
    assert_eq!(report.diagnostics, vec![internal(1)]);
    assert!(report.drops.is_empty());
    assert_eq!(report.final_states, vec![Lifecycle::Uninitialized]);
}

#[test]
fn a_binding_of_a_closed_scope_cannot_be_named() {
    let f = function(
        scopes(&[None, Some(0)]),
        vec![declare(1, "x", INT, Some(Expr::Literal)), end(1), call(0, vec![take(0)]), end(0)],
    );
    let report = verify_function(&types(), &f);
    assert_eq!(report.diagnostics, vec![internal(2)]);
}

#[test]
fn a_broken_model_ends_verification() {
    let t = types();
    // A scope that ends while scopes inside it are open.
    let f = function(scopes(&[None, Some(0), Some(1)]), vec![declare(2, "x", INT, None), end(0)]);
    assert_eq!(verify_function(&t, &f).diagnostics, vec![internal(1)]);
    // A statement of a scope that does not lie inside the open one.
    let f = function(
        scopes(&[None, Some(0), Some(0)]),
        vec![declare(1, "x", INT, None), declare(2, "y", INT, None), end(2), end(1), end(0)],
    );
    assert_eq!(verify_function(&t, &f).diagnostics, vec![internal(1)]);
    // A statement of a scope that does not exist.
    let f = function(scopes(&[None]), vec![declare(3, "x", INT, None), end(0)]);
    assert_eq!(verify_function(&t, &f).diagnostics, vec![internal(0)]);
    // A scope that is entered twice.
    let f = function(
        scopes(&[None, Some(0)]),
        vec![declare(1, "x", INT, None), end(1), declare(1, "y", INT, None), end(1), end(0)],
    );
    assert_eq!(verify_function(&t, &f).diagnostics, vec![internal(2)]);
    // A statement after the root scope has ended.
    let f = function(scopes(&[None]), vec![end(0), declare(0, "x", INT, None)]);
    assert_eq!(verify_function(&t, &f).diagnostics, vec![internal(1)]);
    // A scope that never ends.
    let f = function(scopes(&[None]), vec![declare(0, "x", INT, None)]);
    assert_eq!(verify_function(&t, &f).diagnostics, vec![internal(1)]);
    // A binding of a type that does not exist.
    let f = function(scopes(&[None]), vec![declare(0, "x", 9, None), end(0)]);
    assert_eq!(verify_function(&t, &f).diagnostics, vec![internal(0)]);
    // A type that names a type that does not exist.
    let mut unresolved = types();
    unresolved.defs.push(def("&?", TypeKind::Reference { mutable: false, target: 9 }));
    let f = function(scopes(&[None]), vec![declare(0, "x", INT, None), end(0)]);
    assert_eq!(verify_function(&unresolved, &f).diagnostics, vec![internal(0)]);
    // Scopes that are no tree.
    let f = function(scopes(&[None, Some(1)]), vec![end(0)]);
    assert_eq!(verify_function(&t, &f).diagnostics, vec![internal(0)]);
    let f = function(scopes(&[]), vec![]);
    assert_eq!(verify_function(&t, &f).diagnostics, vec![internal(0)]);
    // An empty function with a well-formed root never closes it.
    let f = function(scopes(&[None]), vec![]);
    assert_eq!(verify_function(&t, &f).diagnostics, vec![internal(0)]);
    let f = function(scopes(&[None]), vec![end(0)]);
    assert_eq!(verify_function(&t, &f).verdict, Verdict::Accept);
}

#[test]
fn parameters_are_owned_from_the_start() {
    let mut f = function(
        scopes(&[None]),
        vec![declare(0, "t", TEXT, Some(take(0))), call(0, vec![take(0)]), call(0, vec![take(1)]), end(0)],
    );
    f.params = vec![binding("s", TEXT), binding("r", UNIQUE)];
    let report = verify_function(&types(), &f);
    assert_eq!(report.diagnostics, vec![note(1, 0, DiagnosticKind::UseAfterMove)]);
    assert_eq!(
        report.drops,
        vec![DropEvent { point: 3, action: DropAction { binding: 2, location: Location::Argument(0) } }]
    );
    assert_eq!(report.final_states, vec![Lifecycle::Dropped, Lifecycle::MovedFrom, Lifecycle::Dropped]);
}

#[test]
fn a_parameter_of_an_unknown_type_ends_verification() {
    let mut f = function(scopes(&[None]), vec![end(0)]);
    f.params = vec![binding("s", TEXT), binding("x", 9), binding("y", INT)];
    let report = verify_function(&types(), &f);
    assert_eq!(report.diagnostics, vec![internal(0)]);
    assert_eq!(report.final_states, vec![Lifecycle::Owned]);
}

fn matching(arms: Vec<Arm>) -> Function {
    function(
        scopes(&[None]),
        vec![
            declare(0, "x", INT, Some(Expr::Literal)),
            Statement { scope: 0, kind: StatementKind::Match { scrutinee: 0, arms } },
            call(0, vec![take(0)]),
            end(0),
        ],
    )
}

#[test]
fn an_unreachable_arm_is_only_a_warning() {
    let arms = vec![
        Arm { pattern: Pattern::Range(0, 9), guarded: false },
        Arm { pattern: Pattern::Literal(4), guarded: false },
        Arm { pattern: Pattern::Literal(5), guarded: false },
        Arm { pattern: Pattern::Wildcard, guarded: false },
    ];
    let report = verify_function(&types(), &matching(arms));
    assert_eq!(report.verdict, Verdict::Accept);
    assert_eq!(
        report.diagnostics,
        vec![
            note(1, 0, DiagnosticKind::Unreachable { arm: 1 }),
            note(1, 0, DiagnosticKind::Unreachable { arm: 2 }),
        ]
    );
    assert_eq!(report.final_states, vec![Lifecycle::Dropped]);
    assert_eq!(report.drops.len(), 1);
}

#[test]
fn a_match_with_a_gap_is_rejected_and_gives_the_scrutinee_up() {
    let arms = vec![
        Arm { pattern: Pattern::Range(i64::MIN, 0), guarded: false },
        Arm { pattern: Pattern::Literal(0), guarded: false },
        Arm { pattern: Pattern::Range(2, i64::MAX), guarded: false },
    ];
    let report = verify_function(&types(), &matching(arms));
    assert_eq!(report.verdict, Verdict::Reject);
    assert_eq!(
        report.diagnostics,
        vec![
            note(1, 0, DiagnosticKind::Unreachable { arm: 1 }),
            note(1, 0, DiagnosticKind::NonExhaustive { ty: INT, witness: Witness::Scalar(1) }),
            note(2, 0, DiagnosticKind::UseAfterMove),
        ]
    );
}

#[test]
fn a_match_reads_its_scrutinee() {
    let f = function(
        scopes(&[None]),
        vec![
            declare(0, "s", TEXT, Some(Expr::Literal)),
            call(0, vec![take(0)]),
            Statement {
                scope: 0,
                kind: StatementKind::Match {
                    scrutinee: 0,
                    arms: vec![Arm { pattern: Pattern::Wildcard, guarded: false }],
                },
            },
            end(0),
        ],
    );
    let report = verify_function(&types(), &f);
    assert_eq!(report.diagnostics, vec![note(2, 0, DiagnosticKind::UseAfterMove)]);
}

#[test]
fn functions_are_verified_each_on_its_own() {
    let bad = function(
        scopes(&[None]),
        vec![declare(0, "s", TEXT, Some(Expr::Literal)), call(0, vec![take(0)]), call(0, vec![take(0)]), end(0)],
    );
    let good = function(scopes(&[None]), vec![declare(0, "s", TEXT, Some(Expr::Literal)), end(0)]);
    let broken = function(scopes(&[None]), vec![call(0, vec![take(0)])]);
    let program = Program { types: types(), functions: vec![bad, good, broken] };
    let reports = verify_program(&program);
    assert_eq!(reports.len(), 3);
    assert_eq!(reports[0].verdict, Verdict::Reject);
    assert_eq!(reports[0].diagnostics, vec![note(2, 0, DiagnosticKind::UseAfterMove)]);
    assert_eq!(reports[1].verdict, Verdict::Accept);
    assert_eq!(reports[1].drops.len(), 1);
    assert_eq!(reports[2].verdict, Verdict::Reject);
    assert_eq!(reports[2].diagnostics, vec![internal(0)]);
    assert!(verify_program(&Program { types: types(), functions: vec![] }).is_empty());
}

#[test]
fn a_driver_can_stop_between_statements() {
    let t = types();
    let f = function(
        scopes(&[None]),
        vec![
            declare(0, "s", TEXT, Some(Expr::Literal)),
            call(0, vec![take(0)]),
            call(0, vec![take(0)]),
            end(0),
        ],
    );
    let cx = Context::new(&t, &f);
    let mut session = Session::begin(&cx);
    session.step(&cx, 0);
    session.step(&cx, 1);
    assert!(!session.aborted);
    assert!(session.diagnostics.is_empty());
    assert_eq!(session.tracker.state(0), Some(Lifecycle::MovedFrom));
    // The driver gives up here; what was found so far can still be had.
    let report = session.finish(&cx);
    assert_eq!(report.diagnostics, vec![internal(4)]);
    // Run to the end, the same function gives the full report.
    let mut session = Session::begin(&cx);
    for i in 0..f.body.len() {
        session.step(&cx, i);
    }
    let report = session.finish(&cx);
    assert_eq!(report.diagnostics, vec![note(2, 0, DiagnosticKind::UseAfterMove)]);
    assert_eq!(report.verdict, Verdict::Reject);
}

#[test]
fn the_verdict_rejects_on_anything_but_a_warning() {
    assert_eq!(decide(&vec![]), Verdict::Accept);
    assert_eq!(decide(&vec![note(0, 0, DiagnosticKind::Unreachable { arm: 0 })]), Verdict::Accept);
    for kind in [
        DiagnosticKind::UseBeforeInit,
        DiagnosticKind::UseAfterMove,
        DiagnosticKind::BorrowConflict,
        DiagnosticKind::MutateWhileBorrowed,
        DiagnosticKind::DanglingBorrow,
        DiagnosticKind::NonExhaustive { ty: 0, witness: Witness::Opaque },
        DiagnosticKind::InternalConsistency,
    ] {
        assert!(!kind.is_warning());
        let list = vec![note(0, 0, DiagnosticKind::Unreachable { arm: 0 }), note(1, 0, kind)];
        assert_eq!(decide(&list), Verdict::Reject);
    }
    assert!(DiagnosticKind::Unreachable { arm: 3 }.is_warning());
}

fn branching(kinds: &[ScopeKind], body: Vec<Statement>) -> Function {
    let mut all = vec![Scope { parent: None, kind: ScopeKind::Block }];
    for kind in kinds {
        all.push(Scope { parent: Some(0), kind: *kind });
    }
    function(ScopeTree { scopes: all }, body)
}

const BOTH: [ScopeKind; 2] = [ScopeKind::Branch, ScopeKind::Branch];

#[test]
fn alternatives_may_each_move_the_same_binding() {
    let f = branching(
        &BOTH,
        vec![
            declare(0, "s", TEXT, Some(Expr::Literal)),
            call(1, vec![take(0)]),
            end(1),
            call(2, vec![take(0)]),
            end(2),
            end(0),
        ],
    );
    let report = verify_function(&types(), &f);
    assert_eq!(report.verdict, Verdict::Accept);
    assert!(report.diagnostics.is_empty());
    assert_eq!(report.final_states, vec![Lifecycle::MovedFrom]);
    assert!(report.drops.is_empty());
}

#[test]
fn a_binding_moved_in_one_alternative_is_gone_afterwards() {
    let f = branching(
        &BOTH,
        vec![
            declare(0, "s", TEXT, Some(Expr::Literal)),
            call(1, vec![take(0)]),
            end(1),
            end(2),
            call(0, vec![take(0)]),
            end(0),
        ],
    );
    let report = verify_function(&types(), &f);
    assert_eq!(report.diagnostics, vec![note(4, 0, DiagnosticKind::UseAfterMove)]);
    // The other way round, too.
    let f = branching(
        &BOTH,
        vec![
            declare(0, "s", TEXT, Some(Expr::Literal)),
            end(1),
            call(2, vec![take(0)]),
            end(2),
            call(0, vec![take(0)]),
            end(0),
        ],
    );
    let report = verify_function(&types(), &f);
    assert_eq!(report.diagnostics, vec![note(4, 0, DiagnosticKind::UseAfterMove)]);
}

#[test]
fn a_binding_that_no_alternative_touches_stays_owned() {
    let f = branching(
        &BOTH,
        vec![
            declare(0, "s", TEXT, Some(Expr::Literal)),
            declare(1, "a", INT, Some(Expr::Literal)),
            end(1),
            declare(2, "b", INT, Some(Expr::Literal)),
            end(2),
            call(0, vec![take(0)]),
            end(0),
        ],
    );
    let report = verify_function(&types(), &f);
    assert_eq!(report.verdict, Verdict::Accept);
    assert_eq!(report.drops.len(), 2);
    assert_eq!(report.final_states, vec![Lifecycle::MovedFrom, Lifecycle::Dropped, Lifecycle::Dropped]);
}

#[test]
fn a_value_given_in_every_alternative_can_be_used() {
    let f = branching(
        &BOTH,
        vec![
            declare(0, "x", TEXT, None),
            assign(1, 0, Expr::Literal),
            end(1),
            assign(2, 0, Expr::Literal),
            end(2),
            call(0, vec![take(0)]),
            end(0),
        ],
    );
    let report = verify_function(&types(), &f);
    assert_eq!(report.verdict, Verdict::Accept);
    assert!(report.diagnostics.is_empty());
}

#[test]
fn a_value_given_in_one_alternative_only_cannot_be_used() {
    let f = branching(
        &BOTH,
        vec![
            declare(0, "x", TEXT, None),
            assign(1, 0, Expr::Literal),
            end(1),
            end(2),
            call(0, vec![take(0)]),
            end(0),
        ],
    );
    let report = verify_function(&types(), &f);
    assert_eq!(report.diagnostics, vec![note(4, 0, DiagnosticKind::UseBeforeInit)]);
}

#[test]
fn an_alternative_does_not_see_what_another_did() {
    let f = branching(
        &BOTH,
        vec![
            declare(0, "x", TEXT, None),
            declare(0, "s", TEXT, Some(Expr::Literal)),
            assign(1, 0, Expr::Literal),
            call(1, vec![take(1)]),
            end(1),
            call(2, vec![take(0)]),
            call(2, vec![take(1)]),
            end(2),
            end(0),
        ],
    );
    let report = verify_function(&types(), &f);
    // In the second alternative `x` has no value, and `s` still has its own.
    assert_eq!(report.diagnostics, vec![note(5, 0, DiagnosticKind::UseBeforeInit)]);
    assert_eq!(report.final_states, vec![Lifecycle::Dropped, Lifecycle::MovedFrom]);
}

#[test]
fn a_statement_of_the_parent_ends_the_choice() {
    let f = branching(
        &[ScopeKind::Branch, ScopeKind::Branch, ScopeKind::Branch],
        vec![
            declare(0, "s", TEXT, Some(Expr::Literal)),
            call(1, vec![take(0)]),
            end(1),
            end(2),
            call(0, vec![]),
            call(3, vec![take(0)]),
            end(3),
            end(0),
        ],
    );
    let report = verify_function(&types(), &f);
    // The third scope begins a new choice, after `s` may have been moved.
    assert_eq!(report.diagnostics, vec![note(5, 0, DiagnosticKind::UseAfterMove)]);
    let f = branching(
        &[ScopeKind::Branch, ScopeKind::Branch, ScopeKind::Branch],
        vec![
            declare(0, "s", TEXT, Some(Expr::Literal)),
            call(1, vec![take(0)]),
            end(1),
            end(2),
            call(3, vec![take(0)]),
            end(3),
            end(0),
        ],
    );
    // Without a statement in between, the third scope is one more alternative.
    assert_eq!(verify_function(&types(), &f).verdict, Verdict::Accept);
}

#[test]
fn a_block_between_alternatives_ends_the_choice() {
    let f = branching(
        &[ScopeKind::Branch, ScopeKind::Block, ScopeKind::Branch],
        vec![
            declare(0, "s", TEXT, Some(Expr::Literal)),
            call(1, vec![take(0)]),
            end(1),
            end(2),
            call(3, vec![take(0)]),
            end(3),
            end(0),
        ],
    );
    let report = verify_function(&types(), &f);
    assert_eq!(report.diagnostics, vec![note(4, 0, DiagnosticKind::UseAfterMove)]);
}

#[test]
fn a_borrow_made_in_one_alternative_lives_on_in_the_next() {
    let f = branching(
        &BOTH,
        vec![
            declare(0, "x", INT, Some(Expr::Literal)),
            declare(0, "r", UNIQUE, None),
            assign(1, 1, unique(0)),
            end(1),
            assign(2, 1, unique(0)),
            end(2),
            end(0),
        ],
    );
    let report = verify_function(&types(), &f);
    assert_eq!(report.diagnostics, vec![note(4, 0, DiagnosticKind::BorrowConflict)]);
    // A borrow that the alternative owns ends with it.
    let f = branching(
        &BOTH,
        vec![
            declare(0, "x", INT, Some(Expr::Literal)),
            declare(1, "r", UNIQUE, Some(unique(0))),
            end(1),
            declare(2, "q", UNIQUE, Some(unique(0))),
            end(2),
            end(0),
        ],
    );
    assert_eq!(verify_function(&types(), &f).verdict, Verdict::Accept);
}

#[test]
fn two_values_of_which_one_is_borrowed_cannot_be_told_apart() {
    let f = branching(
        &BOTH,
        vec![
            declare(0, "x", INT, Some(Expr::Literal)),
            declare(0, "r", SHARED, None),
            assign(1, 0, Expr::Literal),
            assign(1, 1, shared(0)),
            end(1),
            assign(2, 0, Expr::Literal),
            end(2),
            end(0),
        ],
    );
    let report = verify_function(&types(), &f);
    assert_eq!(report.diagnostics, vec![note(6, 0, DiagnosticKind::MutateWhileBorrowed)]);
    // Without the borrow, the two values are taken together.
    let f = branching(
        &BOTH,
        vec![
            declare(0, "x", INT, Some(Expr::Literal)),
            assign(1, 0, Expr::Literal),
            end(1),
            assign(2, 0, Expr::Literal),
            end(2),
            call(0, vec![take(0)]),
            end(0),
        ],
    );
    let report = verify_function(&types(), &f);
    assert_eq!(report.verdict, Verdict::Accept);
    assert_eq!(
        report.drops,
        vec![DropEvent { point: 6, action: DropAction { binding: 0, location: Location::Created(3) } }]
    );
}

#[test]
fn alternatives_nest() {
    let tree = ScopeTree {
        scopes: vec![
            Scope { parent: None, kind: ScopeKind::Block },
            Scope { parent: Some(0), kind: ScopeKind::Branch },
            Scope { parent: Some(1), kind: ScopeKind::Branch },
            Scope { parent: Some(1), kind: ScopeKind::Branch },
            Scope { parent: Some(0), kind: ScopeKind::Branch },
        ],
    };
    let f = function(
        tree,
        vec![
            declare(0, "s", TEXT, Some(Expr::Literal)),
            declare(0, "t", TEXT, Some(Expr::Literal)),
            call(2, vec![take(0)]),
            end(2),
            call(3, vec![take(1)]),
            end(3),
            end(1),
            call(4, vec![take(0), take(1)]),
            end(4),
            end(0),
        ],
    );
    let report = verify_function(&types(), &f);
    assert_eq!(report.verdict, Verdict::Accept);
    assert_eq!(report.final_states, vec![Lifecycle::MovedFrom, Lifecycle::MovedFrom]);
}

#[test]
fn a_loop_body_with_alternatives() {
    let tree = ScopeTree {
        scopes: vec![
            Scope { parent: None, kind: ScopeKind::Block },
            Scope { parent: Some(0), kind: ScopeKind::Loop },
            Scope { parent: Some(1), kind: ScopeKind::Branch },
            Scope { parent: Some(1), kind: ScopeKind::Branch },
        ],
    };
    let f = function(
        tree,
        vec![
            declare(0, "s", TEXT, Some(Expr::Literal)),
            call(2, vec![take(0)]),
            end(2),
            end(3),
            end(1),
            end(0),
        ],
    );
    let report = verify_function(&types(), &f);
    // One alternative moves `s` away, so the next round may find it gone.
    assert_eq!(report.diagnostics, vec![note(4, 0, DiagnosticKind::UseAfterMove)]);
}

#[test]
fn a_statement_deep_inside_enters_every_scope_on_the_way() {
    let f = function(
        scopes(&[None, Some(0), Some(1)]),
        vec![
            declare(2, "x", TEXT, Some(Expr::Literal)),
            end(2),
            declare(1, "y", TEXT, Some(Expr::Literal)),
            end(1),
            end(0),
        ],
    );
    let report = verify_function(&types(), &f);
    assert_eq!(report.verdict, Verdict::Accept);
    assert_eq!(
        report.drops,
        vec![
            DropEvent { point: 1, action: DropAction { binding: 0, location: Location::Created(0) } },
            DropEvent { point: 3, action: DropAction { binding: 1, location: Location::Created(2) } },
        ]
    );
}
