use ownership_verifier::borrow::{Borrow, BorrowChecker, BorrowError, Loan};
use ownership_verifier::model::{Location, Scope, ScopeTree, ScopeKind};

/// 0 is the root, 1 and 3 are its children, 2 is a child of 1.
fn tree() -> ScopeTree {
    ScopeTree {
        scopes: vec![
            Scope { parent: None, kind: ScopeKind::Block },
            Scope { parent: Some(0), kind: ScopeKind::Block },
            Scope { parent: Some(1), kind: ScopeKind::Block },
            Scope { parent: Some(0), kind: ScopeKind::Block },
        ],
    }
}

const X: Location = Location::Created(0);
const Y: Location = Location::Created(1);

#[test]
fn scope_tree_queries() {
    let t = tree();
    assert!(t.is_well_formed());
    assert!(t.is_enclosing(0, 0));
    assert!(t.is_enclosing(0, 2));
    assert!(t.is_enclosing(1, 2));
    assert!(!t.is_enclosing(2, 1));
    assert!(!t.is_enclosing(3, 2));
    assert!(!t.is_enclosing(1, 3));
    assert!(!t.is_enclosing(0, 9));
    assert!(!t.is_enclosing(9, 0));
    assert!(!ScopeTree { scopes: vec![] }.is_well_formed());
    assert!(!ScopeTree { scopes: vec![Scope { parent: Some(0), kind: ScopeKind::Block }] }.is_well_formed());
    assert!(
        !ScopeTree {
            scopes: vec![Scope { parent: None, kind: ScopeKind::Block }, Scope { parent: None, kind: ScopeKind::Block }]
        }
        .is_well_formed()
    );
    assert!(
        !ScopeTree {
            scopes: vec![Scope { parent: None, kind: ScopeKind::Block }, Scope { parent: Some(1), kind: ScopeKind::Block }]
        }
        .is_well_formed()
    );
}

#[test]
fn shared_borrows_coexist() {
    let t = tree();
    let mut checker = BorrowChecker::new();
    assert_eq!(checker.begin_borrow(&t, X, false, 0, 0), Ok(0));
    assert_eq!(checker.begin_borrow(&t, X, false, 1, 0), Ok(1));
    assert_eq!(checker.begin_borrow(&t, X, false, 2, 0), Ok(2));
    assert_eq!(checker.len(), 3);
    assert!(checker.is_borrowed(X));
    assert!(!checker.is_borrowed(Y));
    assert!(checker.is_blocked(X, true));
    assert!(!checker.is_blocked(X, false));
}

#[test]
fn a_mutable_borrow_after_a_shared_one_conflicts() {
    let t = tree();
    let mut checker = BorrowChecker::new();
    assert_eq!(checker.begin_borrow(&t, X, false, 0, 0), Ok(0));
    assert_eq!(checker.begin_borrow(&t, X, true, 0, 0), Err(BorrowError::BorrowConflict));
    // The first borrow stays as it was, and nothing was added.
    assert_eq!(checker.len(), 1);
    assert_eq!(
        checker.loan(0),
        Some(Loan { borrow: Borrow { location: X, mutable: false, scope: 0 }, active: true })
    );
    assert_eq!(checker.loan(1), None);
}

#[test]
fn any_borrow_after_a_mutable_one_conflicts() {
    let t = tree();
    let mut checker = BorrowChecker::new();
    assert_eq!(checker.begin_borrow(&t, X, true, 1, 0), Ok(0));
    assert_eq!(checker.begin_borrow(&t, X, false, 1, 0), Err(BorrowError::BorrowConflict));
    assert_eq!(checker.begin_borrow(&t, X, true, 2, 0), Err(BorrowError::BorrowConflict));
    // Another location is not concerned.
    assert_eq!(checker.begin_borrow(&t, Y, true, 1, 0), Ok(1));
    assert!(checker.is_blocked(X, false));
}

#[test]
fn borrows_end_with_their_scope() {
    let t = tree();
    let mut checker = BorrowChecker::new();
    assert_eq!(checker.begin_borrow(&t, X, true, 2, 0), Ok(0));
    assert_eq!(checker.begin_borrow(&t, Y, false, 1, 0), Ok(1));
    checker.end_borrows_of(2);
    assert!(!checker.is_borrowed(X));
    assert!(checker.is_borrowed(Y));
    assert_eq!(
        checker.loan(0),
        Some(Loan { borrow: Borrow { location: X, mutable: true, scope: 2 }, active: false })
    );
    // With the mutable borrow gone, the location can be borrowed again.
    assert_eq!(checker.begin_borrow(&t, X, true, 1, 0), Ok(2));
    checker.end_borrows_of(1);
    assert!(!checker.is_borrowed(X));
    assert!(!checker.is_borrowed(Y));
}

#[test]
fn a_borrow_that_outlives_its_target_dangles() {
    let t = tree();
    let mut checker = BorrowChecker::new();
    // The borrow would be owned by the root, the target lives in scope 2.
    assert_eq!(checker.begin_borrow(&t, X, false, 0, 2), Err(BorrowError::DanglingBorrow));
    assert_eq!(checker.begin_borrow(&t, X, true, 1, 2), Err(BorrowError::DanglingBorrow));
    // A sibling scope does not lie inside the target's scope either.
    assert_eq!(checker.begin_borrow(&t, X, false, 3, 1), Err(BorrowError::DanglingBorrow));
    assert_eq!(checker.len(), 0);
    // The same scope and scopes inside it are fine.
    assert_eq!(checker.begin_borrow(&t, X, false, 2, 2), Ok(0));
    assert_eq!(checker.begin_borrow(&t, X, false, 2, 1), Ok(1));
    assert_eq!(checker.begin_borrow(&t, X, false, 2, 0), Ok(2));
}

#[test]
fn dangling_is_found_before_conflict() {
    let t = tree();
    let mut checker = BorrowChecker::new();
    assert_eq!(checker.begin_borrow(&t, X, true, 2, 2), Ok(0));
    assert_eq!(checker.begin_borrow(&t, X, true, 0, 2), Err(BorrowError::DanglingBorrow));
}
