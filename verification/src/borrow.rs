//! The borrow checker: which borrows of which locations are alive.
//!
//! A borrow lives from the point that creates it to the exit of the scope
//! that owns it. At every point a location has no active borrow, one mutable
//! borrow, or any number of shared borrows.

use vstd::prelude::*;
use crate::model::{lemma_encloses_antisymmetric, Location, ScopeTree};

verus! {

/// A reference to a location that stays alive until its owning scope exits.
#[derive(Clone, Copy, PartialEq, Eq, Debug, Structural)]
pub struct Borrow {
    pub location: Location,
    pub mutable: bool,
    /// The scope whose exit ends the borrow.
    pub scope: usize,
}

/// A borrow that was granted, and whether it is still alive.
#[derive(Clone, Copy, PartialEq, Eq, Debug, Structural)]
pub struct Loan {
    pub borrow: Borrow,
    pub active: bool,
}

/// Why a borrow is refused.
#[derive(Clone, Copy, PartialEq, Eq, Debug, Structural)]
pub enum BorrowError {
    /// The borrow cannot coexist with a borrow that is already active.
    BorrowConflict,
    /// The borrow would outlive what it points to.
    DanglingBorrow,
}

/// Loan `i` is alive and borrows `location`.
pub open spec fn holds(loans: Seq<Loan>, i: int, location: Location) -> bool {
    0 <= i < loans.len() && loans[i].active && loans[i].borrow.location == location
}

/// Some active borrow of `location` exists.
pub open spec fn borrowed(loans: Seq<Loan>, location: Location) -> bool {
    exists|i: int| holds(loans, i, location)
}

/// Some active borrow of `location` rules out a new borrow of the given
/// kind: any borrow rules out a mutable one, a mutable borrow rules out any.
pub open spec fn blocked(loans: Seq<Loan>, location: Location, mutable: bool) -> bool {
    exists|i: int| holds(loans, i, location) && (mutable || loans[i].borrow.mutable)
}

/// No active mutable borrow shares its location with another active borrow.
pub open spec fn exclusive(loans: Seq<Loan>) -> bool {
    forall|i: int, j: int|
        i != j && #[trigger] holds(loans, i, loans[i].borrow.location) && #[trigger] holds(
            loans,
            j,
            loans[i].borrow.location,
        ) ==> !loans[i].borrow.mutable
}

/// The answer to a request for a borrow of `location`, to be owned by `scope`,
/// where the borrowed binding belongs to `target_scope`: the index of the new
/// loan, or the reason for which it is refused.
pub open spec fn borrow_verdict(
    tree: ScopeTree,
    loans: Seq<Loan>,
    location: Location,
    mutable: bool,
    scope: usize,
    target_scope: usize,
) -> Result<usize, BorrowError> {
    if !tree.encloses(target_scope as int, scope as int) {
        Err(BorrowError::DanglingBorrow)
    } else if blocked(loans, location, mutable) {
        Err(BorrowError::BorrowConflict)
    } else {
        Ok(loans.len() as usize)
    }
}

/// The loans after a request: one more when it is granted, the same when it
/// is refused.
pub open spec fn begun(
    tree: ScopeTree,
    loans: Seq<Loan>,
    location: Location,
    mutable: bool,
    scope: usize,
    target_scope: usize,
) -> Seq<Loan> {
    if borrow_verdict(tree, loans, location, mutable, scope, target_scope) is Ok {
        loans.push(Loan { borrow: Borrow { location, mutable, scope }, active: true })
    } else {
        loans
    }
}

/// The loans after `scope` exits: those it owns are no longer alive.
pub open spec fn ended(loans: Seq<Loan>, scope: usize) -> Seq<Loan> {
    Seq::new(
        loans.len(),
        |i: int|
            Loan { borrow: loans[i].borrow, active: loans[i].active && loans[i].borrow.scope != scope },
    )
}

/// Granting a borrow keeps the loans exclusive.
pub proof fn lemma_begun_exclusive(
    tree: ScopeTree,
    loans: Seq<Loan>,
    location: Location,
    mutable: bool,
    scope: usize,
    target_scope: usize,
)
    requires
        exclusive(loans),
    ensures
        exclusive(begun(tree, loans, location, mutable, scope, target_scope)),
{
    let after = begun(tree, loans, location, mutable, scope, target_scope);
    if borrow_verdict(tree, loans, location, mutable, scope, target_scope) is Ok {
        let n = loans.len() as int;
        assert forall|i: int, j: int|
            i != j && #[trigger] holds(after, i, after[i].borrow.location) && #[trigger] holds(
                after,
                j,
                after[i].borrow.location,
            ) implies !after[i].borrow.mutable by {
            if i < n && j < n {
                assert(holds(loans, i, loans[i].borrow.location));
                assert(holds(loans, j, loans[i].borrow.location));
            } else if i == n {
                assert(holds(loans, j, location));
            } else {
                assert(holds(loans, i, location));
            }
        }
    }
}

/// Ending the borrows of a scope keeps the loans exclusive.
pub proof fn lemma_ended_exclusive(loans: Seq<Loan>, scope: usize)
    requires
        exclusive(loans),
    ensures
        exclusive(ended(loans, scope)),
{
    let after = ended(loans, scope);
    assert forall|i: int, j: int|
        i != j && #[trigger] holds(after, i, after[i].borrow.location) && #[trigger] holds(
            after,
            j,
            after[i].borrow.location,
        ) implies !after[i].borrow.mutable by {
        assert(holds(loans, i, loans[i].borrow.location));
        assert(holds(loans, j, loans[i].borrow.location));
    }
}

/// Borrow exclusivity: while a borrow of a location is active, a mutable
/// borrow of it is refused as a conflict, and so is any borrow while a mutable
/// one is active; and what is granted keeps the loans exclusive.
pub proof fn law_borrow_exclusivity(
    tree: ScopeTree,
    loans: Seq<Loan>,
    i: int,
    location: Location,
    mutable: bool,
    scope: usize,
    target_scope: usize,
)
    requires
        exclusive(loans),
        holds(loans, i, location),
        mutable || loans[i].borrow.mutable,
        tree.encloses(target_scope as int, scope as int),
    ensures
        borrow_verdict(tree, loans, location, mutable, scope, target_scope) == Err::<usize, BorrowError>(
            BorrowError::BorrowConflict,
        ),
        begun(tree, loans, location, mutable, scope, target_scope) == loans,
        exclusive(begun(tree, loans, location, mutable, scope, target_scope)),
{
}

/// No dangling references: a borrow whose owning scope is a proper ancestor
/// of the scope of what it borrows, and so outlives it, is refused.
pub proof fn law_no_dangling(
    tree: ScopeTree,
    loans: Seq<Loan>,
    location: Location,
    mutable: bool,
    scope: usize,
    target_scope: usize,
)
    requires
        tree.strictly_encloses(scope as int, target_scope as int),
    ensures
        borrow_verdict(tree, loans, location, mutable, scope, target_scope) == Err::<usize, BorrowError>(
            BorrowError::DanglingBorrow,
        ),
        begun(tree, loans, location, mutable, scope, target_scope) == loans,
{
    if tree.encloses(target_scope as int, scope as int) {
        lemma_encloses_antisymmetric(tree, scope as int, target_scope as int);
    }
}

/// The borrows granted so far. A borrow is identified by its index.
pub struct BorrowChecker {
    loans: Vec<Loan>,
}

impl BorrowChecker {
    /// Every borrow granted so far, in the order of granting.
    pub closed spec fn loans(self) -> Seq<Loan> {
        self.loans@
    }

    /// A checker without borrows.
    pub fn new() -> (checker: BorrowChecker)
        ensures
            checker.loans() == Seq::<Loan>::empty(),
            exclusive(checker.loans()),
    {
        BorrowChecker { loans: Vec::new() }
    }

    /// Whether some active borrow of `location` exists.
    pub fn is_borrowed(&self, location: Location) -> (yes: bool)
        ensures
            yes == borrowed(self.loans(), location),
    {
        let n = self.loans.len();
        let mut i: usize = 0;
        while i < n
            invariant
                i <= n,
                n == self.loans@.len(),
                forall|k: int| 0 <= k < i ==> !holds(self.loans@, k, location),
            decreases n - i,
        {
            let loan = self.loans[i];
            if loan.active && loan.borrow.location == location {
                assert(holds(self.loans@, i as int, location));
                return true;
            }
            i += 1;
        }
        false
    }

    /// Whether some active borrow of `location` rules out a new borrow of the
    /// given kind.
    pub fn is_blocked(&self, location: Location, mutable: bool) -> (yes: bool)
        ensures
            yes == blocked(self.loans(), location, mutable),
    {
        let n = self.loans.len();
        let mut i: usize = 0;
        while i < n
            invariant
                i <= n,
                n == self.loans@.len(),
                forall|k: int|
                    0 <= k < i ==> !(holds(self.loans@, k, location) && (mutable
                        || self.loans@[k].borrow.mutable)),
            decreases n - i,
        {
            let loan = self.loans[i];
            if loan.active && loan.borrow.location == location && (mutable || loan.borrow.mutable) {
                assert(holds(self.loans@, i as int, location));
                return true;
            }
            i += 1;
        }
        false
    }

    /// Asks for a borrow of `location`, shared or mutable, to be owned by
    /// `scope`. The borrowed binding belongs to `target_scope`.
    ///
    /// The borrow is refused as dangling unless `target_scope` is `scope` or
    /// one of its ancestors, and as conflicting when an active borrow of the
    /// location rules it out. A refusal changes nothing.
    pub fn begin_borrow(
        &mut self,
        tree: &ScopeTree,
        location: Location,
        mutable: bool,
        scope: usize,
        target_scope: usize,
    ) -> (r: Result<usize, BorrowError>)
        ensures
            r == borrow_verdict(*tree, old(self).loans(), location, mutable, scope, target_scope),
            final(self).loans() == begun(
                *tree,
                old(self).loans(),
                location,
                mutable,
                scope,
                target_scope,
            ),
            exclusive(old(self).loans()) ==> exclusive(final(self).loans()),
    {
        proof {
            if exclusive(self.loans@) {
                lemma_begun_exclusive(*tree, self.loans@, location, mutable, scope, target_scope);
            }
        }
        if !tree.is_enclosing(target_scope, scope) {
            return Err(BorrowError::DanglingBorrow);
        }
        if self.is_blocked(location, mutable) {
            return Err(BorrowError::BorrowConflict);
        }
        let id = self.loans.len();
        self.loans.push(Loan { borrow: Borrow { location, mutable, scope }, active: true });
        Ok(id)
    }

    /// Ends every borrow that `scope` owns.
    pub fn end_borrows_of(&mut self, scope: usize)
        ensures
            final(self).loans() == ended(old(self).loans(), scope),
            exclusive(old(self).loans()) ==> exclusive(final(self).loans()),
    {
        proof {
            if exclusive(self.loans@) {
                lemma_ended_exclusive(self.loans@, scope);
            }
        }
        let n = self.loans.len();
        let mut kept: Vec<Loan> = Vec::new();
        let mut i: usize = 0;
        while i < n
            invariant
                i <= n,
                n == self.loans@.len(),
                kept@.len() == i,
                forall|k: int| 0 <= k < i ==> kept@[k] == ended(self.loans@, scope)[k],
            decreases n - i,
        {
            let loan = self.loans[i];
            kept.push(Loan { borrow: loan.borrow, active: loan.active && loan.borrow.scope != scope });
            i += 1;
        }
        assert(kept@ =~= ended(self.loans@, scope));
        self.loans = kept;
    }

    /// Number of borrows granted so far.
    pub fn len(&self) -> (n: usize)
        ensures
            n == self.loans().len(),
    {
        self.loans.len()
    }

    /// The borrow with index `id`, if it was granted.
    pub fn loan(&self, id: usize) -> (loan: Option<Loan>)
        ensures
            loan == (if id < self.loans().len() {
                Some(self.loans()[id as int])
            } else {
                None
            }),
    {
        if id < self.loans.len() {
            Some(self.loans[id])
        } else {
            None
        }
    }
}

} // verus!
