use ownership_verifier::classify::Classification;
use ownership_verifier::model::Location;
use ownership_verifier::tracker::{Lifecycle, Slot, Tracker, UseError, UseMode};

fn one_binding() -> (Tracker, usize) {
    let mut tracker = Tracker::new();
    let b = tracker.declare(7, 0, Location::Created(3), 3);
    (tracker, b)
}

#[test]
fn a_declared_binding_is_uninitialized() {
    let (tracker, b) = one_binding();
    assert_eq!(b, 0);
    assert_eq!(tracker.len(), 1);
    assert_eq!(tracker.state(b), Some(Lifecycle::Uninitialized));
    assert_eq!(
        tracker.slot(b),
        Some(Slot { ty: 7, scope: 0, state: Lifecycle::Uninitialized, since: 3, location: Location::Created(3) })
    );
    assert_eq!(tracker.state(1), None);
    assert_eq!(tracker.slot(1), None);
}

#[test]
fn reading_before_init_is_refused() {
    let (mut tracker, b) = one_binding();
    assert_eq!(tracker.record_use(b, UseMode::Read, Classification::Copy, 4), Err(UseError::UseBeforeInit));
    assert_eq!(tracker.record_use(b, UseMode::Move, Classification::Move, 4), Err(UseError::UseBeforeInit));
    assert_eq!(tracker.state(b), Some(Lifecycle::Uninitialized));
}

#[test]
fn init_makes_owned_and_stamps() {
    let (mut tracker, b) = one_binding();
    assert_eq!(tracker.record_init(b, Location::Created(5), 5), Ok(()));
    assert_eq!(
        tracker.slot(b),
        Some(Slot { ty: 7, scope: 0, state: Lifecycle::Owned, since: 5, location: Location::Created(5) })
    );
}

#[test]
fn a_move_of_a_move_type_moves_out() {
    let (mut tracker, b) = one_binding();
    tracker.record_init(b, Location::Created(5), 5).unwrap();
    assert_eq!(tracker.record_use(b, UseMode::Move, Classification::Move, 6), Ok(()));
    assert_eq!(
        tracker.slot(b),
        Some(Slot { ty: 7, scope: 0, state: Lifecycle::MovedFrom, since: 6, location: Location::Created(5) })
    );
}

#[test]
fn move_exclusivity_every_later_use_is_refused() {
    let (mut tracker, b) = one_binding();
    tracker.record_init(b, Location::Created(5), 5).unwrap();
    tracker.record_use(b, UseMode::Move, Classification::Move, 6).unwrap();
    for point in 7..12 {
        assert_eq!(tracker.record_use(b, UseMode::Read, Classification::Move, point), Err(UseError::UseAfterMove));
        assert_eq!(tracker.record_use(b, UseMode::Move, Classification::Move, point), Err(UseError::UseAfterMove));
    }
    assert_eq!(tracker.state(b), Some(Lifecycle::MovedFrom));
}

#[test]
fn a_further_assignment_makes_owned_again() {
    let (mut tracker, b) = one_binding();
    tracker.record_init(b, Location::Created(5), 5).unwrap();
    tracker.record_use(b, UseMode::Move, Classification::Move, 6).unwrap();
    assert_eq!(tracker.record_init(b, Location::Created(8), 8), Ok(()));
    assert_eq!(
        tracker.slot(b),
        Some(Slot { ty: 7, scope: 0, state: Lifecycle::Owned, since: 8, location: Location::Created(8) })
    );
    assert_eq!(tracker.record_use(b, UseMode::Read, Classification::Move, 9), Ok(()));
}

#[test]
fn copy_transparency_moves_of_a_copy_type_change_nothing() {
    let (mut tracker, b) = one_binding();
    tracker.record_init(b, Location::Created(5), 5).unwrap();
    let owned = tracker.slot(b);
    for point in 6..20 {
        assert_eq!(tracker.record_use(b, UseMode::Move, Classification::Copy, point), Ok(()));
        assert_eq!(tracker.record_use(b, UseMode::Read, Classification::Copy, point), Ok(()));
        assert_eq!(tracker.slot(b), owned);
    }
}

#[test]
fn a_read_of_a_move_type_changes_nothing() {
    let (mut tracker, b) = one_binding();
    tracker.record_init(b, Location::Created(5), 5).unwrap();
    let owned = tracker.slot(b);
    assert_eq!(tracker.record_use(b, UseMode::Read, Classification::Move, 6), Ok(()));
    assert_eq!(tracker.slot(b), owned);
}

#[test]
fn dropped_is_final() {
    let (mut tracker, b) = one_binding();
    tracker.record_init(b, Location::Created(5), 5).unwrap();
    tracker.retire(b, 6);
    let dropped = Slot { ty: 7, scope: 0, state: Lifecycle::Dropped, since: 6, location: Location::Created(5) };
    assert_eq!(tracker.slot(b), Some(dropped));
    assert_eq!(tracker.record_use(b, UseMode::Read, Classification::Copy, 7), Err(UseError::UseAfterMove));
    assert_eq!(tracker.record_init(b, Location::Created(8), 8), Ok(()));
    assert_eq!(tracker.slot(b), Some(dropped));
    tracker.retire(b, 9);
    assert_eq!(tracker.slot(b), Some(dropped));
}

#[test]
fn an_undeclared_binding_is_unresolved() {
    let (mut tracker, _) = one_binding();
    assert_eq!(tracker.record_use(5, UseMode::Read, Classification::Copy, 4), Err(UseError::Unresolved));
    assert_eq!(tracker.record_init(5, Location::Created(4), 4), Err(UseError::Unresolved));
    tracker.retire(5, 4);
    assert_eq!(tracker.len(), 1);
}

#[test]
fn stamps_never_go_back() {
    let (mut tracker, b) = one_binding();
    tracker.record_init(b, Location::Created(9), 9).unwrap();
    // A change that is recorded with an earlier point is stamped with the
    // latest point seen.
    tracker.record_use(b, UseMode::Move, Classification::Move, 2).unwrap();
    assert_eq!(tracker.slot(b).unwrap().since, 9);
    let c = tracker.declare(1, 0, Location::Created(1), 1);
    assert_eq!(c, 1);
    assert_eq!(tracker.slot(c).unwrap().since, 9);
}

#[test]
fn the_analysis_can_return_to_an_earlier_point() {
    let mut tracker = Tracker::new();
    let a = tracker.declare(0, 0, Location::Created(0), 0);
    let b = tracker.declare(0, 0, Location::Created(1), 1);
    tracker.record_init(a, Location::Created(0), 0).unwrap();
    tracker.record_init(b, Location::Created(1), 1).unwrap();
    let base = tracker.prefix(2);
    assert_eq!(base.len(), 2);
    assert_eq!(tracker.prefix(1), vec![base[0]]);
    assert_eq!(tracker.prefix(9), base);
    assert_eq!(tracker.prefix(0), vec![]);
    tracker.record_use(a, UseMode::Move, Classification::Move, 2).unwrap();
    tracker.retire(b, 3);
    let c = tracker.declare(0, 1, Location::Created(4), 4);
    let later = tracker.slot(c);
    tracker.rewind(&base);
    assert_eq!(tracker.slot(a), Some(base[0]));
    assert_eq!(tracker.slot(b), Some(base[1]));
    // A binding that the earlier point does not know stays as it is.
    assert_eq!(tracker.slot(c), later);
    assert_eq!(tracker.len(), 3);
    tracker.rewind(&vec![]);
    assert_eq!(tracker.slot(a), Some(base[0]));
    let moved = Slot { state: Lifecycle::MovedFrom, since: 7, ..base[1] };
    tracker.put(b, moved);
    assert_eq!(tracker.slot(b), Some(moved));
    assert_eq!(tracker.slot(a), Some(base[0]));
    tracker.put(9, moved);
    assert_eq!(tracker.len(), 3);
}
