use ownership_verifier::classify::Classification;
use ownership_verifier::drops::{on_scope_exit, type_is_reference, DropAction};
use ownership_verifier::model::{Location, TypeDef, TypeKind, TypeTable};
use ownership_verifier::tracker::{Tracker, UseMode};

/// 0 is a scalar, 1 is a reference to it.
fn table() -> TypeTable {
    TypeTable {
        defs: vec![
            TypeDef { name: String::from("Widget"), kind: TypeKind::Scalar },
            TypeDef { name: String::from("&Widget"), kind: TypeKind::Reference { mutable: false, target: 0 } },
        ],
    }
}

fn owned(tracker: &mut Tracker, ty: usize, scope: usize, point: usize) -> usize {
    let b = tracker.declare(ty, scope, Location::Created(point), point);
    tracker.record_init(b, Location::Created(point), point).unwrap();
    b
}

#[test]
fn drop_order_is_reverse_declaration_order() {
    let t = table();
    let mut tracker = Tracker::new();
    let a = owned(&mut tracker, 0, 0, 0);
    let b = owned(&mut tracker, 0, 0, 1);
    let c = owned(&mut tracker, 0, 0, 2);
    assert_eq!(
        on_scope_exit(&t, &tracker, 0),
        vec![
            DropAction { binding: c, location: Location::Created(2) },
            DropAction { binding: b, location: Location::Created(1) },
            DropAction { binding: a, location: Location::Created(0) },
        ]
    );
}

#[test]
fn moved_and_dropped_bindings_are_left_out() {
    let t = table();
    let mut tracker = Tracker::new();
    let a = owned(&mut tracker, 0, 0, 0);
    let b = owned(&mut tracker, 0, 0, 1);
    let c = owned(&mut tracker, 0, 0, 2);
    let d = owned(&mut tracker, 0, 0, 3);
    tracker.record_use(b, UseMode::Move, Classification::Move, 4).unwrap();
    tracker.retire(d, 5);
    assert_eq!(
        on_scope_exit(&t, &tracker, 0),
        vec![
            DropAction { binding: c, location: Location::Created(2) },
            DropAction { binding: a, location: Location::Created(0) },
        ]
    );
}

#[test]
fn references_are_never_released() {
    let t = table();
    let mut tracker = Tracker::new();
    let a = owned(&mut tracker, 0, 0, 0);
    let _r = owned(&mut tracker, 1, 0, 1);
    assert_eq!(on_scope_exit(&t, &tracker, 0), vec![DropAction { binding: a, location: Location::Created(0) }]);
    assert!(type_is_reference(&t, 1));
    assert!(!type_is_reference(&t, 0));
    assert!(!type_is_reference(&t, 2));
}

#[test]
fn only_the_bindings_of_the_scope_are_released() {
    let t = table();
    let mut tracker = Tracker::new();
    let outer = owned(&mut tracker, 0, 0, 0);
    let inner = owned(&mut tracker, 0, 1, 1);
    let later = owned(&mut tracker, 0, 0, 2);
    assert_eq!(
        on_scope_exit(&t, &tracker, 1),
        vec![DropAction { binding: inner, location: Location::Created(1) }]
    );
    assert_eq!(
        on_scope_exit(&t, &tracker, 0),
        vec![
            DropAction { binding: later, location: Location::Created(2) },
            DropAction { binding: outer, location: Location::Created(0) },
        ]
    );
    assert_eq!(on_scope_exit(&t, &tracker, 2), vec![]);
}

#[test]
fn a_binding_without_a_value_is_released_too() {
    let t = table();
    let mut tracker = Tracker::new();
    let a = tracker.declare(0, 0, Location::Created(0), 0);
    assert_eq!(on_scope_exit(&t, &tracker, 0), vec![DropAction { binding: a, location: Location::Created(0) }]);
    assert_eq!(on_scope_exit(&t, &Tracker::new(), 0), vec![]);
}
