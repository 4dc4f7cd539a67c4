use ownership_verifier::samples::keywords::{
    add, example, longest, some_function, some_result_function, MyStruct, Person, Point, PublicStruct, Status,
};

#[test]
fn test_example() {
    assert_eq!(2 + 2, 4);
}

#[test]
fn point_new_keeps_coordinates() {
    let point = Point::new(1, 2);
    assert_eq!(point.coordinates(), (1, 2));
}

#[test]
fn keyword_functions() {
    assert_eq!(add(3, 4), 7);
    assert_eq!(some_result_function(), Ok(42));
    assert_eq!(example(), Ok(42));
    let nobody = Person::new_person();
    assert_eq!(nobody.name, "");
    assert_eq!(nobody.age, 0);
    let alice = Person::new(String::from("Alice"), 30);
    assert_eq!(alice.name, "Alice");
    assert_eq!(alice.age, 30);
}

#[test]
fn more_keyword_items() {
    assert_eq!(longest("abcd", "xyz"), "abcd");
    assert_eq!(longest("abc", "xyz"), "xyz");
    assert_eq!(some_function(String::from("t"), 1u8), 0);
    assert_eq!(PublicStruct { field: 3 }.field, 3);
    assert_eq!(MyStruct { value: 1 }, MyStruct { value: 1 });
    assert_ne!(Status::Active, Status::Inactive);
}
