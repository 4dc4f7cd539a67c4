//! The words of the language at work: structs, enums, methods, results.

use vstd::prelude::*;
use vstd::string::StringSliceAdditionalSpecFns;

verus! {

pub struct Person {
    pub name: String,
    pub age: u32,
}

#[derive(Clone, Copy, PartialEq, Eq, Debug, Structural)]
pub enum Status {
    Active,
    Inactive,
}

impl Person {
    pub fn new(name: String, age: u32) -> (p: Person)
        ensures
            p.name == name,
            p.age == age,
    {
        Person { name, age }
    }

    /// A person without a name, aged 0.
    pub fn new_person() -> (p: Self)
        ensures
            p.name@ == Seq::<char>::empty(),
            p.age == 0,
    {
        Person { name: String::new(), age: 0 }
    }
}

/// The sum of two numbers.
pub fn add(a: i32, b: i32) -> (sum: i32)
    requires
        i32::MIN <= a + b <= i32::MAX,
    ensures
        sum == a + b,
{
    return a + b;
}

/// Always 0, whatever is handed in.
pub fn some_function<T, U>(t: T, u: U) -> (r: i32) where T: Clone, U: Copy
    ensures
        r == 0,
{
    0
}

pub struct PublicStruct {
    pub field: i32,
}

/// Always succeeds with 42.
pub fn some_result_function() -> (r: Result<i32, &'static str>)
    ensures
        r == Ok::<i32, &'static str>(42),
{
    Ok(42)
}

/// Hands on what `some_result_function` gives.
pub fn example() -> (r: Result<i32, &'static str>)
    ensures
        r == Ok::<i32, &'static str>(42),
{
    let x = some_result_function()?;
    Ok(x)
}

/// The longer of two texts, counted in bytes; the second when they are equal.
pub fn longest<'a>(x: &'a str, y: &'a str) -> (r: &'a str)
    ensures
        r == (if x.spec_bytes().len() as usize > y.spec_bytes().len() as usize {
            x
        } else {
            y
        }),
{
    if x.len() > y.len() {
        x
    } else {
        y
    }
}

#[derive(Clone, Copy, PartialEq, Eq, Debug, Structural)]
pub struct MyStruct {
    pub value: i32,
}

/// A point in the plane.
pub struct Point {
    x: i32,
    y: i32,
}

impl Point {
    /// The two coordinates.
    pub closed spec fn position(self) -> (i32, i32) {
        (self.x, self.y)
    }

    pub fn new(x: i32, y: i32) -> (p: Self)
        ensures
            p.position() == (x, y),
    {
        Self { x, y }
    }

    /// The two coordinates.
    pub fn coordinates(&self) -> (c: (i32, i32))
        ensures
            c == self.position(),
    {
        (self.x, self.y)
    }
}

} // verus!
