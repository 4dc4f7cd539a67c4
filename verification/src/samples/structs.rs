//! Structs with methods that borrow, borrow mutably, or consume.

use vstd::prelude::*;

verus! {

#[derive(Debug)]
pub struct Rectangle {
    pub width: u32,
    pub height: u32,
}

impl Rectangle {
    /// Width times height.
    pub fn area(&self) -> (a: u32)
        requires
            self.width * self.height <= u32::MAX,
        ensures
            a == self.width * self.height,
    {
        self.width * self.height
    }

    /// Doubles both sides.
    pub fn double_size(&mut self)
        requires
            2 * old(self).width <= u32::MAX,
            2 * old(self).height <= u32::MAX,
        ensures
            final(self).width == 2 * old(self).width,
            final(self).height == 2 * old(self).height,
    {
        self.width *= 2;
        self.height *= 2;
    }

    /// Width and height.
    pub fn into_tuple(self) -> (sides: (u32, u32))
        ensures
            sides == (self.width, self.height),
    {
        (self.width, self.height)
    }

    /// Whether `other` fits inside with room to spare on both sides.
    pub fn can_hold(&self, other: &Rectangle) -> (yes: bool)
        ensures
            yes == (self.width > other.width && self.height > other.height),
    {
        self.width > other.width && self.height > other.height
    }

    /// A rectangle with equal sides.
    pub fn square(size: u32) -> (r: Rectangle)
        ensures
            r.width == size,
            r.height == size,
    {
        Rectangle { width: size, height: size }
    }

    /// Twice the sum of width and height.
    pub fn perimeter(&self) -> (p: u32)
        requires
            2 * (self.width + self.height) <= u32::MAX,
        ensures
            p == 2 * (self.width + self.height),
    {
        2 * (self.width + self.height)
    }
}

pub struct Person {
    pub name: String,
    pub age: u32,
}

impl Person {
    pub fn get_age(&self) -> (age: u32)
        ensures
            age == self.age,
    {
        self.age
    }

    /// Makes the person one year older.
    pub fn have_birthday(&mut self)
        requires
            old(self).age < u32::MAX,
        ensures
            final(self).age == old(self).age + 1,
            final(self).name == old(self).name,
    {
        self.age += 1;
    }

    pub fn new(name: String, age: u32) -> (p: Person)
        ensures
            p.name == name,
            p.age == age,
    {
        Person { name, age }
    }
}

} // verus!
