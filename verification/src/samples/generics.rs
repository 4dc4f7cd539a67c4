//! Generic functions and types, and traits as bounds.

use vstd::prelude::*;
use vstd::std_specs::cmp::{PartialOrdIs, PartialOrdSpec};
use vstd::string::StringExecFns;

verus! {

/// The largest among the first `k` items, as a scan from the left finds it:
/// an item replaces the one held when it is greater.
pub open spec fn largest_of<T: PartialOrd>(items: Seq<T>, k: usize) -> T
    decreases k,
{
    if k <= 1 {
        items[0]
    } else {
        let held = largest_of(items, (k - 1) as usize);
        if items[k - 1].is_gt(&held) {
            items[k - 1]
        } else {
            held
        }
    }
}

/// The largest of all items, as a scan from the left finds it.
pub open spec fn largest_in<T: PartialOrd>(items: Seq<T>) -> T {
    largest_of(items, items.len() as usize)
}

/// The largest item of a list that is not empty.
pub fn largest<T: PartialOrd + Copy>(list: &[T]) -> (max: T)
    requires
        list@.len() > 0,
        T::obeys_partial_cmp_spec(),
    ensures
        max == largest_in(list@),
{
    let mut largest = list[0];
    let mut i: usize = 1;
    while i < list.len()
        invariant
            1 <= i <= list@.len(),
            T::obeys_partial_cmp_spec(),
            largest == largest_of(list@, i),
        decreases list@.len() - i,
    {
        let item = list[i];
        if item > largest {
            largest = item;
        }
        i += 1;
    }
    largest
}

/// The largest item of a list that is not empty.
pub fn largest_with_trait<T: PartialOrd + Copy>(list: &[T]) -> (max: T)
    requires
        list@.len() > 0,
        T::obeys_partial_cmp_spec(),
    ensures
        max == largest_in(list@),
{
    largest(list)
}

#[derive(Debug)]
pub struct Point<T> {
    pub x: T,
    pub y: T,
}

impl<T> Point<T> {
    pub fn x(&self) -> (x: &T)
        ensures
            *x == self.x,
    {
        &self.x
    }
}

#[derive(Debug)]
pub struct Point2<T, U> {
    pub x: T,
    pub y: U,
}

/// Something that can be summed up in a line of text.
pub trait Summary {
    fn summarize(&self) -> String;
}

/// Something that can be shown as text.
pub trait Display {
    fn display(&self) -> String;
}

pub struct NewsArticle {
    pub headline: String,
    pub location: String,
    pub author: String,
    pub content: String,
}

impl NewsArticle {
    /// Headline, author and place in one line.
    pub open spec fn summary(&self) -> Seq<char> {
        self.headline@ + ", by "@ + self.author@ + " ("@ + self.location@ + ")"@
    }
}

impl Summary for NewsArticle {
    fn summarize(&self) -> (line: String)
        ensures
            line@ == self.summary(),
    {
        let mut line = self.headline.clone();
        line.append(", by ");
        line.append(self.author.as_str());
        line.append(" (");
        line.append(self.location.as_str());
        line.append(")");
        line
    }
}

pub struct Tweet {
    pub username: String,
    pub content: String,
    pub reply: bool,
    pub retweet: bool,
}

impl Tweet {
    /// User name and content in one line.
    pub open spec fn summary(&self) -> Seq<char> {
        self.username@ + ": "@ + self.content@
    }
}

impl Summary for Tweet {
    fn summarize(&self) -> (line: String)
        ensures
            line@ == self.summary(),
    {
        let mut line = self.username.clone();
        line.append(": ");
        line.append(self.content.as_str());
        line
    }
}

/// Always 0, whatever is handed in.
pub fn some_function<T, U>(t: &T, u: &U) -> (r: i32) where
    T: Summary + Clone,
    U: Clone + std::fmt::Debug,
    ensures
        r == 0,
{
    0
}

/// A tweet, handed out as something that can be summed up.
pub fn returns_summarizable() -> (r: Tweet)
    ensures
        r.username@ == "horse_ebooks"@,
        r.content@ == "of course, as you probably already know, people"@,
        !r.reply,
        !r.retweet,
{
    Tweet {
        username: "horse_ebooks".to_owned(),
        content: "of course, as you probably already know, people".to_owned(),
        reply: false,
        retweet: false,
    }
}

pub struct Pair<T> {
    pub x: T,
    pub y: T,
}

impl<T> Pair<T> {
    pub fn new(x: T, y: T) -> (pair: Self)
        ensures
            pair.x == x,
            pair.y == y,
    {
        Self { x, y }
    }
}

} // verus!
