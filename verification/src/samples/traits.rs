//! Traits: shared behaviour, default methods, operators, associated types.

use vstd::prelude::*;
use vstd::string::StringExecFns;

verus! {

/// Something that can be summed up in a line of text.
pub trait Summary {
    /// The line of text that sums the value up. A type that does not say
    /// what its line is leaves it open.
    open spec fn summary_line(&self) -> Seq<char> {
        arbitrary()
    }

    /// The line of text that sums the value up.
    fn summarize(&self) -> (line: String)
        ensures
            line@ == self.summary_line(),
    ;
}

/// Something with an author, summed up by a line that every implementor
/// shares unless it writes its own.
pub trait Summary2 {
    fn summarize(&self) -> (line: String)
        ensures
            line@ == "(Read more...)"@,
    {
        "(Read more...)".to_owned()
    }

    fn summarize_author(&self) -> String;
}

pub struct NewsArticle {
    pub headline: String,
    pub location: String,
    pub author: String,
    pub content: String,
}

impl NewsArticle {
    /// Headline, author and place in one line.
    pub open spec fn summary(&self) -> Seq<char> {
        self.headline@ + ", by "@ + self.author@ + " ("@ + self.location@ + ")"@
    }

    /// Headline, author and place in one line.
    pub fn line(&self) -> (line: String)
        ensures
            line@ == self.summary(),
    {
        let mut line = self.headline.clone();
        line.append(", by ");
        line.append(self.author.as_str());
        line.append(" (");
        line.append(self.location.as_str());
        line.append(")");
        line
    }
}

impl Summary for NewsArticle {
    open spec fn summary_line(&self) -> Seq<char> {
        self.summary()
    }

    fn summarize(&self) -> String {
        self.line()
    }
}

impl Summary2 for NewsArticle {
    fn summarize_author(&self) -> (line: String)
        ensures
            line@ == "@"@ + self.author@,
    {
        let mut line = "@".to_owned();
        line.append(self.author.as_str());
        line
    }
}

pub struct Tweet {
    pub username: String,
    pub content: String,
    pub reply: bool,
    pub retweet: bool,
}

impl Tweet {
    /// User name and content in one line.
    pub open spec fn summary(&self) -> Seq<char> {
        self.username@ + ": "@ + self.content@
    }

    /// User name and content in one line.
    pub fn line(&self) -> (line: String)
        ensures
            line@ == self.summary(),
    {
        let mut line = self.username.clone();
        line.append(": ");
        line.append(self.content.as_str());
        line
    }
}

impl Summary for Tweet {
    open spec fn summary_line(&self) -> Seq<char> {
        self.summary()
    }

    fn summarize(&self) -> String {
        self.line()
    }
}

impl Summary2 for Tweet {
    fn summarize_author(&self) -> (line: String)
        ensures
            line@ == "@"@ + self.username@,
    {
        let mut line = "@".to_owned();
        line.append(self.username.as_str());
        line
    }
}

/// Always 0, whatever is handed in.
pub fn some_function<T, U>(t: &T, u: &U) -> (r: i32) where
    T: Summary + Clone,
    U: Clone + std::fmt::Debug,
    ensures
        r == 0,
{
    0
}

/// A tweet, handed out as something that can be summed up.
pub fn returns_summarizable() -> (r: Tweet)
    ensures
        r.username@ == "horse_ebooks"@,
        r.content@ == "of course, as you probably already know, people"@,
        !r.reply,
        !r.retweet,
{
    Tweet {
        username: "horse_ebooks".to_owned(),
        content: "of course, as you probably already know, people".to_owned(),
        reply: false,
        retweet: false,
    }
}

pub struct Pair<T> {
    pub x: T,
    pub y: T,
}

impl<T> Pair<T> {
    pub fn new(x: T, y: T) -> (pair: Self)
        ensures
            pair.x == x,
            pair.y == y,
    {
        Self { x, y }
    }
}

#[derive(Clone, Copy, Debug, PartialEq, Eq, Structural)]
pub struct Point {
    pub x: i32,
    pub y: i32,
}

impl std::ops::Add for Point {
    type Output = Point;

    /// The sum of two points, coordinate by coordinate.
    fn add(self, other: Point) -> (sum: Point) {
        Point { x: self.x + other.x, y: self.y + other.y }
    }
}

impl vstd::std_specs::ops::AddSpecImpl for Point {
    open spec fn obeys_add_spec() -> bool {
        true
    }

    /// Both sums are 32-bit numbers.
    open spec fn add_req(self, other: Point) -> bool {
        &&& i32::MIN <= self.x + other.x <= i32::MAX
        &&& i32::MIN <= self.y + other.y <= i32::MAX
    }

    open spec fn add_spec(self, other: Point) -> Point {
        Point { x: (self.x + other.x) as i32, y: (self.y + other.y) as i32 }
    }
}

/// Something that hands out items one after the other until none is left.
pub trait Iterator {
    type Item;

    /// One more step can be taken.
    spec fn can_advance(&self) -> bool;

    fn next(&mut self) -> Option<Self::Item>
        requires
            old(self).can_advance(),
    ;
}

/// Counts from 1 to 5.
pub struct Counter {
    pub count: u32,
}

impl Counter {
    pub fn new() -> (counter: Counter)
        ensures
            counter.count == 0,
    {
        Counter { count: 0 }
    }
}

impl Iterator for Counter {
    type Item = u32;

    open spec fn can_advance(&self) -> bool {
        self.count < u32::MAX
    }

    /// Moves on by one and hands out the new count while it is below 6.
    fn next(&mut self) -> (item: Option<u32>)
        ensures
            final(self).count == old(self).count + 1,
            item == (if final(self).count < 6 {
                Some(final(self).count)
            } else {
                None
            }),
    {
        self.count += 1;
        if self.count < 6 {
            Some(self.count)
        } else {
            None
        }
    }
}

} // verus!
