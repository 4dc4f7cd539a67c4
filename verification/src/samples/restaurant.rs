//! A struct with one public and one private field, and an enum whose variants
//! are all public.

use vstd::prelude::*;

verus! {

pub struct Breakfast {
    pub toast: String,
    seasonal_fruit: String,
}

impl Breakfast {
    /// The toast of the breakfast.
    pub closed spec fn bread(self) -> Seq<char> {
        self.toast@
    }

    /// The fruit that comes with the breakfast. The caller cannot choose it.
    pub closed spec fn fruit(self) -> Seq<char> {
        self.seasonal_fruit@
    }

    /// A summer breakfast with the given toast. The fruit is peaches.
    pub fn summer(toast: &str) -> (b: Breakfast)
        ensures
            b.bread() == toast@,
            b.fruit() == "peaches"@,
    {
        Breakfast { toast: toast.to_owned(), seasonal_fruit: "peaches".to_owned() }
    }
}

#[derive(Clone, Copy, PartialEq, Eq, Debug, Structural)]
pub enum Appetizer {
    Soup,
    Salad,
}

} // verus!
