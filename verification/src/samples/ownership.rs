//! Ownership at function boundaries: a value is handed out, handed through,
//! borrowed, or borrowed mutably.

use vstd::prelude::*;
use vstd::string::StringExecFns;
use vstd::utf8::encode_utf8;

verus! {

/// Makes a string and hands its ownership to the caller.
pub fn gives_ownership() -> (s: String)
    ensures
        s@ == "hello"@,
{
    let some_string = "hello".to_owned();
    some_string
}

/// Takes a string and hands the same string back.
pub fn takes_and_gives_back(a_string: String) -> (s: String)
    ensures
        s == a_string,
{
    a_string
}

/// The length in bytes of a borrowed string.
pub fn calculate_length(s: &String) -> (n: usize)
    ensures
        n == encode_utf8(s@).len() as usize,
{
    let slice = s.as_str();
    assert(slice@ == s@);
    slice.len()
}

/// Appends `", world"` to a mutably borrowed string.
pub fn change(some_string: &mut String)
    ensures
        final(some_string)@ == old(some_string)@ + ", world"@,
{
    some_string.append(", world");
}

} // verus!
