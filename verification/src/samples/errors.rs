//! Recoverable errors: results, errors of one's own, and errors that are
//! turned into something else on the way.

use vstd::prelude::*;
use vstd::string::StringExecFns;
use crate::samples::functions::{quotient, signed_quotient};

verus! {

#[derive(Clone, Copy, PartialEq, Eq, Debug, Structural)]
pub enum DivisionError {
    DivisionByZero,
}

/// The quotient of `a` by `b`, rounded towards zero. Division by zero is an
/// error.
pub fn divide(a: i32, b: i32) -> (r: Result<i32, DivisionError>)
    requires
        !(a == i32::MIN && b == -1),
    ensures
        r == (if b == 0 {
            Err::<i32, DivisionError>(DivisionError::DivisionByZero)
        } else {
            Ok::<i32, DivisionError>(quotient(a as int, b as int) as i32)
        }),
{
    if b == 0 {
        Err(DivisionError::DivisionByZero)
    } else {
        Ok(signed_quotient(a, b))
    }
}

/// What the standard library reads out of a text as a 32-bit number: the
/// number, or the text of its complaint.
pub uninterp spec fn read_i32(text: Seq<char>) -> Result<i32, Seq<char>>;

/// Calls `str::parse::<i32>`. The result is the one that the standard library
/// gives for this text, the error turned into its text.
#[verifier::external_body]
fn parse_i32(s: &str) -> (r: Result<i32, String>)
    ensures
        match r {
            Ok(n) => read_i32(s@) == Ok::<i32, Seq<char>>(n),
            Err(text) => read_i32(s@) == Err::<i32, Seq<char>>(text@),
        },
{
    match s.parse::<i32>() {
        Ok(n) => Ok(n),
        Err(e) => Err(e.to_string()),
    }
}

/// What `parse_number` makes of a text: the number read, or the complaint
/// behind a fixed prefix.
pub open spec fn number_of(text: Seq<char>) -> Result<i32, Seq<char>> {
    match read_i32(text) {
        Ok(n) => Ok(n),
        Err(complaint) => Err("解析错误: "@ + complaint),
    }
}

/// The view of a result with a text as its error.
pub open spec fn seen(r: Result<i32, String>) -> Result<i32, Seq<char>> {
    match r {
        Ok(n) => Ok(n),
        Err(text) => Err(text@),
    }
}

/// Reads a number out of a text. The error is a message.
pub fn parse_number(s: &str) -> (r: Result<i32, String>)
    ensures
        seen(r) == number_of(s@),
{
    match parse_i32(s) {
        Ok(n) => Ok(n),
        Err(complaint) => {
            let mut message = "解析错误: ".to_owned();
            message.append(complaint.as_str());
            Err(message)
        },
    }
}

/// Twice a number, if that is something to be had.
pub open spec fn doubled(r: Result<i32, Seq<char>>) -> Result<i32, Seq<char>> {
    match r {
        Ok(n) => Ok((2 * n) as i32),
        Err(message) => Err(message),
    }
}

/// Twice the number handed in; an error is handed on.
pub fn double(r: Result<i32, String>) -> (twice: Result<i32, String>)
    requires
        r matches Ok(n) ==> i32::MIN <= 2 * n <= i32::MAX,
    ensures
        seen(twice) == doubled(seen(r)),
{
    match r {
        Ok(n) => Ok(n * 2),
        Err(message) => Err(message),
    }
}

/// Reads a number out of a text and doubles it.
pub fn double_parse(s: &str) -> (r: Result<i32, String>)
    requires
        number_of(s@) matches Ok(n) ==> i32::MIN <= 2 * n <= i32::MAX,
    ensures
        seen(r) == doubled(number_of(s@)),
{
    double(parse_number(s))
}

/// Reads a number out of a text and doubles it, where the double is a 32-bit
/// number; `None` where it is not.
pub fn double_parse_checked(s: &str) -> (r: Option<Result<i32, String>>)
    ensures
        match number_of(s@) {
            Ok(n) => if i32::MIN <= 2 * n <= i32::MAX {
                r matches Some(twice) && seen(twice) == doubled(number_of(s@))
            } else {
                r is None
            },
            Err(_) => r matches Some(twice) && seen(twice) == doubled(number_of(s@)),
        },
{
    let fits = match parse_number(s) {
        Ok(n) => -1073741824 <= n && n <= 1073741823,
        Err(_) => true,
    };
    if fits {
        Some(double_parse(s))
    } else {
        None
    }
}

/// What came out, or 0 in place of an error.
pub open spec fn or_zero(r: Result<i32, Seq<char>>) -> i32 {
    match r {
        Ok(n) => n,
        Err(_) => 0,
    }
}

/// Reads a number out of a text; 0 where there is none to read.
pub fn get_number(s: &str) -> (r: Result<i32, String>)
    ensures
        seen(r) == Ok::<i32, Seq<char>>(or_zero(number_of(s@))),
{
    match parse_number(s) {
        Ok(n) => Ok(n),
        Err(_) => Ok(0),
    }
}

} // verus!
