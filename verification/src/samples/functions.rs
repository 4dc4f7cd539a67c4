//! Plain functions: arguments, results, early return, functions as values.

use vstd::prelude::*;

verus! {

/// The distance of `x` from zero.
pub open spec fn magnitude(x: int) -> int {
    if x < 0 {
        -x
    } else {
        x
    }
}

/// The quotient of `x` by `y`, rounded towards zero: the quotient of the
/// magnitudes, with the sign that the signs of `x` and `y` give.
pub open spec fn quotient(x: int, y: int) -> int {
    if (x < 0) == (y < 0) {
        magnitude(x) / magnitude(y)
    } else {
        -(magnitude(x) / magnitude(y))
    }
}

/// A quotient of magnitudes is no larger than the dividend, and at most half
/// of it when the divisor is 2 or more.
pub proof fn lemma_quotient_bound(a: int, b: int)
    requires
        0 <= a,
        1 <= b,
    ensures
        0 <= a / b <= a,
        b >= 2 ==> 2 * (a / b) <= a,
{
    assert(0 <= a / b <= a) by (nonlinear_arith)
        requires
            0 <= a,
            1 <= b,
    ;
    if b >= 2 {
        assert(2 * (a / b) <= a) by (nonlinear_arith)
            requires
                0 <= a,
                2 <= b,
        ;
    }
}

/// The sum of two numbers.
pub fn add(x: i32, y: i32) -> (sum: i32)
    requires
        i32::MIN <= x + y <= i32::MAX,
    ensures
        sum == x + y,
{
    return x + y;
}

/// The product of two numbers.
pub fn multiply(x: i32, y: i32) -> (product: i32)
    requires
        i32::MIN <= x * y <= i32::MAX,
    ensures
        product == x * y,
{
    x * y
}

/// The quotient of `x` by `y`, rounded towards zero; 0 when `y` is 0.
pub fn divide(x: i32, y: i32) -> (q: i32)
    requires
        !(x == i32::MIN && y == -1),
    ensures
        q == (if y == 0 {
            0
        } else {
            quotient(x as int, y as int)
        }),
{
    if y == 0 {
        return 0;
    }
    signed_quotient(x, y)
}

/// The quotient of `x` by `y`, rounded towards zero.
pub fn signed_quotient(x: i32, y: i32) -> (q: i32)
    requires
        y != 0,
        !(x == i32::MIN && y == -1),
    ensures
        q == quotient(x as int, y as int),
{
    let a: i64 = if x < 0 {
        -(x as i64)
    } else {
        x as i64
    };
    let b: i64 = if y < 0 {
        -(y as i64)
    } else {
        y as i64
    };
    proof {
        lemma_quotient_bound(a as int, b as int);
    }
    let m: i64 = a / b;
    if (x < 0) == (y < 0) {
        m as i32
    } else {
        (-m) as i32
    }
}

/// Sum, difference and product of two numbers.
pub fn calculate(x: i32, y: i32) -> (r: (i32, i32, i32))
    requires
        i32::MIN <= x + y <= i32::MAX,
        i32::MIN <= x - y <= i32::MAX,
        i32::MIN <= x * y <= i32::MAX,
    ensures
        r.0 == x + y,
        r.1 == x - y,
        r.2 == x * y,
{
    (x + y, x - y, x * y)
}

/// Applies `f` to `x` and then to what came out.
pub fn apply_twice<F: Fn(i32) -> i32>(f: F, x: i32) -> (r: i32)
    requires
        call_requires(f, (x,)),
        forall|y: i32| call_ensures(f, (x,), y) ==> call_requires(f, (y,)),
    ensures
        exists|y: i32| call_ensures(f, (x,), y) && call_ensures(f, (y,), r),
{
    f(f(x))
}

/// Hands its argument back.
pub fn identity<T>(x: T) -> (r: T)
    ensures
        r == x,
{
    x
}

} // verus!
