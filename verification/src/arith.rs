//! Arithmetic on numbers. A result that does not fit in 64 bits wraps
//! round in two's complement.

use vstd::prelude::*;

verus! {

/// The signed 64-bit number that the integer `x` wraps to.
pub open spec fn wrap(x: int) -> i64 {
    let low = x % 0x1_0000_0000_0000_0000;
    if low > i64::MAX {
        (low - 0x1_0000_0000_0000_0000) as i64
    } else {
        low as i64
    }
}

/// The quotient of `x` by `y`, rounded toward zero; `y` is not zero.
pub open spec fn quotient(x: int, y: int) -> int {
    if x >= 0 && y > 0 {
        x / y
    } else if x < 0 && y < 0 {
        (-x) / (-y)
    } else if x < 0 {
        -((-x) / y)
    } else {
        -(x / (-y))
    }
}

/// The sum, wrapped.
pub fn num_add(x: i64, y: i64) -> (r: i64)
    ensures
        r == wrap(x + y),
{
    x.wrapping_add(y)
}

/// The difference, wrapped.
pub fn num_sub(x: i64, y: i64) -> (r: i64)
    ensures
        r == wrap(x - y),
{
    x.wrapping_sub(y)
}

/// The product, wrapped.
pub fn num_mul(x: i64, y: i64) -> (r: i64)
    ensures
        r == wrap(x * y),
{
    x.wrapping_mul(y)
}

/// The quotient rounded toward zero, wrapped; `None` when `y` is zero.
pub fn num_div(x: i64, y: i64) -> (r: Option<i64>)
    ensures
        y == 0 ==> r is None,
        y != 0 ==> r == Some(wrap(quotient(x as int, y as int))),
{
    if y == 0 {
        None
    } else {
        match x.checked_div(y) {
            Some(q) => Some(q),
            None => Some(i64::MIN),
        }
    }
}

/// The negation, wrapped.
pub fn num_neg(x: i64) -> (r: i64)
    ensures
        r == wrap(-x),
{
    0i64.wrapping_sub(x)
}

} // verus!
