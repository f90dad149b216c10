//! Functions that return values, and a tuple of results.
use vstd::prelude::*;

verus! {

/// The product of two numbers.
pub fn multiplication(num1: i32, num2: i32) -> (r: i32)
    requires
        i32::MIN <= num1 * num2 <= i32::MAX,
    ensures
        r == num1 * num2,
{
    num1 * num2
}

/// The product, the sum and the difference of two numbers.
pub fn basic_math(num1: i32, num2: i32) -> (r: (i32, i32, i32))
    requires
        i32::MIN <= num1 * num2 <= i32::MAX,
        i32::MIN <= num1 + num2 <= i32::MAX,
        i32::MIN <= num1 - num2 <= i32::MAX,
    ensures
        r.0 == num1 * num2,
        r.1 == num1 + num2,
        r.2 == num1 - num2,
{
    (num1 * num2, num1 + num2, num1 - num2)
}

} // verus!
