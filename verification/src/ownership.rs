//! Passing vectors into and out of functions: by mutable borrow, by
//! returning a fresh value, and by taking ownership and handing it back.
use vstd::prelude::*;

verus! {

/// Appends `10` to the vector it borrows mutably.
pub fn mutably_borrows_vec(vec: &mut Vec<i32>)
    ensures
        final(vec)@ == old(vec)@.push(10),
{
    vec.push(10);
}

/// Gives the caller a new vector `[4, 5, 6]`.
pub fn gives_ownership() -> (v: Vec<i32>)
    ensures
        v@ == seq![4i32, 5, 6],
{
    vec![4, 5, 6]
}

/// Gives the caller a new vector `[4, 5, 6]`.
pub fn gives_ovnership() -> (v: Vec<i32>)
    ensures
        v@ == seq![4i32, 5, 6],
{
    vec![4, 5, 6]
}

/// Takes a vector, appends `10`, and hands it back.
pub fn takes_and_gives_back(vec: Vec<i32>) -> (r: Vec<i32>)
    ensures
        r@ == vec@.push(10),
{
    let mut vec = vec;
    vec.push(10);
    vec
}

} // verus!
