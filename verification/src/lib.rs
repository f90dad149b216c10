use vstd::prelude::*;

pub mod bank;
pub mod exercises;
pub mod calc;
pub mod functions;
pub mod futures;
pub mod geometry;
pub mod grammar;
pub mod ownership;
pub mod production;
pub mod projects;
pub mod students;
pub mod text_laws;

verus! {

} // verus!
