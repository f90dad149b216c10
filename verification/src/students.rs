//! A student register keyed by id, where an id is never overwritten.
use vstd::prelude::*;
use std::collections::HashMap;

verus! {

broadcast use vstd::std_specs::hash::group_hash_axioms;

pub struct Student {
    pub name: String,
    pub age: i32,
    pub grade: String,
}

/// Registers a student under `id` unless the id is taken; returns whether
/// the student was added.
pub fn add_student(
    student_database: &mut HashMap<i32, Student>,
    id: i32,
    name: String,
    age: i32,
    grade: String,
) -> (added: bool)
    ensures
        added == !old(student_database)@.contains_key(id),
        added ==> final(student_database)@ == old(student_database)@.insert(
            id,
            Student { name, age, grade },
        ),
        !added ==> final(student_database)@ == old(student_database)@,
{
    let student = Student { name, age, grade };
    if student_database.contains_key(&id) {
        false
    } else {
        student_database.insert(id, student);
        true
    }
}

} // verus!
