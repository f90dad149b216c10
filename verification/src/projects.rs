//! Project records looked up by id in a fixed table, and the comparison of
//! two projects' durations.
use vstd::prelude::*;

verus! {

pub struct Project {
    pub id: u32,
    pub name: String,
    pub duration_days: u32,
}

impl Project {
    pub fn new(id: u32, name: &str, duration_days: u32) -> (p: Self)
        ensures
            p.id == id,
            p.name@ == name@,
            p.duration_days == duration_days,
    {
        Self { id, name: name.to_owned(), duration_days }
    }
}

/// The records of the table: id, name and duration in days.
pub open spec fn record(id: u32) -> Option<(Seq<char>, u32)> {
    if id == 1 {
        Some(("Project Alpha"@, 30))
    } else if id == 2 {
        Some(("Project Beta"@, 45))
    } else if id == 3 {
        Some(("Project Gamma"@, 30))
    } else {
        None
    }
}

/// Looks a project up by id in the table.
pub fn read_details_from_db(id: u32) -> (r: Result<Project, String>)
    ensures
        match (r, record(id)) {
            (Ok(p), Some((name, days))) => p.id == id && p.name@ == name && p.duration_days == days,
            (Err(m), None) => m@ == "Project record not present"@,
            _ => false,
        },
        r is Ok <==> (id == 1 || id == 2 || id == 3),
        !(id == 1 || id == 2 || id == 3) ==> (r matches Err(m) && m@ == "Project record not present"@),
{
    let database = vec![
        Project::new(1, "Project Alpha", 30),
        Project::new(2, "Project Beta", 45),
        Project::new(3, "Project Gamma", 30),
    ];
    let ghost table = database@;
    let mut database = database;
    let mut i: usize = 0;
    while i < database.len()
        invariant
            i <= database.len(),
            database@ == table,
            table.len() == 3,
            table[0].id == 1 && table[0].name@ == "Project Alpha"@ && table[0].duration_days == 30,
            table[1].id == 2 && table[1].name@ == "Project Beta"@ && table[1].duration_days == 45,
            table[2].id == 3 && table[2].name@ == "Project Gamma"@ && table[2].duration_days == 30,
            forall|k: int| 0 <= k < i ==> table[k].id != id,
        decreases database.len() - i,
    {
        if database[i].id == id {
            let project = database.remove(i);
            return Ok(project);
        }
        i = i + 1;
    }
    Err("Project record not present".to_owned())
}

/// The table holds exactly the projects 1 (Project Alpha, 30 days),
/// 2 (Project Beta, 45 days) and 3 (Project Gamma, 30 days); every other id
/// is missing.
pub proof fn law_project_table(id: u32)
    ensures
        record(id) is Some <==> (id == 1 || id == 2 || id == 3),
        id == 1 ==> record(id) == Some(("Project Alpha"@, 30u32)),
        id == 2 ==> record(id) == Some(("Project Beta"@, 45u32)),
        id == 3 ==> record(id) == Some(("Project Gamma"@, 30u32)),
{
}

/// Which of two projects takes longer, and by how many days.
pub enum Comparison {
    FirstLonger(u32),
    SecondLonger(u32),
    Same,
}

pub fn compare_durations(first: &Project, second: &Project) -> (c: Comparison)
    ensures
        first.duration_days > second.duration_days ==> c == Comparison::FirstLonger(
            (first.duration_days - second.duration_days) as u32,
        ),
        second.duration_days > first.duration_days ==> c == Comparison::SecondLonger(
            (second.duration_days - first.duration_days) as u32,
        ),
        first.duration_days == second.duration_days ==> c == Comparison::Same,
{
    if first.duration_days > second.duration_days {
        Comparison::FirstLonger(first.duration_days - second.duration_days)
    } else if second.duration_days > first.duration_days {
        Comparison::SecondLonger(second.duration_days - first.duration_days)
    } else {
        Comparison::Same
    }
}

} // verus!
