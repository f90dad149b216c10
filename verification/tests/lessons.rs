use lessons::exercises::{grade_by_ladder, grade_by_ranges, sum_of_multiples_of_3_and_5, sum_square_difference};
use lessons::bank::BankAccount;
use lessons::functions::{basic_math, multiplication};
use lessons::futures::{fetch_manual, plain_fetch, FetchStep, PlainStep, Readiness, YieldOnce};
use lessons::geometry::{Addition, Line, Point};
use lessons::ownership::{gives_ovnership, gives_ownership, mutably_borrows_vec, takes_and_gives_back};
use lessons::production::{monthly_insurence, selling_price, speed_band, SpeedBand};
use lessons::projects::{compare_durations, read_details_from_db, Comparison, Project};
use lessons::students::add_student;
use std::collections::HashMap;

#[test]
fn vectors_move_in_and_out() {
    let mut v = vec![1, 2, 3];
    mutably_borrows_vec(&mut v);
    assert_eq!(v, vec![1, 2, 3, 10]);
    assert_eq!(gives_ownership(), vec![4, 5, 6]);
    assert_eq!(gives_ovnership(), vec![4, 5, 6]);
    assert_eq!(takes_and_gives_back(vec![4, 5, 6]), vec![4, 5, 6, 10]);
}

#[test]
fn arithmetic_results() {
    assert_eq!(multiplication(10, 15), 150);
    assert_eq!(basic_math(10, 15), (150, 25, -5));
}

#[test]
fn account_methods_chain() {
    let mut account = BankAccount::new(String::from("Micheal"), 4_000);
    assert_eq!(account.balance(), 4_000);
    account.deposit(100).withdraw(50).view_owner();
    assert_eq!(account.balance(), 4_050);
    assert_eq!(account.owner(), "Micheal");
    let mut account = account
        .change_owner(String::from("new_owner"))
        .change_owner(String::from("another_owner"));
    account.deposit(100);
    assert_eq!(account.balance(), 4_150);
    assert_eq!(account.owner(), "another_owner");
}

#[test]
fn withdrawal_needs_funds() {
    let mut account = BankAccount::new(String::from("A"), 30);
    assert!(!account.can_withdraw(31));
    account.withdraw(31);
    assert_eq!(account.balance(), 30);
    assert!(account.can_withdraw(30));
    account.withdraw(30);
    assert_eq!(account.balance(), 0);
}

#[test]
fn deposit_then_withdraw_restores_balance() {
    let mut account = BankAccount::new(String::from("A"), 7);
    account.deposit(-3).withdraw(-3);
    assert_eq!(account.balance(), 7);
    account.deposit(25).withdraw(25);
    assert_eq!(account.balance(), 7);
}

#[test]
fn points_add_three_ways() {
    let p3: Point = Point { x: 1, y: 1 }.add(Point { x: 2, y: 2 });
    assert_eq!((p3.x, p3.y), (3, 3));
    let p3: Point = Point { x: 1, y: 1 }.add(2);
    assert_eq!((p3.x, p3.y), (3, 3));
    let line: Line = Point { x: 1, y: 1 }.add(Point { x: 2, y: 2 });
    assert!(line.start.x == 1 && line.start.y == 1 && line.end.x == 2 && line.end.y == 2);
}

#[test]
fn projects_are_looked_up_by_id() {
    let p1 = read_details_from_db(1).unwrap();
    let p2 = read_details_from_db(2).unwrap();
    let p3 = read_details_from_db(3).unwrap();
    assert_eq!((p1.id, p1.name.as_str(), p1.duration_days), (1, "Project Alpha", 30));
    assert_eq!((p2.id, p2.name.as_str(), p2.duration_days), (2, "Project Beta", 45));
    assert_eq!((p3.id, p3.name.as_str(), p3.duration_days), (3, "Project Gamma", 30));
    assert_eq!(read_details_from_db(4).err(), Some("Project record not present".to_string()));
    assert_eq!(read_details_from_db(0).err(), Some("Project record not present".to_string()));
    assert!(matches!(compare_durations(&p1, &p2), Comparison::SecondLonger(15)));
    assert!(matches!(compare_durations(&p2, &p1), Comparison::FirstLonger(15)));
    assert!(matches!(compare_durations(&p1, &p3), Comparison::Same));
    let p = Project::new(9, "X", 2);
    assert_eq!((p.id, p.name.as_str(), p.duration_days), (9, "X", 2));
}

#[test]
fn student_ids_are_not_overwritten() {
    let mut db = HashMap::new();
    assert!(add_student(&mut db, 1, String::from("Mike"), 16, String::from("80")));
    assert!(add_student(&mut db, 2, String::from("Ammy"), 17, String::from("75")));
    assert!(!add_student(&mut db, 1, String::from("Other"), 18, String::from("90")));
    assert_eq!(db.len(), 2);
    assert_eq!(db[&1].name, "Mike");
    assert_eq!(db[&1].age, 16);
    assert_eq!(db[&2].grade, "75");
}

#[test]
fn speed_bands_and_prices() {
    assert_eq!(speed_band(0), SpeedBand::Stopped);
    assert_eq!(speed_band(1), SpeedBand::Slow);
    assert_eq!(speed_band(4), SpeedBand::Slow);
    assert_eq!(speed_band(5), SpeedBand::Medium);
    assert_eq!(speed_band(8), SpeedBand::Medium);
    assert_eq!(speed_band(9), SpeedBand::Fast);
    assert_eq!(speed_band(10), SpeedBand::Fast);
    assert_eq!(speed_band(11), SpeedBand::Stopped);
    assert_eq!(monthly_insurence(), 123);
    assert_eq!(selling_price(5_000), 5_123);
}

#[test]
fn leaf_future_is_pending_once() {
    let mut y = YieldOnce::new();
    assert_eq!(y.poll_step(), Readiness::PendingWake);
    assert_eq!(y.poll_step(), Readiness::Ready);
    assert_eq!(y.poll_step(), Readiness::Ready);
}

#[test]
fn fetch_machine_matches_its_async_fn() {
    let mut f = fetch_manual(7);
    let mut notes = Vec::new();
    let out = loop {
        assert!(!f.is_finished());
        match f.step() {
            FetchStep::Started(conn) => notes.push(conn),
            FetchStep::HeadReady(head) => notes.push(head),
            FetchStep::Pending(k) => notes.push(format!("pending {k}")),
            FetchStep::Ready(out) => break out,
        }
    };
    assert!(f.is_finished());
    assert_eq!(out, "conn-7/head+body");
    assert_eq!(notes, vec!["conn-7", "pending 0", "conn-7/head", "pending 1"]);
    let mut g = fetch_manual(4_294_967_295);
    assert!(matches!(g.step(), FetchStep::Started(ref c) if c == "conn-4294967295"));
}

#[test]
fn grades_two_ways() {
    for (marks, grade) in [(95, 'A'), (90, 'A'), (89, 'B'), (80, 'B'), (79, 'C'), (70, 'C'), (69, 'F'), (-3, 'F'), (100, 'A')] {
        assert_eq!(grade_by_ladder(marks), grade);
        assert_eq!(grade_by_ranges(marks), grade);
    }
    assert_eq!(grade_by_ladder(101), 'A');
    assert_eq!(grade_by_ranges(101), 'F');
}

#[test]
fn sums_of_loops() {
    assert_eq!(sum_square_difference(5), 170);
    assert_eq!(sum_square_difference(0), 0);
    assert_eq!(sum_square_difference(10), 2640);
    assert_eq!(sum_of_multiples_of_3_and_5(20), 113);
    assert_eq!(sum_of_multiples_of_3_and_5(15), 45 + 30);
    assert_eq!(sum_of_multiples_of_3_and_5(2), 0);
}

#[test]
fn plain_machine_is_pending_once() {
    let mut f = plain_fetch(12);
    assert!(matches!(f.step(), PlainStep::Started));
    assert!(matches!(f.step(), PlainStep::Pending));
    assert!(!f.is_done());
    match f.step() {
        PlainStep::Ready(out) => assert_eq!(out, "conn-12/body"),
        _ => panic!("expected the result"),
    }
    assert!(f.is_done());
}

#[test]
fn each_poll_ends_pending_or_ready() {
    let mut f = fetch_manual(3);
    let first = f.poll_steps();
    assert_eq!(first.len(), 2);
    assert!(matches!(first[0], FetchStep::Started(ref c) if c == "conn-3"));
    assert!(matches!(first[1], FetchStep::Pending(0)));
    let second = f.poll_steps();
    assert_eq!(second.len(), 2);
    assert!(matches!(second[0], FetchStep::HeadReady(ref h) if h == "conn-3/head"));
    assert!(matches!(second[1], FetchStep::Pending(1)));
    let third = f.poll_steps();
    assert_eq!(third.len(), 1);
    assert!(matches!(third[0], FetchStep::Ready(ref out) if out == "conn-3/head+body"));
    assert!(f.is_finished());
}
