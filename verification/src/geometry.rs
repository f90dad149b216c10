//! One trait, several implementations: a point can be added to a point (a
//! point), to a scalar (a point), or joined with a point (a line). The
//! generic parameters of the trait pick the implementation.
use vstd::prelude::*;

verus! {

/// Addition whose right-hand side and result types are chosen by the
/// implementation.
pub trait Addition<Rhs, Output>: Sized {
    /// The sum can be formed without overflow.
    spec fn can_add(&self, rhs: &Rhs) -> bool;

    /// The sum.
    spec fn sum(&self, rhs: &Rhs) -> Output;

    fn add(self, rhs: Rhs) -> (r: Output)
        requires
            self.can_add(&rhs),
        ensures
            r == self.sum(&rhs),
    ;
}

pub struct Point {
    pub x: i32,
    pub y: i32,
}

pub struct Line {
    pub start: Point,
    pub end: Point,
}

/// Point + point: the coordinates are summed.
impl Addition<Point, Point> for Point {
    open spec fn can_add(&self, rhs: &Point) -> bool {
        i32::MIN <= self.x + rhs.x <= i32::MAX && i32::MIN <= self.y + rhs.y <= i32::MAX
    }

    open spec fn sum(&self, rhs: &Point) -> Point {
        Point { x: (self.x + rhs.x) as i32, y: (self.y + rhs.y) as i32 }
    }

    fn add(self, rhs: Point) -> (r: Point) {
        Point { x: self.x + rhs.x, y: self.y + rhs.y }
    }
}

/// Point + scalar: the scalar is added to both coordinates.
impl Addition<i32, Point> for Point {
    open spec fn can_add(&self, rhs: &i32) -> bool {
        i32::MIN <= self.x + *rhs <= i32::MAX && i32::MIN <= self.y + *rhs <= i32::MAX
    }

    open spec fn sum(&self, rhs: &i32) -> Point {
        Point { x: (self.x + *rhs) as i32, y: (self.y + *rhs) as i32 }
    }

    fn add(self, rhs: i32) -> (r: Point) {
        Point { x: self.x + rhs, y: self.y + rhs }
    }
}

/// Point + point as a line: the points become its start and end.
impl Addition<Point, Line> for Point {
    open spec fn can_add(&self, rhs: &Point) -> bool {
        true
    }

    open spec fn sum(&self, rhs: &Point) -> Line {
        Line { start: *self, end: *rhs }
    }

    fn add(self, rhs: Point) -> (r: Line) {
        Line { start: self, end: rhs }
    }
}

/// Adding two points sums them coordinate by coordinate, adding a scalar
/// adds it to both coordinates, and joining two points makes the line from
/// the first to the second.
pub proof fn law_point_addition(a: Point, b: Point, k: i32)
    ensures
        <Point as Addition<Point, Point>>::can_add(&a, &b) <==> (i32::MIN <= a.x + b.x <= i32::MAX
            && i32::MIN <= a.y + b.y <= i32::MAX),
        <Point as Addition<Point, Point>>::can_add(&a, &b) ==> <Point as Addition<
            Point,
            Point,
        >>::sum(&a, &b).x == a.x + b.x && <Point as Addition<Point, Point>>::sum(&a, &b).y == a.y
            + b.y,
        <Point as Addition<i32, Point>>::can_add(&a, &k) <==> (i32::MIN <= a.x + k <= i32::MAX
            && i32::MIN <= a.y + k <= i32::MAX),
        <Point as Addition<i32, Point>>::can_add(&a, &k) ==> <Point as Addition<
            i32,
            Point,
        >>::sum(&a, &k).x == a.x + k && <Point as Addition<i32, Point>>::sum(&a, &k).y == a.y + k,
        <Point as Addition<Point, Line>>::sum(&a, &b).start == a,
        <Point as Addition<Point, Line>>::sum(&a, &b).end == b,
{
}

} // verus!
