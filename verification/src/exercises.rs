//! Small exercises on conditionals and loops: a letter grade computed two
//! ways, the difference between the square of a sum and the sum of squares,
//! and the sum of the multiples of 3 and of 5.
use vstd::prelude::*;

verus! {

/// The grade by an `if`/`else if` ladder.
pub open spec fn spec_grade_by_ladder(marks: i32) -> char {
    if marks >= 90 {
        'A'
    } else if marks >= 80 {
        'B'
    } else if marks >= 70 {
        'C'
    } else {
        'F'
    }
}

/// The grade by a `match` on mark ranges.
pub open spec fn spec_grade_by_ranges(marks: i32) -> char {
    if 90 <= marks <= 100 {
        'A'
    } else if 80 <= marks <= 89 {
        'B'
    } else if 70 <= marks <= 79 {
        'C'
    } else {
        'F'
    }
}

pub fn grade_by_ladder(marks: i32) -> (g: char)
    ensures
        g == spec_grade_by_ladder(marks),
{
    if marks >= 90 {
        'A'
    } else if marks >= 80 {
        'B'
    } else if marks >= 70 {
        'C'
    } else {
        'F'
    }
}

pub fn grade_by_ranges(marks: i32) -> (g: char)
    ensures
        g == spec_grade_by_ranges(marks),
{
    match marks {
        90..=100 => 'A',
        80..=89 => 'B',
        70..=79 => 'C',
        _ => 'F',
    }
}

/// The two ways of grading agree exactly on marks up to 100; above 100 the
/// ladder says `A` and the ranges say `F`.
pub proof fn law_grades_agree(marks: i32)
    ensures
        (spec_grade_by_ladder(marks) == spec_grade_by_ranges(marks)) <==> marks <= 100,
{
}

/// The grade bands: 90 to 100 is `A`, 80 to 89 is `B`, 70 to 79 is `C`
/// and below 70 is `F`, whichever way the grade is computed; above 100 the
/// ladder still says `A` and the ranges say `F`.
pub proof fn law_grade_bands(marks: i32)
    ensures
        90 <= marks <= 100 ==> spec_grade_by_ladder(marks) == 'A' && spec_grade_by_ranges(marks) == 'A',
        80 <= marks <= 89 ==> spec_grade_by_ladder(marks) == 'B' && spec_grade_by_ranges(marks) == 'B',
        70 <= marks <= 79 ==> spec_grade_by_ladder(marks) == 'C' && spec_grade_by_ranges(marks) == 'C',
        marks < 70 ==> spec_grade_by_ladder(marks) == 'F' && spec_grade_by_ranges(marks) == 'F',
        marks > 100 ==> spec_grade_by_ladder(marks) == 'A' && spec_grade_by_ranges(marks) == 'F',
{
}

/// `1 + 2 + ... + n`.
pub open spec fn triangle(n: nat) -> nat
    decreases n,
{
    if n == 0 {
        0
    } else {
        n + triangle((n - 1) as nat)
    }
}

/// `1² + 2² + ... + n²`.
pub open spec fn sum_of_squares(n: nat) -> nat
    decreases n,
{
    if n == 0 {
        0
    } else {
        n * n + sum_of_squares((n - 1) as nat)
    }
}

proof fn lemma_triangle_monotonic(i: nat, j: nat)
    requires
        i <= j,
    ensures
        triangle(i) <= triangle(j),
    decreases j,
{
    if i < j {
        lemma_triangle_monotonic(i, (j - 1) as nat);
    }
}

/// The sum of squares never exceeds the square of the sum.
proof fn lemma_squares_below_square(n: nat)
    ensures
        sum_of_squares(n) <= triangle(n) * triangle(n),
        n <= triangle(n),
    decreases n,
{
    if n > 0 {
        let m = (n - 1) as nat;
        lemma_squares_below_square(m);
        let t = triangle(m);
        assert(n * n + t * t <= (n + t) * (n + t)) by (nonlinear_arith);
    }
}

/// The square of `1 + ... + n` minus `1² + ... + n²`.
pub fn sum_square_difference(n: i32) -> (d: i32)
    requires
        0 <= n,
        triangle(n as nat) * triangle(n as nat) <= i32::MAX,
    ensures
        d == triangle(n as nat) * triangle(n as nat) - sum_of_squares(n as nat),
{
    let mut square_of_sum: i32 = 0;
    let mut squares: i32 = 0;
    let mut f: i32 = 0;
    proof {
        lemma_squares_below_square(n as nat);
    }
    while f != n
        invariant
            0 <= f <= n,
            triangle(n as nat) * triangle(n as nat) <= i32::MAX,
            n <= triangle(n as nat),
            square_of_sum == triangle(f as nat),
            squares == sum_of_squares(f as nat),
        decreases n - f,
    {
        f = f + 1;
        proof {
            let t = triangle(n as nat);
            lemma_triangle_monotonic(f as nat, n as nat);
            lemma_squares_below_square(f as nat);
            let tf = triangle(f as nat);
            assert(tf <= t);
            assert(tf * tf <= t * t) by (nonlinear_arith)
                requires
                    tf <= t,
            ;
            assert(t <= t * t) by (nonlinear_arith)
                requires
                    t >= 0,
                    t * t >= 0,
                    n <= t,
                    f >= 1,
                    f <= n,
            ;
        }
        square_of_sum = f + square_of_sum;
        let b = f * f;
        squares = b + squares;
    }
    proof {
        lemma_squares_below_square(n as nat);
    }
    square_of_sum = square_of_sum * square_of_sum;
    square_of_sum - squares
}

/// The sum of the multiples of `k` from `0` to `n`: `k + 2k + ...`.
pub open spec fn multiples_sum(n: nat, k: nat) -> nat {
    if k == 0 {
        0
    } else {
        k * triangle(n / k)
    }
}

/// `k * (0 + 1 + ... + j)`, step by step.
proof fn lemma_multiples_step(k: nat, j: nat)
    ensures
        k * triangle(j + 1) == k * triangle(j) + k * (j + 1),
{
    assert(triangle(j + 1) == (j + 1) + triangle(j));
    assert(k * ((j + 1) + triangle(j)) == k * (j + 1) + k * triangle(j)) by (nonlinear_arith);
}

/// Sums the multiples of `k` up to `n`, one multiple per step.
fn sum_multiples_of(n: u32, k: u32) -> (s: u32)
    requires
        1 <= k,
        multiples_sum(n as nat, k as nat) <= u32::MAX,
    ensures
        s == multiples_sum(n as nat, k as nat),
{
    let count = n / k;
    let mut s: u32 = 0;
    let mut j: u32 = 0;
    proof {
        lemma_triangle_monotonic(0, count as nat);
    }
    while j < count
        invariant
            1 <= k,
            count == n / k,
            j <= count,
            s == k * triangle(j as nat),
            multiples_sum(n as nat, k as nat) == k * triangle(count as nat),
            k * triangle(count as nat) <= u32::MAX,
        decreases count - j,
    {
        proof {
            lemma_multiples_step(k as nat, j as nat);
            lemma_triangle_monotonic((j + 1) as nat, count as nat);
            let a = triangle((j + 1) as nat);
            let b = triangle(count as nat);
            assert(k * a <= k * b) by (nonlinear_arith)
                requires
                    a <= b,
                    k >= 1,
            ;
            assert(k * (j + 1) <= k * a) by (nonlinear_arith)
                requires
                    j + 1 <= a,
                    k >= 1,
            ;
            lemma_squares_below_square((j + 1) as nat);
        }
        j = j + 1;
        s = s + k * j;
    }
    s
}

/// The sum of the multiples of 3 up to `n` plus the sum of the multiples of
/// 5 up to `n` (a multiple of 15 is counted in both).
pub fn sum_of_multiples_of_3_and_5(n: u32) -> (total: u32)
    requires
        multiples_sum(n as nat, 3) + multiples_sum(n as nat, 5) <= u32::MAX,
    ensures
        total == multiples_sum(n as nat, 3) + multiples_sum(n as nat, 5),
{
    let sum_of_3 = sum_multiples_of(n, 3);
    let sum_of_5 = sum_multiples_of(n, 5);
    sum_of_3 + sum_of_5
}

} // verus!
