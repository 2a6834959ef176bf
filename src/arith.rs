use vstd::prelude::*;

verus! {

/// The sum of two integers; the sum must fit an `i32`.
pub fn add(a: i32, b: i32) -> (r: i32)
    requires
        i32::MIN <= a + b <= i32::MAX,
    ensures
        r == a + b,
{
    a + b
}

/// `n!`, with 1 for every `n` up to 1.
pub open spec fn factorial_spec(n: int) -> int
    decreases n,
{
    if n <= 1 {
        1
    } else {
        n * factorial_spec(n - 1)
    }
}

/// `n!`; the largest `n` whose factorial fits an `i32` is 12.
pub fn factorial(n: i32) -> (r: i32)
    requires
        n <= 12,
    ensures
        r == factorial_spec(n as int),
    decreases n,
{
    if n <= 1 {
        1
    } else {
        let f = factorial(n - 1);
        proof {
            lemma_factorial_fits(n as int);
        }
        n * f
    }
}

proof fn lemma_factorial_fits(n: int)
    requires
        n <= 12,
    ensures
        0 < factorial_spec(n) <= 479001600,
{
    assert(factorial_spec(1) == 1);
    assert(factorial_spec(2) == 2);
    assert(factorial_spec(3) == 6);
    assert(factorial_spec(4) == 24);
    assert(factorial_spec(5) == 120);
    assert(factorial_spec(6) == 720);
    assert(factorial_spec(7) == 5040);
    assert(factorial_spec(8) == 40320);
    assert(factorial_spec(9) == 362880);
    assert(factorial_spec(10) == 3628800);
    assert(factorial_spec(11) == 39916800);
    assert(factorial_spec(12) == 479001600);
    assert(n <= 1 || n == 2 || n == 3 || n == 4 || n == 5 || n == 6 || n == 7 || n == 8 || n == 9
        || n == 10 || n == 11 || n == 12);
}

} // verus!
