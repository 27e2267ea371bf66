use vstd::prelude::*;

verus! {

/// Sum of the decimal digits of `n`; 0 when `n <= 0` (empty sum).
pub open spec fn digit_sum(n: int) -> int
    decreases n,
{
    if n <= 0 {
        0
    } else {
        n % 10 + digit_sum(n / 10)
    }
}

/// Product of the decimal digits of `n`; 1 when `n <= 0` (empty product).
pub open spec fn digit_product(n: int) -> int
    decreases n,
{
    if n <= 0 {
        1
    } else {
        (n % 10) * digit_product(n / 10)
    }
}

/// Absolute difference of two integers.
pub open spec fn abs_diff(a: int, b: int) -> int {
    if a >= b {
        a - b
    } else {
        b - a
    }
}

/// The digit sum of a non-negative number never exceeds the number itself.
pub proof fn lemma_digit_sum_bounds(n: int)
    requires
        n >= 0,
    ensures
        0 <= digit_sum(n) <= n,
    decreases n,
{
    if n > 0 {
        lemma_digit_sum_bounds(n / 10);
    }
}

/// Computes the sum and the product of the decimal digits of `num`, and the
/// absolute difference of the two. For `num <= 0` the extraction loop never
/// runs, so the result is the empty sum, the empty product and their
/// difference: `(0, 1, 1)`.
pub fn calculate_digit_ops(num: i32) -> (r: (i32, i32, i32))
    ensures
        r.0 == digit_sum(num as int),
        r.1 == digit_product(num as int),
        r.2 == abs_diff(digit_sum(num as int), digit_product(num as int)),
        r.0 >= 0,
        r.1 >= 0,
{
    let mut n = num;
    let mut sum: i32 = 0;
    let mut product: i32 = 1;
    while n > 0
        invariant
            sum >= 0,
            product >= 0,
            n <= num,
            digit_sum(num as int) == sum + digit_sum(n as int),
            digit_product(num as int) == product * digit_product(n as int),
            n >= 1 ==> product * n <= num,
        decreases n,
    {
        let digit = n % 10;
        proof {
            lemma_digit_sum_bounds(num as int);
            lemma_digit_sum_bounds(n as int / 10);
            assert(digit_sum(n as int) >= digit);
            assert(product * digit <= num && product * digit >= 0) by (nonlinear_arith)
                requires
                    product >= 0,
                    0 <= digit <= n,
                    product * n <= num,
            ;
            let dp = digit_product(n as int / 10);
            assert(product * ((digit as int) * dp) == (product * digit) * dp) by (nonlinear_arith);
            if n >= 10 {
                assert((product * digit) * (n as int / 10) <= num) by (nonlinear_arith)
                    requires
                        product >= 0,
                        0 <= digit <= 9,
                        n as int == 10 * (n as int / 10) + digit,
                        n as int / 10 >= 1,
                        product * n <= num,
                ;
            }
        }
        sum = sum + digit;
        product = product * digit;
        n = n / 10;
    }
    let diff = if sum >= product {
        sum - product
    } else {
        product - sum
    };
    (sum, product, diff)
}

} // verus!
