//! Plain and generic-shaped arithmetic whose assembly the engine reads.

use vstd::prelude::*;

verus! {

/// Adds two numbers.
pub fn generic_add(x: usize, y: usize) -> (r: usize)
    requires
        x + y <= usize::MAX,
    ensures
        r == x + y,
{
    x + y
}

/// Adds two numbers.
pub fn generic_add2(x: usize, y: usize) -> (r: usize)
    requires
        x + y <= usize::MAX,
    ensures
        r == x + y,
{
    x + y
}

/// Multiplies two numbers.
pub fn generic_mul2(x: usize, y: usize) -> (r: usize)
    requires
        x * y <= usize::MAX,
    ensures
        r == x * y,
{
    x * y
}

/// Multiplies two numbers.
pub fn generic_mul(x: usize, y: usize) -> (r: usize)
    requires
        x * y <= usize::MAX,
    ensures
        r == x * y,
{
    x * y
}

/// A chain of sums, products, a quotient and a remainder.
pub fn add(x: usize, y: usize) -> (r: usize)
    requires
        x + y >= 1,
        13 * x + 15 * (x + (x + y)) + 3 * y + 200 <= usize::MAX,
    ensures
        r == 13 * x + 15 * (x + (x + y)) + 3 * y + 200int % (2int * (x + (x + y)) / (x + y)),
{
    let z = generic_add(x, y);
    let b = x + z;
    let q = 2 * b / z;
    proof {
        assert(2 * b >= 2 * z);
        assert(q as int == 2int * (b as int) / (z as int));
        assert(2int * (b as int) / (z as int) >= 2) by (nonlinear_arith)
            requires
                b >= z,
                z >= 1,
        {}
    }
    proof {
        assert(200usize % q <= 200) by (nonlinear_arith)
            requires
                q >= 2,
        {}
    }
    let f = 13 * x + 15 * b + 3 * y + 200 % q;
    f
}

/// Adds two numbers.
pub fn simple_add(x: usize, y: usize) -> (r: usize)
    requires
        x + y <= usize::MAX,
    ensures
        r == x + y,
{
    x + y
}

/// Adds two numbers.
pub fn simple_add2(x: usize, y: usize) -> (r: usize)
    requires
        x + y <= usize::MAX,
    ensures
        r == x + y,
{
    x + y
}

/// The sum plus the product.
pub fn add_and_mul(x: usize, y: usize) -> (r: usize)
    requires
        x + y + x * y <= usize::MAX,
    ensures
        r == x + y + x * y,
{
    let w = generic_add2(x, y);
    let z = generic_mul2(x, y);
    w + z
}

/// Two to the `n`-th power.
pub open spec fn pow2(n: nat) -> nat
    decreases n,
{
    if n == 0 {
        1
    } else {
        2 * pow2((n - 1) as nat)
    }
}

/// Doubles a number `n` times over.
pub fn double_n(x: usize, n: usize) -> (r: usize)
    requires
        x * pow2(n as nat) <= usize::MAX,
    ensures
        r == x * pow2(n as nat),
{
    let mut cur = x;
    let mut left = n;
    while left > 0
        invariant
            cur * pow2(left as nat) == x * pow2(n as nat),
            x * pow2(n as nat) <= usize::MAX,
        decreases left,
    {
        proof {
            lemma_pow2_pos((left - 1) as nat);
            assert(pow2(left as nat) == 2 * pow2((left - 1) as nat));
            assert(2 * cur <= cur * pow2(left as nat)) by (nonlinear_arith)
                requires
                    pow2((left - 1) as nat) >= 1,
                    pow2(left as nat) == 2 * pow2((left - 1) as nat),
                    cur >= 0,
            {}
            assert((2 * cur) * pow2((left - 1) as nat) == cur * pow2(left as nat))
                by (nonlinear_arith)
                requires
                    pow2(left as nat) == 2 * pow2((left - 1) as nat),
            {}
        }
        crate::lib_crate::baz::double(&mut cur);
        left = left - 1;
    }
    proof {
        assert(pow2(0) == 1);
        assert(cur * pow2(0) == cur) by (nonlinear_arith)
            requires
                pow2(0) == 1,
        {}
    }
    cur
}

/// A power of two is positive.
pub proof fn lemma_pow2_pos(n: nat)
    ensures
        pow2(n) >= 1,
    decreases n,
{
    if n > 0 {
        lemma_pow2_pos((n - 1) as nat);
    }
}

} // verus!
