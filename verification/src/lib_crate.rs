//! A small crate of arithmetic functions whose generated assembly the
//! engine is pointed at: the shapes a listing of it exercises — plain
//! sums, nested calls, methods, traits and loops.

pub mod bar;
pub mod baz;

use vstd::prelude::*;

verus! {

/// Doubles a number.
pub fn moooo(x: i32) -> (r: i32)
    requires
        2 * x <= i32::MAX,
        2 * x >= i32::MIN,
    ensures
        r == 2 * x,
{
    x * 2
}

/// The sum of a prefix of the values.
pub open spec fn sum_prefix(s: Seq<i32>, n: int) -> int
    decreases n,
{
    if n <= 0 {
        0
    } else {
        sum_prefix(s, n - 1) + s[n - 1]
    }
}

/// Sums the values; every partial sum must fit.
pub fn sum_array(x: &[i32]) -> (r: i32)
    requires
        forall|k: int|
            0 <= k <= x@.len() ==> i32::MIN <= #[trigger] sum_prefix(x@, k) <= i32::MAX,
    ensures
        r == sum_prefix(x@, x@.len() as int),
{
    let n = x.len();
    let mut sum: i32 = 0;
    let mut i: usize = 0;
    while i < n
        invariant
            0 <= i <= n,
            n == x@.len(),
            forall|k: int|
                0 <= k <= x@.len() ==> i32::MIN <= #[trigger] sum_prefix(x@, k) <= i32::MAX,
            sum == sum_prefix(x@, i as int),
        decreases n - i,
    {
        proof {
            assert(sum_prefix(x@, i + 1) == sum_prefix(x@, i as int) + x@[i as int]);
        }
        sum = sum + x[i];
        i += 1;
    }
    sum
}

} // verus!
