//! Methods, traits and in-place updates whose assembly the engine reads.

use crate::lib_crate::bar;
use vstd::prelude::*;

verus! {

/// The sum plus the product.
pub fn add_and_mul(x: usize, y: usize) -> (r: usize)
    requires
        x + y + x * y <= usize::MAX,
    ensures
        r == x + y + x * y,
{
    let w = bar::generic_add(x, y);
    let z = bar::generic_mul(x, y);
    w + z
}

/// A pair of numbers.
#[derive(Debug)]
pub struct Foo {
    x: usize,
    y: usize,
}

impl Foo {
    /// Builds the pair.
    pub fn new(x: usize, y: usize) -> (r: Foo)
        ensures
            r.x_spec() == x,
            r.y_spec() == y,
    {
        Foo { x, y }
    }

    /// The first number.
    pub closed spec fn x_spec(&self) -> usize {
        self.x
    }

    /// The second number.
    pub closed spec fn y_spec(&self) -> usize {
        self.y
    }

    /// The sum of the pair.
    pub fn foo_add(&self) -> (r: usize)
        requires
            self.x_spec() + self.y_spec() <= usize::MAX,
        ensures
            r == self.x_spec() + self.y_spec(),
    {
        self.x + self.y
    }
}

/// Something that can sum itself up.
pub trait Addd {
    /// The value the sum must equal.
    spec fn addd_spec(&self) -> int;

    /// May the sum be taken?
    spec fn addd_fits(&self) -> bool;

    /// Sums the thing up.
    fn addd(&self) -> (r: usize)
        requires
            self.addd_fits(),
        ensures
            r == self.addd_spec(),
    ;
}

impl Addd for Foo {
    open spec fn addd_spec(&self) -> int {
        self.x_spec() + self.y_spec()
    }

    open spec fn addd_fits(&self) -> bool {
        self.x_spec() + self.y_spec() <= usize::MAX
    }

    fn addd(&self) -> (r: usize) {
        self.foo_add()
    }
}

/// The sum of three numbers.
pub fn barr(x: usize, y: usize, z: usize) -> (r: usize)
    requires
        x + y + z <= usize::MAX,
    ensures
        r == x + y + z,
{
    x + y + z
}

/// Doubles a number in place.
pub fn double(x: &mut usize)
    requires
        2 * *old(x) <= usize::MAX,
    ensures
        *final(x) == 2 * *old(x),
{
    *x *= 2;
}

} // verus!
