//! The arithmetic fixture crate the engine is pointed at.

use cargo_asm::lib_crate::bar;
use cargo_asm::lib_crate::baz;
use cargo_asm::lib_crate::baz::Addd;
use cargo_asm::lib_crate::{moooo, sum_array};

#[test]
fn sums_and_products() {
    assert_eq!(bar::generic_add(2, 3), 5);
    assert_eq!(bar::generic_add2(2, 3), 5);
    assert_eq!(bar::generic_mul(4, 5), 20);
    assert_eq!(bar::generic_mul2(4, 5), 20);
    assert_eq!(bar::simple_add(7, 8), 15);
    assert_eq!(bar::simple_add2(7, 8), 15);
    assert_eq!(bar::add_and_mul(3, 4), 19);
    assert_eq!(baz::add_and_mul(3, 4), 19);
    assert_eq!(baz::barr(1, 2, 3), 6);
}

#[test]
fn add_formula() {
    // z = 5, b = 7, q = 14 / 5 = 2, so f = 26 + 105 + 9 + 0.
    assert_eq!(bar::add(2, 3), 140);
}

#[test]
fn doubling() {
    let mut x: usize = 21;
    baz::double(&mut x);
    assert_eq!(x, 42);
    assert_eq!(bar::double_n(3, 4), 48);
    assert_eq!(bar::double_n(5, 0), 5);
    assert_eq!(bar::double_n(0, 50), 0);
}

#[test]
fn methods_and_traits() {
    let foo = baz::Foo::new(20, 22);
    assert_eq!(foo.foo_add(), 42);
    assert_eq!(foo.addd(), 42);
}

#[test]
fn int_helpers() {
    assert_eq!(moooo(21), 42);
    assert_eq!(moooo(-5), -10);
    assert_eq!(sum_array(&[1, 2, 3, 4]), 10);
    assert_eq!(sum_array(&[]), 0);
    assert_eq!(sum_array(&[-7, 7]), 0);
}
