//! Demangling through the outside demangler, with the hash-suffix and
//! `@PLT` handling around it.

use cargo_asm::demangle::{demangle, has_hash};
use cargo_asm::target::TargetInfo;

fn b(s: &str) -> Vec<u8> {
    s.as_bytes().to_vec()
}

#[test]
fn legacy_symbol_demangles_and_loses_its_hash() {
    let t = TargetInfo::new_from_triple(b("x86_64-unknown-linux-gnu"));
    // The demangler must do real work here: the raw symbol and the result
    // share not even their first byte.
    let r = demangle(b"_ZN3foo17h0123456789abcdefE", &t);
    assert_eq!(r, b("foo"));
    let nested = demangle(b"_ZN9lib_crate3bar10simple_add17h0123456789abcdefE", &t);
    assert_eq!(nested, b("lib_crate::bar::simple_add"));
}

#[test]
fn plt_suffix_is_stripped_on_linux() {
    let linux = TargetInfo::new_from_triple(b("x86_64-unknown-linux-gnu"));
    let r = demangle(b"_ZN3foo17h0123456789abcdefE@PLT", &linux);
    assert_eq!(r, b("foo"));
    // On other systems the suffix stays part of the symbol.
    let apple = TargetInfo::new_from_triple(b("x86_64-apple-darwin"));
    let r2 = demangle(b"_ZN3foo17h0123456789abcdefE@PLT", &apple);
    assert_ne!(r2, b("foo"));
}

#[test]
fn hash_suffix_recognition() {
    assert!(has_hash(b"foo::h0123456789abcdef"));
    assert!(!has_hash(b"foo::h0123456789abcdeg"));
    assert!(!has_hash(b"foo"));
    assert!(!has_hash(b"h0123456789abcdef"));
}

#[test]
fn unmangled_names_pass_through() {
    let t = TargetInfo::new_from_triple(b("x86_64-unknown-linux-gnu"));
    assert_eq!(demangle(b"main", &t), b("main"));
}

#[test]
fn target_predicates() {
    let t = TargetInfo::new_from_triple(b("x86_64-unknown-linux-gnu"));
    assert!(t.is_linux());
    assert!(t.is_x86());
    assert!(t.is_intel());
    assert!(!t.is_windows());
    assert!(!t.is_apple());
    assert!(!t.is_mips());
    let w = TargetInfo::new_from_triple(b("i686-pc-windows-msvc"));
    assert!(w.is_windows());
    assert!(w.is_i686());
}
