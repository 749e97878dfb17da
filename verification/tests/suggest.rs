//! The fuzzy-match fallback ranking.

use cargo_asm::suggest::{edit_distance, last_segment_of, suggestions};

fn b(s: &str) -> Vec<u8> {
    s.as_bytes().to_vec()
}

#[test]
fn edit_distance_values() {
    assert_eq!(edit_distance(b"maxarray", b"max_array"), 1);
    assert_eq!(edit_distance(b"kitten", b"sitting"), 3);
    assert_eq!(edit_distance(b"", b"abc"), 3);
    assert_eq!(edit_distance(b"same", b"same"), 0);
}

#[test]
fn last_segment_after_colons() {
    assert_eq!(last_segment_of(b"lib_crate::bar::max_array"), b("max_array"));
    assert_eq!(last_segment_of(b"plain"), b("plain"));
}

#[test]
fn ranking_for_missing_maxarray() {
    // `max_array`-like names rank above unrelated names, and names beyond
    // distance four are excluded.
    let table: Vec<Vec<u8>> = vec![
        b("lib_crate::sum_array"),
        b("lib_crate::bar::max_array"),
        b("lib_crate::bar::generic_add"),
        b("lib_crate::moooo"),
    ];
    let ranked = suggestions(&table, b"maxarray");
    assert_eq!(ranked.len(), 2);
    assert_eq!(ranked[0], b("lib_crate::bar::max_array"));
    assert_eq!(ranked[1], b("lib_crate::sum_array"));
}

#[test]
fn ties_keep_original_order() {
    let table: Vec<Vec<u8>> = vec![b("x::abcd"), b("y::abce"), b("z::abcf")];
    let ranked = suggestions(&table, b"q::abcz");
    assert_eq!(ranked, vec![b("x::abcd"), b("y::abce"), b("z::abcf")]);
}

#[test]
fn far_names_are_excluded() {
    let table: Vec<Vec<u8>> = vec![b("completely::unrelated_name")];
    let ranked = suggestions(&table, b"tiny");
    assert!(ranked.is_empty());
}
