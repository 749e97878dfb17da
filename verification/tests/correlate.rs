//! Source correlation: requested lines, gap filling, reading text, path
//! correction.

use cargo_asm::ast::Loc;
use cargo_asm::parse::{function, ParseResult};
use cargo_asm::rust::parse;
use cargo_asm::target::TargetInfo;

fn b(s: &str) -> Vec<u8> {
    s.as_bytes().to_vec()
}

fn lines(src: &[&str]) -> Vec<Vec<u8>> {
    src.iter().map(|l| b(l)).collect()
}

fn linux() -> TargetInfo {
    TargetInfo::new_from_triple(b("x86_64-unknown-linux-gnu"))
}

fn located(listing: &[&str]) -> (cargo_asm::ast::Function, cargo_asm::parse::FileTable) {
    let listing = lines(listing);
    match function(&listing, b("foo").as_slice(), &linux()).unwrap() {
        ParseResult::Found(f, table) => (f, table),
        ParseResult::NotFound(_) => panic!("foo should have been found"),
    }
}

#[test]
fn short_gaps_are_prefilled() {
    let (f, table) = located(&[
        ".file 1 \"src/lib.rs\"",
        "_ZN3foo17h0123456789abcdefE:",
        "\t.loc 1 2 0",
        "\tmov eax, 1",
        "\t.loc 1 4 0",
        "\tret",
        "\t.cfi_endproc",
    ]);
    let files = parse(&f, &table);
    assert_eq!(files.file_count(), 1);
    let file = &files.files[0].1;
    let keys: Vec<usize> = file.lines.iter().map(|e| e.0).collect();
    // Lines 2 and 4 are requested; line 3 sits in the short gap between
    // them and is prefilled.
    assert_eq!(keys, vec![2, 3, 4]);
    assert!(file.lines.iter().all(|e| e.1.is_none()));
}

#[test]
fn wide_gaps_are_left_open() {
    let (f, table) = located(&[
        ".file 1 \"src/lib.rs\"",
        "_ZN3foo17h0123456789abcdefE:",
        "\t.loc 1 2 0",
        "\tmov eax, 1",
        "\t.loc 1 10 0",
        "\tret",
        "\t.cfi_endproc",
    ]);
    let files = parse(&f, &table);
    let keys: Vec<usize> = files.files[0].1.lines.iter().map(|e| e.0).collect();
    assert_eq!(keys, vec![2, 10]);
}

#[test]
fn lines_fill_from_text() {
    let (f, table) = located(&[
        ".file 1 \"src/lib.rs\"",
        "_ZN3foo17h0123456789abcdefE:",
        "\t.loc 1 2 0",
        "\tret",
        "\t.cfi_endproc",
    ]);
    let mut files = parse(&f, &table);
    let source = lines(&["fn foo() {", "    body();", "}"]);
    let mut entry = files.files.remove(0);
    entry.1.fill_from_source(&source);
    assert!(entry.1.missing_line().is_none());
    files.files.insert(0, entry);
    let text = files
        .line(Loc { file_index: 1, file_line: 2, file_column: 0 })
        .unwrap();
    assert_eq!(text, b("body();"));
    assert!(files
        .line(Loc { file_index: 1, file_line: 9, file_column: 0 })
        .is_none());
    let path = files
        .file_path(Loc { file_index: 1, file_line: 2, file_column: 0 })
        .unwrap();
    assert_eq!(path, b("src/lib.rs"));
}

#[test]
fn unread_line_is_reported_missing() {
    let (f, table) = located(&[
        ".file 1 \"src/lib.rs\"",
        "_ZN3foo17h0123456789abcdefE:",
        "\t.loc 1 40 0",
        "\tret",
        "\t.cfi_endproc",
    ]);
    let mut files = parse(&f, &table);
    // The source has fewer than forty lines, so line 40 cannot be read.
    let source = lines(&["fn foo() {}"]);
    let mut entry = files.files.remove(0);
    entry.1.fill_from_source(&source);
    assert_eq!(entry.1.missing_line(), Some(40));
    files.files.insert(0, entry);
}

#[test]
fn library_paths_are_corrected_to_the_source_root() {
    let (f, table) = located(&[
        ".file 1 \"/checkout/src/libcore/ptr.rs\"",
        "_ZN3foo17h0123456789abcdefE:",
        "\t.loc 1 2 0",
        "\tret",
        "\t.cfi_endproc",
    ]);
    let mut files = parse(&f, &table);
    let sysroot_src: Vec<Vec<u8>> = vec![b("opt"), b("sysroot"), b("lib"), b("src")];
    files.correct_rust_paths(&sysroot_src);
    assert_eq!(files.files[0].1.ast.path, b("opt/sysroot/lib/src/libcore/ptr.rs"));
}

#[test]
fn local_paths_stand_unchanged() {
    let (f, table) = located(&[
        ".file 1 \"src/lib.rs\"",
        "_ZN3foo17h0123456789abcdefE:",
        "\t.loc 1 2 0",
        "\tret",
        "\t.cfi_endproc",
    ]);
    let mut files = parse(&f, &table);
    let sysroot_src: Vec<Vec<u8>> = vec![b("opt"), b("sysroot")];
    files.correct_rust_paths(&sysroot_src);
    assert_eq!(files.files[0].1.ast.path, b("src/lib.rs"));
}

#[test]
fn files_can_be_pruned() {
    let (f, table) = located(&[
        ".file 1 \"src/lib.rs\"",
        "_ZN3foo17h0123456789abcdefE:",
        "\t.loc 1 2 0",
        "\tret",
        "\t.cfi_endproc",
    ]);
    let mut files = parse(&f, &table);
    assert_eq!(files.file_count(), 1);
    files.remove_at(0);
    assert_eq!(files.file_count(), 0);
}
