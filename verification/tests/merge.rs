//! The merge/display engine: interleaving, deduplication and rendering.

use cargo_asm::ast::Statement;
use cargo_asm::display::{
    format_function_name, is_stmt_in_function, make_path_relative, merge_rust_and_asm,
    render_node, ColorClass, Kind,
};
use cargo_asm::parse::{function, ParseResult};
use cargo_asm::target::TargetInfo;

fn b(s: &str) -> Vec<u8> {
    s.as_bytes().to_vec()
}

fn lines(src: &[&str]) -> Vec<Vec<u8>> {
    src.iter().map(|l| b(l)).collect()
}

fn linux() -> TargetInfo {
    TargetInfo::new_from_triple(b("x86_64-unknown-linux-gnu"))
}

/// Locates `foo` in a listing with two statements on the same line of
/// `src/lib.rs`, correlates it, and fills the one source line.
fn correlated() -> (cargo_asm::ast::Function, cargo_asm::rust::Files) {
    let listing = lines(&[
        ".file 1 \"src/lib.rs\"",
        "_ZN3foo17h0123456789abcdefE:",
        "\t.loc 1 2 0",
        "\tmov eax, 1",
        "\tadd eax, 2",
        "\t.cfi_endproc",
        "\t.text",
    ]);
    let (f, table) = match function(&listing, b("foo").as_slice(), &linux()).unwrap() {
        ParseResult::Found(f, table) => (f, table),
        ParseResult::NotFound(_) => panic!("foo should have been found"),
    };
    let mut files = cargo_asm::rust::parse(&f, &table);
    let source = lines(&["fn foo() {", "    1 + 2;", "}"]);
    for i in 0..files.file_count() {
        let (idx, _) = files.file_entry(i);
        let mut entry_lines = files.files.remove(i);
        entry_lines.1.fill_from_source(&source);
        files.files.insert(i, entry_lines);
        assert_eq!(idx, 1);
    }
    (f, files)
}

#[test]
fn consecutive_same_line_yields_one_source_node() {
    // Two statements resolving to the same location produce exactly one
    // source node in the merged output.
    let (f, files) = correlated();
    let merged = merge_rust_and_asm(&f, &files);
    let rust_nodes = merged
        .iter()
        .filter(|k| matches!(k, Kind::Rust(_)))
        .count();
    assert_eq!(rust_nodes, 1);
    match &merged[0] {
        Kind::Rust(r) => {
            assert_eq!(r.line, b("1 + 2;"));
            assert_eq!(r.loc.file_line, 2);
        },
        Kind::Asm(_) => panic!("the source line comes before its assembly"),
    }
}

#[test]
fn merge_is_idempotent_on_the_ground() {
    // Running the merged output's source nodes through the same
    // deduplication again changes nothing: no consecutive source nodes with
    // one location survive the first pass.
    let (f, files) = correlated();
    let merged = merge_rust_and_asm(&f, &files);
    let mut last: Option<(usize, usize)> = None;
    for k in &merged {
        if let Kind::Rust(r) = k {
            let key = (r.loc.file_index, r.loc.file_line);
            assert_ne!(last, Some(key));
            last = Some(key);
        }
    }
}

#[test]
fn function_without_locs_interleaves_nothing() {
    let listing = lines(&[
        "_ZN3foo17h0123456789abcdefE:",
        "\tpush rbp",
        "\tret",
        "\t.cfi_endproc",
    ]);
    let (f, table) = match function(&listing, b("foo").as_slice(), &linux()).unwrap() {
        ParseResult::Found(f, table) => (f, table),
        ParseResult::NotFound(_) => panic!("foo should have been found"),
    };
    let files = cargo_asm::rust::parse(&f, &table);
    let merged = merge_rust_and_asm(&f, &files);
    assert!(merged.iter().all(|k| matches!(k, Kind::Asm(_))));
}

#[test]
fn render_filters_and_indents() {
    let (f, files) = correlated();
    let merged = merge_rust_and_asm(&f, &files);
    let t = linux();
    // Source nodes render only in interleaving mode.
    for k in &merged {
        if matches!(k, Kind::Rust(_)) {
            assert!(render_node(k, &f, &t, false, false, false, false).is_none());
            let line = render_node(k, &f, &t, true, false, false, false).unwrap();
            assert_eq!(line.indent, 1);
            assert_eq!(line.segments[0].0, ColorClass::Emph);
            assert_eq!(line.segments[0].1, b("1 + 2;"));
        }
    }
    // Directives render only when asked for.
    for k in &merged {
        if let Kind::Asm(Statement::Directive(_)) = k {
            assert!(render_node(k, &f, &t, false, false, false, false).is_none());
            assert!(render_node(k, &f, &t, false, false, true, false).is_some());
        }
    }
}

#[test]
fn render_instruction_segments() {
    let (f, files) = correlated();
    let merged = merge_rust_and_asm(&f, &files);
    let t = linux();
    let mut seen = 0;
    for k in &merged {
        if let Kind::Asm(Statement::Instruction(_)) = k {
            let line = render_node(k, &f, &t, false, false, false, false).unwrap();
            assert_eq!(line.indent, 1);
            assert_eq!(line.segments[0].0, ColorClass::Instr);
            // The mnemonic is padded to seven columns when operands follow.
            assert_eq!(line.segments[0].1.len(), 7);
            seen += 1;
        }
    }
    assert_eq!(seen, 2);
}

#[test]
fn internal_labels_never_render() {
    let listing = lines(&[
        "_ZN3foo17h0123456789abcdefE:",
        "Ltmp12:",
        "\tret",
        "\t.cfi_endproc",
    ]);
    let (f, table) = match function(&listing, b("foo").as_slice(), &linux()).unwrap() {
        ParseResult::Found(f, table) => (f, table),
        ParseResult::NotFound(_) => panic!("foo should have been found"),
    };
    let files = cargo_asm::rust::parse(&f, &table);
    let merged = merge_rust_and_asm(&f, &files);
    let t = linux();
    for k in &merged {
        if let Kind::Asm(Statement::Label(l)) = k {
            assert!(l.id.starts_with(b"Ltmp"));
            assert!(render_node(k, &f, &t, false, true, true, false).is_none());
        }
    }
}

#[test]
fn function_name_formatting() {
    let (f, _) = correlated();
    let name = format_function_name(&f);
    assert_eq!(name, b("foo (src/lib.rs:2)"));
}

#[test]
fn stmt_in_function_by_file_index() {
    let (f, _) = correlated();
    for s in &f.statements {
        // Every statement of this single-file function is part of it.
        assert!(is_stmt_in_function(&f, s));
    }
}

#[test]
fn path_made_relative() {
    let rust_src: Vec<Vec<u8>> = vec![
        b("lib"),
        b("rustlib"),
        b("src"),
        b("rust"),
        b("src"),
    ];
    let cwd: Vec<Vec<u8>> = vec![b("home"), b("dev"), b("proj")];
    let under_src = b("/toolchains/nightly/lib/rustlib/src/rust/src/libcore/ptr.rs");
    assert_eq!(
        make_path_relative(under_src.as_slice(), &rust_src, &cwd),
        b("libcore/ptr.rs")
    );
    let under_cwd = b("/home/dev/proj/src/main.rs");
    assert_eq!(
        make_path_relative(under_cwd.as_slice(), &rust_src, &cwd),
        b("src/main.rs")
    );
    let relative = b("src/main.rs");
    assert_eq!(
        make_path_relative(relative.as_slice(), &rust_src, &cwd),
        b("src/main.rs")
    );
}
