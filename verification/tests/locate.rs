//! The locator: finding a function's statement range, resolving its file,
//! reporting the names of all functions when it is missing, and failing
//! fast on corrupt listings.

use cargo_asm::ast::Statement;
use cargo_asm::parse::{function, function_body, parse_files, ParseError, ParseResult};
use cargo_asm::target::TargetInfo;

fn b(s: &str) -> Vec<u8> {
    s.as_bytes().to_vec()
}

fn lines(src: &[&str]) -> Vec<Vec<u8>> {
    src.iter().map(|l| b(l)).collect()
}

fn linux() -> TargetInfo {
    TargetInfo::new_from_triple(b("x86_64-unknown-linux-gnu"))
}

#[test]
fn finds_function_by_demangled_label() {
    // A label that demangles to `foo`, some instructions, and the end marker.
    let listing = lines(&[
        "\t.text",
        "_ZN3foo17h0123456789abcdefE:",
        "\tpush rbp",
        "\tmov rbp, rsp",
        "\t.cfi_endproc",
    ]);
    let r = function(&listing, b("foo").as_slice(), &linux()).unwrap();
    match r {
        ParseResult::Found(f, _) => {
            assert_eq!(f.id, b("foo"));
            assert_eq!(f.statements.len(), 2);
            assert!(f.loc.is_none());
            assert!(f.file.is_none());
        },
        ParseResult::NotFound(_) => panic!("function should have been found"),
    }
}

#[test]
fn not_found_reports_all_names() {
    let listing = lines(&[
        "_ZN3foo17h0123456789abcdefE:",
        "\tret",
        "\t.cfi_endproc",
        "_ZN3bar17hfedcba9876543210E:",
        "\tret",
        "\t.cfi_endproc",
    ]);
    let r = function(&listing, b("baz").as_slice(), &linux()).unwrap();
    match r {
        ParseResult::NotFound(names) => {
            assert_eq!(names, vec![b("foo"), b("bar")]);
        },
        ParseResult::Found(_, _) => panic!("nothing should match baz"),
    }
}

#[test]
fn round_trip_through_name_table() {
    // Scanning again for a name the table itself produced must find it.
    let listing = lines(&[
        "_ZN3foo17h0123456789abcdefE:",
        "\tret",
        "\t.cfi_endproc",
    ]);
    let first = function(&listing, b("missing").as_slice(), &linux()).unwrap();
    let names = match first {
        ParseResult::NotFound(names) => names,
        ParseResult::Found(_, _) => panic!("missing must not be found"),
    };
    for name in &names {
        let again = function(&listing, name.as_slice(), &linux()).unwrap();
        assert!(matches!(again, ParseResult::Found(_, _)));
    }
}

#[test]
fn loc_and_call_resolve() {
    // A `.loc` before a call: the instruction carries the location and its
    // first operand is demangled.
    // The trailing directive keeps the scan going after the body closes, so
    // the table entry for index 1 can be adopted as the function's file.
    let listing = lines(&[
        ".file 1 \"src/lib.rs\"",
        "_ZN3foo17h0123456789abcdefE:",
        "\t.loc 1 42 0",
        "\tcall _ZN3bar17hfedcba9876543210E",
        "\t.cfi_endproc",
        "\t.text",
    ]);
    let r = function(&listing, b("foo").as_slice(), &linux()).unwrap();
    match r {
        ParseResult::Found(f, table) => {
            let loc = f.loc.expect("first .loc becomes the function's location");
            assert_eq!(loc.file_index, 1);
            assert_eq!(loc.file_line, 42);
            assert_eq!(loc.file_column, 0);
            let file = f.file.expect("the .file with the matching index is adopted");
            assert_eq!(file.path, b("src/lib.rs"));
            let call = f
                .statements
                .iter()
                .find_map(|s| match s {
                    Statement::Instruction(i) => Some(i),
                    _ => None,
                })
                .expect("the call is parsed");
            assert_eq!(call.instr, b("call"));
            assert_eq!(call.args[0], b("bar"));
            assert_eq!(call.rust_loc().unwrap().file_line, 42);
            assert!(table.contains(1));
        },
        ParseResult::NotFound(_) => panic!("function should have been found"),
    }
}

#[test]
fn every_loc_has_a_file_entry() {
    let listing = lines(&[
        ".file 1 \"src/lib.rs\"",
        ".file 2 \"src/other.rs\"",
        "_ZN3foo17h0123456789abcdefE:",
        "\t.loc 1 3 0",
        "\tret",
        "\t.loc 2 9 0",
        "\tnop",
        "\t.cfi_endproc",
    ]);
    let r = function(&listing, b("foo").as_slice(), &linux()).unwrap();
    match r {
        ParseResult::Found(f, table) => {
            for s in &f.statements {
                if let Statement::Directive(cargo_asm::ast::Directive::Loc(l)) = s {
                    assert!(table.contains(l.file_index));
                }
            }
        },
        ParseResult::NotFound(_) => panic!("function should have been found"),
    }
}

#[test]
fn inconsistent_file_table_is_fatal() {
    let listing = lines(&[
        ".file 1 \"src/a.rs\"",
        ".file 1 \"src/b.rs\"",
        "_ZN3foo17h0123456789abcdefE:",
        "\tret",
        "\t.cfi_endproc",
    ]);
    let r = function(&listing, b("foo").as_slice(), &linux());
    match r {
        Err(e) => assert_eq!(e, ParseError::InconsistentFileTable { index: 1 }),
        Ok(_) => panic!("duplicate declarations must be fatal"),
    }
}

#[test]
fn incomplete_file_table_is_fatal() {
    // The function's `.loc` names a file no `.file` ever declares.
    let listing = lines(&[
        ".file 1 \"src/a.rs\"",
        "_ZN3foo17h0123456789abcdefE:",
        "\t.loc 1 3 0",
        "\t.loc 7 4 0",
        "\tret",
        "\t.cfi_endproc",
    ]);
    let r = function(&listing, b("foo").as_slice(), &linux());
    match r {
        Err(ParseError::IncompleteFileTable { loc }) => {
            assert_eq!(loc.file_index, 7);
        },
        other => panic!("expected an incomplete-table failure, got {:?}", other),
    }
}

#[test]
fn mismatched_first_loc_is_fatal() {
    let body = lines(&[".file 2 \"src/a.rs\"", ".loc 1 3 0"]);
    let r = function_body(&body, b("foo").as_slice(), &linux());
    match r {
        Err(e) => assert_eq!(e, ParseError::LocFileMismatch),
        Ok(_) => panic!("the contradiction must be fatal"),
    }
}

#[test]
fn body_without_locs_resolves_nothing() {
    let body = lines(&["push rbp", "mov rbp, rsp", "ret"]);
    let f = function_body(&body, b("foo").as_slice(), &linux()).unwrap();
    assert!(f.loc.is_none());
    assert!(f.file.is_none());
    for s in &f.statements {
        assert!(s.rust_loc().is_none());
    }
}

#[test]
fn comment_split_keeps_both_parts() {
    let body = lines(&["mov eax, 1 ; set the result"]);
    let f = function_body(&body, b("foo").as_slice(), &linux()).unwrap();
    assert_eq!(f.statements.len(), 2);
    assert!(matches!(f.statements[0], Statement::Comment(_)));
    assert!(matches!(f.statements[1], Statement::Instruction(_)));
}

#[test]
fn multiple_files_scanned_in_order() {
    let first = lines(&["_ZN3aaa17h0123456789abcdefE:", "\tret", "\t.cfi_endproc"]);
    let second = lines(&["_ZN3foo17h0123456789abcdefE:", "\tret", "\t.cfi_endproc"]);
    let files = vec![first, second];
    let r = parse_files(&files, b("foo").as_slice(), &linux()).unwrap();
    assert!(matches!(r, ParseResult::Found(_, _)));

    let r2 = parse_files(&files, b("zzz").as_slice(), &linux()).unwrap();
    match r2 {
        ParseResult::NotFound(names) => {
            // Sorted and deduplicated across the listings.
            assert_eq!(names, vec![b("aaa"), b("foo")]);
        },
        ParseResult::Found(_, _) => panic!("zzz is in no listing"),
    }
}
