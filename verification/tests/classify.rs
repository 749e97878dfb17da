//! Per-line classification: each statement form is recognised exactly once,
//! in the fixed order.

use cargo_asm::ast::{Comment, Directive, File, GenericDirective, Instruction, Label, Loc,
    Statement};
use cargo_asm::ast::{classify_statement, is_directive};
use cargo_asm::target::TargetInfo;

fn b(s: &str) -> Vec<u8> {
    s.as_bytes().to_vec()
}

fn linux() -> TargetInfo {
    TargetInfo::new_from_triple(b("x86_64-unknown-linux-gnu"))
}

fn windows() -> TargetInfo {
    TargetInfo::new_from_triple(b("x86_64-pc-windows-msvc"))
}

#[test]
fn replace_slashes() {
    let mut windows_path = b(r#"C:\\projects\\cargo-asm\\cargo-asm-test\\lib_crate\\src\\bar.rs"#);
    let windows_path_norm = b(r#"C:\projects\cargo-asm\cargo-asm-test\lib_crate\src\bar.rs"#);
    cargo_asm::ast::replace_slashes(&mut windows_path);
    assert_eq!(windows_path_norm, windows_path);
}

#[test]
fn label_grammar() {
    let l = Label::new(b("LBB0_1:").as_slice(), None).unwrap();
    assert_eq!(l.id, b("LBB0_1"));
    assert!(Label::new(b("mov eax, 1").as_slice(), None).is_none());
}

#[test]
fn directive_grammar() {
    assert!(is_directive(b(".cfi_startproc").as_slice()));
    assert!(!is_directive(b("Ltmp0:").as_slice()));
    assert!(!is_directive(b("mov eax, 1").as_slice()));
    let d = Directive::new(b(".p2align 4, 0x90").as_slice(), &linux()).unwrap();
    assert!(matches!(d, Directive::Generic(_)));
}

#[test]
fn file_directive_linux() {
    let f = File::new(b(".file 2 \"src/lib.rs\"").as_slice(), &linux()).unwrap();
    assert_eq!(f.index, 2);
    assert_eq!(f.path, b("src/lib.rs"));
    assert!(File::new(b(".loc 1 4 2").as_slice(), &linux()).is_none());
}

#[test]
fn file_directive_windows() {
    let f = File::new(
        b(".cv_file 1 \"C:\\\\projects\\\\src\\\\lib.rs\"").as_slice(),
        &windows(),
    )
    .unwrap();
    assert_eq!(f.index, 1);
    assert_eq!(f.path, b("C:\\projects\\src\\lib.rs"));
    assert!(File::new(b(".cv_filechecksums").as_slice(), &windows()).is_none());
}

#[test]
fn loc_directive_linux() {
    let l = Loc::new(b(".loc 1 42 7").as_slice(), &linux()).unwrap();
    assert_eq!(l.file_index, 1);
    assert_eq!(l.file_line, 42);
    assert_eq!(l.file_column, 7);
    let no_col = Loc::new(b(".loc 3 9").as_slice(), &linux()).unwrap();
    assert_eq!(no_col.file_column, 0);
}

#[test]
fn loc_directive_windows() {
    let l = Loc::new(b(".cv_loc 0 1 12 5").as_slice(), &windows()).unwrap();
    assert_eq!(l.file_index, 1);
    assert_eq!(l.file_line, 12);
    assert_eq!(l.file_column, 5);
}

#[test]
fn comment_grammar() {
    let c = Comment::new(b("; this is a note").as_slice()).unwrap();
    assert_eq!(c.string, b("; this is a note"));
    assert!(Comment::new(b("mov eax, 1").as_slice()).is_none());
}

#[test]
fn instruction_tokens() {
    let i = Instruction::new(b("mov rax, qword ptr [rbp - 8]").as_slice(), None, &linux())
        .unwrap();
    assert_eq!(i.instr, b("mov"));
    assert_eq!(i.args[0], b("rax"));
    assert!(i.args.iter().all(|a| !a.is_empty()));
}

#[test]
fn classification_is_exclusive() {
    let t = linux();
    let cases: Vec<Vec<u8>> = vec![
        b(".loc 1 4 2"),
        b(".file 1 \"a.rs\""),
        b(".p2align 4"),
        b("LBB0_1:"),
        b("mov eax, 1"),
        b("ret"),
    ];
    for case in &cases {
        let s = classify_statement(case.as_slice(), None, &t);
        let as_directive = matches!(s, Statement::Directive(_));
        let as_label = matches!(s, Statement::Label(_));
        let as_instr = matches!(s, Statement::Instruction(_));
        let count = (as_directive as u32) + (as_label as u32) + (as_instr as u32);
        assert_eq!(count, 1);
        assert!(!matches!(s, Statement::Comment(_)));
        assert_eq!(as_directive, is_directive(case.as_slice()));
    }
}

#[test]
fn jump_and_call_by_architecture() {
    let x86 = linux();
    let jmp = Instruction::new(b("jne LBB0_5").as_slice(), None, &x86).unwrap();
    assert!(jmp.is_jump(&x86));
    assert!(!jmp.is_call(&x86));
    let call = Instruction::new(b("call strlen").as_slice(), None, &x86).unwrap();
    assert!(call.is_call(&x86));
    assert!(!call.is_jump(&x86));

    let arm = TargetInfo::new_from_triple(b("aarch64-unknown-linux-gnu"));
    let b_instr = Instruction::new(b("b LBB0_2").as_slice(), None, &arm).unwrap();
    assert!(b_instr.is_jump(&arm));
    let bl = Instruction::new(b("bl memset").as_slice(), None, &arm).unwrap();
    assert!(bl.is_call(&arm));

    let unknown = TargetInfo::new_from_triple(b("wasm32-unknown-unknown"));
    assert!(!jmp.is_jump(&unknown));
    assert!(!call.is_call(&unknown));
}

#[test]
fn generic_directive_trims() {
    let g = GenericDirective::new(b(".globl main ").as_slice()).unwrap();
    assert_eq!(g.string, b(".globl main"));
}
