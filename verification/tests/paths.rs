//! Path utilities over component lists.

use cargo_asm::path::{after, push, split_components};

fn b(s: &str) -> Vec<u8> {
    s.as_bytes().to_vec()
}

#[test]
fn contains() {
    {
        let sub_path = split_components(b("lib/rustlib/src/rust/src/").as_slice());

        let macosx_path = split_components(
            b("/Users/foo/.rustup/toolchains/nightly-x86_64-apple-darwin/lib/rustlib/src/rust/src/liballoc")
                .as_slice(),
        );
        let macosx_path_typo = split_components(
            b("/Users/foo/.rustup/toolchains/nightly-x86_64-apple-darwin/lib/rustlib2/src/rust/src/liballoc")
                .as_slice(),
        );

        assert!(cargo_asm::path::contains(&macosx_path, &sub_path));
        assert!(!cargo_asm::path::contains(&macosx_path_typo, &sub_path));
        assert_eq!(
            after(&macosx_path, &sub_path),
            split_components(b("liballoc").as_slice())
        );
    }
    {
        let sub_path = split_components(
            b(r#"C:\projects\cargo-asm\cargo-asm-test\lib_crate"#).as_slice(),
        );
        let windows_path = split_components(
            b(r#"C:\projects\cargo-asm\cargo-asm-test\lib_crate\src\lib.rs"#).as_slice(),
        );
        assert!(cargo_asm::path::contains(&windows_path, &sub_path));

        assert_eq!(
            after(&windows_path, &sub_path),
            split_components(b(r#"src\lib.rs"#).as_slice())
        );
    }
}

#[test]
fn empty_sub_path_is_contained() {
    let path = split_components(b("/a/b").as_slice());
    let empty: Vec<Vec<u8>> = Vec::new();
    assert!(cargo_asm::path::contains(&path, &empty));
}

#[test]
fn push_appends_components() {
    let mut path = split_components(b("/usr/lib").as_slice());
    let tail = split_components(b("rustlib/src").as_slice());
    push(&mut path, &tail);
    assert_eq!(path, split_components(b("/usr/lib/rustlib/src").as_slice()));
}

#[test]
fn components_drop_empty_pieces() {
    assert_eq!(
        split_components(b("//a///b/").as_slice()),
        vec![b("a"), b("b")]
    );
    assert_eq!(
        split_components(b(r#"C:\x\y"#).as_slice()),
        vec![b("C:"), b("x"), b("y")]
    );
}
