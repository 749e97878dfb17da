//! Target-triple classification: the dialect-relevant predicates (operating
//! system family, architecture family) that drive the lexical classifiers and
//! the locator.

use crate::bytes::{contains_spec, contains_sub};
use crate::lit::{
    bytes_aarch64, bytes_apple, bytes_arm, bytes_i386, bytes_i586, bytes_i686, bytes_linux,
    bytes_mips, bytes_n86, bytes_power, bytes_rust_src_unix, bytes_rust_src_windows, bytes_sparc,
    bytes_windows, bytes_x86, lit_aarch64, lit_apple, lit_arm, lit_i386, lit_i586, lit_i686,
    lit_linux, lit_mips, lit_n86, lit_power, lit_rust_src_unix, lit_rust_src_windows, lit_sparc,
    lit_windows, lit_x86,
};
use vstd::prelude::*;

verus! {

/// A target triple, held as its byte string, e.g.
/// `x86_64-unknown-linux-gnu`.
pub struct TargetInfo {
    triple: Vec<u8>,
}

impl TargetInfo {
    /// The triple the predicates read.
    pub closed spec fn triple_spec(&self) -> Seq<u8> {
        self.triple@
    }

    pub open spec fn is_linux_spec(&self) -> bool {
        contains_spec(self.triple_spec(), lit_linux())
    }

    pub open spec fn is_windows_spec(&self) -> bool {
        contains_spec(self.triple_spec(), lit_windows())
    }

    pub open spec fn is_apple_spec(&self) -> bool {
        contains_spec(self.triple_spec(), lit_apple())
    }

    pub open spec fn is_x86_spec(&self) -> bool {
        contains_spec(self.triple_spec(), lit_x86())
    }

    pub open spec fn is_i386_spec(&self) -> bool {
        contains_spec(self.triple_spec(), lit_i386())
    }

    pub open spec fn is_i586_spec(&self) -> bool {
        contains_spec(self.triple_spec(), lit_i586())
    }

    pub open spec fn is_i686_spec(&self) -> bool {
        contains_spec(self.triple_spec(), lit_i686())
    }

    pub open spec fn is_aarch64_spec(&self) -> bool {
        contains_spec(self.triple_spec(), lit_aarch64())
    }

    pub open spec fn is_arm_spec(&self) -> bool {
        contains_spec(self.triple_spec(), lit_arm())
    }

    pub open spec fn is_sparc_spec(&self) -> bool {
        contains_spec(self.triple_spec(), lit_sparc())
    }

    pub open spec fn is_power_spec(&self) -> bool {
        contains_spec(self.triple_spec(), lit_power())
    }

    pub open spec fn is_mips_spec(&self) -> bool {
        contains_spec(self.triple_spec(), lit_mips())
    }

    /// Any of the x86 family names occurs in the triple.
    pub open spec fn is_intel_family_spec(&self) -> bool {
        self.is_x86_spec() || self.is_i386_spec() || self.is_i586_spec() || self.is_i686_spec()
    }

    pub fn new_from_triple(triple: Vec<u8>) -> (r: Self)
        ensures
            r.triple_spec() == triple@,
    {
        TargetInfo { triple }
    }

    pub fn is_intel(&self) -> (r: bool)
        ensures
            r == contains_spec(self.triple_spec(), lit_n86()),
    {
        contains_sub(self.triple.as_slice(), bytes_n86().as_slice())
    }

    pub fn is_linux(&self) -> (r: bool)
        ensures
            r == self.is_linux_spec(),
    {
        contains_sub(self.triple.as_slice(), bytes_linux().as_slice())
    }

    pub fn is_windows(&self) -> (r: bool)
        ensures
            r == self.is_windows_spec(),
    {
        contains_sub(self.triple.as_slice(), bytes_windows().as_slice())
    }

    pub fn is_apple(&self) -> (r: bool)
        ensures
            r == self.is_apple_spec(),
    {
        contains_sub(self.triple.as_slice(), bytes_apple().as_slice())
    }

    pub fn is_x86(&self) -> (r: bool)
        ensures
            r == self.is_x86_spec(),
    {
        contains_sub(self.triple.as_slice(), bytes_x86().as_slice())
    }

    pub fn is_i386(&self) -> (r: bool)
        ensures
            r == self.is_i386_spec(),
    {
        contains_sub(self.triple.as_slice(), bytes_i386().as_slice())
    }

    pub fn is_i586(&self) -> (r: bool)
        ensures
            r == self.is_i586_spec(),
    {
        contains_sub(self.triple.as_slice(), bytes_i586().as_slice())
    }

    pub fn is_i686(&self) -> (r: bool)
        ensures
            r == self.is_i686_spec(),
    {
        contains_sub(self.triple.as_slice(), bytes_i686().as_slice())
    }

    pub fn is_aarch64(&self) -> (r: bool)
        ensures
            r == self.is_aarch64_spec(),
    {
        contains_sub(self.triple.as_slice(), bytes_aarch64().as_slice())
    }

    pub fn is_arm(&self) -> (r: bool)
        ensures
            r == self.is_arm_spec(),
    {
        contains_sub(self.triple.as_slice(), bytes_arm().as_slice())
    }

    pub fn is_sparc(&self) -> (r: bool)
        ensures
            r == self.is_sparc_spec(),
    {
        contains_sub(self.triple.as_slice(), bytes_sparc().as_slice())
    }

    pub fn is_power(&self) -> (r: bool)
        ensures
            r == self.is_power_spec(),
    {
        contains_sub(self.triple.as_slice(), bytes_power().as_slice())
    }

    pub fn is_mips(&self) -> (r: bool)
        ensures
            r == self.is_mips_spec(),
    {
        contains_sub(self.triple.as_slice(), bytes_mips().as_slice())
    }
}

impl Default for TargetInfo {
    /// A triple that names no known system and no known architecture.
    fn default() -> (r: Self)
        ensures
            !r.is_linux_spec(),
            !r.is_windows_spec(),
            !r.is_apple_spec(),
    {
        // "none-none-none"
        let mut triple: Vec<u8> = Vec::new();
        triple.push(110);
        triple.push(111);
        triple.push(110);
        triple.push(101);
        triple.push(45);
        triple.push(110);
        triple.push(111);
        triple.push(110);
        triple.push(101);
        triple.push(45);
        triple.push(110);
        triple.push(111);
        triple.push(110);
        triple.push(101);
        proof {
            let t = triple@;
            assert forall|i: int| !crate::bytes::matches_at(t, lit_linux(), i) by {
                if 0 <= i && i + lit_linux().len() <= t.len() {
                    assert(t.subrange(i, i + lit_linux().len())[0] != lit_linux()[0]) by {
                        assert(lit_linux()[0] == 108);
                    }
                }
            }
            assert forall|i: int| !crate::bytes::matches_at(t, lit_windows(), i) by {
                if 0 <= i && i + lit_windows().len() <= t.len() {
                    assert(t.subrange(i, i + lit_windows().len())[0] != lit_windows()[0]) by {
                        assert(lit_windows()[0] == 119);
                    }
                }
            }
            assert forall|i: int| !crate::bytes::matches_at(t, lit_apple(), i) by {
                if 0 <= i && i + lit_apple().len() <= t.len() {
                    assert(t.subrange(i, i + lit_apple().len())[0] != lit_apple()[0]) by {
                        assert(lit_apple()[0] == 97);
                    }
                }
            }
        }
        TargetInfo { triple }
    }
}

/// The path fragment that identifies the standard library's source tree
/// under the toolchain root: backslash-separated on Windows targets,
/// slash-separated elsewhere.
pub fn rust_src_path_component(target: &TargetInfo) -> (r: Vec<u8>)
    ensures
        r@ == if target.is_windows_spec() {
            lit_rust_src_windows()
        } else {
            lit_rust_src_unix()
        },
{
    if target.is_windows() {
        bytes_rust_src_windows()
    } else {
        bytes_rust_src_unix()
    }
}

} // verus!
