//! The fixed byte strings of the grammar: directive prefixes, dialect
//! markers, architecture names and path fragments, each once as a spec
//! constant and once as an executable constructor.

use vstd::prelude::*;

verus! {

/// The byte string `"86"`.
pub open spec fn lit_n86() -> Seq<u8> {
    seq![56u8, 54u8]
}

/// The byte string `"86"`.
pub fn bytes_n86() -> (r: Vec<u8>)
    ensures
        r@ == lit_n86(),
{
    let mut r: Vec<u8> = Vec::new();
    r.push(56);
    r.push(54);
    proof {
        assert(r@ =~= lit_n86());
    }
    r
}

/// The byte string `"linux"`.
pub open spec fn lit_linux() -> Seq<u8> {
    seq![108u8, 105u8, 110u8, 117u8, 120u8]
}

/// The byte string `"linux"`.
pub fn bytes_linux() -> (r: Vec<u8>)
    ensures
        r@ == lit_linux(),
{
    let mut r: Vec<u8> = Vec::new();
    r.push(108);
    r.push(105);
    r.push(110);
    r.push(117);
    r.push(120);
    proof {
        assert(r@ =~= lit_linux());
    }
    r
}

/// The byte string `"windows"`.
pub open spec fn lit_windows() -> Seq<u8> {
    seq![119u8, 105u8, 110u8, 100u8, 111u8, 119u8, 115u8]
}

/// The byte string `"windows"`.
pub fn bytes_windows() -> (r: Vec<u8>)
    ensures
        r@ == lit_windows(),
{
    let mut r: Vec<u8> = Vec::new();
    r.push(119);
    r.push(105);
    r.push(110);
    r.push(100);
    r.push(111);
    r.push(119);
    r.push(115);
    proof {
        assert(r@ =~= lit_windows());
    }
    r
}

/// The byte string `"apple"`.
pub open spec fn lit_apple() -> Seq<u8> {
    seq![97u8, 112u8, 112u8, 108u8, 101u8]
}

/// The byte string `"apple"`.
pub fn bytes_apple() -> (r: Vec<u8>)
    ensures
        r@ == lit_apple(),
{
    let mut r: Vec<u8> = Vec::new();
    r.push(97);
    r.push(112);
    r.push(112);
    r.push(108);
    r.push(101);
    proof {
        assert(r@ =~= lit_apple());
    }
    r
}

/// The byte string `"x86"`.
pub open spec fn lit_x86() -> Seq<u8> {
    seq![120u8, 56u8, 54u8]
}

/// The byte string `"x86"`.
pub fn bytes_x86() -> (r: Vec<u8>)
    ensures
        r@ == lit_x86(),
{
    let mut r: Vec<u8> = Vec::new();
    r.push(120);
    r.push(56);
    r.push(54);
    proof {
        assert(r@ =~= lit_x86());
    }
    r
}

/// The byte string `"i386"`.
pub open spec fn lit_i386() -> Seq<u8> {
    seq![105u8, 51u8, 56u8, 54u8]
}

/// The byte string `"i386"`.
pub fn bytes_i386() -> (r: Vec<u8>)
    ensures
        r@ == lit_i386(),
{
    let mut r: Vec<u8> = Vec::new();
    r.push(105);
    r.push(51);
    r.push(56);
    r.push(54);
    proof {
        assert(r@ =~= lit_i386());
    }
    r
}

/// The byte string `"i586"`.
pub open spec fn lit_i586() -> Seq<u8> {
    seq![105u8, 53u8, 56u8, 54u8]
}

/// The byte string `"i586"`.
pub fn bytes_i586() -> (r: Vec<u8>)
    ensures
        r@ == lit_i586(),
{
    let mut r: Vec<u8> = Vec::new();
    r.push(105);
    r.push(53);
    r.push(56);
    r.push(54);
    proof {
        assert(r@ =~= lit_i586());
    }
    r
}

/// The byte string `"i686"`.
pub open spec fn lit_i686() -> Seq<u8> {
    seq![105u8, 54u8, 56u8, 54u8]
}

/// The byte string `"i686"`.
pub fn bytes_i686() -> (r: Vec<u8>)
    ensures
        r@ == lit_i686(),
{
    let mut r: Vec<u8> = Vec::new();
    r.push(105);
    r.push(54);
    r.push(56);
    r.push(54);
    proof {
        assert(r@ =~= lit_i686());
    }
    r
}

/// The byte string `"aarch64"`.
pub open spec fn lit_aarch64() -> Seq<u8> {
    seq![97u8, 97u8, 114u8, 99u8, 104u8, 54u8, 52u8]
}

/// The byte string `"aarch64"`.
pub fn bytes_aarch64() -> (r: Vec<u8>)
    ensures
        r@ == lit_aarch64(),
{
    let mut r: Vec<u8> = Vec::new();
    r.push(97);
    r.push(97);
    r.push(114);
    r.push(99);
    r.push(104);
    r.push(54);
    r.push(52);
    proof {
        assert(r@ =~= lit_aarch64());
    }
    r
}

/// The byte string `"arm"`.
pub open spec fn lit_arm() -> Seq<u8> {
    seq![97u8, 114u8, 109u8]
}

/// The byte string `"arm"`.
pub fn bytes_arm() -> (r: Vec<u8>)
    ensures
        r@ == lit_arm(),
{
    let mut r: Vec<u8> = Vec::new();
    r.push(97);
    r.push(114);
    r.push(109);
    proof {
        assert(r@ =~= lit_arm());
    }
    r
}

/// The byte string `"sparc"`.
pub open spec fn lit_sparc() -> Seq<u8> {
    seq![115u8, 112u8, 97u8, 114u8, 99u8]
}

/// The byte string `"sparc"`.
pub fn bytes_sparc() -> (r: Vec<u8>)
    ensures
        r@ == lit_sparc(),
{
    let mut r: Vec<u8> = Vec::new();
    r.push(115);
    r.push(112);
    r.push(97);
    r.push(114);
    r.push(99);
    proof {
        assert(r@ =~= lit_sparc());
    }
    r
}

/// The byte string `"power"`.
pub open spec fn lit_power() -> Seq<u8> {
    seq![112u8, 111u8, 119u8, 101u8, 114u8]
}

/// The byte string `"power"`.
pub fn bytes_power() -> (r: Vec<u8>)
    ensures
        r@ == lit_power(),
{
    let mut r: Vec<u8> = Vec::new();
    r.push(112);
    r.push(111);
    r.push(119);
    r.push(101);
    r.push(114);
    proof {
        assert(r@ =~= lit_power());
    }
    r
}

/// The byte string `"mips"`.
pub open spec fn lit_mips() -> Seq<u8> {
    seq![109u8, 105u8, 112u8, 115u8]
}

/// The byte string `"mips"`.
pub fn bytes_mips() -> (r: Vec<u8>)
    ensures
        r@ == lit_mips(),
{
    let mut r: Vec<u8> = Vec::new();
    r.push(109);
    r.push(105);
    r.push(112);
    r.push(115);
    proof {
        assert(r@ =~= lit_mips());
    }
    r
}

/// The byte string `"lib/rustlib/src/rust/src"`.
pub open spec fn lit_rust_src_unix() -> Seq<u8> {
    seq![108u8, 105u8, 98u8, 47u8, 114u8, 117u8, 115u8, 116u8, 108u8, 105u8, 98u8, 47u8, 115u8, 114u8, 99u8, 47u8, 114u8, 117u8, 115u8, 116u8, 47u8, 115u8, 114u8, 99u8]
}

/// The byte string `"lib/rustlib/src/rust/src"`.
pub fn bytes_rust_src_unix() -> (r: Vec<u8>)
    ensures
        r@ == lit_rust_src_unix(),
{
    let mut r: Vec<u8> = Vec::new();
    r.push(108);
    r.push(105);
    r.push(98);
    r.push(47);
    r.push(114);
    r.push(117);
    r.push(115);
    r.push(116);
    r.push(108);
    r.push(105);
    r.push(98);
    r.push(47);
    r.push(115);
    r.push(114);
    r.push(99);
    r.push(47);
    r.push(114);
    r.push(117);
    r.push(115);
    r.push(116);
    r.push(47);
    r.push(115);
    r.push(114);
    r.push(99);
    proof {
        assert(r@ =~= lit_rust_src_unix());
    }
    r
}

/// The byte string `"lib\\rustlib\\src\\rust\\src"`.
pub open spec fn lit_rust_src_windows() -> Seq<u8> {
    seq![108u8, 105u8, 98u8, 92u8, 114u8, 117u8, 115u8, 116u8, 108u8, 105u8, 98u8, 92u8, 115u8, 114u8, 99u8, 92u8, 114u8, 117u8, 115u8, 116u8, 92u8, 115u8, 114u8, 99u8]
}

/// The byte string `"lib\\rustlib\\src\\rust\\src"`.
pub fn bytes_rust_src_windows() -> (r: Vec<u8>)
    ensures
        r@ == lit_rust_src_windows(),
{
    let mut r: Vec<u8> = Vec::new();
    r.push(108);
    r.push(105);
    r.push(98);
    r.push(92);
    r.push(114);
    r.push(117);
    r.push(115);
    r.push(116);
    r.push(108);
    r.push(105);
    r.push(98);
    r.push(92);
    r.push(115);
    r.push(114);
    r.push(99);
    r.push(92);
    r.push(114);
    r.push(117);
    r.push(115);
    r.push(116);
    r.push(92);
    r.push(115);
    r.push(114);
    r.push(99);
    proof {
        assert(r@ =~= lit_rust_src_windows());
    }
    r
}

/// The byte string `".file"`.
pub open spec fn lit_dot_file() -> Seq<u8> {
    seq![46u8, 102u8, 105u8, 108u8, 101u8]
}

/// The byte string `".file"`.
pub fn bytes_dot_file() -> (r: Vec<u8>)
    ensures
        r@ == lit_dot_file(),
{
    let mut r: Vec<u8> = Vec::new();
    r.push(46);
    r.push(102);
    r.push(105);
    r.push(108);
    r.push(101);
    proof {
        assert(r@ =~= lit_dot_file());
    }
    r
}

/// The byte string `".cv_file"`.
pub open spec fn lit_dot_cv_file() -> Seq<u8> {
    seq![46u8, 99u8, 118u8, 95u8, 102u8, 105u8, 108u8, 101u8]
}

/// The byte string `".cv_file"`.
pub fn bytes_dot_cv_file() -> (r: Vec<u8>)
    ensures
        r@ == lit_dot_cv_file(),
{
    let mut r: Vec<u8> = Vec::new();
    r.push(46);
    r.push(99);
    r.push(118);
    r.push(95);
    r.push(102);
    r.push(105);
    r.push(108);
    r.push(101);
    proof {
        assert(r@ =~= lit_dot_cv_file());
    }
    r
}

/// The byte string `".cv_filec"`.
pub open spec fn lit_dot_cv_filec() -> Seq<u8> {
    seq![46u8, 99u8, 118u8, 95u8, 102u8, 105u8, 108u8, 101u8, 99u8]
}

/// The byte string `".cv_filec"`.
pub fn bytes_dot_cv_filec() -> (r: Vec<u8>)
    ensures
        r@ == lit_dot_cv_filec(),
{
    let mut r: Vec<u8> = Vec::new();
    r.push(46);
    r.push(99);
    r.push(118);
    r.push(95);
    r.push(102);
    r.push(105);
    r.push(108);
    r.push(101);
    r.push(99);
    proof {
        assert(r@ =~= lit_dot_cv_filec());
    }
    r
}

/// The byte string `".loc"`.
pub open spec fn lit_dot_loc() -> Seq<u8> {
    seq![46u8, 108u8, 111u8, 99u8]
}

/// The byte string `".loc"`.
pub fn bytes_dot_loc() -> (r: Vec<u8>)
    ensures
        r@ == lit_dot_loc(),
{
    let mut r: Vec<u8> = Vec::new();
    r.push(46);
    r.push(108);
    r.push(111);
    r.push(99);
    proof {
        assert(r@ =~= lit_dot_loc());
    }
    r
}

/// The byte string `".cv_loc"`.
pub open spec fn lit_dot_cv_loc() -> Seq<u8> {
    seq![46u8, 99u8, 118u8, 95u8, 108u8, 111u8, 99u8]
}

/// The byte string `".cv_loc"`.
pub fn bytes_dot_cv_loc() -> (r: Vec<u8>)
    ensures
        r@ == lit_dot_cv_loc(),
{
    let mut r: Vec<u8> = Vec::new();
    r.push(46);
    r.push(99);
    r.push(118);
    r.push(95);
    r.push(108);
    r.push(111);
    r.push(99);
    proof {
        assert(r@ =~= lit_dot_cv_loc());
    }
    r
}

/// The byte string `".L"`.
pub open spec fn lit_dot_l_upper() -> Seq<u8> {
    seq![46u8, 76u8]
}

/// The byte string `".L"`.
pub fn bytes_dot_l_upper() -> (r: Vec<u8>)
    ensures
        r@ == lit_dot_l_upper(),
{
    let mut r: Vec<u8> = Vec::new();
    r.push(46);
    r.push(76);
    proof {
        assert(r@ =~= lit_dot_l_upper());
    }
    r
}

/// The byte string `"bl"`.
pub open spec fn lit_bl() -> Seq<u8> {
    seq![98u8, 108u8]
}

/// The byte string `"bl"`.
pub fn bytes_bl() -> (r: Vec<u8>)
    ensures
        r@ == lit_bl(),
{
    let mut r: Vec<u8> = Vec::new();
    r.push(98);
    r.push(108);
    proof {
        assert(r@ =~= lit_bl());
    }
    r
}

/// The byte string `"b."`.
pub open spec fn lit_b_dot() -> Seq<u8> {
    seq![98u8, 46u8]
}

/// The byte string `"b."`.
pub fn bytes_b_dot() -> (r: Vec<u8>)
    ensures
        r@ == lit_b_dot(),
{
    let mut r: Vec<u8> = Vec::new();
    r.push(98);
    r.push(46);
    proof {
        assert(r@ =~= lit_b_dot());
    }
    r
}

/// The byte string `"call"`.
pub open spec fn lit_call() -> Seq<u8> {
    seq![99u8, 97u8, 108u8, 108u8]
}

/// The byte string `"call"`.
pub fn bytes_call() -> (r: Vec<u8>)
    ensures
        r@ == lit_call(),
{
    let mut r: Vec<u8> = Vec::new();
    r.push(99);
    r.push(97);
    r.push(108);
    r.push(108);
    proof {
        assert(r@ =~= lit_call());
    }
    r
}

/// The byte string `"b"`.
pub open spec fn lit_b() -> Seq<u8> {
    seq![98u8]
}

/// The byte string `"b"`.
pub fn bytes_b() -> (r: Vec<u8>)
    ensures
        r@ == lit_b(),
{
    let mut r: Vec<u8> = Vec::new();
    r.push(98);
    proof {
        assert(r@ =~= lit_b());
    }
    r
}

/// The byte string `"_Z"`.
pub open spec fn lit_underscore_z() -> Seq<u8> {
    seq![95u8, 90u8]
}

/// The byte string `"_Z"`.
pub fn bytes_underscore_z() -> (r: Vec<u8>)
    ensures
        r@ == lit_underscore_z(),
{
    let mut r: Vec<u8> = Vec::new();
    r.push(95);
    r.push(90);
    proof {
        assert(r@ =~= lit_underscore_z());
    }
    r
}

/// The byte string `"@PLT"`.
pub open spec fn lit_at_plt() -> Seq<u8> {
    seq![64u8, 80u8, 76u8, 84u8]
}

/// The byte string `"@PLT"`.
pub fn bytes_at_plt() -> (r: Vec<u8>)
    ensures
        r@ == lit_at_plt(),
{
    let mut r: Vec<u8> = Vec::new();
    r.push(64);
    r.push(80);
    r.push(76);
    r.push(84);
    proof {
        assert(r@ =~= lit_at_plt());
    }
    r
}

/// The byte string `"_"`.
pub open spec fn lit_underscore() -> Seq<u8> {
    seq![95u8]
}

/// The byte string `"_"`.
pub fn bytes_underscore() -> (r: Vec<u8>)
    ensures
        r@ == lit_underscore(),
{
    let mut r: Vec<u8> = Vec::new();
    r.push(95);
    proof {
        assert(r@ =~= lit_underscore());
    }
    r
}

/// The byte string `"__"`.
pub open spec fn lit_double_underscore() -> Seq<u8> {
    seq![95u8, 95u8]
}

/// The byte string `"__"`.
pub fn bytes_double_underscore() -> (r: Vec<u8>)
    ensures
        r@ == lit_double_underscore(),
{
    let mut r: Vec<u8> = Vec::new();
    r.push(95);
    r.push(95);
    proof {
        assert(r@ =~= lit_double_underscore());
    }
    r
}

/// The byte string `".cfi_endproc"`.
pub open spec fn lit_cfi_endproc() -> Seq<u8> {
    seq![46u8, 99u8, 102u8, 105u8, 95u8, 101u8, 110u8, 100u8, 112u8, 114u8, 111u8, 99u8]
}

/// The byte string `".cfi_endproc"`.
pub fn bytes_cfi_endproc() -> (r: Vec<u8>)
    ensures
        r@ == lit_cfi_endproc(),
{
    let mut r: Vec<u8> = Vec::new();
    r.push(46);
    r.push(99);
    r.push(102);
    r.push(105);
    r.push(95);
    r.push(101);
    r.push(110);
    r.push(100);
    r.push(112);
    r.push(114);
    r.push(111);
    r.push(99);
    proof {
        assert(r@ =~= lit_cfi_endproc());
    }
    r
}

/// The byte string `".seh_endproc"`.
pub open spec fn lit_seh_endproc() -> Seq<u8> {
    seq![46u8, 115u8, 101u8, 104u8, 95u8, 101u8, 110u8, 100u8, 112u8, 114u8, 111u8, 99u8]
}

/// The byte string `".seh_endproc"`.
pub fn bytes_seh_endproc() -> (r: Vec<u8>)
    ensures
        r@ == lit_seh_endproc(),
{
    let mut r: Vec<u8> = Vec::new();
    r.push(46);
    r.push(115);
    r.push(101);
    r.push(104);
    r.push(95);
    r.push(101);
    r.push(110);
    r.push(100);
    r.push(112);
    r.push(114);
    r.push(111);
    r.push(99);
    proof {
        assert(r@ =~= lit_seh_endproc());
    }
    r
}

/// The byte string `"Lcfi"`.
pub open spec fn lit_lcfi() -> Seq<u8> {
    seq![76u8, 99u8, 102u8, 105u8]
}

/// The byte string `"Lcfi"`.
pub fn bytes_lcfi() -> (r: Vec<u8>)
    ensures
        r@ == lit_lcfi(),
{
    let mut r: Vec<u8> = Vec::new();
    r.push(76);
    r.push(99);
    r.push(102);
    r.push(105);
    proof {
        assert(r@ =~= lit_lcfi());
    }
    r
}

/// The byte string `"Ltmp"`.
pub open spec fn lit_ltmp() -> Seq<u8> {
    seq![76u8, 116u8, 109u8, 112u8]
}

/// The byte string `"Ltmp"`.
pub fn bytes_ltmp() -> (r: Vec<u8>)
    ensures
        r@ == lit_ltmp(),
{
    let mut r: Vec<u8> = Vec::new();
    r.push(76);
    r.push(116);
    r.push(109);
    r.push(112);
    proof {
        assert(r@ =~= lit_ltmp());
    }
    r
}

/// The byte string `"Lfunc_end"`.
pub open spec fn lit_lfunc_end() -> Seq<u8> {
    seq![76u8, 102u8, 117u8, 110u8, 99u8, 95u8, 101u8, 110u8, 100u8]
}

/// The byte string `"Lfunc_end"`.
pub fn bytes_lfunc_end() -> (r: Vec<u8>)
    ensures
        r@ == lit_lfunc_end(),
{
    let mut r: Vec<u8> = Vec::new();
    r.push(76);
    r.push(102);
    r.push(117);
    r.push(110);
    r.push(99);
    r.push(95);
    r.push(101);
    r.push(110);
    r.push(100);
    proof {
        assert(r@ =~= lit_lfunc_end());
    }
    r
}

/// The byte string `"//"`.
pub open spec fn lit_slash_slash() -> Seq<u8> {
    seq![47u8, 47u8]
}

/// The byte string `"//"`.
pub fn bytes_slash_slash() -> (r: Vec<u8>)
    ensures
        r@ == lit_slash_slash(),
{
    let mut r: Vec<u8> = Vec::new();
    r.push(47);
    r.push(47);
    proof {
        assert(r@ =~= lit_slash_slash());
    }
    r
}

/// The byte string `"libstd"`.
pub open spec fn lit_libstd() -> Seq<u8> {
    seq![108u8, 105u8, 98u8, 115u8, 116u8, 100u8]
}

/// The byte string `"libstd"`.
pub fn bytes_libstd() -> (r: Vec<u8>)
    ensures
        r@ == lit_libstd(),
{
    let mut r: Vec<u8> = Vec::new();
    r.push(108);
    r.push(105);
    r.push(98);
    r.push(115);
    r.push(116);
    r.push(100);
    proof {
        assert(r@ =~= lit_libstd());
    }
    r
}

/// The byte string `"libcore"`.
pub open spec fn lit_libcore() -> Seq<u8> {
    seq![108u8, 105u8, 98u8, 99u8, 111u8, 114u8, 101u8]
}

/// The byte string `"libcore"`.
pub fn bytes_libcore() -> (r: Vec<u8>)
    ensures
        r@ == lit_libcore(),
{
    let mut r: Vec<u8> = Vec::new();
    r.push(108);
    r.push(105);
    r.push(98);
    r.push(99);
    r.push(111);
    r.push(114);
    r.push(101);
    proof {
        assert(r@ =~= lit_libcore());
    }
    r
}

/// The byte string `"liballoc"`.
pub open spec fn lit_liballoc() -> Seq<u8> {
    seq![108u8, 105u8, 98u8, 97u8, 108u8, 108u8, 111u8, 99u8]
}

/// The byte string `"liballoc"`.
pub fn bytes_liballoc() -> (r: Vec<u8>)
    ensures
        r@ == lit_liballoc(),
{
    let mut r: Vec<u8> = Vec::new();
    r.push(108);
    r.push(105);
    r.push(98);
    r.push(97);
    r.push(108);
    r.push(108);
    r.push(111);
    r.push(99);
    proof {
        assert(r@ =~= lit_liballoc());
    }
    r
}

/// The byte string `"\\\\"`.
pub open spec fn lit_backslash_backslash() -> Seq<u8> {
    seq![92u8, 92u8]
}

/// The byte string `"\\\\"`.
pub fn bytes_backslash_backslash() -> (r: Vec<u8>)
    ensures
        r@ == lit_backslash_backslash(),
{
    let mut r: Vec<u8> = Vec::new();
    r.push(92);
    r.push(92);
    proof {
        assert(r@ =~= lit_backslash_backslash());
    }
    r
}

/// The byte string `"\\"`.
pub open spec fn lit_backslash() -> Seq<u8> {
    seq![92u8]
}

/// The byte string `"\\"`.
pub fn bytes_backslash() -> (r: Vec<u8>)
    ensures
        r@ == lit_backslash(),
{
    let mut r: Vec<u8> = Vec::new();
    r.push(92);
    proof {
        assert(r@ =~= lit_backslash());
    }
    r
}

} // verus!
