//! Recovering readable function names from mangled symbol names: the outside
//! demangler behind one trusted wrapper, the `@PLT` stripping done before it,
//! and the hash-suffix stripping done after it.

use crate::bytes::{
    contains_spec, find_sub, first_match, lemma_first_match_is, subrange_vec,
};
use crate::lit::{bytes_at_plt, lit_at_plt};
use crate::target::TargetInfo;
use vstd::prelude::*;

verus! {

/// What `rustc_demangle::demangle` makes of a symbol: a value of the
/// symbol text alone.
pub uninterp spec fn demangled_of(s: Seq<u8>) -> Seq<u8>;

/// Relies on `rustc_demangle::demangle`, whose result (the legacy or v0
/// demangling, or the input unchanged where neither applies) depends on the
/// symbol text alone.
#[verifier::external_body]
fn demangle_symbol(n: &[u8]) -> (r: Vec<u8>)
    ensures
        r@ == demangled_of(n@),
{
    let s = String::from_utf8_lossy(n);
    rustc_demangle::demangle(&s).to_string().into_bytes()
}

/// A lowercase ASCII hexadecimal digit.
pub open spec fn is_hex_digit_spec(b: u8) -> bool {
    (48 <= b && b <= 57) || (97 <= b && b <= 102)
}

/// A lowercase ASCII hexadecimal digit.
pub fn is_ascii_hexdigit(byte: u8) -> (r: bool)
    ensures
        r == is_hex_digit_spec(byte),
{
    (48 <= byte && byte <= 57) || (97 <= byte && byte <= 102)
}

/// Does the name end in `::h` followed by sixteen hexadecimal digits, the
/// hash suffix typical compiler mangling appends?
pub open spec fn has_hash_spec(s: Seq<u8>) -> bool {
    s.len() >= 19 && (forall|k: int|
        s.len() - 16 <= k < s.len() ==> is_hex_digit_spec(#[trigger] s[k])) && s[s.len() - 17]
        == 104 && s[s.len() - 18] == 58 && s[s.len() - 19] == 58
}

/// Does the name end in `::h` followed by sixteen hexadecimal digits?
pub fn has_hash(name: &[u8]) -> (r: bool)
    ensures
        r == has_hash_spec(name@),
{
    let n = name.len();
    if n < 19 {
        return false;
    }
    let mut k: usize = n - 16;
    while k < n
        invariant
            n == name@.len(),
            19 <= n,
            n - 16 <= k <= n,
            forall|j: int| n - 16 <= j < k ==> is_hex_digit_spec(#[trigger] name@[j]),
        decreases n - k,
    {
        if !is_ascii_hexdigit(name[k]) {
            return false;
        }
        k += 1;
    }
    name[n - 17] == 104 && name[n - 18] == 58 && name[n - 19] == 58
}

/// The name with everything from the first `@PLT` on removed, as done on
/// Linux targets before demangling.
pub open spec fn strip_plt(n: Seq<u8>, linux: bool) -> Seq<u8> {
    if linux && contains_spec(n, lit_at_plt()) {
        n.subrange(0, first_match(n, lit_at_plt()))
    } else {
        n
    }
}

/// What demangling a symbol yields: the `@PLT`-stripped symbol is handed to
/// the demangler, and a trailing hash suffix is removed from its answer.
pub open spec fn demangle_spec(n: Seq<u8>, linux: bool) -> Seq<u8> {
    let d = demangled_of(strip_plt(n, linux));
    if has_hash_spec(d) {
        d.subrange(0, d.len() - 19)
    } else {
        d
    }
}

/// Demangles a symbol name for the given target.
pub fn demangle(n: &[u8], target: &TargetInfo) -> (r: Vec<u8>)
    ensures
        r@ == demangle_spec(n@, target.is_linux_spec()),
{
    let stripped: Vec<u8> = if target.is_linux() {
        match find_sub(n, bytes_at_plt().as_slice()) {
            Some(i) => {
                proof {
                    lemma_first_match_is(n@, lit_at_plt(), i as int);
                }
                subrange_vec(n, 0, i)
            },
            None => subrange_vec(n, 0, n.len()),
        }
    } else {
        subrange_vec(n, 0, n.len())
    };
    proof {
        assert(n@.subrange(0, n@.len() as int) =~= n@);
    }
    let name = demangle_symbol(stripped.as_slice());
    if has_hash(name.as_slice()) {
        let len = name.len() - 19;
        subrange_vec(name.as_slice(), 0, len)
    } else {
        name
    }
}

} // verus!
