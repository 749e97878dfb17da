//! Byte-string utilities shared by the lexical classifiers, the locator and
//! the display engine: trimming, prefix/suffix tests, substring search,
//! splitting and decimal conversion, each with an exact contract over
//! `Seq<u8>`.

use vstd::prelude::*;

verus! {

/// ASCII whitespace, as the `White_Space` property reads on bytes.
pub open spec fn is_ws(b: u8) -> bool {
    b == 32 || (9 <= b && b <= 13)
}

/// Executable twin of [`is_ws`].
pub fn byte_is_ws(b: u8) -> (r: bool)
    ensures
        r == is_ws(b),
{
    b == 32 || (9 <= b && b <= 13)
}

/// Number of leading whitespace bytes.
pub open spec fn leading_ws(s: Seq<u8>) -> int
    decreases s.len(),
{
    if s.len() == 0 || !is_ws(s[0]) {
        0
    } else {
        1 + leading_ws(s.drop_first())
    }
}

/// Number of trailing whitespace bytes.
pub open spec fn trailing_ws(s: Seq<u8>) -> int
    decreases s.len(),
{
    if s.len() == 0 || !is_ws(s[s.len() - 1]) {
        0
    } else {
        1 + trailing_ws(s.drop_last())
    }
}

/// The string with leading and trailing whitespace removed.
pub open spec fn trim_spec(s: Seq<u8>) -> Seq<u8> {
    if leading_ws(s) == s.len() {
        Seq::empty()
    } else {
        s.subrange(leading_ws(s), s.len() - trailing_ws(s))
    }
}

proof fn lemma_leading_ws(s: Seq<u8>)
    ensures
        0 <= leading_ws(s) <= s.len(),
        forall|k: int| 0 <= k < leading_ws(s) ==> is_ws(s[k]),
        leading_ws(s) < s.len() ==> !is_ws(s[leading_ws(s)]),
    decreases s.len(),
{
    if s.len() != 0 && is_ws(s[0]) {
        lemma_leading_ws(s.drop_first());
        assert forall|k: int| 0 <= k < leading_ws(s) implies is_ws(s[k]) by {
            if k > 0 {
                assert(s.drop_first()[k - 1] == s[k]);
            }
        }
    }
}

proof fn lemma_trailing_ws(s: Seq<u8>)
    ensures
        0 <= trailing_ws(s) <= s.len(),
        forall|k: int| s.len() - trailing_ws(s) <= k < s.len() ==> is_ws(s[k]),
        trailing_ws(s) < s.len() ==> !is_ws(s[s.len() - 1 - trailing_ws(s)]),
    decreases s.len(),
{
    if s.len() != 0 && is_ws(s[s.len() - 1]) {
        lemma_trailing_ws(s.drop_last());
        assert forall|k: int| s.len() - trailing_ws(s) <= k < s.len() implies is_ws(s[k]) by {
            if k < s.len() - 1 {
                assert(s.drop_last()[k] == s[k]);
            }
        }
    }
}

/// Copies `s` with leading and trailing whitespace removed.
pub fn trim(s: &[u8]) -> (r: Vec<u8>)
    ensures
        r@ == trim_spec(s@),
{
    proof {
        lemma_leading_ws(s@);
        lemma_trailing_ws(s@);
    }
    let n = s.len();
    let mut lo: usize = 0;
    while lo < n && byte_is_ws(s[lo])
        invariant
            0 <= lo <= n,
            n == s@.len(),
            forall|k: int| 0 <= k < lo ==> is_ws(s@[k]),
        decreases n - lo,
    {
        lo += 1;
    }
    proof {
        lemma_ws_prefix(s@, lo as int);
    }
    if lo == n {
        return Vec::new();
    }
    let mut hi: usize = n;
    while hi > lo && byte_is_ws(s[hi - 1])
        invariant
            lo <= hi <= n,
            n == s@.len(),
            lo == leading_ws(s@),
            lo < n,
            !is_ws(s@[lo as int]),
            forall|k: int| hi <= k < n ==> is_ws(s@[k]),
        decreases hi,
    {
        hi -= 1;
    }
    proof {
        lemma_ws_suffix(s@, hi as int);
        assert(hi > lo);
    }
    let mut r: Vec<u8> = Vec::new();
    let mut i: usize = lo;
    while i < hi
        invariant
            lo <= i <= hi <= n,
            n == s@.len(),
            r@ == s@.subrange(lo as int, i as int),
        decreases hi - i,
    {
        r.push(s[i]);
        proof {
            assert(r@ == s@.subrange(lo as int, i + 1 as int));
        }
        i += 1;
    }
    r
}

/// A prefix of whitespace of length `k`, followed by a non-whitespace byte or
/// the end, pins down `leading_ws`.
proof fn lemma_ws_prefix(s: Seq<u8>, k: int)
    requires
        0 <= k <= s.len(),
        forall|j: int| 0 <= j < k ==> is_ws(s[j]),
        k < s.len() ==> !is_ws(s[k]),
    ensures
        leading_ws(s) == k,
    decreases s.len(),
{
    if k > 0 {
        lemma_ws_prefix(s.drop_first(), k - 1);
    } else {
        if s.len() > 0 && is_ws(s[0]) {
            assert(false);
        }
    }
}

/// A suffix of whitespace starting at `k`, preceded by a non-whitespace byte
/// or the start, pins down `trailing_ws`.
proof fn lemma_ws_suffix(s: Seq<u8>, k: int)
    requires
        0 <= k <= s.len(),
        forall|j: int| k <= j < s.len() ==> is_ws(s[j]),
        k > 0 ==> !is_ws(s[k - 1]),
    ensures
        trailing_ws(s) == s.len() - k,
    decreases s.len(),
{
    if k < s.len() {
        lemma_ws_suffix(s.drop_last(), k);
    }
}

/// Does `s` start with `p`?
pub open spec fn starts_with_spec(s: Seq<u8>, p: Seq<u8>) -> bool {
    p.len() <= s.len() && s.subrange(0, p.len() as int) == p
}

/// Does `s` end with `p`?
pub open spec fn ends_with_spec(s: Seq<u8>, p: Seq<u8>) -> bool {
    p.len() <= s.len() && s.subrange(s.len() - p.len(), s.len() as int) == p
}

pub fn starts_with(s: &[u8], p: &[u8]) -> (r: bool)
    ensures
        r == starts_with_spec(s@, p@),
{
    if p.len() > s.len() {
        assert(!starts_with_spec(s@, p@));
        return false;
    }
    let mut i: usize = 0;
    while i < p.len()
        invariant
            0 <= i <= p@.len() <= s@.len(),
            forall|k: int| 0 <= k < i ==> s@[k] == p@[k],
        decreases p@.len() - i,
    {
        if s[i] != p[i] {
            assert(s@.subrange(0, p@.len() as int)[i as int] != p@[i as int]);
            return false;
        }
        i += 1;
    }
    assert(s@.subrange(0, p@.len() as int) =~= p@);
    true
}

pub fn ends_with(s: &[u8], p: &[u8]) -> (r: bool)
    ensures
        r == ends_with_spec(s@, p@),
{
    if p.len() > s.len() {
        assert(!ends_with_spec(s@, p@));
        return false;
    }
    let sn = s.len();
    let off = sn - p.len();
    let mut i: usize = 0;
    while i < p.len()
        invariant
            0 <= i <= p@.len() <= s@.len(),
            sn == s@.len(),
            off == s@.len() - p@.len(),
            forall|k: int| 0 <= k < i ==> s@[off + k] == p@[k],
        decreases p@.len() - i,
    {
        if s[off + i] != p[i] {
            assert(s@.subrange(s@.len() - p@.len(), s@.len() as int)[i as int] != p@[i as int]);
            return false;
        }
        i += 1;
    }
    assert(s@.subrange(s@.len() - p@.len(), s@.len() as int) =~= p@);
    true
}

/// Does `n` occur as a contiguous run inside `h` at position `i`?
pub open spec fn matches_at(h: Seq<u8>, n: Seq<u8>, i: int) -> bool {
    0 <= i && i + n.len() <= h.len() && h.subrange(i, i + n.len()) == n
}

/// Does `n` occur as a contiguous run anywhere inside `h`?
pub open spec fn contains_spec(h: Seq<u8>, n: Seq<u8>) -> bool {
    exists|i: int| matches_at(h, n, i)
}

/// The least position at which `n` occurs inside `h`; meaningful only when
/// `contains_spec(h, n)` holds.
pub open spec fn first_match(h: Seq<u8>, n: Seq<u8>) -> int {
    choose|i: int|
        #[trigger] matches_at(h, n, i) && forall|j: int| 0 <= j < i ==> !#[trigger] matches_at(h, n, j)
}

pub fn match_at(h: &[u8], n: &[u8], i: usize) -> (r: bool)
    requires
        i + n@.len() <= h@.len(),
    ensures
        r == matches_at(h@, n@, i as int),
{
    let hn = h.len();
    let mut k: usize = 0;
    while k < n.len()
        invariant
            0 <= k <= n@.len(),
            i + n@.len() <= h@.len(),
            hn == h@.len(),
            forall|j: int| 0 <= j < k ==> h@[i + j] == n@[j],
        decreases n@.len() - k,
    {
        if h[i + k] != n[k] {
            assert(h@.subrange(i as int, i + n@.len())[k as int] != n@[k as int]);
            return false;
        }
        k += 1;
    }
    assert(h@.subrange(i as int, i + n@.len()) =~= n@);
    true
}

/// Finds the least position at which `n` occurs inside `h`.
pub fn find_sub(h: &[u8], n: &[u8]) -> (r: Option<usize>)
    ensures
        match r {
            Some(i) => matches_at(h@, n@, i as int) && forall|j: int|
                0 <= j < i ==> !#[trigger] matches_at(h@, n@, j),
            None => !contains_spec(h@, n@),
        },
{
    if n.len() > h.len() {
        assert forall|i: int| !matches_at(h@, n@, i) by {}
        return None;
    }
    if n.len() == 0 {
        assert(matches_at(h@, n@, 0)) by {
            assert(h@.subrange(0, 0) =~= n@);
        }
        return Some(0);
    }
    let last = h.len() - n.len();
    let mut i: usize = 0;
    while i <= last
        invariant
            0 <= i <= last + 1,
            last == h@.len() - n@.len(),
            1 <= n@.len() <= h@.len(),
            last < usize::MAX,
            forall|j: int| 0 <= j < i ==> !#[trigger] matches_at(h@, n@, j),
        decreases last + 1 - i,
    {
        if match_at(h, n, i) {
            return Some(i);
        }
        i += 1;
    }
    assert forall|j: int| !matches_at(h@, n@, j) by {
        if 0 <= j <= last as int {
            assert(!matches_at(h@, n@, j));
        }
    }
    None
}

pub fn contains_sub(h: &[u8], n: &[u8]) -> (r: bool)
    ensures
        r == contains_spec(h@, n@),
{
    find_sub(h, n).is_some()
}

/// The whitespace-separated tokens of `s`, with no empty tokens, built one
/// byte at a time from the left: a non-whitespace byte followed by another
/// non-whitespace byte extends the first token of the rest.
pub open spec fn ws_tokens(s: Seq<u8>) -> Seq<Seq<u8>>
    decreases s.len(),
{
    if s.len() == 0 {
        Seq::empty()
    } else {
        let rest = ws_tokens(s.drop_first());
        if is_ws(s[0]) {
            rest
        } else if s.len() > 1 && !is_ws(s[1]) {
            seq![seq![s[0]] + rest[0]] + rest.drop_first()
        } else {
            seq![seq![s[0]]] + rest
        }
    }
}

/// Splits `s` on whitespace, dropping empty tokens, as `split_whitespace`
/// reads on bytes.
pub fn split_ws(s: &[u8]) -> (r: Vec<Vec<u8>>)
    ensures
        r@.map_values(|t: Vec<u8>| t@) == ws_tokens(s@),
{
    let n = s.len();
    let mut r: Vec<Vec<u8>> = Vec::new();
    let mut i: usize = n;
    while i > 0
        invariant
            0 <= i <= n,
            n == s@.len(),
            r@.map_values(|t: Vec<u8>| t@) == ws_tokens(s@.subrange(i as int, n as int)),
        decreases i,
    {
        let ghost old_suffix = s@.subrange(i as int, n as int);
        let ghost old_r = r@.map_values(|t: Vec<u8>| t@);
        let b = s[i - 1];
        if !byte_is_ws(b) {
            if i < n && !byte_is_ws(s[i]) {
                proof {
                    assert(old_suffix.len() > 0 && !is_ws(old_suffix[0]));
                    assert(ws_tokens(old_suffix).len() >= 1);
                }
                let mut first = r.remove(0);
                first.insert(0, b);
                r.insert(0, first);
                proof {
                    assert(old_r.len() > 0);
                    assert(r@.map_values(|t: Vec<u8>| t@) =~~= seq![seq![b] + old_r[0]]
                        + old_r.drop_first());
                }
            } else {
                let mut first: Vec<u8> = Vec::new();
                first.push(b);
                r.insert(0, first);
                proof {
                    assert(r@.map_values(|t: Vec<u8>| t@) =~~= seq![seq![b]] + old_r);
                }
            }
        }
        i -= 1;
        proof {
            let new_suffix = s@.subrange(i as int, n as int);
            assert(new_suffix.drop_first() =~= old_suffix);
            assert(new_suffix[0] == b);
            if !is_ws(b) {
                if new_suffix.len() > 1 && !is_ws(new_suffix[1]) {
                    assert(r@.map_values(|t: Vec<u8>| t@) =~~= ws_tokens(new_suffix));
                } else {
                    assert(r@.map_values(|t: Vec<u8>| t@) =~~= ws_tokens(new_suffix));
                }
            }
        }
    }
    proof {
        assert(s@.subrange(0, n as int) =~= s@);
    }
    r
}

/// The fields of `s` split at every byte satisfying the class picked by
/// `comma_too` (whitespace, or whitespace and comma), keeping empty fields:
/// there is always at least one field.
pub open spec fn raw_fields(s: Seq<u8>, sep: u8) -> Seq<Seq<u8>>
    decreases s.len(),
{
    if s.len() == 0 {
        seq![Seq::empty()]
    } else {
        let rest = raw_fields(s.drop_first(), sep);
        if s[0] == sep {
            seq![Seq::empty()] + rest
        } else {
            seq![seq![s[0]] + rest[0]] + rest.drop_first()
        }
    }
}

/// There is always at least one field.
pub proof fn lemma_raw_fields_nonempty(s: Seq<u8>, sep: u8)
    ensures
        raw_fields(s, sep).len() >= 1,
    decreases s.len(),
{
    if s.len() > 0 {
        lemma_raw_fields_nonempty(s.drop_first(), sep);
    }
}

/// Splits `s` at every occurrence of `sep`, keeping empty fields.
pub fn split_on(s: &[u8], sep: u8) -> (r: Vec<Vec<u8>>)
    ensures
        r@.map_values(|t: Vec<u8>| t@) == raw_fields(s@, sep),
        r@.len() >= 1,
{
    let n = s.len();
    let mut r: Vec<Vec<u8>> = Vec::new();
    r.push(Vec::new());
    proof {
        assert(r@.map_values(|t: Vec<u8>| t@) =~= raw_fields(s@.subrange(n as int, n as int), sep));
    }
    let mut i: usize = n;
    while i > 0
        invariant
            0 <= i <= n,
            n == s@.len(),
            r@.len() >= 1,
            r@.map_values(|t: Vec<u8>| t@) == raw_fields(s@.subrange(i as int, n as int), sep),
        decreases i,
    {
        let ghost old_suffix = s@.subrange(i as int, n as int);
        let ghost old_r = r@.map_values(|t: Vec<u8>| t@);
        let b = s[i - 1];
        if b == sep {
            let mut first: Vec<u8> = Vec::new();
            r.insert(0, first);
            proof {
                assert(r@.map_values(|t: Vec<u8>| t@) =~~= seq![Seq::<u8>::empty()] + old_r);
            }
        } else {
            let mut first = r.remove(0);
            first.insert(0, b);
            r.insert(0, first);
            proof {
                assert(r@.map_values(|t: Vec<u8>| t@) =~~= seq![seq![b] + old_r[0]]
                    + old_r.drop_first());
            }
        }
        i -= 1;
        proof {
            let new_suffix = s@.subrange(i as int, n as int);
            assert(new_suffix.drop_first() =~= old_suffix);
            assert(new_suffix[0] == b);
            lemma_raw_fields_nonempty(new_suffix, sep);
        }
    }
    proof {
        assert(s@.subrange(0, n as int) =~= s@);
        lemma_raw_fields_nonempty(s@, sep);
    }
    r
}


/// An ASCII decimal digit.
pub open spec fn is_digit(b: u8) -> bool {
    48 <= b && b <= 57
}

/// Every byte of `s` is a decimal digit.
pub open spec fn all_digits(s: Seq<u8>) -> bool {
    forall|k: int| 0 <= k < s.len() ==> is_digit(#[trigger] s[k])
}

/// The value of `s` read as a decimal numeral.
pub open spec fn dec_value(s: Seq<u8>) -> nat
    decreases s.len(),
{
    if s.len() == 0 {
        0
    } else {
        dec_value(s.drop_last()) * 10 + (s.last() - 48) as nat
    }
}

/// Longer numerals never read as smaller values.
proof fn lemma_dec_value_prefix_le(s: Seq<u8>, i: int)
    requires
        0 <= i <= s.len(),
    ensures
        dec_value(s.subrange(0, i)) <= dec_value(s),
    decreases s.len() - i,
{
    if i < s.len() {
        let t = s.subrange(0, i + 1);
        assert(t.drop_last() =~= s.subrange(0, i));
        assert(dec_value(s.subrange(0, i)) <= dec_value(t));
        lemma_dec_value_prefix_le(s, i + 1);
        assert(s.subrange(0, s.len() as int) =~= s);
    } else {
        assert(s.subrange(0, i) =~= s);
    }
}

/// Reads `s` as a decimal numeral: the value when `s` is a non-empty string
/// of digits that fits in `usize`, and `None` otherwise.
pub fn parse_usize(s: &[u8]) -> (r: Option<usize>)
    ensures
        match r {
            Some(v) => s@.len() > 0 && all_digits(s@) && v == dec_value(s@),
            None => s@.len() == 0 || !all_digits(s@) || dec_value(s@) > usize::MAX,
        },
{
    let n = s.len();
    if n == 0 {
        return None;
    }
    let mut v: usize = 0;
    let mut i: usize = 0;
    while i < n
        invariant
            0 <= i <= n,
            n == s@.len(),
            all_digits(s@.subrange(0, i as int)),
            v == dec_value(s@.subrange(0, i as int)),
        decreases n - i,
    {
        let b = s[i];
        if b < 48 || b > 57 {
            assert(!is_digit(s@[i as int]));
            return None;
        }
        let d = (b - 48) as usize;
        if v > (usize::MAX - d) / 10 {
            proof {
                let t = s@.subrange(0, i + 1);
                assert(t.drop_last() =~= s@.subrange(0, i as int));
                assert(dec_value(t) == v * 10 + d);
                assert(dec_value(t) > usize::MAX);
                lemma_dec_value_prefix_le(s@, i + 1);
            }
            return None;
        }
        v = v * 10 + d;
        i += 1;
        proof {
            let t = s@.subrange(0, i as int);
            assert(t.drop_last() =~= s@.subrange(0, i - 1));
            assert(t.last() == b);
            assert(all_digits(t));
        }
    }
    proof {
        assert(s@.subrange(0, n as int) =~= s@);
    }
    Some(v)
}

/// The decimal numeral of `n`, most significant digit first.
pub open spec fn dec_digits(n: nat) -> Seq<u8>
    decreases n,
{
    if n < 10 {
        seq![(n + 48) as u8]
    } else {
        dec_digits(n / 10) + seq![((n % 10) + 48) as u8]
    }
}

/// Writes `n` as a decimal numeral.
pub fn usize_to_dec(n: usize) -> (r: Vec<u8>)
    ensures
        r@ == dec_digits(n as nat),
    decreases n,
{
    if n < 10 {
        let mut r: Vec<u8> = Vec::new();
        r.push((n as u8) + 48);
        proof {
            assert(r@ =~= dec_digits(n as nat));
        }
        r
    } else {
        let mut r = usize_to_dec(n / 10);
        r.push(((n % 10) as u8) + 48);
        proof {
            assert(r@ =~= dec_digits(n as nat));
        }
        r
    }
}

/// Copies `s[a..b]`.
pub fn subrange_vec(s: &[u8], a: usize, b: usize) -> (r: Vec<u8>)
    requires
        a <= b <= s@.len(),
    ensures
        r@ == s@.subrange(a as int, b as int),
{
    let mut r: Vec<u8> = Vec::new();
    let mut i: usize = a;
    while i < b
        invariant
            a <= i <= b <= s@.len(),
            r@ == s@.subrange(a as int, i as int),
        decreases b - i,
    {
        r.push(s[i]);
        proof {
            assert(r@ =~= s@.subrange(a as int, i + 1));
        }
        i += 1;
    }
    r
}

/// Appends a copy of `s` to `out`.
pub fn extend_bytes(out: &mut Vec<u8>, s: &[u8])
    ensures
        final(out)@ == old(out)@ + s@,
{
    let mut i: usize = 0;
    while i < s.len()
        invariant
            0 <= i <= s@.len(),
            out@ == old(out)@ + s@.subrange(0, i as int),
        decreases s@.len() - i,
    {
        out.push(s[i]);
        proof {
            assert(out@ =~= old(out)@ + s@.subrange(0, i + 1));
        }
        i += 1;
    }
    proof {
        assert(out@ =~= old(out)@ + s@);
    }
}

/// Are the two byte strings equal?
pub fn bytes_eq(a: &[u8], b: &[u8]) -> (r: bool)
    ensures
        r == (a@ == b@),
{
    if a.len() != b.len() {
        return false;
    }
    let mut i: usize = 0;
    while i < a.len()
        invariant
            0 <= i <= a@.len(),
            a@.len() == b@.len(),
            forall|k: int| 0 <= k < i ==> a@[k] == b@[k],
        decreases a@.len() - i,
    {
        if a[i] != b[i] {
            return false;
        }
        i += 1;
    }
    proof {
        assert(a@ =~= b@);
    }
    true
}

/// Before every first occurrence of `from` (a non-empty string) the bytes of
/// `s` are kept; the occurrence itself is replaced by `to`; the rest is
/// treated the same way. With `from` empty, `s` is kept whole.
pub open spec fn replace_all_spec(s: Seq<u8>, from: Seq<u8>, to: Seq<u8>) -> Seq<u8>
    decreases s.len(),
{
    if from.len() == 0 || !contains_spec(s, from) {
        s
    } else {
        let i = first_match(s, from);
        if 0 <= i && i + from.len() <= s.len() {
            s.subrange(0, i) + to + replace_all_spec(s.subrange(i + from.len(), s.len() as int), from, to)
        } else {
            s
        }
    }
}

/// A match with none before it is the first match.
pub proof fn lemma_first_match_is(h: Seq<u8>, n: Seq<u8>, i: int)
    requires
        matches_at(h, n, i),
        forall|j: int| 0 <= j < i ==> !#[trigger] matches_at(h, n, j),
    ensures
        contains_spec(h, n),
        first_match(h, n) == i,
{
    assert(matches_at(h, n, i));
    let w = first_match(h, n);
    assert(#[trigger] matches_at(h, n, i) && forall|j: int| 0 <= j < i ==> !#[trigger] matches_at(
        h,
        n,
        j,
    ));
    assert(matches_at(h, n, w) && forall|j: int| 0 <= j < w ==> !#[trigger] matches_at(h, n, j));
    if w < i {
        assert(!matches_at(h, n, w));
    }
    if w > i {
        assert(!matches_at(h, n, i));
    }
}

/// Each match position has a least one below it.

proof fn lemma_first_match_exists(h: Seq<u8>, n: Seq<u8>, w: int)
    requires
        matches_at(h, n, w),
    ensures
        matches_at(h, n, first_match(h, n)),
        forall|j: int| 0 <= j < first_match(h, n) ==> !#[trigger] matches_at(h, n, j),
    decreases w,
{
    if exists|j: int| 0 <= j < w && #[trigger] matches_at(h, n, j) {
        let j = choose|j: int| 0 <= j < w && #[trigger] matches_at(h, n, j);
        lemma_first_match_exists(h, n, j);
    } else {
        assert(matches_at(h, n, w) && forall|j: int| 0 <= j < w ==> !#[trigger] matches_at(h, n, j));
    }
}

/// Replaces every occurrence of `from` in `s` by `to`, scanning from the
/// left.
pub fn replace_all(s: &[u8], from: &[u8], to: &[u8]) -> (r: Vec<u8>)
    ensures
        r@ == replace_all_spec(s@, from@, to@),
    decreases s@.len(),
{
    if from.len() == 0 {
        return subrange_vec(s, 0, s.len());
    }
    match find_sub(s, from) {
        None => subrange_vec(s, 0, s.len()),
        Some(i) => {
            proof {
                lemma_first_match_is(s@, from@, i as int);
            }
            let sn = s.len();
            let mut r = subrange_vec(s, 0, i);
            extend_bytes(&mut r, to);
            let tail = subrange_vec(s, i + from.len(), sn);
            let rep = replace_all(tail.as_slice(), from, to);
            extend_bytes(&mut r, rep.as_slice());
            r
        },
    }
}


/// A byte that separates instruction fields: whitespace or a comma.
pub open spec fn is_field_sep(b: u8) -> bool {
    is_ws(b) || b == 44
}

/// The fields of `s` split at every whitespace byte or comma, keeping empty
/// fields: there is always at least one field.
pub open spec fn instr_fields(s: Seq<u8>) -> Seq<Seq<u8>>
    decreases s.len(),
{
    if s.len() == 0 {
        seq![Seq::empty()]
    } else {
        let rest = instr_fields(s.drop_first());
        if is_field_sep(s[0]) {
            seq![Seq::empty()] + rest
        } else {
            seq![seq![s[0]] + rest[0]] + rest.drop_first()
        }
    }
}

/// There is always at least one field.
pub proof fn lemma_instr_fields_nonempty(s: Seq<u8>)
    ensures
        instr_fields(s).len() >= 1,
    decreases s.len(),
{
    if s.len() > 0 {
        lemma_instr_fields_nonempty(s.drop_first());
    }
}

/// Splits `s` at every whitespace byte or comma, keeping empty fields.
pub fn split_instr_fields(s: &[u8]) -> (r: Vec<Vec<u8>>)
    ensures
        r@.map_values(|t: Vec<u8>| t@) == instr_fields(s@),
        r@.len() >= 1,
{
    let n = s.len();
    let mut r: Vec<Vec<u8>> = Vec::new();
    r.push(Vec::new());
    proof {
        assert(r@.map_values(|t: Vec<u8>| t@) =~~= instr_fields(s@.subrange(n as int, n as int)));
    }
    let mut i: usize = n;
    while i > 0
        invariant
            0 <= i <= n,
            n == s@.len(),
            r@.len() >= 1,
            r@.map_values(|t: Vec<u8>| t@) == instr_fields(s@.subrange(i as int, n as int)),
        decreases i,
    {
        let ghost old_suffix = s@.subrange(i as int, n as int);
        let ghost old_r = r@.map_values(|t: Vec<u8>| t@);
        let b = s[i - 1];
        if byte_is_ws(b) || b == 44 {
            let first: Vec<u8> = Vec::new();
            r.insert(0, first);
            proof {
                assert(r@.map_values(|t: Vec<u8>| t@) =~~= seq![Seq::<u8>::empty()] + old_r);
            }
        } else {
            let mut first = r.remove(0);
            first.insert(0, b);
            r.insert(0, first);
            proof {
                assert(r@.map_values(|t: Vec<u8>| t@) =~~= seq![seq![b] + old_r[0]]
                    + old_r.drop_first());
            }
        }
        i -= 1;
        proof {
            let new_suffix = s@.subrange(i as int, n as int);
            assert(new_suffix.drop_first() =~= old_suffix);
            assert(new_suffix[0] == b);
            lemma_instr_fields_nonempty(new_suffix);
        }
    }
    proof {
        assert(s@.subrange(0, n as int) =~= s@);
        lemma_instr_fields_nonempty(s@);
    }
    r
}

/// Lexicographic order on byte strings, a prefix ordering below its
/// extensions.
pub open spec fn lex_le(a: Seq<u8>, b: Seq<u8>) -> bool
    decreases a.len(),
{
    if a.len() == 0 {
        true
    } else if b.len() == 0 {
        false
    } else if a[0] < b[0] {
        true
    } else if a[0] > b[0] {
        false
    } else {
        lex_le(a.drop_first(), b.drop_first())
    }
}

/// Strictly below in lexicographic order.
pub open spec fn lex_lt(a: Seq<u8>, b: Seq<u8>) -> bool {
    lex_le(a, b) && a != b
}

/// Any two byte strings are ordered.
pub proof fn lemma_lex_total(a: Seq<u8>, b: Seq<u8>)
    ensures
        lex_le(a, b) || lex_le(b, a),
        (lex_le(a, b) && lex_le(b, a)) ==> a == b,
    decreases a.len(),
{
    if a.len() > 0 && b.len() > 0 && a[0] == b[0] {
        lemma_lex_total(a.drop_first(), b.drop_first());
        if lex_le(a, b) && lex_le(b, a) {
            assert(a.drop_first() == b.drop_first());
            assert forall|i: int| 0 <= i < a.len() implies a[i] == b[i] by {
                if i > 0 {
                    assert(a.drop_first()[i - 1] == b.drop_first()[i - 1]);
                }
            }
            assert(a =~= b);
        }
    } else {
        if lex_le(a, b) && lex_le(b, a) {
            assert(a.len() == 0 && b.len() == 0);
            assert(a =~= b);
        }
    }
}

/// Compares two byte strings lexicographically.
pub fn lex_le_bytes(a: &[u8], b: &[u8]) -> (r: bool)
    ensures
        r == lex_le(a@, b@),
{
    let an = a.len();
    let bn = b.len();
    let mut i: usize = 0;
    proof {
        assert(a@.skip(0) =~= a@);
        assert(b@.skip(0) =~= b@);
    }
    while i < an && i < bn
        invariant
            0 <= i,
            i <= an,
            i <= bn,
            an == a@.len(),
            bn == b@.len(),
            lex_le(a@, b@) == lex_le(a@.skip(i as int), b@.skip(i as int)),
        decreases an - i,
    {
        let ghost sa = a@.skip(i as int);
        let ghost sb = b@.skip(i as int);
        proof {
            assert(sa[0] == a@[i as int]);
            assert(sb[0] == b@[i as int]);
        }
        if a[i] < b[i] {
            return true;
        }
        if a[i] > b[i] {
            return false;
        }
        i += 1;
        proof {
            assert(sa.drop_first() =~= a@.skip(i as int));
            assert(sb.drop_first() =~= b@.skip(i as int));
        }
    }
    proof {
        if i == an {
            assert(a@.skip(i as int).len() == 0);
        } else {
            assert(b@.skip(i as int).len() == 0);
            assert(a@.skip(i as int).len() > 0);
        }
    }
    an <= bn
}

/// The byte strings a list of vectors holds.
pub open spec fn views_of(v: Seq<Vec<u8>>) -> Seq<Seq<u8>> {
    v.map_values(|t: Vec<u8>| t@)
}

/// Every entry of the sequence is strictly below its successor.
pub open spec fn sorted_unique(s: Seq<Seq<u8>>) -> bool {
    forall|i: int| 0 <= i < s.len() - 1 ==> lex_lt(#[trigger] s[i], s[i + 1])
}

/// Membership is unchanged when a value is put into a sequence.
proof fn lemma_insert_contains(s: Seq<Seq<u8>>, k: int, e: Seq<u8>, x: Seq<u8>)
    requires
        0 <= k <= s.len(),
    ensures
        s.insert(k, e).contains(x) == (s.contains(x) || x == e),
{
    let s2 = s.insert(k, e);
    if s.contains(x) {
        let j = choose|j: int| 0 <= j < s.len() && s[j] == x;
        if j < k {
            assert(s2[j] == x);
        } else {
            assert(s2[j + 1] == x);
        }
        assert(s2.contains(x));
    }
    if x == e {
        assert(s2[k] == x);
        assert(s2.contains(x));
    }
    if s2.contains(x) {
        let j = choose|j: int| 0 <= j < s2.len() && s2[j] == x;
        if j < k {
            assert(s[j] == x);
            assert(s.contains(x) || x == e);
        } else if j == k {
            assert(x == e);
        } else {
            assert(s[j - 1] == x);
            assert(s.contains(x) || x == e);
        }
    }
}

/// Sorts the byte strings and drops duplicates: the result is strictly
/// increasing and holds exactly the values of the input.
pub fn sort_dedup(v: &Vec<Vec<u8>>) -> (r: Vec<Vec<u8>>)
    ensures
        sorted_unique(views_of(r@)),
        forall|x: Seq<u8>| #[trigger] views_of(r@).contains(x) == views_of(v@).contains(x),
{
    let ghost v_view = v@.map_values(|t: Vec<u8>| t@);
    let mut out: Vec<Vec<u8>> = Vec::new();
    let n = v.len();
    let mut i: usize = 0;
    while i < n
        invariant
            0 <= i <= n,
            n == v@.len(),
            v_view == v@.map_values(|t: Vec<u8>| t@),
            sorted_unique(out@.map_values(|t: Vec<u8>| t@)),
            forall|x: Seq<u8>|
                #[trigger] views_of(out@).contains(x) == v_view.subrange(0, i as int).contains(x),
        decreases n - i,
    {
        let ghost out_pre = out@.map_values(|t: Vec<u8>| t@);
        proof {
            assert(views_of(out@) == out_pre);
            assert(v_view[i as int] == v@[i as int]@);
        }
        let e = subrange_vec(v[i].as_slice(), 0, v[i].len());
        proof {
            assert(e@ =~= v_view[i as int]);
        }
        let m = out.len();
        let mut k: usize = 0;
        while k < m && !lex_le_bytes(e.as_slice(), out[k].as_slice())
            invariant
                0 <= k <= m,
                m == out@.len(),
                e@ == v_view[i as int],
                out_pre == out@.map_values(|t: Vec<u8>| t@),
                forall|j: int| 0 <= j < k ==> !lex_le(e@, #[trigger] out_pre[j]),
            decreases m - k,
        {
            proof {
                assert(out_pre[k as int] == out@[k as int]@);
            }
            k += 1;
        }
        proof {
            assert(k < m ==> out_pre[k as int] == out@[k as int]@);
        }
        let duplicate = if k < m {
            bytes_eq(e.as_slice(), out[k].as_slice())
        } else {
            false
        };
        if !duplicate {
            out.insert(k, e);
            proof {
                let out_post = out@.map_values(|t: Vec<u8>| t@);
                assert(out_post =~~= out_pre.insert(k as int, v_view[i as int]));
                assert(sorted_unique(out_post)) by {
                    assert forall|j: int|
                        0 <= j < out_post.len() - 1 implies lex_lt(
                        #[trigger] out_post[j],
                        out_post[j + 1],
                    ) by {
                        lemma_lex_total(e@, if j < k as int - 1 || out_pre.len() == 0 {
                            e@
                        } else {
                            e@
                        });
                        if j + 1 < k as int {
                            assert(out_post[j] == out_pre[j]);
                            assert(out_post[j + 1] == out_pre[j + 1]);
                        } else if j + 1 == k as int {
                            assert(out_post[j] == out_pre[j]);
                            assert(out_post[j + 1] == e@);
                            lemma_lex_total(e@, out_pre[j]);
                        } else if j == k as int {
                            assert(out_post[j] == e@);
                            assert(out_post[j + 1] == out_pre[j]);
                            lemma_lex_total(e@, out_pre[j]);
                        } else {
                            assert(out_post[j] == out_pre[j - 1]);
                            assert(out_post[j + 1] == out_pre[j]);
                        }
                    }
                }
                assert(views_of(out@) == out_post);
                assert forall|x: Seq<u8>|
                    #[trigger] out_post.contains(x) == v_view.subrange(0, i + 1).contains(x) by {
                    lemma_insert_contains(out_pre, k as int, v_view[i as int], x);
                    let pre_sub = v_view.subrange(0, i as int);
                    let post_sub = v_view.subrange(0, i + 1);
                    assert(post_sub.drop_last() =~= pre_sub);
                    assert(post_sub.last() == v_view[i as int]);
                    if post_sub.contains(x) {
                        let j = choose|j: int| 0 <= j < post_sub.len() && post_sub[j] == x;
                        if j < i as int {
                            assert(pre_sub[j] == x);
                            assert(pre_sub.contains(x));
                        }
                    }
                    if pre_sub.contains(x) {
                        let j = choose|j: int| 0 <= j < pre_sub.len() && pre_sub[j] == x;
                        assert(post_sub[j] == x);
                        assert(post_sub.contains(x));
                    }
                    if x == v_view[i as int] {
                        assert(post_sub[i as int] == x);
                        assert(post_sub.contains(x));
                    }
                }
            }
        } else {
            proof {
                let pre_sub = v_view.subrange(0, i as int);
                let post_sub = v_view.subrange(0, i + 1);
                assert(post_sub.drop_last() =~= pre_sub);
                assert(out_pre[k as int] == out@[k as int]@);
                assert(out_pre.contains(e@)) by {
                    assert(out_pre[k as int] == e@);
                }
                assert forall|x: Seq<u8>|
                    #[trigger] out_pre.contains(x) == post_sub.contains(x) by {
                    if post_sub.contains(x) {
                        let j = choose|j: int| 0 <= j < post_sub.len() && post_sub[j] == x;
                        if j < i as int {
                            assert(pre_sub[j] == x);
                            assert(pre_sub.contains(x));
                        } else {
                            assert(x == e@);
                        }
                    }
                    if pre_sub.contains(x) {
                        let j = choose|j: int| 0 <= j < pre_sub.len() && pre_sub[j] == x;
                        assert(post_sub[j] == x);
                        assert(post_sub.contains(x));
                    }
                }
            }
        }
        i += 1;
    }
    proof {
        assert(v_view.subrange(0, n as int) =~= v_view);
        assert(views_of(out@) == out@.map_values(|t: Vec<u8>| t@));
        assert(views_of(v@) == v_view);
    }
    out
}

} // verus!
