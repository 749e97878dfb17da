//! Path utilities over component lists: a path is split at separators into
//! its non-empty components, and containment and suffix extraction work on
//! those lists.

use crate::bytes::bytes_eq;
use vstd::prelude::*;

verus! {

/// A path separator byte: `/` or `\`.
pub open spec fn is_sep(b: u8) -> bool {
    b == 47 || b == 92
}

/// The components of a path, built one byte at a time from the left: a
/// non-separator byte followed by another non-separator byte extends the
/// first component of the rest; empty components (leading, trailing or
/// doubled separators) vanish.
pub open spec fn components_of(s: Seq<u8>) -> Seq<Seq<u8>>
    decreases s.len(),
{
    if s.len() == 0 {
        Seq::empty()
    } else {
        let rest = components_of(s.drop_first());
        if is_sep(s[0]) {
            rest
        } else if s.len() > 1 && !is_sep(s[1]) {
            seq![seq![s[0]] + rest[0]] + rest.drop_first()
        } else {
            seq![seq![s[0]]] + rest
        }
    }
}

/// Splits a path into its non-empty components.
pub fn split_components(s: &[u8]) -> (r: Vec<Vec<u8>>)
    ensures
        r@.map_values(|t: Vec<u8>| t@) == components_of(s@),
{
    let n = s.len();
    let mut r: Vec<Vec<u8>> = Vec::new();
    let mut i: usize = n;
    while i > 0
        invariant
            0 <= i <= n,
            n == s@.len(),
            r@.map_values(|t: Vec<u8>| t@) == components_of(s@.subrange(i as int, n as int)),
        decreases i,
    {
        let ghost old_suffix = s@.subrange(i as int, n as int);
        let ghost old_r = r@.map_values(|t: Vec<u8>| t@);
        let b = s[i - 1];
        if !(b == 47 || b == 92) {
            if i < n && !(s[i] == 47 || s[i] == 92) {
                proof {
                    assert(old_suffix.len() > 0 && !is_sep(old_suffix[0]));
                    assert(components_of(old_suffix).len() >= 1);
                }
                let mut first = r.remove(0);
                first.insert(0, b);
                r.insert(0, first);
                proof {
                    assert(r@.map_values(|t: Vec<u8>| t@) =~~= seq![seq![b] + old_r[0]]
                        + old_r.drop_first());
                }
            } else {
                let mut first: Vec<u8> = Vec::new();
                first.push(b);
                r.insert(0, first);
                proof {
                    assert(r@.map_values(|t: Vec<u8>| t@) =~~= seq![seq![b]] + old_r);
                }
            }
        }
        i -= 1;
        proof {
            let new_suffix = s@.subrange(i as int, n as int);
            assert(new_suffix.drop_first() =~= old_suffix);
            assert(new_suffix[0] == b);
            if !is_sep(b) {
                if new_suffix.len() > 1 && !is_sep(new_suffix[1]) {
                    assert(r@.map_values(|t: Vec<u8>| t@) =~~= components_of(new_suffix));
                } else {
                    assert(r@.map_values(|t: Vec<u8>| t@) =~~= components_of(new_suffix));
                }
            }
        }
    }
    proof {
        assert(s@.subrange(0, n as int) =~= s@);
    }
    r
}

/// Does the component run `sub` stand inside `path` at position `i`?
pub open spec fn comps_match_at(path: Seq<Seq<u8>>, sub: Seq<Seq<u8>>, i: int) -> bool {
    0 <= i && i + sub.len() <= path.len() && path.subrange(i, i + sub.len()) == sub
}

/// Does the component run `sub` stand anywhere inside `path`?
pub open spec fn comps_contain(path: Seq<Seq<u8>>, sub: Seq<Seq<u8>>) -> bool {
    exists|i: int| comps_match_at(path, sub, i)
}

fn comps_eq_at(path: &Vec<Vec<u8>>, sub: &Vec<Vec<u8>>, i: usize) -> (r: bool)
    requires
        i + sub@.len() <= path@.len(),
    ensures
        r == comps_match_at(
            path@.map_values(|t: Vec<u8>| t@),
            sub@.map_values(|t: Vec<u8>| t@),
            i as int,
        ),
{
    let ghost pv = path@.map_values(|t: Vec<u8>| t@);
    let ghost sv = sub@.map_values(|t: Vec<u8>| t@);
    let pn = path.len();
    let mut k: usize = 0;
    while k < sub.len()
        invariant
            0 <= k <= sv.len(),
            i + sv.len() <= pv.len(),
            pn == pv.len(),
            pv == path@.map_values(|t: Vec<u8>| t@),
            sv == sub@.map_values(|t: Vec<u8>| t@),
            forall|j: int| 0 <= j < k ==> pv[i + j] == sv[j],
        decreases sv.len() - k,
    {
        proof {
            assert(pv[i + k] == path@[i + k]@);
            assert(sv[k as int] == sub@[k as int]@);
        }
        if !bytes_eq(path[i + k].as_slice(), sub[k].as_slice()) {
            proof {
                assert(pv.subrange(i as int, i + sv.len())[k as int] != sv[k as int]);
            }
            return false;
        }
        k += 1;
    }
    proof {
        assert(pv.subrange(i as int, i + sv.len()) =~= sv);
    }
    true
}

/// Does `path` hold `sub_path` as a contiguous run of components?
pub fn contains(path: &Vec<Vec<u8>>, sub_path: &Vec<Vec<u8>>) -> (r: bool)
    ensures
        r == comps_contain(
            path@.map_values(|t: Vec<u8>| t@),
            sub_path@.map_values(|t: Vec<u8>| t@),
        ),
{
    match find_comps(path, sub_path) {
        Some(_) => true,
        None => false,
    }
}

/// The least position at which `sub` stands inside `path`, where it does.
pub fn find_comps(path: &Vec<Vec<u8>>, sub: &Vec<Vec<u8>>) -> (r: Option<usize>)
    ensures
        ({
            let pv = path@.map_values(|t: Vec<u8>| t@);
            let sv = sub@.map_values(|t: Vec<u8>| t@);
            match r {
                Some(i) => comps_match_at(pv, sv, i as int) && forall|j: int|
                    0 <= j < i ==> !#[trigger] comps_match_at(pv, sv, j),
                None => !comps_contain(pv, sv),
            }
        }),
{
    let ghost pv = path@.map_values(|t: Vec<u8>| t@);
    let ghost sv = sub@.map_values(|t: Vec<u8>| t@);
    let pn = path.len();
    let sn = sub.len();
    if sn > pn {
        assert forall|i: int| !comps_match_at(pv, sv, i) by {}
        return None;
    }
    if sn == 0 {
        proof {
            assert(pv.subrange(0, 0) =~= sv);
            assert(comps_match_at(pv, sv, 0));
        }
        return Some(0);
    }
    let last = pn - sn;
    let mut i: usize = 0;
    while i <= last
        invariant
            0 <= i <= last + 1,
            pv == path@.map_values(|t: Vec<u8>| t@),
            sv == sub@.map_values(|t: Vec<u8>| t@),
            last == pv.len() - sv.len(),
            1 <= sv.len() <= pv.len(),
            last < usize::MAX,
            pn == pv.len(),
            forall|j: int| 0 <= j < i ==> !#[trigger] comps_match_at(pv, sv, j),
        decreases last + 1 - i,
    {
        if comps_eq_at(path, sub, i) {
            return Some(i);
        }
        i += 1;
    }
    assert forall|j: int| !comps_match_at(pv, sv, j) by {
        if 0 <= j <= last as int {
            assert(!comps_match_at(pv, sv, j));
        }
    }
    None
}

/// The result of [`after`]: the components past the first (earliest) run of
/// `sv` inside `pv`.
pub open spec fn is_after(pv: Seq<Seq<u8>>, sv: Seq<Seq<u8>>, rv: Seq<Seq<u8>>) -> bool {
    exists|i: int|
        {
            &&& #[trigger] comps_match_at(pv, sv, i)
            &&& forall|j: int| 0 <= j < i ==> !#[trigger] comps_match_at(pv, sv, j)
            &&& rv == pv.subrange(i + sv.len(), pv.len() as int)
        }
}

/// The components of `path` after the first run of `sub_path` inside it.
pub fn after(path: &Vec<Vec<u8>>, sub_path: &Vec<Vec<u8>>) -> (r: Vec<Vec<u8>>)
    requires
        comps_contain(
            path@.map_values(|t: Vec<u8>| t@),
            sub_path@.map_values(|t: Vec<u8>| t@),
        ),
    ensures
        is_after(
            path@.map_values(|t: Vec<u8>| t@),
            sub_path@.map_values(|t: Vec<u8>| t@),
            r@.map_values(|t: Vec<u8>| t@),
        ),
{
    let ghost pv = path@.map_values(|t: Vec<u8>| t@);
    let ghost sv = sub_path@.map_values(|t: Vec<u8>| t@);
    let i = match find_comps(path, sub_path) {
        Some(i) => i,
        None => {
            proof {
                assert(false);
            }
            0
        },
    };
    let pn = path.len();
    proof {
        assert(comps_match_at(pv, sv, i as int));
        assert(i + sv.len() <= pv.len());
    }
    let start = i + sub_path.len();
    let mut r: Vec<Vec<u8>> = Vec::new();
    let mut k: usize = start;
    while k < pn
        invariant
            start <= k <= pv.len(),
            pn == pv.len(),
            pv == path@.map_values(|t: Vec<u8>| t@),
            start <= pv.len(),
            r@.map_values(|t: Vec<u8>| t@) == pv.subrange(start as int, k as int),
        decreases pv.len() - k,
    {
        proof {
            assert(r@.map_values(|t: Vec<u8>| t@) == pv.subrange(start as int, k as int));
            assert(r@.map_values(|t: Vec<u8>| t@).len() == r@.len());
            assert(r@.len() == k - start);
            assert(pv[k as int] == path@[k as int]@);
        }
        let c = crate::bytes::subrange_vec(path[k].as_slice(), 0, path[k].len());
        proof {
            assert(c@ =~= pv[k as int]);
        }
        let ghost r_pre = r@;
        let ghost c_v = c@;
        r.push(c);
        proof {
            assert(r@ == r_pre.push(c));
            assert(r@.map_values(|t: Vec<u8>| t@) =~~= pv.subrange(start as int, k + 1)) by {
                let rv = r@.map_values(|t: Vec<u8>| t@);
                assert forall|j: int| 0 <= j < rv.len() implies rv[j] == pv.subrange(
                    start as int,
                    k + 1,
                )[j] by {
                    assert(r_pre.len() == k - start);
                    assert(rv.len() == k + 1 - start);
                    assert(pv.subrange(start as int, k + 1)[j] == pv[start + j]);
                    assert(rv[j] == r@[j]@);
                    if j < r_pre.len() {
                        assert(r@[j] == r_pre[j]);
                        assert(r_pre.map_values(|t: Vec<u8>| t@)[j] == r_pre[j]@);
                        assert(r_pre[j]@ == pv.subrange(start as int, k as int)[j]);
                        assert(pv.subrange(start as int, k as int)[j] == pv[start + j]);
                    } else {
                        assert(j == k - start);
                        assert(r@[j] == r_pre.push(c)[j]);
                        assert(r@[j]@ == c_v);
                        assert(c_v == pv[k as int]);
                    }
                }
            }
        }
        k += 1;
    }
    proof {
        assert(comps_match_at(pv, sv, i as int));
    }
    r
}

/// Appends the components of `tail` to the path.
pub fn push(path: &mut Vec<Vec<u8>>, tail: &Vec<Vec<u8>>)
    ensures
        final(path)@.map_values(|t: Vec<u8>| t@) == old(path)@.map_values(|t: Vec<u8>| t@)
            + tail@.map_values(|t: Vec<u8>| t@),
{
    let ghost tv = tail@.map_values(|t: Vec<u8>| t@);
    let mut k: usize = 0;
    proof {
        assert(tv.len() == tail@.len());
        assert(path@.map_values(|t: Vec<u8>| t@) =~~= old(path)@.map_values(|t: Vec<u8>| t@)
            + tv.subrange(0, 0));
    }
    while k < tail.len()
        invariant
            0 <= k <= tv.len(),
            tv == tail@.map_values(|t: Vec<u8>| t@),
            path@.map_values(|t: Vec<u8>| t@) == old(path)@.map_values(|t: Vec<u8>| t@)
                + tv.subrange(0, k as int),
        decreases tv.len() - k,
    {
        proof {
            assert(tv[k as int] == tail@[k as int]@);
        }
        let c = crate::bytes::subrange_vec(tail[k].as_slice(), 0, tail[k].len());
        proof {
            assert(c@ =~= tv[k as int]);
        }
        let ghost p_pre = path@;
        path.push(c);
        proof {
            assert(path@ == p_pre.push(c));
            assert(path@.map_values(|t: Vec<u8>| t@) =~~= old(path)@.map_values(|t: Vec<u8>| t@)
                + tv.subrange(0, k + 1)) by {
                let lhs = path@.map_values(|t: Vec<u8>| t@);
                let rhs = old(path)@.map_values(|t: Vec<u8>| t@) + tv.subrange(0, k + 1);
                assert(p_pre.map_values(|t: Vec<u8>| t@).len() == p_pre.len());
                assert(lhs.len() == path@.len());
                assert(old(path)@.map_values(|t: Vec<u8>| t@).len() == old(path)@.len());
                assert forall|j: int| 0 <= j < lhs.len() implies lhs[j] == rhs[j] by {
                    assert(lhs[j] == path@[j]@);
                    if j < p_pre.len() {
                        assert(path@[j] == p_pre[j]);
                        assert(p_pre.map_values(|t: Vec<u8>| t@)[j] == p_pre[j]@);
                    }
                }
            }
        }
        k += 1;
    }
    proof {
        assert(tv.subrange(0, tv.len() as int) =~= tv);
    }
}

} // verus!
