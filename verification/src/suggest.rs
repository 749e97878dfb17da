//! Fuzzy-match fallback: when a function is not found, the candidate names
//! are ranked by the edit distance of their last path segment to the
//! searched name, and names too far away are left out.

use crate::bytes::{subrange_vec, views_of};
use vstd::prelude::*;

verus! {

/// The distance beyond which a candidate is not suggested.
pub open spec fn suggestion_threshold() -> int {
    4
}

/// The smallest of three numbers.
pub open spec fn min3(x: nat, y: nat, z: nat) -> nat {
    if x <= y && x <= z {
        x
    } else if y <= z {
        y
    } else {
        z
    }
}

/// The edit distance: the least number of single-byte insertions,
/// deletions and substitutions that turns `a` into `b`.
pub open spec fn lev(a: Seq<u8>, b: Seq<u8>) -> nat
    decreases a.len(), b.len(),
{
    if a.len() == 0 {
        b.len()
    } else if b.len() == 0 {
        a.len()
    } else {
        let cost: nat = if a.last() == b.last() {
            0
        } else {
            1
        };
        min3(
            lev(a.drop_last(), b) + 1,
            lev(a, b.drop_last()) + 1,
            lev(a.drop_last(), b.drop_last()) + cost,
        )
    }
}

/// The distance never exceeds the longer length.
pub proof fn lemma_lev_le_max(a: Seq<u8>, b: Seq<u8>)
    ensures
        lev(a, b) <= if a.len() >= b.len() {
            a.len()
        } else {
            b.len()
        },
    decreases a.len(), b.len(),
{
    if a.len() > 0 && b.len() > 0 {
        lemma_lev_le_max(a.drop_last(), b.drop_last());
    }
}

/// Computes the edit distance, one table row per byte of `a`.
#[verifier::loop_isolation(false)]
#[verifier::rlimit(100)]
pub fn edit_distance(a: &[u8], b: &[u8]) -> (r: usize)
    requires
        a@.len() < usize::MAX,
        b@.len() < usize::MAX,
    ensures
        r == lev(a@, b@),
{
    let m = a.len();
    let n = b.len();
    proof {
        lemma_lev_le_max(a@, b@);
    }
    let mut row: Vec<usize> = Vec::new();
    let mut j: usize = 0;
    while j <= n
        invariant
            0 <= j <= n + 1,
            row@.len() == j,
            forall|q: int| 0 <= q < j ==> row@[q] == lev(a@.subrange(0, 0), b@.subrange(0, q)),
        decreases n + 1 - j,
    {
        proof {
            assert(a@.subrange(0, 0) =~= Seq::<u8>::empty());
            assert(b@.subrange(0, j as int).len() == j);
        }
        row.push(j);
        j += 1;
    }
    let mut i: usize = 1;
    while i <= m
        invariant
            1 <= i <= m + 1,
            row@.len() == n + 1,
            forall|q: int|
                0 <= q <= n ==> row@[q] == lev(a@.subrange(0, i - 1), b@.subrange(0, q)),
        decreases m + 1 - i,
    {
        let mut new_row: Vec<usize> = Vec::new();
        proof {
            assert(a@.subrange(0, i as int).len() == i);
            assert(b@.subrange(0, 0) =~= Seq::<u8>::empty());
        }
        new_row.push(i);
        let mut q: usize = 1;
        while q <= n
            invariant
                1 <= q <= n + 1,
                1 <= i <= m,
                new_row@.len() == q,
                row@.len() == n + 1,
                forall|v: int|
                    0 <= v <= n ==> row@[v] == lev(a@.subrange(0, i - 1), b@.subrange(0, v)),
                forall|v: int|
                    0 <= v < q ==> new_row@[v] == lev(a@.subrange(0, i as int), b@.subrange(0, v)),
            decreases n + 1 - q,
        {
            let ghost ap = a@.subrange(0, i as int);
            let ghost bp = b@.subrange(0, q as int);
            proof {
                assert(ap.len() == i);
                assert(bp.len() == q);
                assert(ap.last() == a@[i - 1]);
                assert(bp.last() == b@[q - 1]);
                assert(ap.drop_last() =~= a@.subrange(0, i - 1));
                assert(bp.drop_last() =~= b@.subrange(0, q - 1));
                lemma_lev_le_max(ap.drop_last(), bp);
                lemma_lev_le_max(ap, bp.drop_last());
                lemma_lev_le_max(ap.drop_last(), bp.drop_last());
            }
            let del = row[q] + 1;
            let ins = new_row[q - 1] + 1;
            let cost: usize = if a[i - 1] == b[q - 1] {
                0
            } else {
                1
            };
            let sub = row[q - 1] + cost;
            let best = if del <= ins && del <= sub {
                del
            } else if ins <= sub {
                ins
            } else {
                sub
            };
            proof {
                assert(best == lev(ap, bp));
            }
            new_row.push(best);
            q += 1;
        }
        row = new_row;
        i += 1;
    }
    proof {
        assert(a@.subrange(0, m as int) =~= a@);
        assert(b@.subrange(0, n as int) =~= b@);
    }
    row[n]
}

/// The part of a name after its last `:`; the whole name where it has
/// none.
pub open spec fn last_segment(s: Seq<u8>) -> Seq<u8>
    decreases s.len(),
{
    if s.len() == 0 {
        s
    } else if s.last() == 58 {
        Seq::empty()
    } else {
        last_segment(s.drop_last()).push(s.last())
    }
}

/// A colon-free suffix that follows a colon, or the whole string, is the
/// last segment.
proof fn lemma_last_segment(s: Seq<u8>, i: int)
    requires
        0 <= i <= s.len(),
        forall|k: int| i <= k < s.len() ==> s[k] != 58,
        i > 0 ==> s[i - 1] == 58,
    ensures
        last_segment(s) == s.subrange(i, s.len() as int),
    decreases s.len(),
{
    if s.len() == 0 {
        assert(s.subrange(0, 0) =~= s);
    } else if i == s.len() {
        assert(s.last() == 58);
        assert(s.subrange(i, s.len() as int) =~= Seq::<u8>::empty());
    } else {
        assert(s.last() != 58);
        lemma_last_segment(s.drop_last(), i);
        assert(last_segment(s) =~= s.subrange(i, s.len() as int)) by {
            assert(s.drop_last().subrange(i, s.drop_last().len() as int) =~= s.subrange(
                i,
                s.len() - 1,
            ));
        }
    }
}

/// Cuts the part of a name after its last `:`.
pub fn last_segment_of(s: &[u8]) -> (r: Vec<u8>)
    ensures
        r@ == last_segment(s@),
{
    let n = s.len();
    let mut i: usize = n;
    while i > 0 && s[i - 1] != 58
        invariant
            0 <= i <= n,
            n == s@.len(),
            forall|k: int| i <= k < n ==> s@[k] != 58,
        decreases i,
    {
        i -= 1;
    }
    proof {
        lemma_last_segment(s@, i as int);
    }
    subrange_vec(s, i, n)
}

/// The candidates whose last segment sits at the given distance from the
/// searched segment, in their original order.
pub open spec fn with_dist(table: Seq<Seq<u8>>, t: Seq<u8>, d: int) -> Seq<Seq<u8>> {
    table.filter(|s: Seq<u8>| lev(last_segment(s), t) == d)
}

/// The ranked suggestion list: the candidates at distance zero, then one,
/// then two, then three, then four — ties keeping their original order —
/// and nothing farther away.
pub open spec fn suggestions_spec(table: Seq<Seq<u8>>, t: Seq<u8>) -> Seq<Seq<u8>> {
    with_dist(table, t, 0) + with_dist(table, t, 1) + with_dist(table, t, 2) + with_dist(
        table,
        t,
        3,
    ) + with_dist(table, t, 4)
}

/// Every suggested name lies within the threshold, and no name stands
/// before a name that is closer to the searched segment.
pub proof fn lemma_suggestions_ranked(table: Seq<Seq<u8>>, t: Seq<u8>)
    ensures
        forall|i: int|
            0 <= i < suggestions_spec(table, t).len() ==> lev(
                last_segment(#[trigger] suggestions_spec(table, t)[i]),
                t,
            ) <= suggestion_threshold(),
        forall|i: int, j: int|
            0 <= i <= j < suggestions_spec(table, t).len() ==> lev(
                last_segment(#[trigger] suggestions_spec(table, t)[i]),
                t,
            ) <= lev(last_segment(#[trigger] suggestions_spec(table, t)[j]), t),
{
    let s = suggestions_spec(table, t);
    assert forall|i: int|
        0 <= i < s.len() implies lev(last_segment(#[trigger] s[i]), t) == dist_rank(
        table,
        t,
        i,
    ) by {
        lemma_dist_at(table, t, i);
    }
}

/// The distance band an entry of the suggestion list belongs to.
pub open spec fn dist_rank(table: Seq<Seq<u8>>, t: Seq<u8>, i: int) -> int {
    let d0 = with_dist(table, t, 0).len();
    let d1 = d0 + with_dist(table, t, 1).len();
    let d2 = d1 + with_dist(table, t, 2).len();
    let d3 = d2 + with_dist(table, t, 3).len();
    if i < d0 {
        0
    } else if i < d1 {
        1
    } else if i < d2 {
        2
    } else if i < d3 {
        3
    } else {
        4
    }
}

/// Each entry's distance equals the band it stands in.
proof fn lemma_dist_at(table: Seq<Seq<u8>>, t: Seq<u8>, i: int)
    requires
        0 <= i < suggestions_spec(table, t).len(),
    ensures
        lev(last_segment(suggestions_spec(table, t)[i]), t) == dist_rank(table, t, i),
{
    let s = suggestions_spec(table, t);
    let w0 = with_dist(table, t, 0);
    let w1 = with_dist(table, t, 1);
    let w2 = with_dist(table, t, 2);
    let w3 = with_dist(table, t, 3);
    let w4 = with_dist(table, t, 4);
    broadcast use vstd::seq_lib::group_filter_ensures;

    if i < w0.len() {
        assert(s[i] == w0[i]);
    } else if i < w0.len() + w1.len() {
        assert(s[i] == w1[i - w0.len()]);
    } else if i < w0.len() + w1.len() + w2.len() {
        assert(s[i] == w2[i - w0.len() - w1.len()]);
    } else if i < w0.len() + w1.len() + w2.len() + w3.len() {
        assert(s[i] == w3[i - w0.len() - w1.len() - w2.len()]);
    } else {
        assert(s[i] == w4[i - w0.len() - w1.len() - w2.len() - w3.len()]);
    }
}

/// Ranks the candidate names for a searched path: the names whose last
/// segment is within the threshold of the path's last segment, grouped by
/// rising distance, original order inside a group.
#[verifier::loop_isolation(false)]
#[verifier::rlimit(100)]
pub fn suggestions(table: &Vec<Vec<u8>>, path: &[u8]) -> (r: Vec<Vec<u8>>)
    requires
        path@.len() < usize::MAX,
        forall|i: int| 0 <= i < table@.len() ==> (#[trigger] table@[i])@.len() < usize::MAX,
    ensures
        views_of(r@) == suggestions_spec(views_of(table@), last_segment(path@)),
{
    let ghost tv = views_of(table@);
    let target = last_segment_of(path);
    proof {
        lemma_last_segment_len(path@);
        assert(target@.len() < usize::MAX);
    }
    let mut out: Vec<Vec<u8>> = Vec::new();
    let mut d: usize = 0;
    proof {
        assert(views_of(out@) =~~= Seq::<Seq<u8>>::empty());
    }
    while d <= 4
        invariant
            0 <= d <= 5,
            target@ == last_segment(path@),
            tv == views_of(table@),
            views_of(out@) == dist_concat(tv, target@, d as int),
        decreases 5 - d,
    {
        let n = table.len();
        let mut i: usize = 0;
        let ghost band_pre = views_of(out@);
        proof {
            reveal_with_fuel(Seq::filter, 1);
            assert(tv.subrange(0, 0) =~= Seq::<Seq<u8>>::empty());
            assert(views_of(out@) =~~= band_pre + tv.subrange(0, 0).filter(
                |s: Seq<u8>| lev(last_segment(s), target@) == d as int,
            ));
        }
        while i < n
            invariant
                0 <= i <= n,
                n == table@.len(),
                views_of(out@) == band_pre + tv.subrange(0, i as int).filter(
                    |s: Seq<u8>| lev(last_segment(s), target@) == d as int,
                ),
            decreases n - i,
        {
            let ghost fpre = tv.subrange(0, i as int).filter(
                |s: Seq<u8>| lev(last_segment(s), target@) == d as int,
            );
            proof {
                assert(tv[i as int] == table@[i as int]@);
            }
            let seg = last_segment_of(table[i].as_slice());
            proof {
                assert(seg@.len() <= table@[i as int]@.len()) by {
                    lemma_last_segment_len(tv[i as int]);
                }
            }
            let dist = edit_distance(seg.as_slice(), target.as_slice());
            let ghost out_pre = out@;
            if dist == d {
                let copy = subrange_vec(table[i].as_slice(), 0, table[i].len());
                proof {
                    assert(copy@ =~= tv[i as int]);
                }
                out.push(copy);
            }
            i += 1;
            proof {
                let nxt = tv.subrange(0, i as int);
                assert(nxt.drop_last() =~= tv.subrange(0, i - 1));
                assert(nxt.last() == tv[i - 1]);
                reveal_with_fuel(Seq::filter, 2);
                if dist == d as int {
                    assert(views_of(out@) =~~= views_of(out_pre).push(tv[i - 1])) by {
                        assert(views_of(out@).len() == out@.len());
                        assert(views_of(out_pre).len() == out_pre.len());
                        assert forall|q: int| 0 <= q < out@.len() implies #[trigger] views_of(
                            out@,
                        )[q] == out@[q]@ by {}
                        assert forall|q: int| 0 <= q < out_pre.len() implies out@[q]
                            == out_pre[q] by {}
                    }
                    assert(nxt.filter(|s: Seq<u8>| lev(last_segment(s), target@) == d as int)
                        =~= fpre.push(tv[i - 1]));
                    assert(band_pre + fpre.push(tv[i - 1]) =~~= (band_pre + fpre).push(
                        tv[i - 1],
                    ));
                } else {
                    assert(nxt.filter(|s: Seq<u8>| lev(last_segment(s), target@) == d as int)
                        =~= fpre);
                    assert(views_of(out@) =~~= band_pre + nxt.filter(
                        |s: Seq<u8>| lev(last_segment(s), target@) == d as int,
                    ));
                }
            }
        }
        proof {
            assert(tv.subrange(0, n as int) =~= tv);
        }
        d += 1;
        proof {
            assert(views_of(out@) =~~= dist_concat(tv, target@, d as int));
        }
    }
    proof {
        reveal_with_fuel(dist_concat, 6);
        assert(dist_concat(tv, target@, 5) =~~= suggestions_spec(tv, target@));
    }
    out
}

/// The first `d` distance bands joined.
pub open spec fn dist_concat(table: Seq<Seq<u8>>, t: Seq<u8>, d: int) -> Seq<Seq<u8>>
    decreases d,
{
    if d <= 0 {
        Seq::empty()
    } else {
        dist_concat(table, t, d - 1) + with_dist(table, t, d - 1)
    }
}

/// The last segment is never longer than the name.
proof fn lemma_last_segment_len(s: Seq<u8>)
    ensures
        last_segment(s).len() <= s.len(),
    decreases s.len(),
{
    if s.len() > 0 && s.last() != 58 {
        lemma_last_segment_len(s.drop_last());
    }
}

} // verus!
