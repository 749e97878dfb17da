//! Source correlation: for each file index the located function refers to,
//! the set of source lines its `.loc` directives request, widened across
//! small gaps, corrected to the local toolchain's source tree, and filled
//! with text read from the file.

use crate::ast::{DirectiveV, FileV, Function, Loc, Statement, StatementV};
use crate::bytes::{subrange_vec, trim, trim_spec};
use crate::lit::{bytes_liballoc, bytes_libcore, bytes_libstd, lit_liballoc, lit_libcore,
    lit_libstd};
use crate::parse::{tbl_contains, tbl_get, tbl_wf, FileTable};
use vstd::prelude::*;

verus! {

/// The gap threshold: a hole between two requested lines shorter than this
/// many lines is pre-filled for contiguous context.
pub open spec fn gap_threshold() -> int {
    5
}

/// Is a key present in a line map?
pub open spec fn lm_contains(v: Seq<(usize, Option<Seq<u8>>)>, key: usize) -> bool {
    exists|i: int| 0 <= i < v.len() && (#[trigger] v[i]).0 == key
}

/// The position of a key's entry; meaningful only where the key is present.
pub open spec fn lm_idx(v: Seq<(usize, Option<Seq<u8>>)>, key: usize) -> int {
    choose|i: int| 0 <= i < v.len() && (#[trigger] v[i]).0 == key
}

/// The text recorded for a key.
pub open spec fn lm_value(v: Seq<(usize, Option<Seq<u8>>)>, key: usize) -> Option<Seq<u8>> {
    v[lm_idx(v, key)].1
}

/// Keys strictly increase along the map.
pub open spec fn lm_wf(v: Seq<(usize, Option<Seq<u8>>)>) -> bool {
    forall|i: int, j: int| 0 <= i < j < v.len() ==> (#[trigger] v[i]).0 < (#[trigger] v[j]).0
}

/// In a well-formed line map the entry of a key is the one found.
pub proof fn lemma_lm_unique(v: Seq<(usize, Option<Seq<u8>>)>, key: usize, i: int)
    requires
        lm_wf(v),
        0 <= i < v.len(),
        v[i].0 == key,
    ensures
        lm_contains(v, key),
        lm_idx(v, key) == i,
        lm_value(v, key) == v[i].1,
{
    assert(lm_contains(v, key));
    let j0 = lm_idx(v, key);
    assert(0 <= j0 < v.len() && v[j0].0 == key);
    if j0 < i {
        assert(v[j0].0 < v[i].0);
    } else if j0 > i {
        assert(v[i].0 < v[j0].0);
    }
}

/// One source file the function refers to: the `.file` record it came from
/// and the requested lines, each holding its text once read.
pub struct File {
    pub ast: crate::ast::File,
    pub lines: Vec<(usize, Option<Vec<u8>>)>,
}

/// The model of a correlated [`File`].
pub struct RFileV {
    pub ast: FileV,
    pub lines: Seq<(usize, Option<Seq<u8>>)>,
}

impl View for File {
    type V = RFileV;

    open spec fn view(&self) -> RFileV {
        RFileV {
            ast: self.ast@,
            lines: self.lines@.map_values(
                |e: (usize, Option<Vec<u8>>)|
                    (
                        e.0,
                        match e.1 {
                            Some(t) => Some(t@),
                            None => None,
                        },
                    ),
            ),
        }
    }
}

impl File {
    /// The line map is sorted by line number.
    pub open spec fn wf(&self) -> bool {
        lm_wf(self@.lines)
    }

    /// The text of a requested line, where it has been read.
    pub fn line(&self, line_idx: usize) -> (r: Option<Vec<u8>>)
        requires
            self.wf(),
        ensures
            match r {
                Some(t) => lm_contains(self@.lines, line_idx) && lm_value(self@.lines, line_idx)
                    == Some(t@),
                None => !lm_contains(self@.lines, line_idx) || lm_value(self@.lines, line_idx)
                    is None,
            },
    {
        let n = self.lines.len();
        let mut i: usize = 0;
        while i < n
            invariant
                0 <= i <= n,
                n == self.lines@.len(),
                n == self@.lines.len(),
                lm_wf(self@.lines),
                forall|j: int| 0 <= j < i ==> (#[trigger] self@.lines[j]).0 != line_idx,
            decreases n - i,
        {
            proof {
                assert(self@.lines[i as int].0 == self.lines@[i as int].0);
            }
            if self.lines[i].0 == line_idx {
                proof {
                    lemma_lm_unique(self@.lines, line_idx, i as int);
                }
                match &self.lines[i].1 {
                    Some(t) => {
                        let copy = subrange_vec(t.as_slice(), 0, t.len());
                        proof {
                            assert(copy@ =~= t@);
                        }
                        return Some(copy);
                    },
                    None => {
                        return None;
                    },
                }
            }
            i += 1;
        }
        None
    }
}

/// Is a file index present?
pub open spec fn fm_contains(v: Seq<(usize, RFileV)>, idx: usize) -> bool {
    exists|i: int| 0 <= i < v.len() && (#[trigger] v[i]).0 == idx
}

/// The position of an index's entry; meaningful only where it is present.
pub open spec fn fm_idx(v: Seq<(usize, RFileV)>, idx: usize) -> int {
    choose|i: int| 0 <= i < v.len() && (#[trigger] v[i]).0 == idx
}

/// The correlated file recorded for an index.
pub open spec fn fm_get(v: Seq<(usize, RFileV)>, idx: usize) -> RFileV {
    v[fm_idx(v, idx)].1
}

/// No index is recorded twice.
pub open spec fn fm_wf(v: Seq<(usize, RFileV)>) -> bool {
    forall|i: int, j: int| 0 <= i < j < v.len() ==> (#[trigger] v[i]).0 != (#[trigger] v[j]).0
}

/// In a well-formed file map the entry of an index is the one found.
pub proof fn lemma_fm_unique(v: Seq<(usize, RFileV)>, idx: usize, i: int)
    requires
        fm_wf(v),
        0 <= i < v.len(),
        v[i].0 == idx,
    ensures
        fm_contains(v, idx),
        fm_idx(v, idx) == i,
        fm_get(v, idx) == v[i].1,
{
    assert(fm_contains(v, idx));
    let j0 = fm_idx(v, idx);
    assert(0 <= j0 < v.len() && v[j0].0 == idx);
    if j0 < i {
        assert(v[j0].0 != v[i].0);
    } else if j0 > i {
        assert(v[i].0 != v[j0].0);
    }
}

/// The correlated source files of one function, keyed by file index.
pub struct Files {
    pub files: Vec<(usize, File)>,
}

impl View for Files {
    type V = Seq<(usize, RFileV)>;

    open spec fn view(&self) -> Seq<(usize, RFileV)> {
        self.files@.map_values(|e: (usize, File)| (e.0, e.1@))
    }
}

impl Files {
    /// Every index at most once, every line map sorted.
    pub open spec fn wf(&self) -> bool {
        fm_wf(self@) && forall|i: int| 0 <= i < self@.len() ==> lm_wf((#[trigger] self@[i]).1.lines)
    }

    /// The position of an index's entry.
    fn find(&self, idx: usize) -> (r: Option<usize>)
        ensures
            match r {
                Some(i) => i < self@.len() && self@[i as int].0 == idx,
                None => !fm_contains(self@, idx),
            },
    {
        let n = self.files.len();
        let mut i: usize = 0;
        while i < n
            invariant
                0 <= i <= n,
                n == self.files@.len(),
                n == self@.len(),
                forall|j: int| 0 <= j < i ==> (#[trigger] self@[j]).0 != idx,
            decreases n - i,
        {
            proof {
                assert(self@[i as int].0 == self.files@[i as int].0);
            }
            if self.files[i].0 == idx {
                return Some(i);
            }
            i += 1;
        }
        None
    }

    /// The text recorded for a line of a file, where it has been read.
    pub fn line_at(&self, file_index: usize, line_idx: usize) -> (r: Option<Vec<u8>>)
        requires
            self.wf(),
        ensures
            match r {
                Some(t) => fm_contains(self@, file_index) && lm_contains(
                    fm_get(self@, file_index).lines,
                    line_idx,
                ) && lm_value(fm_get(self@, file_index).lines, line_idx) == Some(t@),
                None => !fm_contains(self@, file_index) || !lm_contains(
                    fm_get(self@, file_index).lines,
                    line_idx,
                ) || lm_value(fm_get(self@, file_index).lines, line_idx) is None,
            },
    {
        match self.find(file_index) {
            Some(i) => {
                proof {
                    lemma_fm_unique(self@, file_index, i as int);
                    assert(self@[i as int].1 == self.files@[i as int].1@);
                }
                self.files[i].1.line(line_idx)
            },
            None => None,
        }
    }

    /// The text recorded for a location.
    pub fn line(&self, loc: Loc) -> (r: Option<Vec<u8>>)
        requires
            self.wf(),
        ensures
            match r {
                Some(t) => fm_contains(self@, loc.file_index) && lm_contains(
                    fm_get(self@, loc.file_index).lines,
                    loc.file_line,
                ) && lm_value(fm_get(self@, loc.file_index).lines, loc.file_line) == Some(t@),
                None => !fm_contains(self@, loc.file_index) || !lm_contains(
                    fm_get(self@, loc.file_index).lines,
                    loc.file_line,
                ) || lm_value(fm_get(self@, loc.file_index).lines, loc.file_line) is None,
            },
    {
        self.line_at(loc.file_index, loc.file_line)
    }

    /// The path of the file a location refers to.
    pub fn file_path(&self, loc: Loc) -> (r: Option<Vec<u8>>)
        requires
            self.wf(),
        ensures
            match r {
                Some(p) => fm_contains(self@, loc.file_index) && p@ == fm_get(
                    self@,
                    loc.file_index,
                ).ast.path,
                None => !fm_contains(self@, loc.file_index),
            },
    {
        match self.find(loc.file_index) {
            Some(i) => {
                proof {
                    lemma_fm_unique(self@, loc.file_index, i as int);
                    assert(self@[i as int].1 == self.files@[i as int].1@);
                }
                let p = &self.files[i].1.ast.path;
                let copy = subrange_vec(p.as_slice(), 0, p.len());
                proof {
                    assert(copy@ =~= p@);
                }
                Some(copy)
            },
            None => None,
        }
    }
}

/// Does some `.loc` directive among the statements request this line of
/// this file?
pub open spec fn is_requested(stmts: Seq<StatementV>, idx: usize, m: usize) -> bool {
    exists|i: int|
        0 <= i < stmts.len() && match #[trigger] stmts[i] {
            StatementV::Directive(DirectiveV::Loc(lc)) => lc.file_index == idx && lc.file_line
                == m,
            _ => false,
        }
}

/// Does some `.loc` directive among the statements refer to this file?
pub open spec fn refers_to(stmts: Seq<StatementV>, idx: usize) -> bool {
    exists|i: int|
        0 <= i < stmts.len() && match #[trigger] stmts[i] {
            StatementV::Directive(DirectiveV::Loc(lc)) => lc.file_index == idx,
            _ => false,
        }
}

/// Is this line inside a short gap between two requested lines of the same
/// file?
pub open spec fn in_gap(stmts: Seq<StatementV>, idx: usize, m: usize) -> bool {
    exists|k1: usize, k2: usize|
        {
            &&& #[trigger] is_requested(stmts, idx, k1)
            &&& #[trigger] is_requested(stmts, idx, k2)
            &&& k1 < m < k2
            &&& k2 < k1 + gap_threshold()
        }
}

/// Every recorded line still unread.
pub open spec fn lm_all_none(v: Seq<(usize, Option<Seq<u8>>)>) -> bool {
    forall|i: int| 0 <= i < v.len() ==> (#[trigger] v[i]).1 is None
}

/// The view of one line-map entry.
pub open spec fn lm_view_fn() -> spec_fn((usize, Option<Vec<u8>>)) -> (usize, Option<Seq<u8>>) {
    |e: (usize, Option<Vec<u8>>)|
        (
            e.0,
            match e.1 {
                Some(t) => Some(t@),
                None => None::<Seq<u8>>,
            },
        )
}

/// The view of a whole line map.
pub open spec fn lm_view(v: Seq<(usize, Option<Vec<u8>>)>) -> Seq<(usize, Option<Seq<u8>>)> {
    v.map_values(lm_view_fn())
}

/// Puts a line number into a sorted line map, unread, where it is not yet
/// recorded.
fn lm_insert_none(lines: &mut Vec<(usize, Option<Vec<u8>>)>, key: usize)
    requires
        lm_wf(lm_view(old(lines)@)),
    ensures
        ({
            let oldv = lm_view(old(lines)@);
            let newv = lm_view(final(lines)@);
            &&& lm_wf(newv)
            &&& forall|k: usize| lm_contains(newv, k) == (lm_contains(oldv, k) || k == key)
            &&& forall|k: usize|
                lm_contains(oldv, k) ==> lm_value(newv, k) == lm_value(oldv, k)
            &&& (!lm_contains(oldv, key) ==> lm_value(newv, key) is None)
            &&& (lm_all_none(oldv) ==> lm_all_none(newv))
        }),
{
    let ghost oldv = lm_view(lines@);
    proof {
        assert(oldv.len() == lines@.len());
    }
    let n = lines.len();
    let mut k: usize = 0;
    while k < n && lines[k].0 < key
        invariant
            0 <= k <= n,
            n == lines@.len(),
            oldv == lm_view(lines@),
            lm_wf(oldv),
            forall|j: int| 0 <= j < k ==> (#[trigger] oldv[j]).0 < key,
        decreases n - k,
    {
        proof {
            assert(oldv[k as int].0 == lines@[k as int].0);
        }
        k += 1;
    }
    proof {
        assert(k < n ==> oldv[k as int].0 == lines@[k as int].0);
    }
    if k < n && lines[k].0 == key {
        proof {
            lemma_lm_unique(oldv, key, k as int);
            assert(lm_view(lines@) =~~= oldv);
        }
        return ;
    }
    proof {
        assert forall|j: int| 0 <= j < oldv.len() implies (#[trigger] oldv[j]).0 != key by {
            if j >= k as int {
                if j > k as int {
                    assert(oldv[k as int].0 < oldv[j].0);
                }
            }
        }
        assert(!lm_contains(oldv, key));
    }
    lines.insert(k, (key, None));
    proof {
        let newv = lm_view(lines@);
        assert(newv =~~= oldv.insert(k as int, (key, None::<Seq<u8>>))) by {
            assert forall|j: int| 0 <= j < newv.len() implies newv[j] == oldv.insert(
                k as int,
                (key, None::<Seq<u8>>),
            )[j] by {
                assert(newv[j] == lm_view_fn()(lines@[j]));
            }
        }
        assert(lm_wf(newv)) by {
            assert forall|a: int, b: int| 0 <= a < b < newv.len() implies (#[trigger] newv[a]).0
                < (#[trigger] newv[b]).0 by {
                if b < k as int {
                } else if a > k as int {
                } else if b == k as int {
                    assert(newv[a] == oldv[a]);
                } else if a == k as int {
                    assert(newv[b] == oldv[b - 1]);
                    if b - 1 > k as int - 1 {
                        if k as int <= b - 1 {
                            if k > 0 {
                                assert(oldv[k - 1].0 < key);
                            }
                            assert(oldv[k as int].0 > key || oldv[k as int].0 == key
                                || oldv[k as int].0 < key);
                            if oldv.len() > k as int {
                                assert(!(oldv[k as int].0 < key));
                                assert(oldv[k as int].0 != key);
                            }
                            if b - 1 == k as int {
                            } else {
                                assert(oldv[k as int].0 < oldv[b - 1].0);
                            }
                        }
                    }
                } else {
                    assert(newv[a] == oldv[a]);
                    assert(newv[b] == oldv[b - 1]);
                    if a < b - 1 {
                        assert(oldv[a].0 < oldv[b - 1].0);
                    }
                }
            }
        }
        assert forall|x: usize| lm_contains(newv, x) == (lm_contains(oldv, x) || x == key) by {
            if lm_contains(oldv, x) {
                let j = lm_idx(oldv, x);
                if j < k as int {
                    assert(newv[j].0 == x);
                } else {
                    assert(newv[j + 1].0 == x);
                }
                assert(lm_contains(newv, x));
            }
            if x == key {
                assert(newv[k as int].0 == x);
                assert(lm_contains(newv, x));
            }
            if lm_contains(newv, x) {
                let j = choose|j: int| 0 <= j < newv.len() && (#[trigger] newv[j]).0 == x;
                if j < k as int {
                    assert(oldv[j].0 == x);
                    assert(lm_contains(oldv, x));
                } else if j == k as int {
                    assert(x == key);
                } else {
                    assert(oldv[j - 1].0 == x);
                    assert(lm_contains(oldv, x));
                }
            }
        }
        assert forall|x: usize|
            lm_contains(oldv, x) implies lm_value(newv, x) == lm_value(oldv, x) by {
            let j = lm_idx(oldv, x);
            assert(oldv[j].0 == x);
            if j < k as int {
                assert(newv[j].0 == x && newv[j].1 == oldv[j].1);
                lemma_lm_unique(newv, x, j);
            } else {
                assert(newv[j + 1].0 == x && newv[j + 1].1 == oldv[j].1);
                lemma_lm_unique(newv, x, j + 1);
            }
            lemma_lm_unique(oldv, x, j);
        }
        assert(lm_value(newv, key) is None) by {
            lemma_lm_unique(newv, key, k as int);
        }
        if lm_all_none(oldv) {
            assert forall|j: int| 0 <= j < newv.len() implies (#[trigger] newv[j]).1 is None by {
                if j < k as int {
                    assert(newv[j] == oldv[j]);
                } else if j > k as int {
                    assert(newv[j] == oldv[j - 1]);
                }
            }
        }
    }
}

/// Is `m` strictly inside a short gap between two recorded lines?
pub open spec fn gap_between(v: Seq<(usize, Option<Seq<u8>>)>, m: usize) -> bool {
    exists|k1: usize, k2: usize|
        {
            &&& #[trigger] lm_contains(v, k1)
            &&& #[trigger] lm_contains(v, k2)
            &&& k1 < m < k2
            &&& k2 < k1 + gap_threshold()
        }
}

/// Is `m` strictly between the keys at positions `a` and `b`, which lie
/// within the gap threshold of one another?
pub open spec fn filled_by(okeys: Seq<usize>, m: usize, a: int, b: int) -> bool {
    &&& 0 <= a < okeys.len()
    &&& 0 <= b < okeys.len()
    &&& okeys[a] < m
    &&& m < okeys[b]
    &&& okeys[b] < okeys[a] + gap_threshold()
}

/// Is `m` filled by some pair of positions before `(i, j)` in the pair
/// order the gap pass walks?
pub open spec fn filled_upto(okeys: Seq<usize>, m: usize, i: int, j: int) -> bool {
    exists|a: int, b: int| ((a < i) || (a == i && b < j)) && #[trigger] filled_by(okeys, m, a, b)
}

/// Widens the recorded lines across short gaps: afterwards a line is
/// recorded exactly when it was recorded before or lies strictly between
/// two previously recorded lines that are within the gap threshold of one
/// another.
#[verifier::loop_isolation(false)]
#[verifier::rlimit(100)]
fn fill_gaps(lines: &mut Vec<(usize, Option<Vec<u8>>)>)
    requires
        lm_wf(lm_view(old(lines)@)),
        lm_all_none(lm_view(old(lines)@)),
    ensures
        ({
            let oldv = lm_view(old(lines)@);
            let newv = lm_view(final(lines)@);
            &&& lm_wf(newv)
            &&& lm_all_none(newv)
            &&& forall|m: usize|
                #[trigger] lm_contains(newv, m) == (lm_contains(oldv, m) || gap_between(oldv, m))
        }),
{
    let ghost oldv = lm_view(old(lines)@);
    let n = lines.len();
    let mut okeys: Vec<usize> = Vec::new();
    let mut t: usize = 0;
    while t < n
        invariant
            0 <= t <= n,
            n == lines@.len(),
            lines@ == old(lines)@,
            okeys@.len() == t,
            forall|j: int| 0 <= j < t ==> okeys@[j] == (#[trigger] oldv[j]).0,
        decreases n - t,
    {
        proof {
            assert(oldv[t as int].0 == lines@[t as int].0);
        }
        okeys.push(lines[t].0);
        t += 1;
    }
    let ghost ok = okeys@;
    proof {
        assert(ok.len() == oldv.len());
        assert forall|a: int, b: int| 0 <= a < b < ok.len() implies ok[a] < ok[b] by {
            assert(oldv[a].0 < oldv[b].0);
        }
        assert forall|m: usize| lm_contains(lm_view(lines@), m) == (lm_contains(oldv, m)
            || filled_upto(ok, m, 0, 0)) by {
            if filled_upto(ok, m, 0, 0) {
                let (a, b) = choose|a: int, b: int|
                    ((a < 0) || (a == 0 && b < 0)) && #[trigger] filled_by(ok, m, a, b);
                assert(false);
            }
        }
    }
    let mut i: usize = 0;
    while i < n
        invariant
            0 <= i <= n,
            n == ok.len(),
            okeys@ == ok,
            lm_wf(lm_view(lines@)),
            lm_all_none(lm_view(lines@)),
            forall|m: usize|
                #[trigger] lm_contains(lm_view(lines@), m) == (lm_contains(oldv, m) || filled_upto(
                    ok,
                    m,
                    i as int,
                    0,
                )),
        decreases n - i,
    {
        let mut j: usize = 0;
        proof {
            assert forall|m: usize| filled_upto(ok, m, i as int, 0) == filled_upto(
                ok,
                m,
                i as int,
                0,
            ) by {}
        }
        while j < n
            invariant
                0 <= j <= n,
                i < n,
                lm_wf(lm_view(lines@)),
                lm_all_none(lm_view(lines@)),
                forall|m: usize|
                    #[trigger] lm_contains(lm_view(lines@), m) == (lm_contains(oldv, m)
                        || filled_upto(ok, m, i as int, j as int)),
            decreases n - j,
        {
            let lo = okeys[i];
            let hi = okeys[j];
            if j > i && hi - lo < 5 {
                let mut m: usize = lo + 1;
                proof {
                    assert(ok[i as int] < ok[j as int]);
                }
                while m < hi
                    invariant
                        lo < m <= hi,
                        lm_wf(lm_view(lines@)),
                        lm_all_none(lm_view(lines@)),
                        forall|x: usize|
                            #[trigger] lm_contains(lm_view(lines@), x) == (lm_contains(oldv, x)
                                || filled_upto(ok, x, i as int, j as int) || (lo < x < m)),
                    decreases hi - m,
                {
                    lm_insert_none(lines, m);
                    m += 1;
                }
                proof {
                    assert forall|x: usize|
                        #[trigger] lm_contains(lm_view(lines@), x) == (lm_contains(oldv, x)
                            || filled_upto(ok, x, i as int, j + 1)) by {
                        if lm_contains(oldv, x) || filled_upto(ok, x, i as int, j as int) || (lo
                            < x < m) {
                            if lo < x < m {
                                assert(filled_by(ok, x, i as int, j as int));
                                assert(filled_upto(ok, x, i as int, j + 1));
                            } else if filled_upto(ok, x, i as int, j as int) {
                                let (a, b) = choose|a: int, b: int|
                                    ((a < i as int) || (a == i as int && b < j as int))
                                        && #[trigger] filled_by(ok, x, a, b);
                                assert(filled_by(ok, x, a, b));
                                assert(filled_upto(ok, x, i as int, j + 1));
                            }
                        }
                        if filled_upto(ok, x, i as int, j + 1) && !(lm_contains(oldv, x)
                            || filled_upto(ok, x, i as int, j as int)) {
                            let (a, b) = choose|a: int, b: int|
                                ((a < i as int) || (a == i as int && b < j + 1))
                                    && #[trigger] filled_by(ok, x, a, b);
                            assert(a == i as int && b == j as int);
                            assert(lo < x < m);
                        }
                    }
                }
            } else {
                proof {
                    assert forall|x: usize|
                        filled_upto(ok, x, i as int, j + 1) == filled_upto(
                        ok,
                        x,
                        i as int,
                        j as int,
                    ) by {
                        if filled_upto(ok, x, i as int, j + 1) {
                            let (a, b) = choose|a: int, b: int|
                                ((a < i as int) || (a == i as int && b < j + 1))
                                    && #[trigger] filled_by(ok, x, a, b);
                            if a == i as int && b == j as int {
                                if j <= i {
                                    if j < i {
                                        assert(ok[j as int] < ok[i as int]);
                                    }
                                    assert(false);
                                } else {
                                    assert(ok[j as int] - ok[i as int] >= 5);
                                    assert(false);
                                }
                            }
                            assert(filled_upto(ok, x, i as int, j as int));
                        }
                    }
                }
            }
            j += 1;
        }
        i += 1;
        proof {
            assert forall|m: usize| filled_upto(ok, m, i as int, 0) == filled_upto(
                ok,
                m,
                i - 1,
                n as int,
            ) by {
                if filled_upto(ok, m, i as int, 0) {
                    let (a, b) = choose|a: int, b: int|
                        ((a < i as int) || (a == i as int && b < 0)) && #[trigger] filled_by(
                            ok,
                            m,
                            a,
                            b,
                        );
                    assert(a <= i - 1);
                    if a == i - 1 {
                        assert(b < ok.len());
                    }
                    assert(filled_upto(ok, m, i - 1, n as int));
                }
                if filled_upto(ok, m, i - 1, n as int) {
                    let (a, b) = choose|a: int, b: int|
                        ((a < i - 1) || (a == i - 1 && b < n as int)) && #[trigger] filled_by(
                            ok,
                            m,
                            a,
                            b,
                        );
                    assert(a < i as int);
                    assert(filled_upto(ok, m, i as int, 0));
                }
            }
        }
    }
    proof {
        assert forall|m: usize|
            #[trigger] lm_contains(lm_view(lines@), m) == (lm_contains(oldv, m) || gap_between(
                oldv,
                m,
            )) by {
            assert(lm_contains(lm_view(lines@), m) == (lm_contains(oldv, m) || filled_upto(
                ok,
                m,
                n as int,
                0,
            )));
            if filled_upto(ok, m, n as int, 0) {
                let (a, b) = choose|a: int, b: int|
                    ((a < n as int) || (a == n as int && b < 0)) && #[trigger] filled_by(
                        ok,
                        m,
                        a,
                        b,
                    );
                assert(oldv[a].0 == ok[a]);
                assert(oldv[b].0 == ok[b]);
                assert(lm_contains(oldv, ok[a])) by {
                    assert(oldv[a].0 == ok[a]);
                }
                assert(lm_contains(oldv, ok[b])) by {
                    assert(oldv[b].0 == ok[b]);
                }
                assert(gap_between(oldv, m));
            }
            if gap_between(oldv, m) {
                let (k1, k2) = choose|k1: usize, k2: usize|
                    {
                        &&& #[trigger] lm_contains(oldv, k1)
                        &&& #[trigger] lm_contains(oldv, k2)
                        &&& k1 < m < k2
                        &&& k2 < k1 + gap_threshold()
                    };
                let a = lm_idx(oldv, k1);
                let b = lm_idx(oldv, k2);
                assert(ok[a] == k1);
                assert(ok[b] == k2);
                assert(filled_by(ok, m, a, b));
                assert(filled_upto(ok, m, n as int, 0));
            }
        }
    }
}

/// Builds the correlated source files of a function: one entry per file
/// index its `.loc` directives name, carrying the `.file` record from the
/// table, and recording exactly the requested lines widened across short
/// gaps — all still unread.
#[verifier::loop_isolation(false)]
#[verifier::rlimit(100)]
pub fn parse(function: &Function, file_table: &FileTable) -> (r: Files)
    requires
        tbl_wf(file_table@),
        forall|i: int|
            0 <= i < function@.statements.len() ==> match #[trigger] function@.statements[i] {
                StatementV::Directive(DirectiveV::Loc(lc)) => tbl_contains(
                    file_table@,
                    lc.file_index,
                ),
                _ => true,
            },
    ensures
        r.wf(),
        forall|idx: usize|
            #[trigger] fm_contains(r@, idx) == refers_to(function@.statements, idx),
        forall|idx: usize|
            refers_to(function@.statements, idx) ==> (#[trigger] fm_get(r@, idx)).ast == tbl_get(
                file_table@,
                idx,
            ),
        forall|idx: usize, m: usize|
            refers_to(function@.statements, idx) ==> #[trigger] lm_contains(
                fm_get(r@, idx).lines,
                m,
            ) == (is_requested(function@.statements, idx, m) || in_gap(
                function@.statements,
                idx,
                m,
            )),
        forall|idx: usize|
            refers_to(function@.statements, idx) ==> lm_all_none(
                (#[trigger] fm_get(r@, idx)).lines,
            ),
{
    let ghost stmts = function@.statements;
    let mut files = Files { files: Vec::new() };
    let n = function.statements.len();
    let mut i: usize = 0;
    proof {
        assert(stmts.subrange(0, 0) =~= Seq::<StatementV>::empty());
    }
    while i < n
        invariant
            0 <= i <= n,
            n == stmts.len(),
            stmts == function@.statements,
            files.wf(),
            forall|idx: usize|
                #[trigger] fm_contains(files@, idx) == refers_to(stmts.subrange(0, i as int), idx),
            forall|idx: usize|
                fm_contains(files@, idx) ==> (#[trigger] fm_get(files@, idx)).ast == tbl_get(
                    file_table@,
                    idx,
                ),
            forall|idx: usize, m: usize|
                fm_contains(files@, idx) ==> #[trigger] lm_contains(fm_get(files@, idx).lines, m)
                    == is_requested(stmts.subrange(0, i as int), idx, m),
            forall|idx: usize|
                fm_contains(files@, idx) ==> lm_all_none((#[trigger] fm_get(files@, idx)).lines),
        decreases n - i,
    {
        let ghost pre = stmts.subrange(0, i as int);
        proof {
            assert(stmts[i as int] == function.statements@[i as int]@);
            let nxt = stmts.subrange(0, i + 1);
            assert(nxt.drop_last() =~= pre);
            assert(nxt.last() == stmts[i as int]);
            assert forall|idx: usize| #[trigger] refers_to(nxt, idx) == (refers_to(pre, idx) || (
            match stmts[i as int] {
                StatementV::Directive(DirectiveV::Loc(lc)) => lc.file_index == idx,
                _ => false,
            })) by {
                if refers_to(nxt, idx) {
                    let w = choose|w: int|
                        0 <= w < nxt.len() && match #[trigger] nxt[w] {
                            StatementV::Directive(DirectiveV::Loc(lc)) => lc.file_index == idx,
                            _ => false,
                        };
                    if w < i as int {
                        assert(pre[w] == nxt[w]);
                        assert(refers_to(pre, idx));
                    }
                }
                if refers_to(pre, idx) {
                    let w = choose|w: int|
                        0 <= w < pre.len() && match #[trigger] pre[w] {
                            StatementV::Directive(DirectiveV::Loc(lc)) => lc.file_index == idx,
                            _ => false,
                        };
                    assert(nxt[w] == pre[w]);
                    assert(refers_to(nxt, idx));
                }
                if match stmts[i as int] {
                    StatementV::Directive(DirectiveV::Loc(lc)) => lc.file_index == idx,
                    _ => false,
                } {
                    assert(nxt[i as int] == stmts[i as int]);
                    assert(refers_to(nxt, idx));
                }
            }
            assert forall|idx: usize, m: usize| #[trigger] is_requested(nxt, idx, m) == (
            is_requested(pre, idx, m) || (match stmts[i as int] {
                StatementV::Directive(DirectiveV::Loc(lc)) => lc.file_index == idx && lc.file_line
                    == m,
                _ => false,
            })) by {
                if is_requested(nxt, idx, m) {
                    let w = choose|w: int|
                        0 <= w < nxt.len() && match #[trigger] nxt[w] {
                            StatementV::Directive(DirectiveV::Loc(lc)) => lc.file_index == idx
                                && lc.file_line == m,
                            _ => false,
                        };
                    if w < i as int {
                        assert(pre[w] == nxt[w]);
                        assert(is_requested(pre, idx, m));
                    }
                }
                if is_requested(pre, idx, m) {
                    let w = choose|w: int|
                        0 <= w < pre.len() && match #[trigger] pre[w] {
                            StatementV::Directive(DirectiveV::Loc(lc)) => lc.file_index == idx
                                && lc.file_line == m,
                            _ => false,
                        };
                    assert(nxt[w] == pre[w]);
                    assert(is_requested(nxt, idx, m));
                }
                if match stmts[i as int] {
                    StatementV::Directive(DirectiveV::Loc(lc)) => lc.file_index == idx
                        && lc.file_line == m,
                    _ => false,
                } {
                    assert(nxt[i as int] == stmts[i as int]);
                    assert(is_requested(nxt, idx, m));
                }
            }
        }
        let is_loc: Option<Loc> = match &function.statements[i] {
            Statement::Directive(crate::ast::Directive::Loc(lc)) => Some(*lc),
            _ => None,
        };
        match is_loc {
            Some(lc) => {
                let fi = match files.find(lc.file_index) {
                    Some(fi) => fi,
                    None => {
                        let ast = match file_table.get(lc.file_index) {
                            Some(f) => f,
                            None => {
                                proof {
                                    assert(false);
                                }
                                crate::ast::File { path: Vec::new(), index: 0 }
                            },
                        };
                        let ghost files_pre = files@;
                        files.files.push((lc.file_index, File { ast, lines: Vec::new() }));
                        proof {
                            assert(files@ =~~= files_pre.push(
                                (
                                    lc.file_index,
                                    RFileV {
                                        ast: tbl_get(file_table@, lc.file_index),
                                        lines: Seq::empty(),
                                    },
                                ),
                            )) by {
                                assert forall|j: int| 0 <= j < files@.len() implies files@[j]
                                    == files_pre.push(
                                    (
                                        lc.file_index,
                                        RFileV {
                                            ast: tbl_get(file_table@, lc.file_index),
                                            lines: Seq::empty(),
                                        },
                                    ),
                                )[j] by {
                                    assert(files@[j] == (files.files@[j].0, files.files@[j].1@));
                                    assert(lm_view(Seq::<(usize, Option<Vec<u8>>)>::empty())
                                        =~~= Seq::<(usize, Option<Seq<u8>>)>::empty());
                                }
                            }
                            assert forall|x: usize| #[trigger] fm_contains(files@, x) == (
                            fm_contains(files_pre, x) || x == lc.file_index) by {
                                if fm_contains(files_pre, x) {
                                    let w = fm_idx(files_pre, x);
                                    assert(files@[w].0 == x);
                                }
                                if x == lc.file_index {
                                    assert(files@[files@.len() - 1].0 == x);
                                }
                                if fm_contains(files@, x) {
                                    let w = choose|w: int|
                                        0 <= w < files@.len() && (#[trigger] files@[w]).0 == x;
                                    if w < files_pre.len() {
                                        assert(files_pre[w].0 == x);
                                    }
                                }
                            }
                            assert(!fm_contains(files_pre, lc.file_index));
                            assert(fm_wf(files@)) by {
                                assert forall|a: int, b: int|
                                    0 <= a < b < files@.len() implies (#[trigger] files@[a]).0
                                    != (#[trigger] files@[b]).0 by {
                                    if b == files@.len() - 1 {
                                        assert(files@[a] == files_pre[a]);
                                        if files_pre[a].0 == lc.file_index {
                                            assert(fm_contains(files_pre, lc.file_index));
                                        }
                                    }
                                }
                            }
                            assert forall|x: usize|
                                fm_contains(files_pre, x) implies #[trigger] fm_get(files@, x)
                                == fm_get(files_pre, x) by {
                                let w = fm_idx(files_pre, x);
                                lemma_fm_unique(files_pre, x, w);
                                assert(files@[w].0 == x);
                                lemma_fm_unique(files@, x, w);
                            }
                            lemma_fm_unique(files@, lc.file_index, files@.len() - 1);
                        }
                        files.files.len() - 1
                    },
                };
                proof {
                    assert(files@[fi as int].0 == lc.file_index);
                    lemma_fm_unique(files@, lc.file_index, fi as int);
                    if !refers_to(pre, lc.file_index) {
                        assert forall|x: usize|
                            !#[trigger] is_requested(pre, lc.file_index, x) by {
                            if is_requested(pre, lc.file_index, x) {
                                let w = choose|w: int|
                                    0 <= w < pre.len() && match #[trigger] pre[w] {
                                        StatementV::Directive(DirectiveV::Loc(l2)) => l2.file_index
                                            == lc.file_index && l2.file_line == x,
                                        _ => false,
                                    };
                                assert(refers_to(pre, lc.file_index));
                            }
                        }
                    }
                }
                let ghost files_pre2 = files@;
                let mut entry = files.files.remove(fi);
                lm_insert_none(&mut entry.1.lines, lc.file_line);
                let ghost new_lines = lm_view(entry.1.lines@);
                files.files.insert(fi, entry);
                proof {
                    assert(files@ =~~= files_pre2.update(
                        fi as int,
                        (lc.file_index, RFileV { ast: files_pre2[fi as int].1.ast, lines: new_lines }),
                    )) by {
                        assert forall|j: int| 0 <= j < files@.len() implies files@[j]
                            == files_pre2.update(
                            fi as int,
                            (
                                lc.file_index,
                                RFileV { ast: files_pre2[fi as int].1.ast, lines: new_lines },
                            ),
                        )[j] by {
                            assert(files@[j] == (files.files@[j].0, files.files@[j].1@));
                        }
                    }
                    assert forall|x: usize| #[trigger] fm_contains(files@, x) == fm_contains(
                        files_pre2,
                        x,
                    ) by {
                        if fm_contains(files_pre2, x) {
                            let w = fm_idx(files_pre2, x);
                            assert(files@[w].0 == x);
                        }
                        if fm_contains(files@, x) {
                            let w = choose|w: int|
                                0 <= w < files@.len() && (#[trigger] files@[w]).0 == x;
                            assert(files_pre2[w].0 == x);
                        }
                    }
                    assert forall|x: usize|
                        fm_contains(files@, x) && x != lc.file_index implies #[trigger] fm_get(
                        files@,
                        x,
                    ) == fm_get(files_pre2, x) by {
                        let w = fm_idx(files_pre2, x);
                        lemma_fm_unique(files_pre2, x, w);
                        assert(files@[w].0 == x);
                        lemma_fm_unique(files@, x, w);
                    }
                    lemma_fm_unique(files@, lc.file_index, fi as int);
                    assert(fm_get(files@, lc.file_index).lines == new_lines);
                    assert(fm_get(files@, lc.file_index).ast == files_pre2[fi as int].1.ast);
                    assert forall|x: usize| #[trigger] lm_contains(new_lines, x) == is_requested(
                        stmts.subrange(0, i + 1),
                        lc.file_index,
                        x,
                    ) by {
                        assert(lm_contains(new_lines, x) == (lm_contains(
                            files_pre2[fi as int].1.lines,
                            x,
                        ) || x == lc.file_line));
                        assert(lm_contains(files_pre2[fi as int].1.lines, x) == is_requested(
                            pre,
                            lc.file_index,
                            x,
                        ));
                    }
                }
            },
            None => {},
        }
        i += 1;
        proof {
            let nxt = stmts.subrange(0, i as int);
            assert forall|idx: usize|
                !#[trigger] refers_to(nxt, idx) implies (forall|x: usize|
                    !#[trigger] is_requested(nxt, idx, x)) by {
                assert forall|x: usize| !#[trigger] is_requested(nxt, idx, x) by {
                    if is_requested(nxt, idx, x) {
                        let w = choose|w: int|
                            0 <= w < nxt.len() && match #[trigger] nxt[w] {
                                StatementV::Directive(DirectiveV::Loc(lc)) => lc.file_index == idx
                                    && lc.file_line == x,
                                _ => false,
                            };
                        assert(refers_to(nxt, idx));
                    }
                }
            }
        }
    }
    proof {
        assert(stmts.subrange(0, n as int) =~= stmts);
    }
    let m = files.files.len();
    proof {
        assert forall|j: int| 0 <= j < files@.len() implies (forall|x: usize|
            #[trigger] lm_contains((#[trigger] files@[j]).1.lines, x) == is_requested(
                stmts,
                files@[j].0,
                x,
            )) by {
            lemma_fm_unique(files@, files@[j].0, j);
        }
    }
    let mut k: usize = 0;
    while k < m
        invariant
            0 <= k <= m,
            m == files.files@.len(),
            m == files@.len(),
            files.wf(),
            forall|idx: usize| #[trigger] fm_contains(files@, idx) == refers_to(stmts, idx),
            forall|idx: usize|
                fm_contains(files@, idx) ==> (#[trigger] fm_get(files@, idx)).ast == tbl_get(
                    file_table@,
                    idx,
                ),
            forall|idx: usize|
                fm_contains(files@, idx) ==> lm_all_none((#[trigger] fm_get(files@, idx)).lines),
            forall|j: int|
                k <= j < m ==> (forall|x: usize|
                    #[trigger] lm_contains((#[trigger] files@[j]).1.lines, x) == is_requested(
                        stmts,
                        files@[j].0,
                        x,
                    )),
            forall|j: int|
                0 <= j < k ==> (forall|x: usize|
                    #[trigger] lm_contains((#[trigger] files@[j]).1.lines, x) == (is_requested(
                        stmts,
                        files@[j].0,
                        x,
                    ) || in_gap(stmts, files@[j].0, x))),
        decreases m - k,
    {
        let ghost files_pre = files@;
        proof {
            lemma_fm_unique(files_pre, files_pre[k as int].0, k as int);
        }
        let mut entry = files.files.remove(k);
        let ghost entry_lines = lm_view(entry.1.lines@);
        proof {
            assert(entry.1@.lines == entry_lines);
            assert(entry_lines == files_pre[k as int].1.lines);
            assert(lm_wf(entry_lines));
            assert(lm_all_none(entry_lines));
        }
        fill_gaps(&mut entry.1.lines);
        let ghost new_lines = lm_view(entry.1.lines@);
        files.files.insert(k, entry);
        proof {
            assert(files@ =~~= files_pre.update(
                k as int,
                (files_pre[k as int].0, RFileV { ast: files_pre[k as int].1.ast, lines: new_lines }),
            )) by {
                assert forall|j: int| 0 <= j < files@.len() implies files@[j] == files_pre.update(
                    k as int,
                    (
                        files_pre[k as int].0,
                        RFileV { ast: files_pre[k as int].1.ast, lines: new_lines },
                    ),
                )[j] by {
                    assert(files@[j] == (files.files@[j].0, files.files@[j].1@));
                }
            }
            assert forall|x: usize| #[trigger] fm_contains(files@, x) == fm_contains(
                files_pre,
                x,
            ) by {
                if fm_contains(files_pre, x) {
                    let w = fm_idx(files_pre, x);
                    assert(files@[w].0 == x);
                }
                if fm_contains(files@, x) {
                    let w = choose|w: int| 0 <= w < files@.len() && (#[trigger] files@[w]).0 == x;
                    assert(files_pre[w].0 == x);
                }
            }
            assert forall|x: usize|
                fm_contains(files@, x) && x != files_pre[k as int].0 implies #[trigger] fm_get(
                files@,
                x,
            ) == fm_get(files_pre, x) by {
                let w = fm_idx(files_pre, x);
                lemma_fm_unique(files_pre, x, w);
                assert(files@[w].0 == x);
                lemma_fm_unique(files@, x, w);
            }
            lemma_fm_unique(files@, files_pre[k as int].0, k as int);
            let idx = files_pre[k as int].0;
            assert forall|x: usize| #[trigger] lm_contains(new_lines, x) == (is_requested(
                stmts,
                idx,
                x,
            ) || in_gap(stmts, idx, x)) by {
                assert(lm_contains(new_lines, x) == (lm_contains(entry_lines, x) || gap_between(
                    entry_lines,
                    x,
                )));
                if gap_between(entry_lines, x) {
                    let (k1, k2) = choose|k1: usize, k2: usize|
                        {
                            &&& #[trigger] lm_contains(entry_lines, k1)
                            &&& #[trigger] lm_contains(entry_lines, k2)
                            &&& k1 < x < k2
                            &&& k2 < k1 + gap_threshold()
                        };
                    assert(is_requested(stmts, idx, k1));
                    assert(is_requested(stmts, idx, k2));
                    assert(in_gap(stmts, idx, x));
                }
                if in_gap(stmts, idx, x) {
                    let (k1, k2) = choose|k1: usize, k2: usize|
                        {
                            &&& #[trigger] is_requested(stmts, idx, k1)
                            &&& #[trigger] is_requested(stmts, idx, k2)
                            &&& k1 < x < k2
                            &&& k2 < k1 + gap_threshold()
                        };
                    assert(lm_contains(entry_lines, k1));
                    assert(lm_contains(entry_lines, k2));
                    assert(gap_between(entry_lines, x));
                }
            }
        }
        k += 1;
    }
    proof {
        assert forall|idx: usize, x: usize|
            refers_to(stmts, idx) implies #[trigger] lm_contains(fm_get(files@, idx).lines, x) == (
        is_requested(stmts, idx, x) || in_gap(stmts, idx, x)) by {
            let w = fm_idx(files@, idx);
            assert(fm_contains(files@, idx));
            assert(0 <= w < files@.len() && files@[w].0 == idx);
        }
    }
    files
}

/// Joins components with `/` separators.
pub open spec fn join_slash(cs: Seq<Seq<u8>>) -> Seq<u8>
    decreases cs.len(),
{
    if cs.len() == 0 {
        Seq::empty()
    } else if cs.len() == 1 {
        cs[0]
    } else {
        join_slash(cs.drop_last()) + seq![47u8] + cs.last()
    }
}

/// Writes components as a `/`-separated path.
pub fn join_components(cs: &Vec<Vec<u8>>) -> (r: Vec<u8>)
    ensures
        r@ == join_slash(cs@.map_values(|t: Vec<u8>| t@)),
{
    let ghost cv = cs@.map_values(|t: Vec<u8>| t@);
    let mut r: Vec<u8> = Vec::new();
    let n = cs.len();
    let mut i: usize = 0;
    proof {
        assert(cv.subrange(0, 0) =~= Seq::<Seq<u8>>::empty());
        assert(r@ =~= join_slash(cv.subrange(0, 0)));
    }
    while i < n
        invariant
            0 <= i <= n,
            n == cv.len(),
            cv == cs@.map_values(|t: Vec<u8>| t@),
            r@ == join_slash(cv.subrange(0, i as int)),
        decreases n - i,
    {
        proof {
            assert(cv[i as int] == cs@[i as int]@);
        }
        if i > 0 {
            r.push(47);
        }
        crate::bytes::extend_bytes(&mut r, cs[i].as_slice());
        i += 1;
        proof {
            let nxt = cv.subrange(0, i as int);
            assert(nxt.drop_last() =~= cv.subrange(0, i - 1));
            assert(nxt.last() == cv[i - 1]);
            if i == 1 {
                assert(r@ =~= join_slash(nxt));
            } else {
                assert(r@ =~= join_slash(nxt));
            }
        }
    }
    proof {
        assert(cv.subrange(0, n as int) =~= cv);
    }
    r
}

/// A component that marks the standard library's own source directories.
pub open spec fn is_core_component(c: Seq<u8>) -> bool {
    c == lit_libstd() || c == lit_libcore() || c == lit_liballoc()
}

/// Does any component mark standard-library source?
pub open spec fn has_core_component(cs: Seq<Seq<u8>>) -> bool {
    exists|i: int| 0 <= i < cs.len() && is_core_component(#[trigger] cs[i])
}

/// What path correction makes of one path: where its components hold a
/// standard-library marker, the local source root is spliced in before the
/// first marker; otherwise the path stands.
pub open spec fn corrected_path(path: Seq<u8>, sysroot_src: Seq<Seq<u8>>) -> Seq<u8> {
    let cs = crate::path::components_of(path);
    if has_core_component(cs) {
        let w = choose|w: int|
            0 <= w < cs.len() && is_core_component(#[trigger] cs[w]) && forall|v: int|
                0 <= v < w ==> !is_core_component(#[trigger] cs[v]);
        join_slash(sysroot_src + cs.subrange(w, cs.len() as int))
    } else {
        path
    }
}

/// Rewrites one path as [`corrected_path`] says.
pub fn correct_path(path: &[u8], sysroot_src: &Vec<Vec<u8>>) -> (r: Vec<u8>)
    ensures
        r@ == corrected_path(path@, sysroot_src@.map_values(|t: Vec<u8>| t@)),
{
    let ghost sv = sysroot_src@.map_values(|t: Vec<u8>| t@);
    let cs = crate::path::split_components(path);
    let ghost cv = cs@.map_values(|t: Vec<u8>| t@);
    let n = cs.len();
    let mut w: usize = 0;
    let mut found = false;
    while w < n && !found
        invariant
            0 <= w <= n,
            n == cv.len(),
            cv == cs@.map_values(|t: Vec<u8>| t@),
            !found ==> forall|v: int| 0 <= v < w ==> !is_core_component(#[trigger] cv[v]),
            found ==> w < n && is_core_component(cv[w as int]) && forall|v: int|
                0 <= v < w ==> !is_core_component(#[trigger] cv[v]),
        decreases n - w, (if found { 0int } else { 1int }),
    {
        proof {
            assert(cv[w as int] == cs@[w as int]@);
        }
        let c = &cs[w];
        if crate::bytes::bytes_eq(c.as_slice(), bytes_libstd().as_slice())
            || crate::bytes::bytes_eq(c.as_slice(), bytes_libcore().as_slice())
            || crate::bytes::bytes_eq(c.as_slice(), bytes_liballoc().as_slice()) {
            found = true;
        } else {
            w += 1;
        }
    }
    if !found {
        proof {
            assert(!has_core_component(cv));
        }
        return subrange_vec(path, 0, path.len());
    }
    proof {
        assert(has_core_component(cv));
        let w0 = choose|w0: int|
            0 <= w0 < cv.len() && is_core_component(#[trigger] cv[w0]) && forall|v: int|
                0 <= v < w0 ==> !is_core_component(#[trigger] cv[v]);
        if w0 < w as int {
            assert(!is_core_component(cv[w0]));
        }
        if w0 > w as int {
            assert(!is_core_component(cv[w as int]));
        }
        assert(w0 == w as int);
    }
    let mut joined: Vec<Vec<u8>> = Vec::new();
    let mut a: usize = 0;
    proof {
        assert(joined@.map_values(|t: Vec<u8>| t@) =~~= sv.subrange(0, 0));
    }
    while a < sysroot_src.len()
        invariant
            0 <= a <= sv.len(),
            sv == sysroot_src@.map_values(|t: Vec<u8>| t@),
            joined@.map_values(|t: Vec<u8>| t@) == sv.subrange(0, a as int),
        decreases sv.len() - a,
    {
        proof {
            assert(sv[a as int] == sysroot_src@[a as int]@);
        }
        let c = subrange_vec(sysroot_src[a].as_slice(), 0, sysroot_src[a].len());
        proof {
            assert(c@ =~= sv[a as int]);
        }
        let ghost jpre = joined@;
        joined.push(c);
        proof {
            assert(joined@.map_values(|t: Vec<u8>| t@).len() == joined@.len());
            assert(jpre.map_values(|t: Vec<u8>| t@).len() == jpre.len());
            assert forall|q: int| 0 <= q < joined@.len() implies sv.subrange(0, a + 1)[q] == (
            #[trigger] joined@[q])@ by {
                if q < jpre.len() {
                    assert(joined@[q] == jpre[q]);
                    assert(jpre.map_values(|t: Vec<u8>| t@)[q] == jpre[q]@);
                }
            }
            assert(joined@.map_values(|t: Vec<u8>| t@) =~~= sv.subrange(0, a + 1)) by {
                assert(crate::bytes::views_of(joined@) == joined@.map_values(|t: Vec<u8>| t@));
                assert forall|q: int|
                    0 <= q < joined@.len() implies #[trigger] crate::bytes::views_of(joined@)[q]
                    == joined@[q]@ by {}
            }
        }
        a += 1;
    }
    proof {
        assert(sv.subrange(0, sv.len() as int) =~= sv);
    }
    let mut b: usize = w;
    while b < n
        invariant
            w <= b <= n,
            n == cv.len(),
            cv == cs@.map_values(|t: Vec<u8>| t@),
            joined@.map_values(|t: Vec<u8>| t@) == sv + cv.subrange(w as int, b as int),
        decreases n - b,
    {
        proof {
            assert(cv[b as int] == cs@[b as int]@);
        }
        let c = subrange_vec(cs[b].as_slice(), 0, cs[b].len());
        proof {
            assert(c@ =~= cv[b as int]);
        }
        let ghost jpre = joined@;
        joined.push(c);
        proof {
            assert(joined@.map_values(|t: Vec<u8>| t@).len() == joined@.len());
            assert(jpre.map_values(|t: Vec<u8>| t@).len() == jpre.len());
            assert forall|q: int| 0 <= q < joined@.len() implies (sv + cv.subrange(
                w as int,
                b + 1,
            ))[q] == (#[trigger] joined@[q])@ by {
                if q < jpre.len() {
                    assert(joined@[q] == jpre[q]);
                    assert(jpre.map_values(|t: Vec<u8>| t@)[q] == jpre[q]@);
                }
            }
            assert(joined@.map_values(|t: Vec<u8>| t@) =~~= sv + cv.subrange(w as int, b + 1)) by {
                assert(crate::bytes::views_of(joined@) == joined@.map_values(|t: Vec<u8>| t@));
                assert forall|q: int|
                    0 <= q < joined@.len() implies #[trigger] crate::bytes::views_of(joined@)[q]
                    == joined@[q]@ by {}
            }
        }
        b += 1;
    }
    join_components(&joined)
}

impl File {
    /// Fills the requested lines from the file's text: line `k` (counted
    /// from one) takes the trimmed `k`-th line of the content; lines past
    /// the end stay unread.
    #[verifier::loop_isolation(false)]
    pub fn fill_from_source(&mut self, content: &Vec<Vec<u8>>)
        requires
            old(self).wf(),
        ensures
            final(self).wf(),
            final(self)@.ast == old(self)@.ast,
            final(self)@.lines.len() == old(self)@.lines.len(),
            forall|j: int|
                0 <= j < old(self)@.lines.len() ==> (#[trigger] final(self)@.lines[j]).0 == old(
                    self,
                )@.lines[j].0,
            forall|j: int|
                0 <= j < old(self)@.lines.len() ==> (#[trigger] final(self)@.lines[j]).1 == (
                if 1 <= old(self)@.lines[j].0 <= content@.len() {
                    Some(trim_spec(content@[old(self)@.lines[j].0 - 1]@))
                } else {
                    old(self)@.lines[j].1
                }),
    {
        let n = self.lines.len();
        let mut j: usize = 0;
        while j < n
            invariant
                0 <= j <= n,
                n == self.lines@.len(),
                self.ast@ == old(self)@.ast,
                self@.lines.len() == old(self)@.lines.len(),
                forall|v: int|
                    0 <= v < n ==> (#[trigger] self@.lines[v]).0 == old(self)@.lines[v].0,
                forall|v: int|
                    j <= v < n ==> (#[trigger] self@.lines[v]).1 == old(self)@.lines[v].1,
                forall|v: int|
                    0 <= v < j ==> (#[trigger] self@.lines[v]).1 == (if 1 <= old(
                        self,
                    )@.lines[v].0 <= content@.len() {
                        Some(trim_spec(content@[old(self)@.lines[v].0 - 1]@))
                    } else {
                        old(self)@.lines[v].1
                    }),
            decreases n - j,
        {
            proof {
                assert(self@.lines[j as int].0 == self.lines@[j as int].0);
            }
            let key = self.lines[j].0;
            if 1 <= key && key <= content.len() {
                let ghost pre_lines = self@.lines;
                let ghost pre_vec = self.lines@;
                let text = trim(content[key - 1].as_slice());
                let ghost text_v = text@;
                let entry = self.lines.remove(j);
                self.lines.insert(j, (entry.0, Some(text)));
                proof {
                    assert(self@.lines.len() == self.lines@.len());
                    assert(pre_lines.len() == n);
                    assert forall|v: int| 0 <= v < n implies #[trigger] self@.lines[v] == (if v
                        == j as int {
                        (pre_lines[v].0, Some(text_v))
                    } else {
                        pre_lines[v]
                    }) by {
                        assert(self@.lines[v] == lm_view_fn()(self.lines@[v]));
                        if v != j as int {
                            assert(self.lines@[v] == pre_vec[v]);
                            assert(pre_lines[v] == lm_view_fn()(pre_vec[v]));
                        }
                    }
                }
            }
            j += 1;
        }
        proof {
            assert(lm_wf(self@.lines)) by {
                assert forall|a: int, b: int|
                    0 <= a < b < self@.lines.len() implies (#[trigger] self@.lines[a]).0 < (
                    #[trigger] self@.lines[b]).0 by {
                    assert(old(self)@.lines[a].0 < old(self)@.lines[b].0);
                }
            }
        }
    }

    /// The first requested line other than the accepted sentinel `0` that
    /// is still unread, if any.
    pub fn missing_line(&self) -> (r: Option<usize>)
        ensures
            match r {
                Some(k) => exists|j: int|
                    0 <= j < self@.lines.len() && (#[trigger] self@.lines[j]).0 == k
                        && self@.lines[j].1 is None && k != 0,
                None => forall|j: int|
                    0 <= j < self@.lines.len() ==> (#[trigger] self@.lines[j]).1 is Some
                        || self@.lines[j].0 == 0,
            },
    {
        let n = self.lines.len();
        let mut j: usize = 0;
        while j < n
            invariant
                0 <= j <= n,
                n == self.lines@.len(),
                n == self@.lines.len(),
                forall|v: int|
                    0 <= v < j ==> (#[trigger] self@.lines[v]).1 is Some || self@.lines[v].0 == 0,
            decreases n - j,
        {
            proof {
                assert(self@.lines[j as int] == lm_view_fn()(self.lines@[j as int]));
            }
            if self.lines[j].1.is_none() && self.lines[j].0 != 0 {
                return Some(self.lines[j].0);
            }
            j += 1;
        }
        None
    }
}

impl Files {
    /// How many files are recorded.
    pub fn file_count(&self) -> (r: usize)
        ensures
            r == self@.len(),
    {
        self.files.len()
    }

    /// The index and path recorded at a position.
    pub fn file_entry(&self, i: usize) -> (r: (usize, Vec<u8>))
        requires
            i < self@.len(),
        ensures
            r.0 == self@[i as int].0,
            r.1@ == self@[i as int].1.ast.path,
    {
        proof {
            assert(self@[i as int] == (self.files@[i as int].0, self.files@[i as int].1@));
        }
        let p = &self.files[i].1.ast.path;
        let copy = subrange_vec(p.as_slice(), 0, p.len());
        proof {
            assert(copy@ =~= p@);
        }
        (self.files[i].0, copy)
    }

    /// Removes the file at a position, as pruning a file that is not on
    /// disk asks.
    pub fn remove_at(&mut self, i: usize)
        requires
            i < old(self)@.len(),
        ensures
            final(self)@ == old(self)@.remove(i as int),
    {
        self.files.remove(i);
        proof {
            assert(self@ =~~= old(self)@.remove(i as int)) by {
                assert forall|j: int| 0 <= j < self@.len() implies self@[j] == old(self)@.remove(
                    i as int,
                )[j] by {
                    assert(self@[j] == (self.files@[j].0, self.files@[j].1@));
                }
            }
        }
    }

    /// Rewrites every file's path as [`corrected_path`] says, splicing the
    /// local standard-library source root before library markers.
    #[verifier::loop_isolation(false)]
    pub fn correct_rust_paths(&mut self, sysroot_src: &Vec<Vec<u8>>)
        requires
            old(self).wf(),
        ensures
            final(self).wf(),
            final(self)@.len() == old(self)@.len(),
            forall|j: int|
                0 <= j < old(self)@.len() ==> (#[trigger] final(self)@[j]).0 == old(self)@[j].0,
            forall|j: int|
                0 <= j < old(self)@.len() ==> (#[trigger] final(self)@[j]).1.lines == old(
                    self,
                )@[j].1.lines,
            forall|j: int|
                0 <= j < old(self)@.len() ==> (#[trigger] final(self)@[j]).1.ast.index == old(
                    self,
                )@[j].1.ast.index,
            forall|j: int|
                0 <= j < old(self)@.len() ==> (#[trigger] final(self)@[j]).1.ast.path
                    == corrected_path(
                    old(self)@[j].1.ast.path,
                    sysroot_src@.map_values(|t: Vec<u8>| t@),
                ),
    {
        let n = self.files.len();
        let mut j: usize = 0;
        while j < n
            invariant
                0 <= j <= n,
                n == self.files@.len(),
                self@.len() == old(self)@.len(),
                forall|v: int| 0 <= v < n ==> (#[trigger] self@[v]).0 == old(self)@[v].0,
                forall|v: int|
                    0 <= v < n ==> (#[trigger] self@[v]).1.lines == old(self)@[v].1.lines,
                forall|v: int|
                    0 <= v < n ==> (#[trigger] self@[v]).1.ast.index == old(self)@[v].1.ast.index,
                forall|v: int|
                    j <= v < n ==> (#[trigger] self@[v]).1.ast.path == old(self)@[v].1.ast.path,
                forall|v: int|
                    0 <= v < j ==> (#[trigger] self@[v]).1.ast.path == corrected_path(
                        old(self)@[v].1.ast.path,
                        sysroot_src@.map_values(|t: Vec<u8>| t@),
                    ),
            decreases n - j,
        {
            proof {
                assert(self@[j as int] == (self.files@[j as int].0, self.files@[j as int].1@));
            }
            let ghost pre = self@;
            let ghost pre_vec = self.files@;
            let mut entry = self.files.remove(j);
            let new_path = correct_path(entry.1.ast.path.as_slice(), sysroot_src);
            let ghost np = new_path@;
            entry.1.ast.path = new_path;
            self.files.insert(j, entry);
            proof {
                assert(self@.len() == self.files@.len());
                assert(pre.len() == n);
                assert forall|v: int| 0 <= v < n implies #[trigger] self@[v] == (if v == j as int {
                    (
                        pre[v].0,
                        RFileV {
                            ast: FileV { path: np, index: pre[v].1.ast.index },
                            lines: pre[v].1.lines,
                        },
                    )
                } else {
                    pre[v]
                }) by {
                    assert(self@[v] == (self.files@[v].0, self.files@[v].1@));
                    if v != j as int {
                        assert(self.files@[v] == pre_vec[v]);
                        assert(pre[v] == (pre_vec[v].0, pre_vec[v].1@));
                    }
                }
            }
            j += 1;
        }
        proof {
            assert(fm_wf(self@)) by {
                assert forall|a: int, b: int|
                    0 <= a < b < self@.len() implies (#[trigger] self@[a]).0 != (
                    #[trigger] self@[b]).0 by {
                    assert(old(self)@[a].0 != old(self)@[b].0);
                }
            }
            assert forall|v: int| 0 <= v < self@.len() implies lm_wf(
                (#[trigger] self@[v]).1.lines,
            ) by {
                assert(self@[v].1.lines == old(self)@[v].1.lines);
                assert(lm_wf(old(self)@[v].1.lines));
            }
        }
    }
}

} // verus!
