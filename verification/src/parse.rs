//! The function locator and body parser: finding the statement range of one
//! function inside an assembly listing, building its structured form, and
//! keeping the table of `.file` directives its locations refer to.

use crate::ast::{
    classify_statement, classify_spec, comment_of, directive_of, file_of, label_of, stmt_rust_loc,
    Comment, Directive, DirectiveV, File, FileV, Function, FunctionV, Label, Loc, Statement,
    StatementV,
};
use crate::bytes::{contains_spec, find_sub, first_match, lemma_first_match_is, starts_with,
    subrange_vec, trim, trim_spec};
use crate::demangle::{demangle, demangle_spec};
use crate::lit::{bytes_cfi_endproc, bytes_double_underscore, bytes_seh_endproc, bytes_underscore,
    lit_cfi_endproc, lit_double_underscore, lit_seh_endproc, lit_underscore};
use crate::target::TargetInfo;
use vstd::prelude::*;

verus! {

/// The conditions on which parsing is abandoned rather than continued with
/// partial data.
#[derive(PartialEq, Eq, Structural, Debug, Clone, Copy)]
pub enum ParseError {
    /// The first `.loc` of a function names a file index other than the one
    /// of the `.file` directive already adopted for it.
    LocFileMismatch,
    /// Two `.file` directives declare the same index with different paths.
    InconsistentFileTable { index: usize },
    /// A `.loc` inside the located function names a file index that no
    /// `.file` directive anywhere declared.
    IncompleteFileTable { loc: Loc },
}

/// The part of a line before its first `;`, handed to the statement
/// classifiers.
pub open spec fn node_part(l: Seq<u8>) -> Seq<u8> {
    if contains_spec(l, seq![59u8]) {
        l.subrange(0, first_match(l, seq![59u8]))
    } else {
        l
    }
}

/// The part of a line from its first `;` on; empty when there is none.
pub open spec fn comment_part(l: Seq<u8>) -> Seq<u8> {
    if contains_spec(l, seq![59u8]) {
        l.subrange(first_match(l, seq![59u8]), l.len() as int)
    } else {
        Seq::empty()
    }
}

/// Splits a line at its first `;` into node part and comment part.
pub fn split_comment(l: &[u8]) -> (r: (Vec<u8>, Vec<u8>))
    ensures
        r.0@ == node_part(l@),
        r.1@ == comment_part(l@),
{
    let mut semi: Vec<u8> = Vec::new();
    semi.push(59);
    proof {
        assert(semi@ =~= seq![59u8]);
    }
    match find_sub(l, semi.as_slice()) {
        Some(i) => {
            proof {
                lemma_first_match_is(l@, seq![59u8], i as int);
            }
            let ln = l.len();
            (subrange_vec(l, 0, i), subrange_vec(l, i, ln))
        },
        None => {
            proof {
                assert(l@.subrange(0, l@.len() as int) =~= l@);
            }
            (subrange_vec(l, 0, l.len()), Vec::new())
        },
    }
}

/// The state the body parser carries from line to line.
pub struct BodyState {
    /// The function's adopted `.file` directive, where one was.
    pub file: Option<FileV>,
    /// The function's first `.loc`, where one was.
    pub loc: Option<Loc>,
    /// The most recent `.loc`, tagged onto labels and instructions.
    pub cur: Option<Loc>,
    /// The statements parsed so far, in order.
    pub stmts: Seq<StatementV>,
    /// Whether the first `.loc` contradicted the adopted file index.
    pub error: bool,
}

/// The state before any line was read.
pub open spec fn body_init() -> BodyState {
    BodyState { file: None, loc: None, cur: None, stmts: Seq::empty(), error: false }
}

/// How one raw line advances the body parser: empty lines are skipped, a
/// comment part is appended first, and the node part is classified in the
/// fixed order.  A `.file` is adopted as the function's file only while none
/// is set and only when consistent with an already-set location; a `.loc`
/// always becomes the current location and, on first occurrence, the
/// function's location — where it contradicts the adopted file, parsing
/// fails.
pub open spec fn body_step(st: BodyState, line: Seq<u8>, t: TargetInfo) -> BodyState {
    if st.error {
        st
    } else {
        let l = trim_spec(line);
        if l.len() == 0 {
            st
        } else {
            let stmts1 = match comment_of(comment_part(l)) {
                Some(c) => st.stmts.push(StatementV::Comment(c)),
                None => st.stmts,
            };
            let node = trim_spec(node_part(l));
            match classify_spec(node, st.cur, t) {
                StatementV::Directive(d) => {
                    let file2 = match d {
                        DirectiveV::File(f) => if st.file is None {
                            match st.loc {
                                Some(lc) => if lc.file_index == f.index {
                                    Some(f)
                                } else {
                                    st.file
                                },
                                None => Some(f),
                            }
                        } else {
                            st.file
                        },
                        _ => st.file,
                    };
                    match d {
                        DirectiveV::Loc(lc) => {
                            let bad = st.loc is None && match file2 {
                                Some(f) => f.index != lc.file_index,
                                None => false,
                            };
                            if bad {
                                BodyState { error: true, ..st }
                            } else {
                                BodyState {
                                    file: file2,
                                    loc: if st.loc is None {
                                        Some(lc)
                                    } else {
                                        st.loc
                                    },
                                    cur: Some(lc),
                                    stmts: stmts1.push(StatementV::Directive(d)),
                                    error: false,
                                }
                            }
                        },
                        _ => BodyState {
                            file: file2,
                            loc: st.loc,
                            cur: st.cur,
                            stmts: stmts1.push(StatementV::Directive(d)),
                            error: false,
                        },
                    }
                },
                other => BodyState { stmts: stmts1.push(other), ..st },
            }
        }
    }
}

/// The body parser folded over a list of raw lines.
pub open spec fn body_run(lines: Seq<Seq<u8>>, t: TargetInfo) -> BodyState
    decreases lines.len(),
{
    if lines.len() == 0 {
        body_init()
    } else {
        body_step(body_run(lines.drop_last(), t), lines.last(), t)
    }
}

/// Once the body parser has failed it stays failed.
pub proof fn lemma_body_error_absorbing(lines: Seq<Seq<u8>>, i: int, t: TargetInfo)
    requires
        0 <= i <= lines.len(),
        body_run(lines.subrange(0, i), t).error,
    ensures
        body_run(lines, t).error,
    decreases lines.len() - i,
{
    if i < lines.len() {
        let pre = lines.subrange(0, i);
        let nxt = lines.subrange(0, i + 1);
        assert(nxt.drop_last() =~= pre);
        assert(body_run(nxt, t) == body_step(body_run(pre, t), nxt.last(), t));
        lemma_body_error_absorbing(lines, i + 1, t);
    } else {
        assert(lines.subrange(0, i) =~= lines);
    }
}

/// Parses the raw lines of one function's body into its structured form.
/// The function's file and location are those the fold arrives at; its
/// statements the classified line parts in order.
#[verifier::rlimit(100)]
pub fn function_body(function_lines: &Vec<Vec<u8>>, path: &[u8], target: &TargetInfo) -> (r:
    Result<Function, ParseError>)
    ensures
        ({
            let st = body_run(function_lines@.map_values(|l: Vec<u8>| l@), *target);
            match r {
                Ok(f) => !st.error && f@ == (FunctionV {
                    id: path@,
                    file: st.file,
                    loc: st.loc,
                    statements: st.stmts,
                }),
                Err(e) => st.error && e == ParseError::LocFileMismatch,
            }
        }),
{
    let ghost lines_v = function_lines@.map_values(|l: Vec<u8>| l@);
    let mut function = Function {
        id: subrange_vec(path, 0, path.len()),
        file: None,
        loc: None,
        statements: Vec::new(),
    };
    proof {
        assert(function.id@ =~= path@);
    }
    let mut current_loc: Option<Loc> = None;
    let n = function_lines.len();
    let mut i: usize = 0;
    while i < n
        invariant
            0 <= i <= n,
            n == function_lines@.len(),
            lines_v == function_lines@.map_values(|l: Vec<u8>| l@),
            function.id@ == path@,
            ({
                let st = body_run(lines_v.subrange(0, i as int), *target);
                &&& !st.error
                &&& st.file == match function.file {
                    Some(ref f) => Some(f@),
                    None => None::<FileV>,
                }
                &&& st.loc == function.loc
                &&& st.cur == current_loc
                &&& st.stmts == function.statements@.map_values(|s: Statement| s@)
            }),
        decreases n - i,
    {
        let ghost pre = lines_v.subrange(0, i as int);
        let ghost st_pre = body_run(pre, *target);
        proof {
            assert(lines_v[i as int] == function_lines@[i as int]@);
        }
        let line = trim(function_lines[i].as_slice());
        if line.len() > 0 {
            let (node_raw, comment_raw) = split_comment(line.as_slice());
            if let Some(comment) = Comment::new(comment_raw.as_slice()) {
                function.statements.push(Statement::Comment(comment));
            }
            let node = trim(node_raw.as_slice());
            let stmt = classify_statement(node.as_slice(), current_loc, target);
            match &stmt {
                Statement::Directive(d) => {
                    if function.file.is_none() {
                        if let Some(file) = d.file() {
                            match &function.loc {
                                Some(loc) => {
                                    if loc.file_index == file.index {
                                        function.file = Some(file);
                                    }
                                },
                                None => {
                                    function.file = Some(file);
                                },
                            }
                        }
                    }
                    if let Some(new_loc) = d.loc() {
                        current_loc = Some(new_loc);
                        if function.loc.is_none() {
                            if let Some(ref file) = &function.file {
                                if new_loc.file_index != file.index {
                                    proof {
                                        let nxt = lines_v.subrange(0, i + 1);
                                        assert(nxt.drop_last() =~= pre);
                                        assert(nxt.last() == lines_v[i as int]);
                                        assert(body_run(nxt, *target).error);
                                        lemma_body_error_absorbing(lines_v, i + 1, *target);
                                    }
                                    return Err(ParseError::LocFileMismatch);
                                }
                            }
                            function.loc = Some(new_loc);
                        }
                    }
                    function.statements.push(stmt);
                },
                _ => {
                    function.statements.push(stmt);
                },
            }
        }
        i += 1;
        proof {
            let nxt = lines_v.subrange(0, i as int);
            assert(nxt.drop_last() =~= pre);
            assert(nxt.last() == lines_v[i - 1]);
            assert(function.statements@.map_values(|s: Statement| s@) =~~= body_run(
                nxt,
                *target,
            ).stmts);
        }
    }
    proof {
        assert(lines_v.subrange(0, n as int) =~= lines_v);
    }
    Ok(function)
}

/// Is an index declared in the table?
pub open spec fn tbl_contains(t: Seq<(usize, FileV)>, idx: usize) -> bool {
    exists|i: int| 0 <= i < t.len() && (#[trigger] t[i]).0 == idx
}

/// The position of an index's entry; meaningful only where the index is
/// declared.
pub open spec fn tbl_idx(t: Seq<(usize, FileV)>, idx: usize) -> int {
    choose|i: int| 0 <= i < t.len() && (#[trigger] t[i]).0 == idx
}

/// The `.file` record declared for an index.
pub open spec fn tbl_get(t: Seq<(usize, FileV)>, idx: usize) -> FileV {
    t[tbl_idx(t, idx)].1
}

/// No index is declared twice.
pub open spec fn tbl_wf(t: Seq<(usize, FileV)>) -> bool {
    forall|i: int, j: int| 0 <= i < j < t.len() ==> (#[trigger] t[i]).0 != (#[trigger] t[j]).0
}

/// In a well-formed table the entry of an index is the one found.
pub proof fn lemma_tbl_unique(t: Seq<(usize, FileV)>, idx: usize, i: int)
    requires
        tbl_wf(t),
        0 <= i < t.len(),
        t[i].0 == idx,
    ensures
        tbl_contains(t, idx),
        tbl_idx(t, idx) == i,
        tbl_get(t, idx) == t[i].1,
{
    assert(tbl_contains(t, idx));
    let j0 = tbl_idx(t, idx);
    assert(0 <= j0 < t.len() && t[j0].0 == idx);
    if j0 < i {
        assert(t[j0].0 != t[i].0);
    } else if j0 > i {
        assert(t[i].0 != t[j0].0);
    }
}

/// The running table of `.file` directives seen while scanning, keyed by
/// their file index; the first declaration of an index wins.
#[derive(Debug)]
pub struct FileTable {
    entries: Vec<(usize, File)>,
}

impl View for FileTable {
    type V = Seq<(usize, FileV)>;

    closed spec fn view(&self) -> Seq<(usize, FileV)> {
        self.entries@.map_values(|e: (usize, File)| (e.0, e.1@))
    }
}

impl FileTable {
    /// An empty table.
    pub fn new() -> (r: FileTable)
        ensures
            r@ == Seq::<(usize, FileV)>::empty(),
    {
        let r = FileTable { entries: Vec::new() };
        proof {
            assert(r@ =~= Seq::<(usize, FileV)>::empty());
        }
        r
    }

    /// Is an index declared?
    pub fn contains(&self, idx: usize) -> (r: bool)
        ensures
            r == tbl_contains(self@, idx),
    {
        let n = self.entries.len();
        let mut i: usize = 0;
        while i < n
            invariant
                0 <= i <= n,
                n == self.entries@.len(),
                n == self@.len(),
                forall|j: int| 0 <= j < i ==> (#[trigger] self@[j]).0 != idx,
            decreases n - i,
        {
            proof {
                assert(self@[i as int].0 == self.entries@[i as int].0);
            }
            if self.entries[i].0 == idx {
                return true;
            }
            i += 1;
        }
        false
    }

    /// The record declared for an index, copied out.
    pub fn get(&self, idx: usize) -> (r: Option<File>)
        requires
            tbl_wf(self@),
        ensures
            match r {
                Some(f) => tbl_contains(self@, idx) && f@ == tbl_get(self@, idx),
                None => !tbl_contains(self@, idx),
            },
    {
        let n = self.entries.len();
        let mut i: usize = 0;
        while i < n
            invariant
                0 <= i <= n,
                n == self.entries@.len(),
                n == self@.len(),
                tbl_wf(self@),
                forall|j: int| 0 <= j < i ==> (#[trigger] self@[j]).0 != idx,
            decreases n - i,
        {
            proof {
                assert(self@[i as int].0 == self.entries@[i as int].0);
                assert(self@[i as int].1 == self.entries@[i as int].1@);
            }
            if self.entries[i].0 == idx {
                let f = &self.entries[i].1;
                let copy = File { path: subrange_vec(f.path.as_slice(), 0, f.path.len()), index: f.index };
                proof {
                    assert(copy@.path =~= f@.path);
                    lemma_tbl_unique(self@, idx, i as int);
                }
                return Some(copy);
            }
            i += 1;
        }
        None
    }

    /// Declares a new index.
    pub fn insert(&mut self, idx: usize, file: File)
        requires
            !tbl_contains(old(self)@, idx),
        ensures
            final(self)@ == old(self)@.push((idx, file@)),
    {
        self.entries.push((idx, file));
        proof {
            assert(self@ =~= old(self)@.push((idx, file@)));
        }
    }

    /// How many indices are declared.
    pub fn len(&self) -> (r: usize)
        ensures
            r == self@.len(),
    {
        self.entries.len()
    }

    /// The entry at a position, copied out.
    pub fn entry_at(&self, i: usize) -> (r: (usize, File))
        requires
            i < self@.len(),
        ensures
            r.0 == self@[i as int].0,
            r.1@ == self@[i as int].1,
    {
        proof {
            assert(self@[i as int].0 == self.entries@[i as int].0);
            assert(self@[i as int].1 == self.entries@[i as int].1@);
        }
        let f = &self.entries[i].1;
        let copy = File { path: subrange_vec(f.path.as_slice(), 0, f.path.len()), index: f.index };
        proof {
            assert(copy@.path =~= f@.path);
        }
        (self.entries[i].0, copy)
    }
}

/// The label prefix that marks a function-start candidate in the target's
/// dialect.
pub open spec fn label_prefix(t: TargetInfo) -> Seq<u8> {
    if t.is_apple_spec() {
        lit_double_underscore()
    } else {
        lit_underscore()
    }
}

/// The marker that ends a function's statement range in the target's
/// dialect.
pub open spec fn end_pattern(t: TargetInfo) -> Seq<u8> {
    if t.is_windows_spec() {
        lit_seh_endproc()
    } else {
        lit_cfi_endproc()
    }
}

/// The state the locator carries from line to line.
pub struct ScanState {
    /// The demangled names of every function-start candidate seen.
    pub names: Seq<Seq<u8>>,
    /// The `.file` directives seen at top level, first declaration winning.
    pub table: Seq<(usize, FileV)>,
    /// The parsed function, once its statement range has been closed.
    pub func: Option<FunctionV>,
    /// The raw body lines collected so far, while inside the range.
    pub body: Option<Seq<Seq<u8>>>,
    /// Whether scanning has come to rest.
    pub done: bool,
    /// The fatal condition met, if any.
    pub error: Option<ParseError>,
}

/// The state before any line was read.
pub open spec fn scan_init() -> ScanState {
    ScanState {
        names: Seq::empty(),
        table: Seq::empty(),
        func: None,
        body: None,
        done: false,
        error: None,
    }
}

/// Closes the collected statement range: the body parser runs over it, and
/// scanning rests when the function already carries a file, or carries no
/// location to resolve.
pub open spec fn close_body(st: ScanState, path: Seq<u8>, t: TargetInfo) -> ScanState {
    match st.body {
        Some(body) => {
            let bs = body_run(body, t);
            if bs.error {
                ScanState { error: Some(ParseError::LocFileMismatch), body: None, ..st }
            } else {
                let f = FunctionV { id: path, file: bs.file, loc: bs.loc, statements: bs.stmts };
                ScanState {
                    func: Some(f),
                    body: None,
                    done: f.file is Some || f.loc is None,
                    ..st
                }
            }
        },
        None => st,
    }
}

/// Fills the located function's file from the table, once the table
/// declares the index its location names; scanning then rests.
pub open spec fn resolve_file(st: ScanState) -> ScanState {
    match st.func {
        Some(f) => match f.loc {
            Some(lc) => if f.file is None && tbl_contains(st.table, lc.file_index) {
                ScanState {
                    func: Some(
                        FunctionV { file: Some(tbl_get(st.table, lc.file_index)), ..f },
                    ),
                    done: true,
                    ..st
                }
            } else {
                st
            },
            None => st,
        },
        None => st,
    }
}

/// How one raw line advances the locator.  Inside a collected range the
/// line joins the body, or closes it at the end marker.  Outside, while no
/// function is found, a line with the dialect's label prefix that parses as
/// a label is a candidate: its demangled name joins the table of names, and
/// on the searched path its range starts.  Every other line is read as a
/// top-level `.file` directive where it is one — a second declaration of an
/// index must repeat the same path — and then, where a located function
/// still lacks its file, the table is consulted.
pub open spec fn scan_step(st: ScanState, line: Seq<u8>, path: Seq<u8>, t: TargetInfo) -> ScanState {
    if st.done || st.error is Some {
        st
    } else {
        let l = trim_spec(line);
        match st.body {
            Some(body) => {
                if crate::bytes::starts_with_spec(l, end_pattern(t)) {
                    close_body(st, path, t)
                } else {
                    ScanState { body: Some(body.push(l)), ..st }
                }
            },
            None => {
                if st.func is None && crate::bytes::starts_with_spec(l, label_prefix(t)) {
                    match label_of(l, None) {
                        Some(lb) => {
                            let name = demangle_spec(lb.id, t.is_linux_spec());
                            if name == path {
                                ScanState {
                                    names: st.names.push(name),
                                    body: Some(Seq::empty()),
                                    ..st
                                }
                            } else {
                                ScanState { names: st.names.push(name), ..st }
                            }
                        },
                        None => st,
                    }
                } else {
                    match file_of(l, t.is_windows_spec()) {
                        Some(f) => {
                            if tbl_contains(st.table, f.index) {
                                if tbl_get(st.table, f.index).path != f.path {
                                    ScanState {
                                        error: Some(
                                            ParseError::InconsistentFileTable { index: f.index },
                                        ),
                                        ..st
                                    }
                                } else {
                                    st
                                }
                            } else {
                                resolve_file(
                                    ScanState { table: st.table.push((f.index, f)), ..st },
                                )
                            }
                        },
                        None => resolve_file(st),
                    }
                }
            },
        }
    }
}

/// The locator folded over the lines of one assembly listing.
pub open spec fn scan_run(lines: Seq<Seq<u8>>, path: Seq<u8>, t: TargetInfo) -> ScanState
    decreases lines.len(),
{
    if lines.len() == 0 {
        scan_init()
    } else {
        scan_step(scan_run(lines.drop_last(), path, t), lines.last(), path, t)
    }
}

/// Once scanning rests, or fails, further lines change nothing.
pub proof fn lemma_scan_absorbing(lines: Seq<Seq<u8>>, i: int, path: Seq<u8>, t: TargetInfo)
    requires
        0 <= i <= lines.len(),
        scan_run(lines.subrange(0, i), path, t).done || scan_run(lines.subrange(0, i), path, t).error is Some,
    ensures
        scan_run(lines, path, t) == scan_run(lines.subrange(0, i), path, t),
    decreases lines.len() - i,
{
    if i < lines.len() {
        let pre = lines.subrange(0, i);
        let nxt = lines.subrange(0, i + 1);
        assert(nxt.drop_last() =~= pre);
        assert(scan_run(nxt, path, t) == scan_step(scan_run(pre, path, t), nxt.last(), path, t));
        lemma_scan_absorbing(lines, i + 1, path, t);
    } else {
        assert(lines.subrange(0, i) =~= lines);
    }
}

/// The `.file` directives inside the function body joined into the table,
/// in statement order, the first declaration of an index winning.
pub open spec fn merge_body_files(table: Seq<(usize, FileV)>, stmts: Seq<StatementV>) -> Seq<
    (usize, FileV),
>
    decreases stmts.len(),
{
    if stmts.len() == 0 {
        table
    } else {
        let t1 = merge_body_files(table, stmts.drop_last());
        match stmts.last() {
            StatementV::Directive(DirectiveV::File(f)) => if tbl_contains(t1, f.index) {
                t1
            } else {
                t1.push((f.index, f))
            },
            _ => t1,
        }
    }
}

/// The first `.loc` directive among the statements whose file index the
/// table does not declare.
pub open spec fn missing_in(table: Seq<(usize, FileV)>, stmts: Seq<StatementV>) -> Option<Loc>
    decreases stmts.len(),
{
    if stmts.len() == 0 {
        None
    } else {
        match stmts.first() {
            StatementV::Directive(DirectiveV::Loc(lc)) => if !tbl_contains(
                table,
                lc.file_index,
            ) {
                Some(lc)
            } else {
                missing_in(table, stmts.drop_first())
            },
            _ => missing_in(table, stmts.drop_first()),
        }
    }
}

/// What locating a function in a listing yields.
pub enum Located {
    /// The function, and the table holding a declaration for every file
    /// index its body refers to.
    Found(FunctionV, Seq<(usize, FileV)>),
    /// No candidate demangled to the path; the names of all of them.
    NotFound(Seq<Seq<u8>>),
    /// A fatal condition.
    Failed(ParseError),
}

/// The whole locator: the scan folded over the lines, a still-open range
/// closed at end of input, the function's own and its body's `.file`
/// directives merged into the table, and the table checked against every
/// `.loc` the body holds.
pub open spec fn locate_spec(lines: Seq<Seq<u8>>, path: Seq<u8>, t: TargetInfo) -> Located {
    let st0 = scan_run(lines, path, t);
    let st = if st0.error is None {
        close_body(st0, path, t)
    } else {
        st0
    };
    match st.error {
        Some(e) => Located::Failed(e),
        None => match st.func {
            None => Located::NotFound(st.names),
            Some(f) => {
                let t1 = match f.file {
                    Some(ff) => if tbl_contains(st.table, ff.index) {
                        st.table
                    } else {
                        st.table.push((ff.index, ff))
                    },
                    None => st.table,
                };
                let t2 = merge_body_files(t1, f.statements);
                match missing_in(t2, f.statements) {
                    Some(lc) => Located::Failed(ParseError::IncompleteFileTable { loc: lc }),
                    None => Located::Found(f, t2),
                }
            },
        },
    }
}

/// A table stays well formed when a new index is declared.
pub proof fn lemma_tbl_push_wf(t: Seq<(usize, FileV)>, idx: usize, f: FileV)
    requires
        tbl_wf(t),
        !tbl_contains(t, idx),
    ensures
        tbl_wf(t.push((idx, f))),
{
    let t2 = t.push((idx, f));
    assert forall|i: int, j: int| 0 <= i < j < t2.len() implies (#[trigger] t2[i]).0 != (
    #[trigger] t2[j]).0 by {
        if j < t.len() {
        } else {
            assert(t2[j].0 == idx);
            assert(t2[i] == t[i]);
        }
    }
}

/// What parsing one assembly listing for a function yields: the function
/// with its file table, or the sorted evidence that it is not there.
#[derive(Debug)]
pub enum ParseResult {
    Found(Function, FileTable),
    NotFound(Vec<Vec<u8>>),
}

/// Copies a `.file` record.
fn clone_file(f: &File) -> (r: File)
    ensures
        r@ == f@,
{
    let r = File { path: subrange_vec(f.path.as_slice(), 0, f.path.len()), index: f.index };
    proof {
        assert(r@.path =~= f@.path);
    }
    r
}

/// Locates the function at `path` inside the lines of one assembly listing
/// and parses it, or reports the demangled names of every function the
/// listing holds.  The result is exactly what [`locate_spec`] reads out of
/// the lines; in particular, a found function comes with a table declaring
/// every file index its `.loc` directives name.
#[verifier::rlimit(100)]
#[verifier::loop_isolation(false)]
pub fn function(lines: &Vec<Vec<u8>>, path: &[u8], target: &TargetInfo) -> (r: Result<
    ParseResult,
    ParseError,
>)
    ensures
        ({
            let out = locate_spec(lines@.map_values(|l: Vec<u8>| l@), path@, *target);
            match r {
                Ok(ParseResult::Found(f, tbl)) => tbl_wf(tbl@) && out == Located::Found(f@, tbl@),
                Ok(ParseResult::NotFound(names)) => out == Located::NotFound(
                    names@.map_values(|v: Vec<u8>| v@),
                ),
                Err(e) => out == Located::Failed(e),
            }
        }),
{
    let ghost lines_v = lines@.map_values(|l: Vec<u8>| l@);
    let windows = target.is_windows();
    let apple = target.is_apple();
    let prefix = if apple {
        bytes_double_underscore()
    } else {
        bytes_underscore()
    };
    let endp = if windows {
        bytes_seh_endproc()
    } else {
        bytes_cfi_endproc()
    };
    let mut names: Vec<Vec<u8>> = Vec::new();
    let mut table = FileTable::new();
    let mut func: Option<Function> = None;
    let mut body: Option<Vec<Vec<u8>>> = None;
    let mut finished = false;
    let n = lines.len();
    let mut i: usize = 0;
    proof {
        assert(lines_v.subrange(0, 0) =~= Seq::<Seq<u8>>::empty());
    }
    while i < n && !finished
        invariant
            0 <= i <= n,
            n == lines@.len(),
            lines_v == lines@.map_values(|l: Vec<u8>| l@),
            prefix@ == label_prefix(*target),
            endp@ == end_pattern(*target),
            windows == target.is_windows_spec(),
            tbl_wf(table@),
            ({
                let st = scan_run(lines_v.subrange(0, i as int), path@, *target);
                &&& st.error is None
                &&& st.done == finished
                &&& st.names == names@.map_values(|v: Vec<u8>| v@)
                &&& st.table == table@
                &&& match func {
                    Some(ref f) => st.func == Some(f@),
                    None => st.func is None,
                }
                &&& match body {
                    Some(ref b) => st.body == Some(b@.map_values(|l: Vec<u8>| l@)),
                    None => st.body is None,
                }
            }),
        decreases n - i,
    {
        let ghost pre = lines_v.subrange(0, i as int);
        let ghost st_pre = scan_run(pre, path@, *target);
        proof {
            assert(lines_v[i as int] == lines@[i as int]@);
            let nxt = lines_v.subrange(0, i + 1);
            assert(nxt.drop_last() =~= pre);
            assert(nxt.last() == lines_v[i as int]);
        }
        let ghost st_post = scan_step(st_pre, lines_v[i as int], path@, *target);
        let l = trim(lines[i].as_slice());
        let collecting = body.is_some();
        if collecting {
            if starts_with(l.as_slice(), endp.as_slice()) {
                let b_lines = match body.take() {
                    Some(b) => b,
                    None => {
                        proof {
                            assert(false);
                        }
                        Vec::new()
                    },
                };
                match function_body(&b_lines, path, target) {
                    Err(e) => {
                        proof {
                            assert(st_post.error == Some(e));
                            lemma_scan_absorbing(lines_v, i + 1, path@, *target);
                        }
                        return Err(e);
                    },
                    Ok(f) => {
                        let has_file = f.file.is_some();
                        let has_loc = f.loc.is_some();
                        func = Some(f);
                        if has_file || !has_loc {
                            finished = true;
                        }
                    },
                }
            } else {
                match body {
                    Some(ref mut b) => {
                        b.push(l);
                        proof {
                            assert(b@.map_values(|x: Vec<u8>| x@) =~~= st_post.body->Some_0);
                        }
                    },
                    None => {
                        proof {
                            assert(false);
                        }
                    },
                }
            }
        } else {
            let candidate = func.is_none() && starts_with(l.as_slice(), prefix.as_slice());
            if candidate {
                if let Some(label) = Label::new(l.as_slice(), None) {
                    let name = demangle(label.id.as_slice(), target);
                    let matched = crate::bytes::bytes_eq(name.as_slice(), path);
                    names.push(name);
                    proof {
                        assert(names@.map_values(|v: Vec<u8>| v@) =~~= st_post.names);
                    }
                    if matched {
                        body = Some(Vec::new());
                        proof {
                            assert(Seq::<Seq<u8>>::empty() =~~= st_post.body->Some_0);
                        }
                    }
                }
            } else {
                let mut skip_resolve = false;
                if let Some(file) = File::new(l.as_slice(), target) {
                    if table.contains(file.index) {
                        let stored = match table.get(file.index) {
                            Some(s) => s,
                            None => {
                                proof {
                                    assert(false);
                                }
                                File { path: Vec::new(), index: 0 }
                            },
                        };
                        if !crate::bytes::bytes_eq(
                            stored.path.as_slice(),
                            file.path.as_slice(),
                        ) {
                            proof {
                                assert(st_post.error == Some(
                                    ParseError::InconsistentFileTable { index: file.index },
                                ));
                                lemma_scan_absorbing(lines_v, i + 1, path@, *target);
                            }
                            return Err(ParseError::InconsistentFileTable { index: file.index });
                        }
                        skip_resolve = true;
                    } else {
                        proof {
                            lemma_tbl_push_wf(table@, file.index, file@);
                        }
                        table.insert(file.index, file);
                    }
                }
                if !skip_resolve {
                    match func {
                        Some(ref mut f) => {
                            if f.file.is_none() {
                                if let Some(lc) = f.loc {
                                    if let Some(stored) = table.get(lc.file_index) {
                                        f.file = Some(stored);
                                        finished = true;
                                    }
                                }
                            }
                        },
                        None => {},
                    }
                }
            }
        }
        i += 1;
    }
    proof {
        if i < n {
            lemma_scan_absorbing(lines_v, i as int, path@, *target);
        } else {
            assert(lines_v.subrange(0, i as int) =~= lines_v);
        }
        assert(scan_run(lines_v, path@, *target) == scan_run(
            lines_v.subrange(0, i as int),
            path@,
            *target,
        ));
    }
    let ghost st_end = scan_run(lines_v, path@, *target);
    if let Some(b_lines) = body.take() {
        match function_body(&b_lines, path, target) {
            Err(e) => {
                return Err(e);
            },
            Ok(f) => {
                func = Some(f);
            },
        }
    }
    let ghost st_fin = close_body(st_end, path@, *target);
    let mut f = match func {
        None => {
            return Ok(ParseResult::NotFound(names));
        },
        Some(f) => f,
    };
    if let Some(ref ff) = f.file {
        if !table.contains(ff.index) {
            proof {
                lemma_tbl_push_wf(table@, ff.index, ff@);
            }
            let copy = clone_file(ff);
            table.insert(copy.index, copy);
        }
    }
    let ghost t1 = table@;
    let m = f.statements.len();
    let ghost stmts_v = f.statements@.map_values(|s: Statement| s@);
    let mut k: usize = 0;
    proof {
        assert(stmts_v.subrange(0, 0) =~= Seq::<StatementV>::empty());
    }
    while k < m
        invariant
            0 <= k <= m,
            m == f.statements@.len(),
            stmts_v == f.statements@.map_values(|s: Statement| s@),
            tbl_wf(table@),
            table@ == merge_body_files(t1, stmts_v.subrange(0, k as int)),
        decreases m - k,
    {
        proof {
            assert(stmts_v[k as int] == f.statements@[k as int]@);
            let nxt = stmts_v.subrange(0, k + 1);
            assert(nxt.drop_last() =~= stmts_v.subrange(0, k as int));
            assert(nxt.last() == stmts_v[k as int]);
        }
        match &f.statements[k] {
            Statement::Directive(Directive::File(bf)) => {
                if !table.contains(bf.index) {
                    proof {
                        lemma_tbl_push_wf(table@, bf.index, bf@);
                    }
                    let copy = clone_file(bf);
                    table.insert(copy.index, copy);
                }
            },
            _ => {},
        }
        k += 1;
    }
    proof {
        assert(stmts_v.subrange(0, m as int) =~= stmts_v);
    }
    let mut k2: usize = 0;
    proof {
        assert(stmts_v.skip(0) =~= stmts_v);
    }
    while k2 < m
        invariant
            0 <= k2 <= m,
            m == f.statements@.len(),
            stmts_v == f.statements@.map_values(|s: Statement| s@),
            tbl_wf(table@),
            missing_in(table@, stmts_v) == missing_in(table@, stmts_v.skip(k2 as int)),
        decreases m - k2,
    {
        proof {
            assert(stmts_v[k2 as int] == f.statements@[k2 as int]@);
            let rest = stmts_v.skip(k2 as int);
            assert(rest.len() > 0);
            assert(rest.first() == stmts_v[k2 as int]);
            assert(rest.drop_first() =~= stmts_v.skip(k2 + 1));
        }
        match &f.statements[k2] {
            Statement::Directive(Directive::Loc(lc)) => {
                if !table.contains(lc.file_index) {
                    proof {
                        let rest = stmts_v.skip(k2 as int);
                        assert(rest.first() == StatementV::Directive(DirectiveV::Loc(*lc)));
                        assert(missing_in(table@, rest) == Some(*lc));
                        assert(missing_in(table@, stmts_v) == Some(*lc));
                    }
                    return Err(ParseError::IncompleteFileTable { loc: *lc });
                }
            },
            _ => {},
        }
        k2 += 1;
    }
    proof {
        assert(stmts_v.skip(m as int) =~= Seq::<StatementV>::empty());
    }
    Ok(ParseResult::Found(f, table))
}

/// Where no `.loc` is reported missing, every one is declared.
proof fn lemma_missing_none(table: Seq<(usize, FileV)>, stmts: Seq<StatementV>)
    requires
        missing_in(table, stmts) is None,
    ensures
        forall|i: int|
            0 <= i < stmts.len() ==> match #[trigger] stmts[i] {
                StatementV::Directive(DirectiveV::Loc(lc)) => tbl_contains(table, lc.file_index),
                _ => true,
            },
    decreases stmts.len(),
{
    if stmts.len() > 0 {
        lemma_missing_none(table, stmts.drop_first());
        assert forall|i: int|
            0 <= i < stmts.len() implies match #[trigger] stmts[i] {
            StatementV::Directive(DirectiveV::Loc(lc)) => tbl_contains(table, lc.file_index),
            _ => true,
        } by {
            if i > 0 {
                assert(stmts.drop_first()[i - 1] == stmts[i]);
            } else {
                assert(stmts[0] == stmts.first());
            }
        }
    }
}

/// The core invariant of a located function: every `.loc` directive among
/// its statements has a matching entry in the accompanying file table.
pub proof fn lemma_found_table_complete(
    lines: Seq<Seq<u8>>,
    path: Seq<u8>,
    t: TargetInfo,
    f: FunctionV,
    tbl: Seq<(usize, FileV)>,
)
    requires
        locate_spec(lines, path, t) == Located::Found(f, tbl),
    ensures
        forall|i: int|
            0 <= i < f.statements.len() ==> match #[trigger] f.statements[i] {
                StatementV::Directive(DirectiveV::Loc(lc)) => tbl_contains(tbl, lc.file_index),
                _ => true,
            },
{
    lemma_missing_none(tbl, f.statements);
}

/// A scan state that is still looking: nothing found, nothing collected,
/// nothing failed, not at rest.
pub open spec fn scanning_only(st: ScanState) -> bool {
    st.func is None && st.body is None && st.error is None && !st.done
}

/// Structural facts every reachable scan state obeys: rest implies a found
/// function or a failure, and a found function carries the searched path as
/// its id.
spec fn scan_sane(st: ScanState, path: Seq<u8>) -> bool {
    &&& (st.done ==> (st.func is Some || st.error is Some))
    &&& (match st.func {
        Some(f) => f.id == path,
        None => true,
    })
    &&& (st.body is Some ==> st.func is None)
}

proof fn lemma_scan_sane(lines: Seq<Seq<u8>>, path: Seq<u8>, t: TargetInfo)
    ensures
        scan_sane(scan_run(lines, path, t), path),
    decreases lines.len(),
{
    if lines.len() > 0 {
        lemma_scan_sane(lines.drop_last(), path, t);
    }
}

/// Once a scan has left the looking state it never returns to it.
proof fn lemma_not_scanning_absorbing(lines: Seq<Seq<u8>>, i: int, path: Seq<u8>, t: TargetInfo)
    requires
        0 <= i <= lines.len(),
        !scanning_only(scan_run(lines.subrange(0, i), path, t)),
    ensures
        !scanning_only(scan_run(lines, path, t)),
    decreases lines.len() - i,
{
    if i < lines.len() {
        let pre = lines.subrange(0, i);
        let nxt = lines.subrange(0, i + 1);
        assert(nxt.drop_last() =~= pre);
        assert(scan_run(nxt, path, t) == scan_step(scan_run(pre, path, t), nxt.last(), path, t));
        lemma_not_scanning_absorbing(lines, i + 1, path, t);
    } else {
        assert(lines.subrange(0, i) =~= lines);
    }
}

/// A scan that ends with its not-found table is one that was looking the
/// whole way through.
proof fn lemma_notfound_scanning(lines: Seq<Seq<u8>>, path: Seq<u8>, t: TargetInfo)
    requires
        locate_spec(lines, path, t) is NotFound,
    ensures
        forall|i: int|
            0 <= i <= lines.len() ==> scanning_only(
                #[trigger] scan_run(lines.subrange(0, i), path, t),
            ),
{
    let st0 = scan_run(lines, path, t);
    lemma_scan_sane(lines, path, t);
    assert(scanning_only(st0));
    assert forall|i: int|
        0 <= i <= lines.len() implies scanning_only(
        #[trigger] scan_run(lines.subrange(0, i), path, t),
    ) by {
        if !scanning_only(scan_run(lines.subrange(0, i), path, t)) {
            lemma_not_scanning_absorbing(lines, i, path, t);
        }
    }
}

/// While both scans are still looking, the searched path plays no part: the
/// scan for `q` walks in step with the scan for `p`.
proof fn lemma_fold_equal(lines: Seq<Seq<u8>>, i: int, p: Seq<u8>, q: Seq<u8>, t: TargetInfo)
    requires
        0 <= i <= lines.len(),
        forall|j: int|
            0 <= j <= lines.len() ==> scanning_only(#[trigger] scan_run(lines.subrange(0, j), p, t)),
        scanning_only(scan_run(lines.subrange(0, i), q, t)),
    ensures
        scan_run(lines.subrange(0, i), q, t) == scan_run(lines.subrange(0, i), p, t),
    decreases i,
{
    if i > 0 {
        let pre = lines.subrange(0, i - 1);
        let nxt = lines.subrange(0, i);
        assert(nxt.drop_last() =~= pre);
        assert(scan_run(nxt, q, t) == scan_step(scan_run(pre, q, t), nxt.last(), q, t));
        assert(scan_run(nxt, p, t) == scan_step(scan_run(pre, p, t), nxt.last(), p, t));
        if !scanning_only(scan_run(pre, q, t)) {
            lemma_not_scanning_absorbing(nxt, i - 1, q, t);
            assert(false);
        }
        lemma_fold_equal(lines, i - 1, p, q, t);
    }
}

/// A scan that is still looking has never pushed its own searched path into
/// the name table.
proof fn lemma_no_self_name(lines: Seq<Seq<u8>>, i: int, q: Seq<u8>, t: TargetInfo)
    requires
        0 <= i <= lines.len(),
        scanning_only(scan_run(lines.subrange(0, i), q, t)),
    ensures
        !scan_run(lines.subrange(0, i), q, t).names.contains(q),
    decreases i,
{
    if i == 0 {
        assert(lines.subrange(0, 0) =~= Seq::<Seq<u8>>::empty());
        assert(!scan_run(lines.subrange(0, 0), q, t).names.contains(q));
    } else {
        let pre = lines.subrange(0, i - 1);
        let nxt = lines.subrange(0, i);
        assert(nxt.drop_last() =~= pre);
        assert(scan_run(nxt, q, t) == scan_step(scan_run(pre, q, t), nxt.last(), q, t));
        if !scanning_only(scan_run(pre, q, t)) {
            lemma_not_scanning_absorbing(nxt, i - 1, q, t);
            assert(false);
        }
        lemma_no_self_name(lines, i - 1, q, t);
        let st_pre = scan_run(pre, q, t);
        let st_nxt = scan_run(nxt, q, t);
        assert forall|k: int| 0 <= k < st_nxt.names.len() implies st_nxt.names[k] != q by {
            if k < st_pre.names.len() {
                assert(st_pre.names[k] == st_nxt.names[k]);
                assert(st_pre.names.contains(st_pre.names[k])) by {
                    assert(st_pre.names[k] == st_pre.names[k]);
                }
            }
        }
    }
}

/// Round trip through the demangler: a name the locator itself reports in
/// its not-found table is one it can find.  A scan for `p` that ends not
/// found, naming `q` among the functions it saw, never ends not found when
/// repeated for `q`; and where it finds a function, that function carries
/// `q` as its id.  (Where the body of `q` itself fails to parse, the repeat
/// ends in that failure rather than in a find.)
pub proof fn lemma_scan_round_trip(
    lines: Seq<Seq<u8>>,
    p: Seq<u8>,
    q: Seq<u8>,
    t: TargetInfo,
    names: Seq<Seq<u8>>,
)
    requires
        locate_spec(lines, p, t) == Located::NotFound(names),
        names.contains(q),
    ensures
        !(locate_spec(lines, q, t) is NotFound),
        forall|f: FunctionV, tbl: Seq<(usize, FileV)>|
            locate_spec(lines, q, t) == Located::Found(f, tbl) ==> f.id == q,
{
    lemma_scan_sane(lines, q, t);
    let st_q = scan_run(lines, q, t);
    assert forall|f: FunctionV, tbl: Seq<(usize, FileV)>|
        locate_spec(lines, q, t) == Located::Found(f, tbl) implies f.id == q by {}
    if locate_spec(lines, q, t) is NotFound {
        lemma_notfound_scanning(lines, p, t);
        lemma_notfound_scanning(lines, q, t);
        assert(lines.subrange(0, lines.len() as int) =~= lines);
        lemma_fold_equal(lines, lines.len() as int, p, q, t);
        assert(st_q == scan_run(lines, p, t));
        assert(st_q.names == names);
        lemma_no_self_name(lines, lines.len() as int, q, t);
        assert(false);
    }
}

/// The not-found names of every listing, in listing order; a listing on
/// which the locator came to another outcome contributes nothing.
pub open spec fn all_names(files: Seq<Seq<Seq<u8>>>, path: Seq<u8>, t: TargetInfo) -> Seq<Seq<u8>>
    decreases files.len(),
{
    if files.len() == 0 {
        Seq::empty()
    } else {
        all_names(files.drop_last(), path, t) + (match locate_spec(files.last(), path, t) {
            Located::NotFound(ns) => ns,
            _ => Seq::empty(),
        })
    }
}

/// The position of the first listing on which the locator does not report
/// not-found; the number of listings where every one does.
pub open spec fn first_hit(files: Seq<Seq<Seq<u8>>>, path: Seq<u8>, t: TargetInfo) -> int
    decreases files.len(),
{
    if files.len() == 0 {
        0
    } else if !(locate_spec(files.first(), path, t) is NotFound) {
        0
    } else {
        1 + first_hit(files.drop_first(), path, t)
    }
}

/// A run of not-found listings followed by another outcome, or by the end,
/// pins the first hit down.
pub proof fn lemma_first_hit(files: Seq<Seq<Seq<u8>>>, path: Seq<u8>, t: TargetInfo, i: int)
    requires
        0 <= i <= files.len(),
        forall|j: int| 0 <= j < i ==> #[trigger] locate_spec(files[j], path, t) is NotFound,
        i < files.len() ==> !(locate_spec(files[i], path, t) is NotFound),
    ensures
        first_hit(files, path, t) == i,
    decreases files.len(),
{
    if files.len() == 0 {
    } else if i == 0 {
        assert(files.first() == files[0]);
    } else {
        assert(locate_spec(files[0], path, t) is NotFound);
        assert(files.first() == files[0]);
        let rest = files.drop_first();
        assert forall|j: int| 0 <= j < i - 1 implies #[trigger] locate_spec(
            rest[j],
            path,
            t,
        ) is NotFound by {
            assert(rest[j] == files[j + 1]);
        }
        if i - 1 < rest.len() {
            assert(rest[i - 1] == files[i]);
        }
        lemma_first_hit(rest, path, t, i - 1);
    }
}

/// Scans the listings in order for the function at `path`: the first
/// listing on which the locator comes to a find or a failure decides the
/// result; where every listing reports not-found, the names of all of them
/// are handed back sorted and without duplicates.
pub fn parse_files(files: &Vec<Vec<Vec<u8>>>, path: &[u8], target: &TargetInfo) -> (r: Result<
    ParseResult,
    ParseError,
>)
    ensures
        ({
            let fv = files@.map_values(|f: Vec<Vec<u8>>| f@.map_values(|l: Vec<u8>| l@));
            let h = first_hit(fv, path@, *target);
            if h < fv.len() {
                match locate_spec(fv[h], path@, *target) {
                    Located::Found(f0, t0) => match r {
                        Ok(ParseResult::Found(f, tbl)) => tbl_wf(tbl@) && f@ == f0 && tbl@ == t0,
                        _ => false,
                    },
                    Located::Failed(e0) => r == Err::<ParseResult, ParseError>(e0),
                    Located::NotFound(_) => false,
                }
            } else {
                match r {
                    Ok(ParseResult::NotFound(ns)) => crate::bytes::sorted_unique(
                        crate::bytes::views_of(ns@),
                    ) && (forall|x: Seq<u8>|
                        #[trigger] crate::bytes::views_of(ns@).contains(x) == all_names(
                            fv,
                            path@,
                            *target,
                        ).contains(x)),
                    _ => false,
                }
            }
        }),
{
    let ghost fv = files@.map_values(|f: Vec<Vec<u8>>| f@.map_values(|l: Vec<u8>| l@));
    let mut names: Vec<Vec<u8>> = Vec::new();
    let n = files.len();
    let mut i: usize = 0;
    proof {
        assert(fv.subrange(0, 0) =~= Seq::<Seq<Seq<u8>>>::empty());
        assert(names@.map_values(|v: Vec<u8>| v@) =~~= all_names(
            fv.subrange(0, 0),
            path@,
            *target,
        ));
    }
    while i < n
        invariant
            0 <= i <= n,
            n == files@.len(),
            fv == files@.map_values(|f: Vec<Vec<u8>>| f@.map_values(|l: Vec<u8>| l@)),
            forall|j: int| 0 <= j < i ==> #[trigger] locate_spec(fv[j], path@, *target) is NotFound,
            names@.map_values(|v: Vec<u8>| v@) == all_names(fv.subrange(0, i as int), path@, *target),
        decreases n - i,
    {
        proof {
            assert(fv[i as int] == files@[i as int]@.map_values(|l: Vec<u8>| l@));
        }
        let ghost pre = fv.subrange(0, i as int);
        match function(&files[i], path, target) {
            Ok(ParseResult::Found(f, tbl)) => {
                proof {
                    lemma_first_hit(fv, path@, *target, i as int);
                }
                return Ok(ParseResult::Found(f, tbl));
            },
            Ok(ParseResult::NotFound(mut ns)) => {
                names.append(&mut ns);
            },
            Err(e) => {
                proof {
                    lemma_first_hit(fv, path@, *target, i as int);
                }
                return Err(e);
            },
        }
        i += 1;
        proof {
            let nxt = fv.subrange(0, i as int);
            assert(nxt.drop_last() =~= pre);
            assert(nxt.last() == fv[i - 1]);
            assert(names@.map_values(|v: Vec<u8>| v@) =~~= all_names(nxt, path@, *target));
        }
    }
    proof {
        assert(fv.subrange(0, n as int) =~= fv);
        lemma_first_hit(fv, path@, *target, n as int);
    }
    let sorted = crate::bytes::sort_dedup(&names);
    proof {
        assert(crate::bytes::views_of(names@) == names@.map_values(|v: Vec<u8>| v@));
    }
    Ok(ParseResult::NotFound(sorted))
}

/// Is no statement a `.loc` directive?
pub open spec fn no_loc_directives(stmts: Seq<StatementV>) -> bool {
    forall|i: int|
        0 <= i < stmts.len() ==> !(match #[trigger] stmts[i] {
            StatementV::Directive(DirectiveV::Loc(_)) => true,
            _ => false,
        })
}

/// Is no statement a `.file` directive?
pub open spec fn no_file_directives(stmts: Seq<StatementV>) -> bool {
    forall|i: int|
        0 <= i < stmts.len() ==> !(match #[trigger] stmts[i] {
            StatementV::Directive(DirectiveV::File(_)) => true,
            _ => false,
        })
}

/// Does no statement resolve to a location?
pub open spec fn all_unresolved(stmts: Seq<StatementV>) -> bool {
    forall|i: int| 0 <= i < stmts.len() ==> stmt_rust_loc(#[trigger] stmts[i]) is None
}

/// How one step extends the statement list: earlier statements stand,
/// and the function's location, the current location and the adopted file
/// move only when a `.loc` or `.file` directive is among the appended
/// statements; an appended label or instruction carries the current
/// location of the state it was appended in.
proof fn lemma_body_step_shape(st: BodyState, line: Seq<u8>, t: TargetInfo)
    requires
        !st.error,
    ensures
        ({
            let post = body_step(st, line, t);
            &&& st.stmts.len() <= post.stmts.len()
            &&& forall|i: int| 0 <= i < st.stmts.len() ==> post.stmts[i] == st.stmts[i]
            &&& (no_loc_directives(post.stmts.skip(st.stmts.len() as int)) ==> post.cur == st.cur
                && post.loc == st.loc && (forall|i: int|
                st.stmts.len() <= i < post.stmts.len() ==> stmt_rust_loc(#[trigger] post.stmts[i])
                    is None || stmt_rust_loc(post.stmts[i]) == st.cur))
            &&& (no_file_directives(post.stmts.skip(st.stmts.len() as int)) ==> post.file
                == st.file)
        }),
{
    let post = body_step(st, line, t);
    let l = trim_spec(line);
    if l.len() == 0 {
        assert(post.stmts.skip(st.stmts.len() as int) =~= Seq::<StatementV>::empty());
    } else {
        let stmts1 = match comment_of(comment_part(l)) {
            Some(c) => st.stmts.push(StatementV::Comment(c)),
            None => st.stmts,
        };
        let node = trim_spec(node_part(l));
        let appended = post.stmts.skip(st.stmts.len() as int);
        match classify_spec(node, st.cur, t) {
            StatementV::Directive(d) => {
                if post.error {
                } else {
                    match d {
                        DirectiveV::Loc(lc) => {
                            assert(post.stmts.last() == StatementV::Directive(
                                DirectiveV::Loc(lc),
                            ));
                            assert(appended[appended.len() - 1] == post.stmts.last());
                            assert(!no_loc_directives(appended));
                        },
                        DirectiveV::File(f) => {
                            assert(post.stmts.last() == StatementV::Directive(
                                DirectiveV::File(f),
                            ));
                            assert(appended[appended.len() - 1] == post.stmts.last());
                            assert(!no_file_directives(appended));
                            assert(post.cur == st.cur && post.loc == st.loc);
                            assert forall|i: int|
                                st.stmts.len() <= i < post.stmts.len() implies stmt_rust_loc(
                                #[trigger] post.stmts[i],
                            ) is None || stmt_rust_loc(post.stmts[i]) == st.cur by {}
                        },
                        DirectiveV::Generic(_) => {
                            assert(post.cur == st.cur && post.loc == st.loc && post.file
                                == st.file);
                            assert forall|i: int|
                                st.stmts.len() <= i < post.stmts.len() implies stmt_rust_loc(
                                #[trigger] post.stmts[i],
                            ) is None || stmt_rust_loc(post.stmts[i]) == st.cur by {}
                        },
                    }
                }
            },
            other => {
                assert(post.stmts == stmts1.push(other));
                assert(post.cur == st.cur && post.loc == st.loc && post.file == st.file);
                assert forall|i: int|
                    st.stmts.len() <= i < post.stmts.len() implies stmt_rust_loc(
                    #[trigger] post.stmts[i],
                ) is None || stmt_rust_loc(post.stmts[i]) == st.cur by {
                    crate::ast::lemma_classification_exclusive(node, st.cur, t);
                }
            },
        }
    }
}

/// The boundary of source correlation: a body that parses without any
/// `.loc` directive resolves no location — not for the function, not for
/// any statement — and one without any `.file` directive adopts no file.
pub proof fn lemma_body_boundary(lines: Seq<Seq<u8>>, t: TargetInfo)
    ensures
        no_loc_directives(body_run(lines, t).stmts) ==> body_run(lines, t).loc is None
            && body_run(lines, t).cur is None && all_unresolved(body_run(lines, t).stmts),
        no_file_directives(body_run(lines, t).stmts) ==> body_run(lines, t).file is None,
    decreases lines.len(),
{
    if lines.len() > 0 {
        let pre = body_run(lines.drop_last(), t);
        let post = body_run(lines, t);
        lemma_body_boundary(lines.drop_last(), t);
        if !pre.error {
            lemma_body_step_shape(pre, lines.last(), t);
            let appended = post.stmts.skip(pre.stmts.len() as int);
            if no_loc_directives(post.stmts) {
                assert(no_loc_directives(pre.stmts)) by {
                    assert forall|i: int|
                        0 <= i < pre.stmts.len() implies !(match #[trigger] pre.stmts[i] {
                        StatementV::Directive(DirectiveV::Loc(_)) => true,
                        _ => false,
                    }) by {
                        assert(post.stmts[i] == pre.stmts[i]);
                    }
                }
                assert(no_loc_directives(appended)) by {
                    assert forall|i: int|
                        0 <= i < appended.len() implies !(match #[trigger] appended[i] {
                        StatementV::Directive(DirectiveV::Loc(_)) => true,
                        _ => false,
                    }) by {
                        assert(appended[i] == post.stmts[i + pre.stmts.len()]);
                    }
                }
                assert(all_unresolved(post.stmts)) by {
                    assert forall|i: int|
                        0 <= i < post.stmts.len() implies stmt_rust_loc(
                        #[trigger] post.stmts[i],
                    ) is None by {
                        if i < pre.stmts.len() {
                            assert(post.stmts[i] == pre.stmts[i]);
                        }
                    }
                }
            }
            if no_file_directives(post.stmts) {
                assert(no_file_directives(pre.stmts)) by {
                    assert forall|i: int|
                        0 <= i < pre.stmts.len() implies !(match #[trigger] pre.stmts[i] {
                        StatementV::Directive(DirectiveV::File(_)) => true,
                        _ => false,
                    }) by {
                        assert(post.stmts[i] == pre.stmts[i]);
                    }
                }
                assert(no_file_directives(appended)) by {
                    assert forall|i: int|
                        0 <= i < appended.len() implies !(match #[trigger] appended[i] {
                        StatementV::Directive(DirectiveV::File(_)) => true,
                        _ => false,
                    }) by {
                        assert(appended[i] == post.stmts[i + pre.stmts.len()]);
                    }
                }
            }
        }
    }
}

/// A listing on which the locator does not report not-found bounds the
/// first hit.
proof fn lemma_first_hit_le(files: Seq<Seq<Seq<u8>>>, path: Seq<u8>, t: TargetInfo, j: int)
    requires
        0 <= j < files.len(),
        !(locate_spec(files[j], path, t) is NotFound),
    ensures
        first_hit(files, path, t) <= j,
    decreases files.len(),
{
    assert(files.first() == files[0]);
    if locate_spec(files[0], path, t) is NotFound {
        let rest = files.drop_first();
        assert(j > 0);
        assert(rest[j - 1] == files[j]);
        lemma_first_hit_le(rest, path, t, j - 1);
    }
}

/// A name in the gathered table comes from some listing's own table.
proof fn lemma_all_names_member(files: Seq<Seq<Seq<u8>>>, path: Seq<u8>, t: TargetInfo, q: Seq<u8>) -> (j: int)
    requires
        all_names(files, path, t).contains(q),
    ensures
        0 <= j < files.len(),
        locate_spec(files[j], path, t) is NotFound,
        match locate_spec(files[j], path, t) {
            Located::NotFound(ns) => ns.contains(q),
            _ => false,
        },
    decreases files.len(),
{
    let pre = all_names(files.drop_last(), path, t);
    let tail = match locate_spec(files.last(), path, t) {
        Located::NotFound(ns) => ns,
        _ => Seq::empty(),
    };
    let w = choose|w: int|
        0 <= w < all_names(files, path, t).len() && all_names(files, path, t)[w] == q;
    if w < pre.len() {
        assert(pre[w] == q);
        assert(pre.contains(q));
        let j = lemma_all_names_member(files.drop_last(), path, t, q);
        assert(files.drop_last()[j] == files[j]);
        j
    } else {
        assert(tail[w - pre.len()] == q);
        assert(tail.contains(q));
        assert(files.last() == files[files.len() - 1]);
        files.len() - 1
    }
}

/// The round trip lifted over every listing of one build: where scanning
/// all of them for `p` ends not found, naming `q`, scanning them all for
/// `q` does not end not found.
pub proof fn lemma_parse_files_round_trip(
    files: Seq<Seq<Seq<u8>>>,
    p: Seq<u8>,
    q: Seq<u8>,
    t: TargetInfo,
)
    requires
        first_hit(files, p, t) == files.len(),
        all_names(files, p, t).contains(q),
    ensures
        first_hit(files, q, t) < files.len(),
{
    let j = lemma_all_names_member(files, p, t, q);
    let ns = match locate_spec(files[j], p, t) {
        Located::NotFound(ns) => ns,
        _ => Seq::empty(),
    };
    lemma_scan_round_trip(files[j], p, q, t, ns);
    lemma_first_hit_le(files, q, t, j);
}

} // verus!
