//! The merge/display engine: interleaving source lines with the assembly
//! statements they produced, dropping repeated source lines, and turning
//! each node into its filtered, indented, coloured display form.

use crate::ast::{
    stmt_rust_loc, Comment, Directive, File, Function, FunctionV, GenericDirective, Instruction,
    is_call_spec, is_jump_spec, Label, Loc, Statement, StatementV,
};
use crate::bytes::{contains_spec, contains_sub, dec_digits, extend_bytes, starts_with_spec,
    subrange_vec, trim, trim_spec, usize_to_dec};
use crate::lit::{bytes_lcfi, bytes_lfunc_end, bytes_ltmp, bytes_slash_slash, lit_dot_file,
    lit_dot_loc, lit_lcfi, lit_lfunc_end, lit_ltmp, lit_slash_slash};
use crate::rust::{fm_contains, fm_get, lm_contains, lm_value, Files};
use crate::target::TargetInfo;
use vstd::prelude::*;

verus! {

/// One interleaved source line: its text, the path of the file it came
/// from, and the location that selected it.
#[derive(Debug)]
pub struct Rust {
    pub line: Vec<u8>,
    pub path: Vec<u8>,
    pub loc: Loc,
}

/// The model of a [`Rust`] node.
pub struct RustV {
    pub line: Seq<u8>,
    pub path: Seq<u8>,
    pub loc: Loc,
}

impl View for Rust {
    type V = RustV;

    open spec fn view(&self) -> RustV {
        RustV { line: self.line@, path: self.path@, loc: self.loc }
    }
}

impl Rust {
    pub fn new(line: Vec<u8>, path: Vec<u8>, loc: Loc) -> (r: Rust)
        ensures
            r@.line == line@,
            r@.path == path@,
            r@.loc == loc,
    {
        Rust { line, path, loc }
    }
}

/// One display node: an assembly statement or an interleaved source line.
#[derive(Debug)]
pub enum Kind {
    Asm(Statement),
    Rust(Rust),
}

/// The model of a [`Kind`].
pub enum KindV {
    Asm(StatementV),
    Rust(RustV),
}

impl View for Kind {
    type V = KindV;

    open spec fn view(&self) -> KindV {
        match self {
            Kind::Asm(s) => KindV::Asm(s@),
            Kind::Rust(r) => KindV::Rust(r@),
        }
    }
}

/// The source line a location selects, where its file is recorded, its line
/// was read, and the text is wanted at all.
pub open spec fn rust_for(files: Seq<(usize, crate::rust::RFileV)>, l: Loc) -> Option<RustV> {
    if fm_contains(files, l.file_index) && lm_contains(
        fm_get(files, l.file_index).lines,
        l.file_line,
    ) && lm_value(fm_get(files, l.file_index).lines, l.file_line) is Some {
        Some(
            RustV {
                line: lm_value(fm_get(files, l.file_index).lines, l.file_line)->Some_0,
                path: fm_get(files, l.file_index).ast.path,
                loc: l,
            },
        )
    } else {
        None
    }
}

/// What one statement contributes to the merged stream: its source line
/// first — unless that line, trimmed, is itself a source-level comment —
/// and the statement itself always.
pub open spec fn merge_emit(files: Seq<(usize, crate::rust::RFileV)>, s: StatementV) -> Seq<
    KindV,
> {
    let src: Seq<KindV> = match stmt_rust_loc(s) {
        Some(l) => match rust_for(files, l) {
            Some(r) => if !starts_with_spec(trim_spec(r.line), lit_slash_slash()) {
                seq![KindV::Rust(r)]
            } else {
                Seq::empty()
            },
            None => Seq::empty(),
        },
        None => Seq::empty(),
    };
    src + seq![KindV::Asm(s)]
}

/// The raw merged stream: every statement in order, each preceded by the
/// source line it resolves to.
pub open spec fn merge_raw(stmts: Seq<StatementV>, files: Seq<(usize, crate::rust::RFileV)>) -> Seq<
    KindV,
>
    decreases stmts.len(),
{
    if stmts.len() == 0 {
        Seq::empty()
    } else {
        merge_raw(stmts.drop_last(), files) + merge_emit(files, stmts.last())
    }
}

/// The deduplication pass: a source node whose file index and line repeat
/// those of the last kept source node is dropped, wherever assembly nodes
/// stand between the two.
pub open spec fn dedup_rust_from(s: Seq<KindV>, last: Option<(usize, usize)>) -> Seq<KindV>
    decreases s.len(),
{
    if s.len() == 0 {
        Seq::empty()
    } else {
        match s.first() {
            KindV::Rust(r) => {
                if last == Some((r.loc.file_index, r.loc.file_line)) {
                    dedup_rust_from(s.drop_first(), last)
                } else {
                    seq![s.first()] + dedup_rust_from(
                        s.drop_first(),
                        Some((r.loc.file_index, r.loc.file_line)),
                    )
                }
            },
            KindV::Asm(_) => seq![s.first()] + dedup_rust_from(s.drop_first(), last),
        }
    }
}

/// The deduplicated stream.
pub open spec fn dedup_rust(s: Seq<KindV>) -> Seq<KindV> {
    dedup_rust_from(s, None)
}

/// Deduplicating is idempotent: a second pass, from the same starting
/// state, changes nothing.
pub proof fn lemma_dedup_idempotent_from(s: Seq<KindV>, last: Option<(usize, usize)>)
    ensures
        dedup_rust_from(dedup_rust_from(s, last), last) == dedup_rust_from(s, last),
    decreases s.len(),
{
    if s.len() > 0 {
        match s.first() {
            KindV::Rust(r) => {
                let key = Some((r.loc.file_index, r.loc.file_line));
                if last == key {
                    lemma_dedup_idempotent_from(s.drop_first(), last);
                } else {
                    lemma_dedup_idempotent_from(s.drop_first(), key);
                    let inner = seq![s.first()] + dedup_rust_from(s.drop_first(), key);
                    assert(inner.first() == s.first());
                    assert(inner.drop_first() =~= dedup_rust_from(s.drop_first(), key));
                }
            },
            KindV::Asm(_) => {
                lemma_dedup_idempotent_from(s.drop_first(), last);
                let inner = seq![s.first()] + dedup_rust_from(s.drop_first(), last);
                assert(inner.first() == s.first());
                assert(inner.drop_first() =~= dedup_rust_from(s.drop_first(), last));
            },
        }
    }
}

/// Merging and deduplicating twice yields what doing it once yields.
pub proof fn lemma_merge_dedup_idempotent(s: Seq<KindV>)
    ensures
        dedup_rust(dedup_rust(s)) == dedup_rust(s),
{
    lemma_dedup_idempotent_from(s, None);
}

/// The models a list of display nodes holds.
pub open spec fn kinds_of(v: Seq<Kind>) -> Seq<KindV> {
    v.map_values(|k: Kind| k@)
}

/// Copies a byte vector.
fn clone_bytes(v: &Vec<u8>) -> (r: Vec<u8>)
    ensures
        r@ == v@,
{
    let r = subrange_vec(v.as_slice(), 0, v.len());
    proof {
        assert(r@ =~= v@);
    }
    r
}

/// Copies a statement.
fn clone_statement(s: &Statement) -> (r: Statement)
    ensures
        r@ == s@,
{
    match s {
        Statement::Label(l) => Statement::Label(
            Label { id: clone_bytes(&l.id), rust_loc: l.rust_loc },
        ),
        Statement::Directive(d) => Statement::Directive(
            match d {
                Directive::File(f) => Directive::File(
                    File { path: clone_bytes(&f.path), index: f.index },
                ),
                Directive::Loc(l) => Directive::Loc(*l),
                Directive::Generic(g) => Directive::Generic(
                    GenericDirective { string: clone_bytes(&g.string) },
                ),
            },
        ),
        Statement::Instruction(i) => {
            let mut args: Vec<Vec<u8>> = Vec::new();
            let mut k: usize = 0;
            while k < i.args.len()
                invariant
                    0 <= k <= i.args@.len(),
                    args@.len() == k,
                    forall|j: int| 0 <= j < k ==> (#[trigger] args@[j])@ == i.args@[j]@,
                decreases i.args@.len() - k,
            {
                args.push(clone_bytes(&i.args[k]));
                k += 1;
            }
            let r = Statement::Instruction(
                Instruction { instr: clone_bytes(&i.instr), args, rust_loc: i.rust_loc },
            );
            proof {
                match r {
                    Statement::Instruction(ref ri) => {
                        assert(ri@.args =~~= i@.args) by {
                            assert forall|j: int| 0 <= j < ri@.args.len() implies ri@.args[j]
                                == i@.args[j] by {
                                assert(ri@.args[j] == ri.args@[j]@);
                                assert(i@.args[j] == i.args@[j]@);
                            }
                        }
                    },
                    _ => {
                        assert(false);
                    },
                }
            }
            r
        },
        Statement::Comment(c) => Statement::Comment(Comment { string: clone_bytes(&c.string) }),
    }
}

/// Merges a function's statements with their source lines and drops
/// repeated source lines: the result is the deduplicated raw merge.
#[verifier::loop_isolation(false)]
#[verifier::rlimit(100)]
pub fn merge_rust_and_asm(function: &Function, rust_files: &Files) -> (r: Vec<Kind>)
    requires
        rust_files.wf(),
    ensures
        r@.map_values(|k: Kind| k@) == dedup_rust(
            merge_raw(function@.statements, rust_files@),
        ),
{
    let ghost stmts = function@.statements;
    let ghost fv = rust_files@;
    let mut raw: Vec<Kind> = Vec::new();
    let n = function.statements.len();
    let mut i: usize = 0;
    proof {
        assert(stmts.subrange(0, 0) =~= Seq::<StatementV>::empty());
        assert(raw@.map_values(|k: Kind| k@) =~~= merge_raw(stmts.subrange(0, 0), fv));
    }
    while i < n
        invariant
            0 <= i <= n,
            n == stmts.len(),
            raw@.map_values(|k: Kind| k@) == merge_raw(stmts.subrange(0, i as int), fv),
        decreases n - i,
    {
        let ghost pre = stmts.subrange(0, i as int);
        proof {
            assert(stmts[i as int] == function.statements@[i as int]@);
            let nxt = stmts.subrange(0, i + 1);
            assert(nxt.drop_last() =~= pre);
            assert(nxt.last() == stmts[i as int]);
        }
        let stmt = &function.statements[i];
        let ghost raw_pre = raw@;
        match stmt.rust_loc() {
            Some(rust_loc) => {
                match rust_files.line(rust_loc) {
                    Some(rust_line) => {
                        let path = match rust_files.file_path(rust_loc) {
                            Some(p) => p,
                            None => {
                                proof {
                                    assert(false);
                                }
                                Vec::new()
                            },
                        };
                        let rl = trim(rust_line.as_slice());
                        if !crate::bytes::starts_with(rl.as_slice(), bytes_slash_slash().as_slice()) {
                            raw.push(Kind::Rust(Rust::new(rust_line, path, rust_loc)));
                        }
                    },
                    None => {},
                }
            },
            None => {},
        }
        raw.push(Kind::Asm(clone_statement(stmt)));
        i += 1;
        proof {
            let nxt = stmts.subrange(0, i as int);
            assert(raw@.map_values(|k: Kind| k@) =~~= merge_raw(nxt, fv)) by {
                assert(merge_raw(nxt, fv) == merge_raw(pre, fv) + merge_emit(fv, stmts[i - 1]));
                assert(kinds_of(raw@) == raw@.map_values(|k: Kind| k@));
                assert forall|q: int| 0 <= q < raw@.len() implies #[trigger] kinds_of(raw@)[q]
                    == raw@[q]@ by {}
                assert forall|q: int| 0 <= q < raw_pre.len() implies raw@[q] == raw_pre[q] by {}
                assert(raw_pre.map_values(|k: Kind| k@).len() == raw_pre.len());
            }
        }
    }
    proof {
        assert(stmts.subrange(0, n as int) =~= stmts);
    }
    let ghost raw_v = raw@.map_values(|k: Kind| k@);
    let mut out: Vec<Kind> = Vec::new();
    let m = raw.len();
    let mut j: usize = 0;
    let mut last: Option<(usize, usize)> = None;
    proof {
        assert(raw_v.skip(0) =~= raw_v);
        assert(out@.map_values(|k: Kind| k@) =~~= Seq::<KindV>::empty());
    }
    while j < m
        invariant
            0 <= j <= m,
            m == raw@.len(),
            m == raw_v.len(),
            raw_v == raw@.map_values(|k: Kind| k@),
            dedup_rust(raw_v) == out@.map_values(|k: Kind| k@) + dedup_rust_from(
                raw_v.skip(j as int),
                last,
            ),
        decreases m - j,
    {
        let ghost rest = raw_v.skip(j as int);
        let ghost out_pre = out@;
        proof {
            assert(rest.len() > 0);
            assert(rest.first() == raw_v[j as int]);
            assert(raw_v[j as int] == raw@[j as int]@);
            assert(rest.drop_first() =~= raw_v.skip(j + 1));
        }
        let keep: bool = match &raw[j] {
            Kind::Rust(r) => {
                let key = (r.loc.file_index, r.loc.file_line);
                let is_dup = match last {
                    Some(lk) => lk.0 == key.0 && lk.1 == key.1,
                    None => false,
                };
                if is_dup {
                    false
                } else {
                    last = Some(key);
                    true
                }
            },
            Kind::Asm(_) => true,
        };
        if keep {
            let copy: Kind = match &raw[j] {
                Kind::Rust(r) => Kind::Rust(
                    Rust { line: clone_bytes(&r.line), path: clone_bytes(&r.path), loc: r.loc },
                ),
                Kind::Asm(s) => Kind::Asm(clone_statement(s)),
            };
            proof {
                assert(copy@ == raw@[j as int]@);
            }
            out.push(copy);
            proof {
                assert(out@.map_values(|k: Kind| k@) =~~= out_pre.map_values(|k: Kind| k@).push(
                    raw_v[j as int],
                )) by {
                    assert(kinds_of(out@) == out@.map_values(|k: Kind| k@));
                    assert forall|q: int| 0 <= q < out@.len() implies #[trigger] kinds_of(out@)[q]
                        == out@[q]@ by {}
                    assert forall|q: int| 0 <= q < out_pre.len() implies out@[q] == out_pre[q] by {}
                    assert(out_pre.map_values(|k: Kind| k@).len() == out_pre.len());
                }
                assert(out@.map_values(|k: Kind| k@) + dedup_rust_from(raw_v.skip(j + 1), last)
                    =~= out_pre.map_values(|k: Kind| k@) + (seq![raw_v[j as int]]
                    + dedup_rust_from(raw_v.skip(j + 1), last)));
            }
        }
        j += 1;
    }
    proof {
        assert(raw_v.skip(m as int) =~= Seq::<KindV>::empty());
        assert(dedup_rust(raw_v) =~= out@.map_values(|k: Kind| k@));
    }
    out
}

/// Does an assembly statement belong to the function's own file?  Holds
/// where the question cannot be answered.
pub open spec fn stmt_in_function(f: FunctionV, s: StatementV) -> bool {
    match f.loc {
        Some(fl) => match stmt_rust_loc(s) {
            Some(l) => l.file_index == fl.file_index,
            None => true,
        },
        None => true,
    }
}

/// Does an assembly statement belong to the function's own file?
pub fn is_stmt_in_function(f: &Function, stmt: &Statement) -> (r: bool)
    ensures
        r == stmt_in_function(f@, stmt@),
{
    match &f.loc {
        Some(fl) => match stmt.rust_loc() {
            Some(l) => l.file_index == fl.file_index,
            None => true,
        },
        None => true,
    }
}

/// Does a source line belong to the function's own file?  Holds where the
/// question cannot be answered.
pub open spec fn rust_in_function(f: FunctionV, r: RustV) -> bool {
    match f.loc {
        Some(fl) => r.loc.file_index == fl.file_index,
        None => true,
    }
}

/// Does a source line belong to the function's own file?
pub fn is_rust_in_function(f: &Function, rust: &Rust) -> (r: bool)
    ensures
        r == rust_in_function(f@, rust@),
{
    match &f.loc {
        Some(fl) => rust.loc.file_index == fl.file_index,
        None => true,
    }
}

/// The display name of a function: its path, and where its defining file
/// and location are known, the file and line in parentheses.
pub open spec fn function_name_spec(f: FunctionV) -> Seq<u8> {
    match (f.file, f.loc) {
        (Some(file), Some(loc)) => f.id + seq![32u8, 40u8] + file.path + seq![58u8] + dec_digits(
            loc.file_line as nat,
        ) + seq![41u8],
        _ => f.id,
    }
}

/// Writes the display name of a function.  A parsed function carries a
/// location exactly when it carries a file.
pub fn format_function_name(function: &Function) -> (r: Vec<u8>)
    requires
        function@.file is Some <==> function@.loc is Some,
    ensures
        r@ == function_name_spec(function@),
{
    match (&function.file, &function.loc) {
        (Some(file), Some(loc)) => {
            let mut r = clone_bytes(&function.id);
            r.push(32);
            r.push(40);
            extend_bytes(&mut r, file.path.as_slice());
            r.push(58);
            let digits = usize_to_dec(loc.file_line);
            extend_bytes(&mut r, digits.as_slice());
            r.push(41);
            proof {
                assert(r@ =~= function_name_spec(function@));
            }
            r
        },
        _ => clone_bytes(&function.id),
    }
}

/// Is a label one of the compiler's internal housekeeping labels, which are
/// never displayed?
pub open spec fn is_internal_label(id: Seq<u8>) -> bool {
    contains_spec(id, lit_lcfi()) || contains_spec(id, lit_ltmp()) || contains_spec(
        id,
        lit_lfunc_end(),
    )
}

/// Is a label one of the compiler's internal housekeeping labels?
pub fn internal_label(id: &[u8]) -> (r: bool)
    ensures
        r == is_internal_label(id@),
{
    contains_sub(id, bytes_lcfi().as_slice()) || contains_sub(id, bytes_ltmp().as_slice())
        || contains_sub(id, bytes_lfunc_end().as_slice())
}

/// The colour roles the renderer distinguishes: plain text, mnemonics,
/// labels and jump targets, and emphasised text (source lines and call
/// targets).
#[derive(PartialEq, Eq, Structural, Copy, Clone, Debug)]
pub enum ColorClass {
    Plain,
    Instr,
    Label,
    Emph,
}

/// One display line: its indentation and its coloured text runs.
#[derive(Debug)]
pub struct RenderedLine {
    pub indent: usize,
    pub segments: Vec<(ColorClass, Vec<u8>)>,
}

/// The model of a [`RenderedLine`].
pub struct RenderedV {
    pub indent: usize,
    pub segments: Seq<(ColorClass, Seq<u8>)>,
}

impl View for RenderedLine {
    type V = RenderedV;

    open spec fn view(&self) -> RenderedV {
        RenderedV {
            indent: self.indent,
            segments: self.segments@.map_values(|s: (ColorClass, Vec<u8>)| (s.0, s.1@)),
        }
    }
}

/// `n` spaces.
pub open spec fn spaces(n: nat) -> Seq<u8>
    decreases n,
{
    if n == 0 {
        Seq::empty()
    } else {
        spaces((n - 1) as nat) + seq![32u8]
    }
}

/// The mnemonic padded with spaces to seven columns.
pub open spec fn pad7(s: Seq<u8>) -> Seq<u8> {
    if s.len() >= 7 {
        s
    } else {
        s + spaces((7 - s.len()) as nat)
    }
}

/// Writes `n` spaces onto `out`.
fn push_spaces(out: &mut Vec<u8>, n: usize)
    ensures
        final(out)@ == old(out)@ + spaces(n as nat),
    decreases n,
{
    let mut i: usize = 0;
    while i < n
        invariant
            0 <= i <= n,
            out@ == old(out)@ + spaces(i as nat),
        decreases n - i,
    {
        out.push(32);
        i += 1;
    }
}

/// The operands joined with `", "`.
pub open spec fn join_args(args: Seq<Seq<u8>>) -> Seq<u8>
    decreases args.len(),
{
    if args.len() == 0 {
        Seq::empty()
    } else if args.len() == 1 {
        args[0]
    } else {
        join_args(args.drop_last()) + seq![44u8, 32u8] + args.last()
    }
}

/// The bracketed location a debug listing appends: `   [index:line]`, or
/// `   [-:-]` for an unresolved node.
pub open spec fn debug_suffix(l: Option<Loc>) -> Seq<u8> {
    match l {
        Some(l) => seq![32u8, 32u8, 32u8, 91u8] + dec_digits(l.file_index as nat) + seq![58u8]
            + dec_digits(l.file_line as nat) + seq![93u8],
        None => seq![32u8, 32u8, 32u8, 91u8, 45u8, 58u8, 45u8, 93u8],
    }
}

/// Writes the bracketed debug location.
fn push_debug_suffix(out: &mut Vec<u8>, l: Option<Loc>)
    ensures
        final(out)@ == old(out)@ + debug_suffix(l),
{
    out.push(32);
    out.push(32);
    out.push(32);
    out.push(91);
    match l {
        Some(l) => {
            let a = usize_to_dec(l.file_index);
            extend_bytes(out, a.as_slice());
            out.push(58);
            let b = usize_to_dec(l.file_line);
            extend_bytes(out, b.as_slice());
            out.push(93);
            proof {
                assert(out@ =~= old(out)@ + debug_suffix(Some(l)));
            }
        },
        None => {
            out.push(45);
            out.push(58);
            out.push(45);
            out.push(93);
            proof {
                assert(out@ =~= old(out)@ + debug_suffix(None::<Loc>));
            }
        },
    }
}

/// How one display node renders, or `None` where the switches drop it.
/// Comments and directives print only when asked for; internal housekeeping
/// labels never print; source lines print only in interleaving mode.
/// Nodes from inlined code (another file than the function's own) are
/// indented further, and a source line from another file carries its path
/// and line.
pub open spec fn render_spec(
    k: KindV,
    f: FunctionV,
    t: TargetInfo,
    rust_mode: bool,
    print_comments: bool,
    print_directives: bool,
    debug_mode: bool,
) -> Option<RenderedV> {
    match k {
        KindV::Asm(s) => {
            let part = stmt_in_function(f, s);
            let indent: usize = if (match s {
                StatementV::Label(_) => true,
                _ => false,
            }) {
                0
            } else if !rust_mode || part {
                1
            } else {
                5
            };
            match s {
                StatementV::Comment(c) => if !print_comments {
                    None
                } else {
                    Some(
                        RenderedV {
                            indent,
                            segments: seq![
                                (
                                    ColorClass::Plain,
                                    c + if debug_mode {
                                        debug_suffix(None)
                                    } else {
                                        Seq::empty()
                                    },
                                ),
                            ],
                        },
                    )
                },
                StatementV::Directive(d) => if !print_directives {
                    None
                } else {
                    Some(
                        RenderedV {
                            indent,
                            segments: seq![
                                (
                                    ColorClass::Plain,
                                    match d {
                                        crate::ast::DirectiveV::File(file) => lit_dot_file()
                                            + seq![32u8] + dec_digits(file.index as nat) + seq![
                                            32u8,
                                            34u8,
                                        ] + file.path + seq![34u8],
                                        crate::ast::DirectiveV::Loc(l) => lit_dot_loc() + seq![32u8]
                                            + dec_digits(l.file_index as nat) + seq![32u8]
                                            + dec_digits(l.file_line as nat) + seq![32u8]
                                            + dec_digits(l.file_column as nat),
                                        crate::ast::DirectiveV::Generic(g) => g,
                                    },
                                ),
                            ],
                        },
                    )
                },
                StatementV::Label(l) => if is_internal_label(l.id) {
                    None
                } else {
                    Some(
                        RenderedV {
                            indent,
                            segments: seq![
                                (
                                    ColorClass::Label,
                                    l.id + seq![58u8] + if debug_mode {
                                        debug_suffix(l.rust_loc)
                                    } else {
                                        Seq::empty()
                                    },
                                ),
                            ],
                        },
                    )
                },
                StatementV::Instruction(i) => {
                    let arg_color = if is_jump_spec(i.instr, i.args, t) {
                        ColorClass::Label
                    } else if is_call_spec(i.instr, t) {
                        ColorClass::Emph
                    } else {
                        ColorClass::Plain
                    };
                    let head = if i.args.len() == 0 {
                        i.instr
                    } else {
                        pad7(i.instr)
                    };
                    let tail = (if i.args.len() > 0 {
                        seq![32u8] + join_args(i.args)
                    } else {
                        Seq::empty()
                    }) + (if debug_mode {
                        debug_suffix(i.rust_loc)
                    } else {
                        Seq::empty()
                    });
                    if tail.len() == 0 {
                        Some(
                            RenderedV { indent, segments: seq![(ColorClass::Instr, head)] },
                        )
                    } else {
                        Some(
                            RenderedV {
                                indent,
                                segments: seq![(ColorClass::Instr, head), (arg_color, tail)],
                            },
                        )
                    }
                },
            }
        },
        KindV::Rust(r) => if !rust_mode {
            None
        } else {
            let part = rust_in_function(f, r);
            let indent: usize = if part {
                1
            } else {
                5
            };
            let text = if part {
                r.line + if debug_mode {
                    debug_suffix(Some(r.loc))
                } else {
                    Seq::empty()
                }
            } else {
                r.line + seq![32u8, 40u8] + r.path + seq![58u8] + dec_digits(
                    r.loc.file_line as nat,
                ) + seq![41u8]
            };
            Some(RenderedV { indent, segments: seq![(ColorClass::Emph, text)] })
        },
    }
}

/// Writes the operands joined with `", "`.
fn join_args_exec(args: &Vec<Vec<u8>>) -> (r: Vec<u8>)
    ensures
        r@ == join_args(args@.map_values(|a: Vec<u8>| a@)),
{
    let ghost av = args@.map_values(|a: Vec<u8>| a@);
    let mut r: Vec<u8> = Vec::new();
    let n = args.len();
    let mut i: usize = 0;
    proof {
        assert(av.subrange(0, 0) =~= Seq::<Seq<u8>>::empty());
        assert(r@ =~= join_args(av.subrange(0, 0)));
    }
    while i < n
        invariant
            0 <= i <= n,
            n == av.len(),
            av == args@.map_values(|a: Vec<u8>| a@),
            r@ == join_args(av.subrange(0, i as int)),
        decreases n - i,
    {
        proof {
            assert(av[i as int] == args@[i as int]@);
        }
        if i > 0 {
            r.push(44);
            r.push(32);
        }
        extend_bytes(&mut r, args[i].as_slice());
        i += 1;
        proof {
            let nxt = av.subrange(0, i as int);
            assert(nxt.drop_last() =~= av.subrange(0, i - 1));
            assert(nxt.last() == av[i - 1]);
            assert(r@ =~= join_args(nxt));
        }
    }
    proof {
        assert(av.subrange(0, n as int) =~= av);
    }
    r
}

/// Renders one display node, or drops it as the switches say.
#[verifier::rlimit(100)]
pub fn render_node(
    k: &Kind,
    function: &Function,
    target: &TargetInfo,
    rust_mode: bool,
    print_comments: bool,
    print_directives: bool,
    debug_mode: bool,
) -> (r: Option<RenderedLine>)
    ensures
        match r {
            Some(line) => render_spec(
                k@,
                function@,
                *target,
                rust_mode,
                print_comments,
                print_directives,
                debug_mode,
            ) == Some(line@),
            None => render_spec(
                k@,
                function@,
                *target,
                rust_mode,
                print_comments,
                print_directives,
                debug_mode,
            ) is None,
        },
{
    match k {
        Kind::Asm(s) => {
            let part = is_stmt_in_function(function, s);
            let is_label = match s {
                Statement::Label(_) => true,
                _ => false,
            };
            let indent: usize = if is_label {
                0
            } else if !rust_mode || part {
                1
            } else {
                5
            };
            match s {
                Statement::Comment(c) => {
                    if !print_comments {
                        return None;
                    }
                    let mut text = clone_bytes(&c.string);
                    if debug_mode {
                        push_debug_suffix(&mut text, None);
                    }
                    let mut segments: Vec<(ColorClass, Vec<u8>)> = Vec::new();
                    segments.push((ColorClass::Plain, text));
                    let line = RenderedLine { indent, segments };
                    proof {
                        assert(line@.segments =~~= seq![
                            (
                                ColorClass::Plain,
                                c@ + if debug_mode {
                                    debug_suffix(None)
                                } else {
                                    Seq::<u8>::empty()
                                },
                            ),
                        ]);
                    }
                    Some(line)
                },
                Statement::Directive(d) => {
                    if !print_directives {
                        return None;
                    }
                    let text: Vec<u8> = match d {
                        Directive::File(file) => {
                            let mut t = crate::lit::bytes_dot_file();
                            t.push(32);
                            let digits = usize_to_dec(file.index);
                            extend_bytes(&mut t, digits.as_slice());
                            t.push(32);
                            t.push(34);
                            extend_bytes(&mut t, file.path.as_slice());
                            t.push(34);
                            proof {
                                assert(t@ =~= lit_dot_file() + seq![32u8] + dec_digits(
                                    file.index as nat,
                                ) + seq![32u8, 34u8] + file@.path + seq![34u8]);
                            }
                            t
                        },
                        Directive::Loc(l) => {
                            let mut t = crate::lit::bytes_dot_loc();
                            t.push(32);
                            let a = usize_to_dec(l.file_index);
                            extend_bytes(&mut t, a.as_slice());
                            t.push(32);
                            let b = usize_to_dec(l.file_line);
                            extend_bytes(&mut t, b.as_slice());
                            t.push(32);
                            let c2 = usize_to_dec(l.file_column);
                            extend_bytes(&mut t, c2.as_slice());
                            proof {
                                assert(t@ =~= lit_dot_loc() + seq![32u8] + dec_digits(
                                    l.file_index as nat,
                                ) + seq![32u8] + dec_digits(l.file_line as nat) + seq![32u8]
                                    + dec_digits(l.file_column as nat));
                            }
                            t
                        },
                        Directive::Generic(g) => clone_bytes(&g.string),
                    };
                    let mut segments: Vec<(ColorClass, Vec<u8>)> = Vec::new();
                    segments.push((ColorClass::Plain, text));
                    let line = RenderedLine { indent, segments };
                    proof {
                        assert(line@.segments =~~= render_spec(
                            k@,
                            function@,
                            *target,
                            rust_mode,
                            print_comments,
                            print_directives,
                            debug_mode,
                        )->Some_0.segments);
                    }
                    Some(line)
                },
                Statement::Label(l) => {
                    if internal_label(l.id.as_slice()) {
                        return None;
                    }
                    let mut text = clone_bytes(&l.id);
                    text.push(58);
                    if debug_mode {
                        push_debug_suffix(&mut text, l.rust_loc);
                    }
                    let mut segments: Vec<(ColorClass, Vec<u8>)> = Vec::new();
                    segments.push((ColorClass::Label, text));
                    let line = RenderedLine { indent, segments };
                    proof {
                        assert(line@.segments =~~= seq![
                            (
                                ColorClass::Label,
                                l@.id + seq![58u8] + if debug_mode {
                                    debug_suffix(l@.rust_loc)
                                } else {
                                    Seq::<u8>::empty()
                                },
                            ),
                        ]);
                    }
                    Some(line)
                },
                Statement::Instruction(i) => {
                    let arg_color = if i.is_jump(target) {
                        ColorClass::Label
                    } else if i.is_call(target) {
                        ColorClass::Emph
                    } else {
                        ColorClass::Plain
                    };
                    let head: Vec<u8> = if i.args.len() == 0 {
                        clone_bytes(&i.instr)
                    } else {
                        let mut h = clone_bytes(&i.instr);
                        if h.len() < 7 {
                            let pad = 7 - h.len();
                            push_spaces(&mut h, pad);
                        }
                        proof {
                            assert(h@ =~= pad7(i@.instr));
                        }
                        h
                    };
                    let mut tail: Vec<u8> = Vec::new();
                    if i.args.len() > 0 {
                        tail.push(32);
                        let joined = join_args_exec(&i.args);
                        extend_bytes(&mut tail, joined.as_slice());
                    }
                    if debug_mode {
                        push_debug_suffix(&mut tail, i.rust_loc);
                    }
                    proof {
                        assert(tail@ =~= (if i@.args.len() > 0 {
                            seq![32u8] + join_args(i@.args)
                        } else {
                            Seq::<u8>::empty()
                        }) + (if debug_mode {
                            debug_suffix(i@.rust_loc)
                        } else {
                            Seq::<u8>::empty()
                        }));
                    }
                    let mut segments: Vec<(ColorClass, Vec<u8>)> = Vec::new();
                    segments.push((ColorClass::Instr, head));
                    if tail.len() > 0 {
                        segments.push((arg_color, tail));
                    }
                    let line = RenderedLine { indent, segments };
                    proof {
                        assert(line@.segments =~~= render_spec(
                            k@,
                            function@,
                            *target,
                            rust_mode,
                            print_comments,
                            print_directives,
                            debug_mode,
                        )->Some_0.segments);
                    }
                    Some(line)
                },
            }
        },
        Kind::Rust(r) => {
            if !rust_mode {
                return None;
            }
            let part = is_rust_in_function(function, r);
            let indent: usize = if part {
                1
            } else {
                5
            };
            let mut text = clone_bytes(&r.line);
            if part {
                if debug_mode {
                    push_debug_suffix(&mut text, Some(r.loc));
                }
            } else {
                text.push(32);
                text.push(40);
                extend_bytes(&mut text, r.path.as_slice());
                text.push(58);
                let digits = usize_to_dec(r.loc.file_line);
                extend_bytes(&mut text, digits.as_slice());
                text.push(41);
            }
            let mut segments: Vec<(ColorClass, Vec<u8>)> = Vec::new();
            segments.push((ColorClass::Emph, text));
            let line = RenderedLine { indent, segments };
            proof {
                assert(line@.segments =~~= render_spec(
                    k@,
                    function@,
                    *target,
                    rust_mode,
                    print_comments,
                    print_directives,
                    debug_mode,
                )->Some_0.segments);
            }
            Some(line)
        },
    }
}

/// Is every node an assembly node?
pub open spec fn all_asm(s: Seq<KindV>) -> bool {
    forall|i: int|
        0 <= i < s.len() ==> match #[trigger] s[i] {
            KindV::Asm(_) => true,
            KindV::Rust(_) => false,
        }
}

/// A statement list in which nothing resolves to a location merges with no
/// source lines at all.
proof fn lemma_merge_raw_no_rust(
    stmts: Seq<StatementV>,
    files: Seq<(usize, crate::rust::RFileV)>,
)
    requires
        crate::parse::all_unresolved(stmts),
    ensures
        all_asm(merge_raw(stmts, files)),
    decreases stmts.len(),
{
    if stmts.len() > 0 {
        assert(crate::parse::all_unresolved(stmts.drop_last())) by {
            assert forall|i: int|
                0 <= i < stmts.len() - 1 implies crate::ast::stmt_rust_loc(
                #[trigger] stmts.drop_last()[i],
            ) is None by {
                assert(stmts.drop_last()[i] == stmts[i]);
            }
        }
        lemma_merge_raw_no_rust(stmts.drop_last(), files);
        assert(stmt_rust_loc(stmts.last()) is None);
        assert(merge_emit(files, stmts.last()) =~= seq![KindV::Asm(stmts.last())]);
    }
}

/// Deduplication keeps a stream of assembly nodes free of source nodes.
proof fn lemma_dedup_all_asm(s: Seq<KindV>, last: Option<(usize, usize)>)
    requires
        all_asm(s),
    ensures
        all_asm(dedup_rust_from(s, last)),
    decreases s.len(),
{
    if s.len() > 0 {
        assert(all_asm(s.drop_first())) by {
            assert forall|i: int|
                0 <= i < s.len() - 1 implies match #[trigger] s.drop_first()[i] {
                KindV::Asm(_) => true,
                KindV::Rust(_) => false,
            } by {
                assert(s.drop_first()[i] == s[i + 1]);
            }
        }
        lemma_dedup_all_asm(s.drop_first(), last);
        assert(s.first() == s[0]);
        match s.first() {
            KindV::Asm(_) => {
                let out = seq![s.first()] + dedup_rust_from(s.drop_first(), last);
                assert forall|i: int|
                    0 <= i < out.len() implies match #[trigger] out[i] {
                    KindV::Asm(_) => true,
                    KindV::Rust(_) => false,
                } by {
                    if i > 0 {
                        assert(out[i] == dedup_rust_from(s.drop_first(), last)[i - 1]);
                    }
                }
            },
            KindV::Rust(_) => {
                assert(false);
            },
        }
    }
}

/// The boundary of interleaving: a function in which no statement resolves
/// to a location merges into a stream with no source-line node, however the
/// display switches stand.
pub proof fn lemma_interleaving_empty(
    stmts: Seq<StatementV>,
    files: Seq<(usize, crate::rust::RFileV)>,
)
    requires
        crate::parse::all_unresolved(stmts),
    ensures
        all_asm(dedup_rust(merge_raw(stmts, files))),
{
    lemma_merge_raw_no_rust(stmts, files);
    lemma_dedup_all_asm(merge_raw(stmts, files), None);
}

/// Does a path name an absolute location: a leading separator, or a drive
/// letter followed by a colon?
pub open spec fn is_absolute_spec(path: Seq<u8>) -> bool {
    path.len() > 0 && (crate::path::is_sep(path[0]) || (path.len() > 1 && path[1] == 58))
}

/// What making one path relative yields: a relative path stands; an
/// absolute path that holds the standard-library source fragment, or the
/// working directory, is cut down to what follows the first occurrence;
/// any other absolute path stands.
pub open spec fn relative_path_spec(
    path: Seq<u8>,
    rust_src: Seq<Seq<u8>>,
    cwd: Seq<Seq<u8>>,
    rv: Seq<u8>,
) -> bool {
    let cs = crate::path::components_of(path);
    if !is_absolute_spec(path) {
        rv == path
    } else if crate::path::comps_contain(cs, rust_src) {
        exists|rest: Seq<Seq<u8>>|
            #[trigger] crate::path::is_after(cs, rust_src, rest) && rv == crate::rust::join_slash(
                rest,
            )
    } else if crate::path::comps_contain(cs, cwd) {
        exists|rest: Seq<Seq<u8>>|
            #[trigger] crate::path::is_after(cs, cwd, rest) && rv == crate::rust::join_slash(rest)
    } else {
        rv == path
    }
}

/// Makes one path relative, as [`relative_path_spec`] says.
pub fn make_path_relative(path: &[u8], rust_src: &Vec<Vec<u8>>, cwd: &Vec<Vec<u8>>) -> (r: Vec<
    u8,
>)
    ensures
        relative_path_spec(
            path@,
            rust_src@.map_values(|t: Vec<u8>| t@),
            cwd@.map_values(|t: Vec<u8>| t@),
            r@,
        ),
{
    let absolute = path.len() > 0 && ({
        let first_sep = path[0] == 47 || path[0] == 92;
        first_sep || (path.len() > 1 && path[1] == 58)
    });
    if !absolute {
        let r = subrange_vec(path, 0, path.len());
        proof {
            assert(r@ =~= path@);
        }
        return r;
    }
    let cs = crate::path::split_components(path);
    if crate::path::contains(&cs, rust_src) {
        let rest = crate::path::after(&cs, rust_src);
        crate::rust::join_components(&rest)
    } else if crate::path::contains(&cs, cwd) {
        let rest = crate::path::after(&cs, cwd);
        crate::rust::join_components(&rest)
    } else {
        let r = subrange_vec(path, 0, path.len());
        proof {
            assert(r@ =~= path@);
        }
        r
    }
}

/// Makes the function's own path and every correlated file's path
/// relative: standard-library paths are shown from the library component
/// on, paths under the working directory from below it.
#[verifier::loop_isolation(false)]
pub fn make_paths_relative(
    function: &mut Function,
    rust: &mut Files,
    rust_src: &Vec<Vec<u8>>,
    cwd: &Vec<Vec<u8>>,
)
    requires
        old(rust).wf(),
    ensures
        final(rust).wf(),
        final(function)@.id == old(function)@.id,
        final(function)@.loc == old(function)@.loc,
        final(function)@.statements == old(function)@.statements,
        match (old(function)@.file, final(function)@.file) {
            (Some(of), Some(nf)) => nf.index == of.index && relative_path_spec(
                of.path,
                rust_src@.map_values(|t: Vec<u8>| t@),
                cwd@.map_values(|t: Vec<u8>| t@),
                nf.path,
            ),
            (None, None) => true,
            _ => false,
        },
        final(rust)@.len() == old(rust)@.len(),
        forall|j: int|
            0 <= j < old(rust)@.len() ==> (#[trigger] final(rust)@[j]).0 == old(rust)@[j].0
                && final(rust)@[j].1.lines == old(rust)@[j].1.lines
                && final(rust)@[j].1.ast.index == old(rust)@[j].1.ast.index
                && relative_path_spec(
                old(rust)@[j].1.ast.path,
                rust_src@.map_values(|t: Vec<u8>| t@),
                cwd@.map_values(|t: Vec<u8>| t@),
                final(rust)@[j].1.ast.path,
            ),
{
    match &mut function.file {
        Some(file) => {
            let new_path = make_path_relative(file.path.as_slice(), rust_src, cwd);
            file.path = new_path;
        },
        None => {},
    }
    let n = rust.files.len();
    let mut j: usize = 0;
    while j < n
        invariant
            0 <= j <= n,
            n == rust.files@.len(),
            rust@.len() == old(rust)@.len(),
            forall|v: int| 0 <= v < n ==> (#[trigger] rust@[v]).0 == old(rust)@[v].0,
            forall|v: int| 0 <= v < n ==> (#[trigger] rust@[v]).1.lines == old(rust)@[v].1.lines,
            forall|v: int|
                0 <= v < n ==> (#[trigger] rust@[v]).1.ast.index == old(rust)@[v].1.ast.index,
            forall|v: int|
                j <= v < n ==> (#[trigger] rust@[v]).1.ast.path == old(rust)@[v].1.ast.path,
            forall|v: int|
                0 <= v < j ==> relative_path_spec(
                    old(rust)@[v].1.ast.path,
                    rust_src@.map_values(|t: Vec<u8>| t@),
                    cwd@.map_values(|t: Vec<u8>| t@),
                    (#[trigger] rust@[v]).1.ast.path,
                ),
        decreases n - j,
    {
        proof {
            assert(rust@[j as int] == (rust.files@[j as int].0, rust.files@[j as int].1@));
        }
        let ghost pre = rust@;
        let ghost pre_vec = rust.files@;
        let mut entry = rust.files.remove(j);
        let new_path = make_path_relative(entry.1.ast.path.as_slice(), rust_src, cwd);
        entry.1.ast.path = new_path;
        rust.files.insert(j, entry);
        proof {
            assert(rust@.len() == rust.files@.len());
            assert forall|v: int| 0 <= v < n && v != j as int implies #[trigger] rust@[v]
                == pre[v] by {
                assert(rust@[v] == (rust.files@[v].0, rust.files@[v].1@));
                assert(rust.files@[v] == pre_vec[v]);
                assert(pre[v] == (pre_vec[v].0, pre_vec[v].1@));
            }
            assert(rust@[j as int] == (rust.files@[j as int].0, rust.files@[j as int].1@));
        }
        j += 1;
    }
    proof {
        assert(crate::rust::fm_wf(rust@)) by {
            assert forall|a: int, b: int|
                0 <= a < b < rust@.len() implies (#[trigger] rust@[a]).0 != (
                #[trigger] rust@[b]).0 by {
                assert(old(rust)@[a].0 != old(rust)@[b].0);
            }
        }
        assert forall|v: int| 0 <= v < rust@.len() implies crate::rust::lm_wf(
            (#[trigger] rust@[v]).1.lines,
        ) by {
            assert(rust@[v].1.lines == old(rust)@[v].1.lines);
            assert(crate::rust::lm_wf(old(rust)@[v].1.lines));
        }
    }
}

} // verus!
