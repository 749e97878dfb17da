//! The statement forms of an assembly function — labels, directives,
//! instructions and comments — with the per-line classifiers that recognise
//! each form, and the function that owns an ordered list of them.

use crate::bytes::{
    all_digits, bytes_eq, contains_spec, dec_value, ends_with, instr_fields, parse_usize,
    raw_fields, replace_all, replace_all_spec, split_instr_fields, split_on, split_ws,
    starts_with, starts_with_spec, subrange_vec, trim, trim_spec, ws_tokens,
};
use crate::lit::{
    bytes_b_dot, bytes_backslash, bytes_backslash_backslash, bytes_bl, bytes_call,
    bytes_dot_cv_file, bytes_dot_cv_filec, bytes_dot_cv_loc, bytes_dot_file, bytes_dot_l_upper,
    bytes_dot_loc, bytes_underscore_z, lit_b_dot, lit_backslash, lit_backslash_backslash, lit_bl,
    lit_call, lit_dot_cv_file, lit_dot_cv_filec, lit_dot_cv_loc, lit_dot_file, lit_dot_l_upper,
    lit_dot_loc, lit_underscore_z,
};
use crate::demangle::{demangle, demangle_spec, demangled_of};
use crate::target::TargetInfo;
use vstd::prelude::*;

verus! {

/// A resolved debug location: source file index, line and column.
#[derive(PartialEq, Eq, Structural, Debug, Copy, Clone)]
pub struct Loc {
    pub file_index: usize,
    pub file_line: usize,
    pub file_column: usize,
}

/// An assembly label, e.g. `LBB0:`, with the trailing `:` stripped.
#[derive(Debug, Clone)]
pub struct Label {
    pub id: Vec<u8>,
    pub rust_loc: Option<Loc>,
}

/// The model of a [`Label`].
pub struct LabelV {
    pub id: Seq<u8>,
    pub rust_loc: Option<Loc>,
}

impl View for Label {
    type V = LabelV;

    open spec fn view(&self) -> LabelV {
        LabelV { id: self.id@, rust_loc: self.rust_loc }
    }
}

/// A `.file` directive: a source path declared for a file index.
#[derive(Debug, Clone)]
pub struct File {
    pub path: Vec<u8>,
    pub index: usize,
}

/// The model of a [`File`].
pub struct FileV {
    pub path: Seq<u8>,
    pub index: usize,
}

impl View for File {
    type V = FileV;

    open spec fn view(&self) -> FileV {
        FileV { path: self.path@, index: self.index }
    }
}

/// A directive the grammar does not break down further.
#[derive(Debug, Clone)]
pub struct GenericDirective {
    pub string: Vec<u8>,
}

impl View for GenericDirective {
    type V = Seq<u8>;

    open spec fn view(&self) -> Seq<u8> {
        self.string@
    }
}

/// An assembly directive: a `.file`, a `.loc`, or anything else that starts
/// with a dot and does not end in a colon.
#[derive(Debug, Clone)]
pub enum Directive {
    File(File),
    Loc(Loc),
    Generic(GenericDirective),
}

/// The model of a [`Directive`].
pub enum DirectiveV {
    File(FileV),
    Loc(Loc),
    Generic(Seq<u8>),
}

impl View for Directive {
    type V = DirectiveV;

    open spec fn view(&self) -> DirectiveV {
        match self {
            Directive::File(f) => DirectiveV::File(f@),
            Directive::Loc(l) => DirectiveV::Loc(*l),
            Directive::Generic(g) => DirectiveV::Generic(g@),
        }
    }
}

/// An assembly comment: a line part that starts with `;`.
#[derive(Debug, Clone)]
pub struct Comment {
    pub string: Vec<u8>,
}

impl View for Comment {
    type V = Seq<u8>;

    open spec fn view(&self) -> Seq<u8> {
        self.string@
    }
}

/// An instruction: the mnemonic and its operands.
#[derive(Debug, Clone)]
pub struct Instruction {
    pub instr: Vec<u8>,
    pub args: Vec<Vec<u8>>,
    pub rust_loc: Option<Loc>,
}

/// The model of an [`Instruction`].
pub struct InstrV {
    pub instr: Seq<u8>,
    pub args: Seq<Seq<u8>>,
    pub rust_loc: Option<Loc>,
}

impl View for Instruction {
    type V = InstrV;

    open spec fn view(&self) -> InstrV {
        InstrV {
            instr: self.instr@,
            args: self.args@.map_values(|a: Vec<u8>| a@),
            rust_loc: self.rust_loc,
        }
    }
}

/// One parsed line part: exactly one of the four statement forms.
#[derive(Debug, Clone)]
pub enum Statement {
    Label(Label),
    Directive(Directive),
    Instruction(Instruction),
    Comment(Comment),
}

/// The model of a [`Statement`].
pub enum StatementV {
    Label(LabelV),
    Directive(DirectiveV),
    Instruction(InstrV),
    Comment(Seq<u8>),
}

impl View for Statement {
    type V = StatementV;

    open spec fn view(&self) -> StatementV {
        match self {
            Statement::Label(l) => StatementV::Label(l@),
            Statement::Directive(d) => StatementV::Directive(d@),
            Statement::Instruction(i) => StatementV::Instruction(i@),
            Statement::Comment(c) => StatementV::Comment(c@),
        }
    }
}

/// The structured form of one assembly function: its path, its defining
/// source file and location where they could be resolved, and its statements
/// in source order.
#[derive(Debug, Clone)]
pub struct Function {
    pub id: Vec<u8>,
    pub file: Option<File>,
    pub loc: Option<Loc>,
    pub statements: Vec<Statement>,
}

/// The model of a [`Function`].
pub struct FunctionV {
    pub id: Seq<u8>,
    pub file: Option<FileV>,
    pub loc: Option<Loc>,
    pub statements: Seq<StatementV>,
}

impl View for Function {
    type V = FunctionV;

    open spec fn view(&self) -> FunctionV {
        FunctionV {
            id: self.id@,
            file: match self.file {
                Some(ref f) => Some(f@),
                None => None,
            },
            loc: self.loc,
            statements: self.statements@.map_values(|s: Statement| s@),
        }
    }
}

/// The directive grammar: the line starts with `.` and does not end in `:`
/// (such lines are labels).
pub open spec fn is_directive_spec(s: Seq<u8>) -> bool {
    s.len() > 0 && s[0] == 46 && s[s.len() - 1] != 58
}

/// Does the line match the directive grammar?
pub fn is_directive(s: &[u8]) -> (r: bool)
    ensures
        r == is_directive_spec(s@),
{
    s.len() > 0 && s[0] == 46 && s[s.len() - 1] != 58
}

/// The token that opens a `.file` directive in the target's dialect.
pub open spec fn file_label_spec(s: Seq<u8>, windows: bool) -> bool {
    if windows {
        starts_with_spec(s, lit_dot_cv_file()) && !starts_with_spec(s, lit_dot_cv_filec())
    } else {
        starts_with_spec(s, lit_dot_file())
    }
}

/// A non-empty string of digits whose value fits in `usize`.
pub open spec fn valid_usize(t: Seq<u8>) -> bool {
    t.len() > 0 && all_digits(t) && dec_value(t) <= usize::MAX
}

/// What a line yields as a `.file` directive: the first quoted token is the
/// path (doubled backslashes collapsed on Windows), the second
/// whitespace-separated token the file index, read as `0` where it is not a
/// numeral.
pub open spec fn file_of(s: Seq<u8>, windows: bool) -> Option<FileV> {
    if !file_label_spec(s, windows) {
        None
    } else {
        let q = raw_fields(s, 34);
        let w = ws_tokens(s);
        if q.len() < 2 || w.len() < 2 {
            None
        } else {
            let path0 = trim_spec(q[1]);
            let path = if windows {
                replace_all_spec(path0, lit_backslash_backslash(), lit_backslash())
            } else {
                path0
            };
            let index: usize = if valid_usize(w[1]) {
                dec_value(w[1]) as usize
            } else {
                0
            };
            Some(FileV { path, index })
        }
    }
}

impl File {
    /// Reads a line as a `.file` directive of the target's dialect.
    pub fn new(s: &[u8], target: &TargetInfo) -> (r: Option<File>)
        ensures
            match r {
                Some(f) => file_of(s@, target.is_windows_spec()) == Some(f@),
                None => file_of(s@, target.is_windows_spec()) is None,
            },
    {
        let windows = target.is_windows();
        let matched = if windows {
            starts_with(s, bytes_dot_cv_file().as_slice()) && !starts_with(
                s,
                bytes_dot_cv_filec().as_slice(),
            )
        } else {
            starts_with(s, bytes_dot_file().as_slice())
        };
        if !matched {
            return None;
        }
        let q = split_on(s, 34);
        let w = split_ws(s);
        if q.len() < 2 || w.len() < 2 {
            return None;
        }
        proof {
            assert(q@.map_values(|t: Vec<u8>| t@)[1] == q@[1]@);
            assert(w@.map_values(|t: Vec<u8>| t@)[1] == w@[1]@);
        }
        let path0 = trim(q[1].as_slice());
        let path = if windows {
            replace_all(
                path0.as_slice(),
                bytes_backslash_backslash().as_slice(),
                bytes_backslash().as_slice(),
            )
        } else {
            path0
        };
        let index: usize = match parse_usize(w[1].as_slice()) {
            Some(v) => v,
            None => 0,
        };
        Some(File { path, index })
    }

    /// A `.file` directive carries no resolved location of its own.
    pub fn rust_loc(&self) -> (r: Option<Loc>)
        ensures
            r is None,
    {
        None
    }
}

/// The token that marks a `.loc` directive in the target's dialect.
pub open spec fn loc_label_spec(s: Seq<u8>, windows: bool) -> bool {
    if windows {
        contains_spec(s, lit_dot_cv_loc())
    } else {
        contains_spec(s, lit_dot_loc())
    }
}

/// What a line yields as a `.loc` directive: file index and line, with the
/// column read as `0` where the dialect omits it.  On Windows the first token
/// after the directive is a function id, so every position shifts by one.
pub open spec fn loc_of(s: Seq<u8>, windows: bool) -> Option<Loc> {
    if !loc_label_spec(s, windows) {
        None
    } else {
        let toks = ws_tokens(s);
        let ii: int = if windows {
            2
        } else {
            1
        };
        if toks.len() <= ii + 1 {
            None
        } else if !valid_usize(toks[ii]) || !valid_usize(toks[ii + 1]) {
            None
        } else if toks.len() > ii + 2 && !valid_usize(toks[ii + 2]) {
            None
        } else {
            Some(
                Loc {
                    file_index: dec_value(toks[ii]) as usize,
                    file_line: dec_value(toks[ii + 1]) as usize,
                    file_column: if toks.len() > ii + 2 {
                        dec_value(toks[ii + 2]) as usize
                    } else {
                        0
                    },
                },
            )
        }
    }
}

impl Loc {
    /// Reads a line as a `.loc` directive of the target's dialect.
    pub fn new(s: &[u8], target: &TargetInfo) -> (r: Option<Loc>)
        ensures
            r == loc_of(s@, target.is_windows_spec()),
    {
        let windows = target.is_windows();
        let matched = if windows {
            crate::bytes::contains_sub(s, bytes_dot_cv_loc().as_slice())
        } else {
            crate::bytes::contains_sub(s, bytes_dot_loc().as_slice())
        };
        if !matched {
            return None;
        }
        let toks = split_ws(s);
        let ii: usize = if windows {
            2
        } else {
            1
        };
        if toks.len() <= ii + 1 {
            return None;
        }
        proof {
            assert(toks@.map_values(|t: Vec<u8>| t@)[ii as int] == toks@[ii as int]@);
            assert(toks@.map_values(|t: Vec<u8>| t@)[ii + 1] == toks@[ii + 1]@);
        }
        let file_index = match parse_usize(toks[ii].as_slice()) {
            Some(v) => v,
            None => {
                return None;
            },
        };
        let file_line = match parse_usize(toks[ii + 1].as_slice()) {
            Some(v) => v,
            None => {
                return None;
            },
        };
        let file_column: usize = if toks.len() > ii + 2 {
            proof {
                assert(toks@.map_values(|t: Vec<u8>| t@)[ii + 2] == toks@[ii + 2]@);
            }
            match parse_usize(toks[ii + 2].as_slice()) {
                Some(v) => v,
                None => {
                    return None;
                },
            }
        } else {
            0
        };
        Some(Loc { file_index, file_line, file_column })
    }

    /// A `.loc` directive resolves to itself.
    pub fn rust_loc(&self) -> (r: Option<Loc>)
        ensures
            r == Some(*self),
    {
        Some(*self)
    }
}

/// What a line yields as a generic directive: its trimmed text.
pub open spec fn generic_of(s: Seq<u8>) -> Option<Seq<u8>> {
    if is_directive_spec(s) {
        Some(trim_spec(s))
    } else {
        None
    }
}

impl GenericDirective {
    /// Reads a line as a generic directive.
    pub fn new(s: &[u8]) -> (r: Option<GenericDirective>)
        ensures
            match r {
                Some(g) => generic_of(s@) == Some(g@),
                None => generic_of(s@) is None,
            },
    {
        if is_directive(s) {
            Some(GenericDirective { string: trim(s) })
        } else {
            None
        }
    }

    /// A generic directive carries no resolved location.
    pub fn rust_loc(&self) -> (r: Option<Loc>)
        ensures
            r is None,
    {
        None
    }
}

/// What a line yields as a directive: a `.file` first, a `.loc` second, and
/// any other dot-line as a generic directive.
pub open spec fn directive_of(s: Seq<u8>, windows: bool) -> Option<DirectiveV> {
    if is_directive_spec(s) {
        match file_of(s, windows) {
            Some(f) => Some(DirectiveV::File(f)),
            None => match loc_of(s, windows) {
                Some(l) => Some(DirectiveV::Loc(l)),
                None => Some(DirectiveV::Generic(trim_spec(s))),
            },
        }
    } else {
        None
    }
}

impl Directive {
    /// Reads a line as a directive of the target's dialect.
    pub fn new(s: &[u8], target: &TargetInfo) -> (r: Option<Directive>)
        ensures
            match r {
                Some(d) => directive_of(s@, target.is_windows_spec()) == Some(d@),
                None => directive_of(s@, target.is_windows_spec()) is None,
            },
    {
        if !is_directive(s) {
            return None;
        }
        if let Some(file) = File::new(s, target) {
            return Some(Directive::File(file));
        }
        if let Some(loc) = Loc::new(s, target) {
            return Some(Directive::Loc(loc));
        }
        Some(Directive::Generic(GenericDirective { string: trim(s) }))
    }

    /// Only a `.loc` directive resolves to a location.
    pub fn rust_loc(&self) -> (r: Option<Loc>)
        ensures
            r == directive_rust_loc(self@),
    {
        match *self {
            Directive::File(ref f) => f.rust_loc(),
            Directive::Loc(ref l) => l.rust_loc(),
            Directive::Generic(ref g) => g.rust_loc(),
        }
    }

    /// The `.file` payload, where this is one.
    pub fn file(&self) -> (r: Option<File>)
        ensures
            match self@ {
                DirectiveV::File(f) => r is Some && r->0@ == f,
                _ => r is None,
            },
    {
        match *self {
            Directive::File(ref f) => {
                let path = subrange_vec(f.path.as_slice(), 0, f.path.len());
                proof {
                    assert(path@ =~= f.path@);
                }
                Some(File { path, index: f.index })
            },
            _ => None,
        }
    }

    /// The `.loc` payload, where this is one.
    pub fn loc(&self) -> (r: Option<Loc>)
        ensures
            match self@ {
                DirectiveV::Loc(l) => r == Some(l),
                _ => r is None,
            },
    {
        match *self {
            Directive::Loc(ref l) => Some(*l),
            _ => None,
        }
    }
}

/// The location a directive resolves to: a `.loc` resolves to itself.
pub open spec fn directive_rust_loc(d: DirectiveV) -> Option<Loc> {
    match d {
        DirectiveV::Loc(l) => Some(l),
        _ => None,
    }
}

/// What a line yields as a label: any line ending in `:`, its id the trimmed
/// text before the colon, tagged with the current location.
pub open spec fn label_of(s: Seq<u8>, cur: Option<Loc>) -> Option<LabelV> {
    if s.len() > 0 && s[s.len() - 1] == 58 {
        Some(LabelV { id: trim_spec(s.drop_last()), rust_loc: cur })
    } else {
        None
    }
}

impl Label {
    /// Reads a line as a label, tagging it with the current location.
    pub fn new(s: &[u8], rust_loc: Option<Loc>) -> (r: Option<Label>)
        ensures
            match r {
                Some(l) => label_of(s@, rust_loc) == Some(l@),
                None => label_of(s@, rust_loc) is None,
            },
    {
        let n = s.len();
        if n > 0 && s[n - 1] == 58 {
            let head = subrange_vec(s, 0, n - 1);
            proof {
                assert(s@.subrange(0, n - 1) =~= s@.drop_last());
            }
            Some(Label { id: trim(head.as_slice()), rust_loc })
        } else {
            None
        }
    }

    /// The location the label was tagged with.
    pub fn rust_loc(&self) -> (r: Option<Loc>)
        ensures
            r == self@.rust_loc,
    {
        self.rust_loc
    }
}

/// What a line yields as a comment: any line starting with `;`, trimmed.
pub open spec fn comment_of(s: Seq<u8>) -> Option<Seq<u8>> {
    if s.len() > 0 && s[0] == 59 {
        Some(trim_spec(s))
    } else {
        None
    }
}

impl Comment {
    /// Reads a line as a comment.
    pub fn new(s: &[u8]) -> (r: Option<Comment>)
        ensures
            match r {
                Some(c) => comment_of(s@) == Some(c@),
                None => comment_of(s@) is None,
            },
    {
        if s.len() > 0 && s[0] == 59 {
            Some(Comment { string: trim(s) })
        } else {
            None
        }
    }

    /// A comment carries no resolved location.
    pub fn rust_loc(&self) -> (r: Option<Loc>)
        ensures
            r is None,
    {
        None
    }
}

/// The operand fields that are kept: the non-empty ones.
pub open spec fn nonempty_fields(fs: Seq<Seq<u8>>) -> Seq<Seq<u8>> {
    fs.filter(|t: Seq<u8>| t.len() > 0)
}

/// The jump test of the target's architecture family, on the mnemonic and
/// operands.
pub open spec fn is_jump_spec(instr: Seq<u8>, args: Seq<Seq<u8>>, t: TargetInfo) -> bool {
    if t.is_intel_family_spec() {
        instr.len() > 0 && instr[0] == 106 && args.len() == 1
    } else if t.is_aarch64_spec() {
        instr =~= seq![98u8] || starts_with_spec(instr, lit_b_dot())
    } else if t.is_arm_spec() || t.is_sparc_spec() {
        exists|k: int| 0 <= k < args.len() && starts_with_spec(#[trigger] args[k], lit_dot_l_upper())
    } else if t.is_power_spec() {
        instr.len() > 0 && instr[0] == 98 && !(instr =~= lit_bl()) && args.len() == 2
    } else if t.is_mips_spec() {
        instr.len() > 1 && instr[0] == 98
    } else {
        false
    }
}

/// The call test of the target's architecture family, on the mnemonic.
pub open spec fn is_call_spec(instr: Seq<u8>, t: TargetInfo) -> bool {
    if t.is_intel_family_spec() || t.is_sparc_spec() {
        starts_with_spec(instr, lit_call())
    } else if t.is_aarch64_spec() || t.is_power_spec() || t.is_arm_spec() {
        instr =~= lit_bl()
    } else {
        false
    }
}

/// How one operand is rewritten on MIPS targets: the run from the first `_Z`
/// to the first `)` is demangled and every occurrence of it replaced, where
/// both markers occur in that order.
pub open spec fn mips_rewrite(a: Seq<u8>, linux: bool) -> Seq<u8> {
    if !contains_spec(a, lit_underscore_z()) || !contains_spec(a, seq![41u8]) {
        a
    } else {
        let f = crate::bytes::first_match(a, lit_underscore_z());
        let l = crate::bytes::first_match(a, seq![41u8]);
        if l <= f {
            a
        } else {
            let name = a.subrange(f, l);
            replace_all_spec(a, name, demangle_spec(name, linux))
        }
    }
}

/// How the operand list is rewritten at construction: on MIPS every operand
/// is inspected; elsewhere a call instruction has its first operand
/// demangled.
pub open spec fn demangled_args(instr: Seq<u8>, args: Seq<Seq<u8>>, t: TargetInfo) -> Seq<Seq<u8>> {
    if t.is_mips_spec() {
        args.map_values(|a: Seq<u8>| mips_rewrite(a, t.is_linux_spec()))
    } else if is_call_spec(instr, t) && args.len() > 0 {
        args.update(0, demangle_spec(args[0], t.is_linux_spec()))
    } else {
        args
    }
}

/// What a line yields as an instruction: the first field (split at
/// whitespace and commas) is the mnemonic, the remaining non-empty fields the
/// operands, rewritten by [`demangled_args`] and tagged with the current
/// location.
pub open spec fn instruction_of(s: Seq<u8>, cur: Option<Loc>, t: TargetInfo) -> InstrV {
    let fs = instr_fields(s);
    let args = nonempty_fields(fs.drop_first());
    InstrV { instr: fs[0], args: demangled_args(fs[0], args, t), rust_loc: cur }
}

impl Instruction {
    /// Reads a line as an instruction; every line yields one.
    pub fn new(s: &[u8], rust_loc: Option<Loc>, target: &TargetInfo) -> (r: Option<Instruction>)
        ensures
            match r {
                Some(i) => i@ == instruction_of(s@, rust_loc, *target),
                None => false,
            },
    {
        let fs = split_instr_fields(s);
        let ghost fs_v = fs@.map_values(|t: Vec<u8>| t@);
        proof {
            assert(fs_v[0] == fs@[0]@);
        }
        let instr = subrange_vec(fs[0].as_slice(), 0, fs[0].len());
        proof {
            assert(instr@ =~= fs_v[0]);
        }
        let mut args: Vec<Vec<u8>> = Vec::new();
        let mut k: usize = 1;
        proof {
            assert(fs_v.subrange(1, 1).filter(|t: Seq<u8>| t.len() > 0) =~~= args@.map_values(
                |a: Vec<u8>| a@,
            )) by {
                reveal_with_fuel(Seq::filter, 1);
            }
        }
        while k < fs.len()
            invariant
                1 <= k <= fs@.len(),
                fs_v == fs@.map_values(|t: Vec<u8>| t@),
                args@.map_values(|a: Vec<u8>| a@) == fs_v.subrange(1, k as int).filter(
                    |t: Seq<u8>| t.len() > 0,
                ),
            decreases fs@.len() - k,
        {
            let ghost pre = fs_v.subrange(1, k as int);
            proof {
                assert(fs_v[k as int] == fs@[k as int]@);
            }
            if fs[k].len() > 0 {
                let a = subrange_vec(fs[k].as_slice(), 0, fs[k].len());
                proof {
                    assert(a@ =~= fs_v[k as int]);
                }
                args.push(a);
            }
            k += 1;
            proof {
                let cur_pre = fs_v.subrange(1, k as int);
                assert(cur_pre.drop_last() =~= pre);
                assert(cur_pre.last() == fs_v[k - 1]);
                reveal_with_fuel(Seq::filter, 1);
                if fs_v[k - 1].len() > 0 {
                    assert(args@.map_values(|a: Vec<u8>| a@) =~~= cur_pre.filter(
                        |t: Seq<u8>| t.len() > 0,
                    ));
                } else {
                    assert(args@.map_values(|a: Vec<u8>| a@) =~~= cur_pre.filter(
                        |t: Seq<u8>| t.len() > 0,
                    ));
                }
            }
        }
        proof {
            assert(fs_v.subrange(1, fs_v.len() as int) =~= fs_v.drop_first());
        }
        let mut v = Instruction { instr, args, rust_loc };
        v.demangle_args(target);
        Some(v)
    }

    /// Rewrites the operands as [`demangled_args`] says.
    #[verifier::rlimit(60)]
    fn demangle_args(&mut self, target: &TargetInfo)
        ensures
            final(self)@.instr == old(self)@.instr,
            final(self)@.rust_loc == old(self)@.rust_loc,
            final(self)@.args == demangled_args(old(self)@.instr, old(self)@.args, *target),
    {
        if target.is_mips() {
            let n = self.args.len();
            let mut k: usize = 0;
            while k < n
                invariant
                    0 <= k <= n,
                    n == self.args@.len(),
                    n == old(self)@.args.len(),
                    self.instr@ == old(self)@.instr,
                    self.rust_loc == old(self)@.rust_loc,
                    target.is_mips_spec(),
                    forall|j: int| k <= j < n ==> #[trigger] self.args@[j]@ == old(self)@.args[j],
                    forall|j: int|
                        0 <= j < k ==> #[trigger] self.args@[j]@ == mips_rewrite(
                            old(self)@.args[j],
                            target.is_linux_spec(),
                        ),
                decreases n - k,
            {
                let arg = self.args.remove(k);
                proof {
                    assert(arg@ == old(self)@.args[k as int]);
                }
                let new_arg = mips_rewrite_exec(arg.as_slice(), target);
                self.args.insert(k, new_arg);
                k += 1;
            }
            proof {
                assert(self.args@.map_values(|a: Vec<u8>| a@) =~~= old(self)@.args.map_values(
                    |a: Seq<u8>| mips_rewrite(a, target.is_linux_spec()),
                )) by {
                    assert(forall|j: int|
                        0 <= j < n ==> self.args@.map_values(|a: Vec<u8>| a@)[j] == #[trigger] self.args@[j]@);
                }
            }
        } else if self.is_call(target) {
            if self.args.len() > 0 {
                let first = self.args.remove(0);
                let new_first = demangle(first.as_slice(), target);
                self.args.insert(0, new_first);
                proof {
                    assert(self.args@.map_values(|a: Vec<u8>| a@) =~~= old(self)@.args.update(
                        0,
                        demangle_spec(old(self)@.args[0], target.is_linux_spec()),
                    )) by {
                        assert(forall|j: int|
                            0 <= j < self.args@.len() ==> self.args@.map_values(|a: Vec<u8>| a@)[j]
                                == #[trigger] self.args@[j]@);
                    }
                }
            }
        }
    }

    /// The jump test of the target's architecture family.
    pub fn is_jump(&self, target: &TargetInfo) -> (r: bool)
        ensures
            r == is_jump_spec(self@.instr, self@.args, *target),
    {
        if target.is_x86() || target.is_i386() || target.is_i586() || target.is_i686() {
            self.instr.len() > 0 && self.instr[0] == 106 && self.args.len() == 1
        } else if target.is_aarch64() {
            let b_single = self.instr.len() == 1 && self.instr[0] == 98;
            proof {
                if b_single {
                    assert(self.instr@ =~= seq![98u8]);
                }
            }
            b_single || starts_with(self.instr.as_slice(), bytes_b_dot().as_slice())
        } else if target.is_arm() || target.is_sparc() {
            let n = self.args.len();
            let mut k: usize = 0;
            let mut found = false;
            while k < n
                invariant
                    0 <= k <= n,
                    n == self.args@.len(),
                    found == exists|j: int|
                        0 <= j < k && starts_with_spec(#[trigger] self.args@[j]@, lit_dot_l_upper()),
                decreases n - k,
            {
                if starts_with(self.args[k].as_slice(), bytes_dot_l_upper().as_slice()) {
                    found = true;
                }
                k += 1;
            }
            proof {
                assert(found == is_jump_spec(self@.instr, self@.args, *target)) by {
                    assert(forall|j: int|
                        0 <= j < n ==> self.args@.map_values(|a: Vec<u8>| a@)[j]
                            == #[trigger] self.args@[j]@);
                }
            }
            found
        } else if target.is_power() {
            let not_bl = !bytes_eq(self.instr.as_slice(), bytes_bl().as_slice());
            self.instr.len() > 0 && self.instr[0] == 98 && not_bl && self.args.len() == 2
        } else if target.is_mips() {
            self.instr.len() > 1 && self.instr[0] == 98
        } else {
            false
        }
    }

    /// The call test of the target's architecture family.
    pub fn is_call(&self, target: &TargetInfo) -> (r: bool)
        ensures
            r == is_call_spec(self@.instr, *target),
    {
        if target.is_x86() || target.is_i386() || target.is_i586() || target.is_i686()
            || target.is_sparc() {
            starts_with(self.instr.as_slice(), bytes_call().as_slice())
        } else if target.is_aarch64() || target.is_power() || target.is_arm() {
            bytes_eq(self.instr.as_slice(), bytes_bl().as_slice())
        } else {
            false
        }
    }

    /// The location the instruction was tagged with.
    pub fn rust_loc(&self) -> (r: Option<Loc>)
        ensures
            r == self@.rust_loc,
    {
        self.rust_loc
    }
}

/// Rewrites one operand as MIPS inspection does.
fn mips_rewrite_exec(a: &[u8], target: &TargetInfo) -> (r: Vec<u8>)
    ensures
        r@ == mips_rewrite(a@, target.is_linux_spec()),
{
    let z = bytes_underscore_z();
    let mut paren: Vec<u8> = Vec::new();
    paren.push(41);
    proof {
        assert(paren@ =~= seq![41u8]);
    }
    let f = match crate::bytes::find_sub(a, z.as_slice()) {
        Some(f) => f,
        None => {
            return subrange_vec(a, 0, a.len());
        },
    };
    let l = match crate::bytes::find_sub(a, paren.as_slice()) {
        Some(l) => l,
        None => {
            return subrange_vec(a, 0, a.len());
        },
    };
    proof {
        crate::bytes::lemma_first_match_is(a@, lit_underscore_z(), f as int);
        crate::bytes::lemma_first_match_is(a@, seq![41u8], l as int);
        assert(a@.subrange(0, a@.len() as int) =~= a@);
    }
    if l <= f {
        return subrange_vec(a, 0, a.len());
    }
    let name = subrange_vec(a, f, l);
    let demangled = demangle(name.as_slice(), target);
    replace_all(a, name.as_slice(), demangled.as_slice())
}

/// The location a statement resolves to: labels and instructions carry the
/// location they were tagged with, a `.loc` directive resolves to itself,
/// and everything else to nothing.
pub open spec fn stmt_rust_loc(s: StatementV) -> Option<Loc> {
    match s {
        StatementV::Label(l) => l.rust_loc,
        StatementV::Directive(d) => directive_rust_loc(d),
        StatementV::Instruction(i) => i.rust_loc,
        StatementV::Comment(_) => None,
    }
}

impl Statement {
    /// The location this statement resolves to.
    pub fn rust_loc(&self) -> (r: Option<Loc>)
        ensures
            r == stmt_rust_loc(self@),
    {
        match self {
            Statement::Label(ref l) => l.rust_loc(),
            Statement::Directive(ref d) => d.rust_loc(),
            Statement::Instruction(ref i) => i.rust_loc(),
            Statement::Comment(ref c) => c.rust_loc(),
        }
    }
}

/// Collapses doubled backslashes, as Windows paths in directives need.
pub fn replace_slashes(s: &mut Vec<u8>)
    ensures
        final(s)@ == replace_all_spec(
            old(s)@,
            lit_backslash_backslash(),
            lit_backslash(),
        ),
{
    let n = replace_all(
        s.as_slice(),
        bytes_backslash_backslash().as_slice(),
        bytes_backslash().as_slice(),
    );
    *s = n;
}

/// How a comment-free line part is classified: a directive first, then a
/// label, and anything left an instruction.
pub open spec fn classify_spec(s: Seq<u8>, cur: Option<Loc>, t: TargetInfo) -> StatementV {
    match directive_of(s, t.is_windows_spec()) {
        Some(d) => StatementV::Directive(d),
        None => match label_of(s, cur) {
            Some(l) => StatementV::Label(l),
            None => StatementV::Instruction(instruction_of(s, cur, t)),
        },
    }
}

/// Classifies a comment-free line part into exactly one statement form.
pub fn classify_statement(s: &[u8], cur: Option<Loc>, target: &TargetInfo) -> (r: Statement)
    ensures
        r@ == classify_spec(s@, cur, *target),
{
    if let Some(d) = Directive::new(s, target) {
        return Statement::Directive(d);
    }
    if let Some(l) = Label::new(s, cur) {
        return Statement::Label(l);
    }
    match Instruction::new(s, cur, target) {
        Some(i) => Statement::Instruction(i),
        None => {
            proof {
                assert(false);
            }
            Statement::Comment(Comment { string: Vec::new() })
        },
    }
}

/// Classification yields exactly one statement form: a directive line is
/// never also read as a label or an instruction, a label line never as an
/// instruction, and a comment-free part never as a comment.  The line is a
/// directive exactly when it matches the directive grammar, a label exactly
/// when it ends in `:` without being a directive, and an instruction in
/// every remaining case.
pub proof fn lemma_classification_exclusive(s: Seq<u8>, cur: Option<Loc>, t: TargetInfo)
    ensures
        classify_spec(s, cur, t) is Directive <==> is_directive_spec(s),
        classify_spec(s, cur, t) is Label <==> (!is_directive_spec(s) && s.len() > 0 && s[s.len()
            - 1] == 58),
        classify_spec(s, cur, t) is Instruction <==> (!is_directive_spec(s) && !(s.len() > 0
            && s[s.len() - 1] == 58)),
        !(classify_spec(s, cur, t) is Comment),
{
}

} // verus!
