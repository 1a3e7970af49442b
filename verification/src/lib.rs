//! A conditional-compilation text preprocessor for SLEIGH-style source
//! trees: it expands `$(NAME)` references, evaluates the `@if`/`@ifdef`
//! directive family against a definition table, resolves `@include`s
//! through an explicit file table, and records source locations so a
//! downstream consumer can map any output line back to its origin. The
//! behaviour of a whole run is pinned down by the specification interpreter
//! `spec_run_file`, which the engine is proved to implement.

use vstd::prelude::*;

pub mod boolean_expression;
pub mod conditional_helper;
pub mod directive;
pub mod errors;
pub mod location;
pub mod table;
pub mod text;

use boolean_expression::{ident_end, spec_parse_boolean_expression};
use conditional_helper::ConditionalHelper;
use directive::{is_full_comment, spec_classify, strip_comment, DirectiveV};
use errors::{ErrorV, PreprocessorErrorV};
use location::LocationV;
use table::Table;
use text::{bytes_of_str, dec_digits, out_line_count, spec_split_lines};

verus! {

/// The definition table: identifier to string value, keys unique,
/// case-sensitive.
pub type Definitions = Table<Vec<u8>>;

/// The lines of one source file.
#[derive(Debug)]
pub struct SourceLines {
    pub lines: Vec<Vec<u8>>,
}

impl View for SourceLines {
    type V = Seq<Seq<u8>>;

    open spec fn view(&self) -> Seq<Seq<u8>> {
        text::seq_bytes_view(self.lines@)
    }
}

impl SourceLines {
    /// Splits a file's text into its lines.
    pub fn from_text(content: &Vec<u8>) -> (r: Self)
        ensures
            r@ == spec_split_lines(content@),
    {
        SourceLines { lines: text::split_lines(content) }
    }
}

/// The file table: every file the run may read, by path.
pub type FileTable = Table<SourceLines>;

/// How deep `@include` chains may nest before the run is refused; a guard
/// against include cycles.
pub const MAX_INCLUDE_DEPTH: u64 = 64;

/// The full engine state while one file is processed: its path, the live
/// definition table, the location list, the output text so far, the
/// conditional stack, and the local and overall line counters.
#[verifier::ext_equal]
pub ghost struct StV {
    pub path: Seq<u8>,
    pub defs: Map<Seq<u8>, Seq<u8>>,
    pub locs: Seq<LocationV>,
    pub out: Seq<u8>,
    pub stack: Seq<ConditionalHelper>,
    pub line_no: int,
    pub overall: int,
}

/// The global emission decision: every level of the stack must want its
/// lines copied.
pub open spec fn spec_copy_all(stack: Seq<ConditionalHelper>) -> bool {
    forall|i: int| 0 <= i < stack.len() ==> stack[i].copy
}

/// Where the variable reference pattern `$(NAME)` matches at position `j`.
pub open spec fn match_at(s: Seq<u8>, j: int) -> bool {
    &&& 0 <= j < s.len()
    &&& s[j] == 36
    &&& j + 1 < s.len()
    &&& s[j + 1] == 40
    &&& ident_end(s, j + 2) > j + 2
    &&& ident_end(s, j + 2) < s.len()
    &&& s[ident_end(s, j + 2)] == 41
}

/// The leftmost variable reference at or after `i`: its start and the
/// position right after its closing parenthesis.
pub open spec fn find_expansion(s: Seq<u8>, i: int) -> Option<(int, int)>
    decreases s.len() - i,
{
    if !(0 <= i < s.len()) {
        Option::None
    } else if match_at(s, i) {
        Option::Some((i, ident_end(s, i + 2) + 1))
    } else {
        find_expansion(s, i + 1)
    }
}

pub proof fn lemma_find_expansion_bounds(s: Seq<u8>, i: int)
    requires
        0 <= i <= s.len(),
    ensures
        find_expansion(s, i) matches Option::Some(m) ==> i <= m.0 && m.0 + 4 <= m.1 <= s.len()
            && match_at(s, m.0) && m.1 == ident_end(s, m.0 + 2) + 1,
    decreases s.len() - i,
{
    if i < s.len() {
        if match_at(s, i) {
            boolean_expression::lemma_ident_end(s, i + 2);
        } else {
            lemma_find_expansion_bounds(s, i + 1);
        }
    }
}

pub proof fn lemma_find_expansion_at(s: Seq<u8>, i: int, a: int)
    requires
        0 <= i <= a <= s.len(),
        forall|k: int| i <= k < a ==> !match_at(s, k),
        a < s.len() ==> match_at(s, a),
    ensures
        a < s.len() ==> find_expansion(s, i) == Option::Some((a, ident_end(s, a + 2) + 1)),
        a == s.len() ==> find_expansion(s, i) is None,
    decreases a - i,
{
    if i < a {
        lemma_find_expansion_at(s, i + 1, a);
    }
}

pub proof fn lemma_find_expansion_none(s: Seq<u8>, i: int)
    requires
        0 <= i <= s.len(),
        forall|k: int| i <= k < s.len() ==> !match_at(s, k),
    ensures
        find_expansion(s, i) is None,
    decreases s.len() - i,
{
    if i < s.len() {
        lemma_find_expansion_none(s, i + 1);
    }
}

/// The out-of-band marker byte that brackets position and expansion markers
/// in non-compatible output.
pub open spec fn ctrl() -> Seq<u8> {
    seq![8u8]
}

/// The result of substituting every `$(NAME)` reference in `s`, scanning
/// left to right without overlap: in annotated mode each reference is kept,
/// bracketed by control bytes, ahead of its value; in textual mode the value
/// alone replaces it. The failure carries the first name that has no
/// definition.
#[verifier::opaque]
pub open spec fn spec_subst(s: Seq<u8>, defs: Map<Seq<u8>, Seq<u8>>, annotate: bool) -> Result<
    Seq<u8>,
    Seq<u8>,
>
    decreases s.len(),
    via spec_subst_decreases
{
    match find_expansion(s, 0) {
        Option::None => Result::Ok(s),
        Option::Some((a, b)) => {
            let name = s.subrange(a + 2, b - 1);
            if !defs.contains_key(name) {
                Result::Err(name)
            } else {
                let marker: Seq<u8> = if annotate {
                    ctrl() + s.subrange(a, b) + ctrl()
                } else {
                    Seq::empty()
                };
                match spec_subst(s.subrange(b, s.len() as int), defs, annotate) {
                    Result::Err(n) => Result::Err(n),
                    Result::Ok(rest) => Result::Ok(s.subrange(0, a) + marker + defs[name] + rest),
                }
            }
        },
    }
}

#[via_fn]
proof fn spec_subst_decreases(s: Seq<u8>, defs: Map<Seq<u8>, Seq<u8>>, annotate: bool) {
    lemma_find_expansion_bounds(s, 0);
}

/// The position of the last path separator in `s`, or `-1`.
pub open spec fn last_slash(s: Seq<u8>) -> int
    decreases s.len(),
{
    if s.len() == 0 {
        -1
    } else if s.last() == 47 {
        s.len() - 1
    } else {
        last_slash(s.drop_last())
    }
}

pub proof fn lemma_last_slash_at(s: Seq<u8>, e: int)
    requires
        -1 <= e < s.len(),
        forall|k: int| e < k < s.len() ==> s[k] != 47,
        e >= 0 ==> s[e] == 47,
    ensures
        last_slash(s) == e,
    decreases s.len(),
{
    if s.len() > 0 && s.last() != 47 {
        lemma_last_slash_at(s.drop_last(), e);
    }
}

pub proof fn lemma_last_slash_bounds(s: Seq<u8>)
    ensures
        -1 <= last_slash(s) < s.len(),
    decreases s.len(),
{
    if s.len() > 0 && s.last() != 47 {
        lemma_last_slash_bounds(s.drop_last());
    }
}

/// The file name of a path: what follows its last separator.
pub open spec fn basename(s: Seq<u8>) -> Seq<u8> {
    s.subrange(last_slash(s) + 1, s.len() as int)
}

/// Where an include path leads: an absolute path stands as it is; a
/// relative one resolves against the directory of the including file.
pub open spec fn resolve_include(cur: Seq<u8>, p: Seq<u8>) -> Seq<u8> {
    if p.len() > 0 && p[0] == 47 {
        p
    } else {
        let ls = last_slash(cur);
        if ls < 0 {
            p
        } else {
            cur.subrange(0, ls) + seq![47u8] + p
        }
    }
}

/// The position marker `<CTRL><file name>###<line><CTRL>` that lets the
/// downstream consumer map output back to source positions.
pub open spec fn marker_bytes(fname: Seq<u8>, line_no: int) -> Seq<u8> {
    ctrl() + fname + bytes_of_str("###"@) + dec_digits(line_no as nat) + ctrl()
}

pub open spec fn msg_unknown_variable(n: Seq<u8>) -> Seq<u8> {
    bytes_of_str("unknown variable: "@) + n
}

pub open spec fn msg_missing_include(p: Seq<u8>) -> Seq<u8> {
    bytes_of_str("included file \""@) + p + bytes_of_str("\" does not exist"@)
}

pub open spec fn msg_parser_error(e: ErrorV) -> Seq<u8> {
    bytes_of_str("parser error: "@) + errors::spec_error_display(e)
}

pub open spec fn msg_elif_outside() -> Seq<u8> {
    bytes_of_str("elif outside of IF* directive"@)
}

pub open spec fn msg_already_saw_else() -> Seq<u8> {
    bytes_of_str("already saw else directive"@)
}

pub open spec fn msg_not_in_if() -> Seq<u8> {
    bytes_of_str("not in IF* directive"@)
}

pub open spec fn msg_else_outside() -> Seq<u8> {
    bytes_of_str("else outside of IF* directive"@)
}

pub open spec fn msg_duplicate_else() -> Seq<u8> {
    bytes_of_str("duplicate else directive"@)
}

pub open spec fn msg_unrecognized() -> Seq<u8> {
    bytes_of_str("unrecognized preprocessor directive"@)
}

pub open spec fn msg_depth_exceeded() -> Seq<u8> {
    bytes_of_str("include depth limit exceeded"@)
}

pub open spec fn msg_line_overflow() -> Seq<u8> {
    bytes_of_str("line counter overflow"@)
}

/// The preprocessing failure `msg` raised at the engine's current position,
/// carrying the offending line text.
pub open spec fn perr(st: StV, msg: Seq<u8>, line: Seq<u8>) -> ErrorV {
    ErrorV::Preprocessor(
        PreprocessorErrorV {
            message: msg,
            path: basename(st.path),
            line_no: st.line_no,
            overall_line_no: st.overall,
            line,
        },
    )
}

/// The outcome of one line: the state after it, a resolved include path to
/// recurse into, or a failure.
pub ghost enum StepRes {
    Cont(StV),
    DoInclude(Seq<u8>, StV),
    Fail(ErrorV),
}

/// Advances the line counters, guarding the machine limit of the overall
/// counter.
pub open spec fn bump(st: StV) -> StepRes {
    if st.overall >= usize::MAX as int {
        StepRes::Fail(perr(st, msg_line_overflow(), Seq::empty()))
    } else {
        StepRes::Cont(StV { line_no: st.line_no + 1, overall: st.overall + 1, ..st })
    }
}

/// Echoes a directive or disabled line into the output as a comment of
/// `text`, keeping line-count parity.
pub open spec fn echo(st: StV, text: Seq<u8>) -> StV {
    StV { out: st.out + seq![35u8] + text + seq![10u8], ..st }
}

/// Records a position marker: a `Location` entry keyed to the current
/// output line count and, outside compatible mode, the in-band marker bytes.
pub open spec fn output_position(st: StV, compatible: bool) -> StV {
    StV {
        locs: st.locs.push(
            LocationV {
                filepath: st.path,
                local_line_num: st.line_no,
                global_line_num: out_line_count(st.out) + 1,
            },
        ),
        out: st.out + if compatible {
            Seq::<u8>::empty()
        } else {
            marker_bytes(basename(st.path), st.line_no)
        },
        ..st
    }
}

/// What one physical line does to the engine state, except for the include
/// recursion itself. A full-line comment is blanked first; a line opening
/// with the sigil is comment-stripped and dispatched on the directive set,
/// and echoed as a comment of the raw line; any other line is emitted
/// substituted when every stack level copies, and otherwise echoed as a
/// comment of itself.
#[verifier::opaque]
pub open spec fn spec_step(
    files: Map<Seq<u8>, Seq<Seq<u8>>>,
    st: StV,
    raw: Seq<u8>,
    compatible: bool,
) -> StepRes {
    let blanked: Seq<u8> = if is_full_comment(raw) {
        Seq::empty()
    } else {
        raw
    };
    if blanked.len() > 0 && blanked[0] == 64 {
        let stripped = strip_comment(blanked);
        let copying = spec_copy_all(st.stack);
        let top = st.stack.last();
        match spec_classify(stripped) {
            DirectiveV::Include(ptext) => {
                if copying {
                    match spec_subst(ptext, st.defs, false) {
                        Result::Err(name) => StepRes::Fail(
                            perr(st, msg_unknown_variable(name), ptext),
                        ),
                        Result::Ok(p) => {
                            let rp = resolve_include(st.path, p);
                            if !files.contains_key(rp) {
                                StepRes::Fail(perr(st, msg_missing_include(rp), stripped))
                            } else {
                                StepRes::DoInclude(rp, st)
                            }
                        },
                    }
                } else {
                    bump(echo(st, raw))
                }
            },
            DirectiveV::Define(k, v) => {
                if copying {
                    bump(echo(StV { defs: st.defs.insert(k, v), ..st }, raw))
                } else {
                    bump(echo(st, raw))
                }
            },
            DirectiveV::Undef(k) => {
                if copying {
                    bump(echo(StV { defs: st.defs.remove(k), ..st }, raw))
                } else {
                    bump(echo(st, raw))
                }
            },
            DirectiveV::Ifdef(nm) => {
                let frame = if st.defs.contains_key(nm) {
                    ConditionalHelper { in_if: true, saw_else: false, handled: true, copy: copying }
                } else {
                    ConditionalHelper { in_if: true, saw_else: false, handled: false, copy: false }
                };
                bump(echo(StV { stack: st.stack.push(frame), ..st }, raw))
            },
            DirectiveV::Ifndef(nm) => {
                let frame = if st.defs.contains_key(nm) {
                    ConditionalHelper { in_if: true, saw_else: false, handled: false, copy: false }
                } else {
                    ConditionalHelper { in_if: true, saw_else: false, handled: true, copy: copying }
                };
                bump(echo(StV { stack: st.stack.push(frame), ..st }, raw))
            },
            DirectiveV::If(ex) => {
                match spec_parse_boolean_expression(ex, st.defs) {
                    Result::Err(e) => StepRes::Fail(perr(st, msg_parser_error(e), ex)),
                    Result::Ok(b) => {
                        let frame = if b {
                            ConditionalHelper {
                                in_if: true,
                                saw_else: false,
                                handled: true,
                                copy: true,
                            }
                        } else {
                            ConditionalHelper {
                                in_if: true,
                                saw_else: false,
                                handled: false,
                                copy: false,
                            }
                        };
                        bump(echo(StV { stack: st.stack.push(frame), ..st }, raw))
                    },
                }
            },
            DirectiveV::Elif(ex) => {
                if st.stack.len() == 0 || !top.in_if {
                    StepRes::Fail(perr(st, msg_elif_outside(), stripped))
                } else if top.saw_else {
                    StepRes::Fail(perr(st, msg_already_saw_else(), stripped))
                } else if top.handled {
                    let frame = ConditionalHelper { copy: false, ..top };
                    bump(echo(StV { stack: st.stack.update(st.stack.len() - 1, frame), ..st }, raw))
                } else {
                    match spec_parse_boolean_expression(ex, st.defs) {
                        Result::Err(e) => StepRes::Fail(perr(st, msg_parser_error(e), ex)),
                        Result::Ok(b) => {
                            let frame = if b {
                                ConditionalHelper { copy: true, handled: true, ..top }
                            } else {
                                ConditionalHelper { copy: false, ..top }
                            };
                            bump(
                                echo(
                                    StV { stack: st.stack.update(st.stack.len() - 1, frame), ..st },
                                    raw,
                                ),
                            )
                        },
                    }
                }
            },
            DirectiveV::Endif => {
                if st.stack.len() == 0 || !top.in_if {
                    StepRes::Fail(perr(st, msg_not_in_if(), stripped))
                } else {
                    bump(echo(StV { stack: st.stack.drop_last(), ..st }, raw))
                }
            },
            DirectiveV::Else => {
                if st.stack.len() == 0 || !top.in_if {
                    StepRes::Fail(perr(st, msg_else_outside(), stripped))
                } else if top.saw_else {
                    StepRes::Fail(perr(st, msg_duplicate_else(), stripped))
                } else {
                    let frame = ConditionalHelper { saw_else: true, copy: !top.handled, ..top };
                    bump(echo(StV { stack: st.stack.update(st.stack.len() - 1, frame), ..st }, raw))
                }
            },
            DirectiveV::Unrecognized => StepRes::Fail(perr(st, msg_unrecognized(), stripped)),
        }
    } else if spec_copy_all(st.stack) {
        match spec_subst(blanked, st.defs, !compatible) {
            Result::Err(name) => StepRes::Fail(perr(st, msg_unknown_variable(name), blanked)),
            Result::Ok(t) => bump(StV { out: st.out + t + seq![10u8], ..st }),
        }
    } else {
        bump(echo(st, blanked))
    }
}

/// The outcome of a whole run: the final engine state, or the failure that
/// ended it.
pub ghost enum RunRes {
    Done(StV),
    Fail(ErrorV),
}

/// Runs the lines of one file from position `i` in state `st`. An include
/// line recurses into `spec_run_file` on the resolved path with one less
/// depth unit, threading the definitions, locations and output through, and
/// resumes with a fresh position marker; it is the one line accounted for by
/// the nested run's own output rather than by a comment.
pub open spec fn spec_run_lines(
    files: Map<Seq<u8>, Seq<Seq<u8>>>,
    compatible: bool,
    lines: Seq<Seq<u8>>,
    i: int,
    st: StV,
    depth: nat,
) -> RunRes
    decreases depth, 0int, lines.len() - i,
{
    if !(0 <= i < lines.len()) {
        RunRes::Done(st)
    } else {
        match spec_step(files, st, lines[i], compatible) {
            StepRes::Fail(e) => RunRes::Fail(e),
            StepRes::Cont(st2) => spec_run_lines(files, compatible, lines, i + 1, st2, depth),
            StepRes::DoInclude(rp, _) => {
                if depth == 0 {
                    RunRes::Fail(perr(st, msg_depth_exceeded(), lines[i]))
                } else {
                    match spec_run_file(
                        files,
                        compatible,
                        rp,
                        st.defs,
                        st.locs,
                        st.out,
                        st.overall,
                        (depth - 1) as nat,
                    ) {
                        RunRes::Fail(e) => RunRes::Fail(e),
                        RunRes::Done(sti) => {
                            if st.overall >= usize::MAX as int {
                                RunRes::Fail(perr(st, msg_line_overflow(), Seq::empty()))
                            } else {
                                let st2 = StV {
                                    path: st.path,
                                    defs: sti.defs,
                                    locs: sti.locs,
                                    out: sti.out,
                                    stack: st.stack,
                                    line_no: st.line_no + 1,
                                    overall: st.overall + 1,
                                };
                                if out_line_count(st2.out) >= usize::MAX as int {
                                    RunRes::Fail(perr(st2, msg_line_overflow(), Seq::empty()))
                                } else {
                                    spec_run_lines(
                                        files,
                                        compatible,
                                        lines,
                                        i + 1,
                                        output_position(st2, compatible),
                                        depth,
                                    )
                                }
                            }
                        },
                    }
                }
            },
        }
    }
}

/// Runs one whole file: a missing path is the I/O failure naming it;
/// otherwise a fresh conditional stack holding the sentinel root frame and a
/// fresh local line counter start at a position marker, and every line runs
/// in order.
pub open spec fn spec_run_file(
    files: Map<Seq<u8>, Seq<Seq<u8>>>,
    compatible: bool,
    path: Seq<u8>,
    defs: Map<Seq<u8>, Seq<u8>>,
    locs: Seq<LocationV>,
    out: Seq<u8>,
    overall: int,
    depth: nat,
) -> RunRes
    decreases depth, 1int, 0int,
{
    if !files.contains_key(path) {
        RunRes::Fail(ErrorV::Io(path))
    } else {
        let st0 = StV {
            path,
            defs,
            locs,
            out,
            stack: seq![
                ConditionalHelper { in_if: false, saw_else: false, handled: false, copy: true },
            ],
            line_no: 1,
            overall,
        };
        if out_line_count(out) >= usize::MAX as int {
            RunRes::Fail(perr(st0, msg_line_overflow(), Seq::empty()))
        } else {
            spec_run_lines(
                files,
                compatible,
                files[path],
                0,
                output_position(st0, compatible),
                depth,
            )
        }
    }
}

} // verus!

verus! {

fn match_at_exec(v: &Vec<u8>, j: usize) -> (r: bool)
    requires
        j < v@.len(),
    ensures
        r == match_at(v@, j as int),
{
    let n = v.len();
    if v[j] != 36 {
        return false;
    }
    if j + 1 >= n || v[j + 1] != 40 {
        return false;
    }
    let e = directive::ident_end_exec(v, j + 2);
    e > j + 2 && e < n && v[e] == 41
}

/// Substitutes every `$(NAME)` reference in `input` against `defs`; the
/// failure names the first reference without a definition.
fn substitute(input: &Vec<u8>, defs: &Definitions, annotate: bool) -> (r: Result<Vec<u8>, Vec<u8>>)
    requires
        defs.wf(),
    ensures
        match r {
            Result::Ok(t) => spec_subst(input@, defs@, annotate) == Result::<Seq<u8>, Seq<u8>>::Ok(
                t@,
            ),
            Result::Err(n) => spec_subst(input@, defs@, annotate) == Result::<
                Seq<u8>,
                Seq<u8>,
            >::Err(n@),
        },
{
    let mut out: Vec<u8> = Vec::new();
    let mut rem: Vec<u8> = text::clone_bytes(input);
    proof {
        reveal(spec_subst);
        assert(out@ =~= Seq::<u8>::empty());
    }
    loop
        invariant
            defs.wf(),
            spec_subst(input@, defs@, annotate) == (match spec_subst(rem@, defs@, annotate) {
                Result::Ok(t) => Result::<Seq<u8>, Seq<u8>>::Ok(out@ + t),
                Result::Err(n) => Result::<Seq<u8>, Seq<u8>>::Err(n),
            }),
        decreases rem@.len(),
    {
        proof {
            reveal(spec_subst);
        }
        let n = rem.len();
        let mut j: usize = 0;
        while j < n && !match_at_exec(&rem, j)
            invariant
                j <= n == rem@.len(),
                forall|k: int| 0 <= k < j ==> !match_at(rem@, k),
            decreases n - j,
        {
            j += 1;
        }
        if j == n {
            proof {
                lemma_find_expansion_none(rem@, 0);
            }
            text::push_bytes(&mut out, &rem);
            return Result::Ok(out);
        }
        let e = directive::ident_end_exec(&rem, j + 2);
        let b = e + 1;
        proof {
            lemma_find_expansion_at(rem@, 0, j as int);
            assert(find_expansion(rem@, 0) == Option::Some((j as int, b as int)));
        }
        let name = text::subrange_bytes(&rem, j + 2, e);
        match defs.get(&name) {
            Option::None => {
                return Result::Err(name);
            },
            Option::Some(value) => {
                let value = text::clone_bytes(value);
                let ghost out0 = out@;
                let prefix = text::subrange_bytes(&rem, 0, j);
                text::push_bytes(&mut out, &prefix);
                if annotate {
                    out.push(8);
                    let refer = text::subrange_bytes(&rem, j, b);
                    text::push_bytes(&mut out, &refer);
                    out.push(8);
                }
                text::push_bytes(&mut out, &value);
                let next = text::subrange_bytes(&rem, b, n);
                let ghost rem0 = rem@;
                rem = next;
                proof {
                    let marker: Seq<u8> = if annotate {
                        ctrl() + rem0.subrange(j as int, b as int) + ctrl()
                    } else {
                        Seq::<u8>::empty()
                    };
                    assert(out@ =~= out0 + rem0.subrange(0, j as int) + marker + defs@[name@]);
                    assert(rem@ == rem0.subrange(b as int, rem0.len() as int));
                    let after = spec_subst(rem@, defs@, annotate);
                    if after is Ok {
                        assert(spec_subst(rem0, defs@, annotate) == Result::<Seq<u8>, Seq<u8>>::Ok(
                            rem0.subrange(0, j as int) + marker + defs@[name@] + after->Ok_0,
                        ));
                        assert(out0 + (rem0.subrange(0, j as int) + marker + defs@[name@]
                            + after->Ok_0) =~= out@ + after->Ok_0);
                    }
                }
            },
        }
    }
}

/// The file name of a path: what follows its last separator.
pub fn basename_exec(path: &Vec<u8>) -> (r: Vec<u8>)
    ensures
        r@ == basename(path@),
{
    let n = path.len();
    let mut e = n;
    while e > 0 && path[e - 1] != 47
        invariant
            e <= n == path@.len(),
            forall|k: int| e <= k < n ==> path@[k] != 47,
        decreases e,
    {
        e -= 1;
    }
    proof {
        lemma_last_slash_at(path@, e - 1);
    }
    text::subrange_bytes(path, e, n)
}

/// Resolves an include path against the including file's directory.
fn resolve_include_exec(cur: &Vec<u8>, p: &Vec<u8>) -> (r: Vec<u8>)
    ensures
        r@ == resolve_include(cur@, p@),
{
    if p.len() > 0 && p[0] == 47 {
        return text::clone_bytes(p);
    }
    let n = cur.len();
    let mut e = n;
    while e > 0 && cur[e - 1] != 47
        invariant
            e <= n == cur@.len(),
            forall|k: int| e <= k < n ==> cur@[k] != 47,
        decreases e,
    {
        e -= 1;
    }
    proof {
        lemma_last_slash_at(cur@, e - 1);
    }
    if e == 0 {
        text::clone_bytes(p)
    } else {
        let mut r = text::subrange_bytes(cur, 0, e - 1);
        r.push(47);
        text::push_bytes(&mut r, p);
        proof {
            assert(r@ =~= cur@.subrange(0, e - 1) + seq![47u8] + p@);
        }
        r
    }
}

} // verus!

verus! {

/// The views of a location list.
pub open spec fn locs_view(l: Seq<location::Location>) -> Seq<LocationV> {
    Seq::new(l.len(), |i: int| l[i]@)
}

/// The line-oriented preprocessing engine: directive recognition, the
/// nested-conditional stack, recursive file inclusion, variable substitution
/// and source-location tracking, against an explicit file table.
#[derive(Debug)]
pub struct SleighPreprocessor {
    definitions: Option<Definitions>,
    locations: Option<Vec<location::Location>>,
    compatible: bool,
    ifstack: Vec<ConditionalHelper>,
    error_count: u64,
    file_path: Vec<u8>,
    line_no: usize,
    overall_line_no: usize,
}

impl SleighPreprocessor {
    /// The definition table the engine holds; meaningful while it holds one.
    pub closed spec fn defs_view(self) -> Map<Seq<u8>, Seq<u8>> {
        self.definitions->0@
    }

    /// The location list the engine holds; meaningful while it holds one.
    pub closed spec fn locs_seq(self) -> Seq<LocationV> {
        locs_view(self.locations->0@)
    }

    pub closed spec fn path_view(self) -> Seq<u8> {
        self.file_path@
    }

    pub closed spec fn compatible_mode(self) -> bool {
        self.compatible
    }

    /// The current local line number.
    pub closed spec fn line_no_view(self) -> int {
        self.line_no as int
    }

    /// The current overall line number.
    pub closed spec fn overall_view(self) -> int {
        self.overall_line_no as int
    }

    /// Whether the engine still holds its definition table.
    pub closed spec fn has_definitions(self) -> bool {
        self.definitions is Some
    }

    /// Whether the held definition table is well-formed.
    pub closed spec fn defs_wf(self) -> bool {
        self.definitions->0.wf()
    }

    /// Whether the engine still holds its location list.
    pub closed spec fn has_locations(self) -> bool {
        self.locations is Some
    }

    /// The engine holds its tables and has not started or given them up.
    pub closed spec fn ready(self) -> bool {
        &&& self.definitions is Some
        &&& self.definitions->0.wf()
        &&& self.locations is Some
        &&& self.ifstack@.len() == 0
        &&& self.error_count == 0
    }

    /// The engine's full state at an output prefix `out`.
    spec fn st_of(self, out: Seq<u8>) -> StV {
        StV {
            path: self.file_path@,
            defs: self.definitions->0@,
            locs: locs_view(self.locations->0@),
            out,
            stack: self.ifstack@,
            line_no: self.line_no as int,
            overall: self.overall_line_no as int,
        }
    }

    /// The preprocessing failure `msg` at the engine's current position.
    spec fn perr_here(self, msg: Seq<u8>, line: Seq<u8>) -> ErrorV {
        ErrorV::Preprocessor(
            PreprocessorErrorV {
                message: msg,
                path: basename(self.file_path@),
                line_no: self.line_no as int,
                overall_line_no: self.overall_line_no as int,
                line,
            },
        )
    }

    pub fn new(definitions: Definitions, file_path: Vec<u8>, is_compatible: bool) -> (r: Self)
        requires
            definitions.wf(),
        ensures
            r.ready(),
            r.defs_view() == definitions@,
            r.locs_seq() == Seq::<LocationV>::empty(),
            r.path_view() == file_path@,
            r.compatible_mode() == is_compatible,
    {
        let r = SleighPreprocessor {
            definitions: Option::Some(definitions),
            locations: Option::Some(Vec::new()),
            compatible: is_compatible,
            ifstack: Vec::new(),
            error_count: 0,
            file_path,
            line_no: 0,
            overall_line_no: 0,
        };
        proof {
            assert(r.locs_seq() =~= Seq::<LocationV>::empty());
        }
        r
    }

    /// The live definition table.
    pub fn definitions(&self) -> (r: &Definitions)
        requires
            self.has_definitions(),
        ensures
            r@ == self.defs_view(),
            r.wf() == self.defs_wf(),
    {
        match &self.definitions {
            Option::Some(d) => d,
            Option::None => unreached(),
        }
    }

    /// The recorded locations.
    pub fn locations(&self) -> (r: &Vec<location::Location>)
        requires
            self.has_locations(),
        ensures
            locs_view(r@) == self.locs_seq(),
    {
        match &self.locations {
            Option::Some(l) => l,
            Option::None => unreached(),
        }
    }

    /// Hands the definition table out; the engine no longer holds one.
    pub fn take_definitions(&mut self) -> (r: Definitions)
        requires
            old(self).has_definitions(),
        ensures
            r@ == old(self).defs_view(),
            r.wf() == old(self).defs_wf(),
            !final(self).has_definitions(),
    {
        let d = self.definitions.take();
        match d {
            Option::Some(d) => d,
            Option::None => unreached(),
        }
    }

    /// Hands the location list out; the engine no longer holds one.
    pub fn take_locations(&mut self) -> (r: Vec<location::Location>)
        requires
            old(self).has_locations(),
        ensures
            locs_view(r@) == old(self).locs_seq(),
            !final(self).has_locations(),
    {
        let l = self.locations.take();
        match l {
            Option::Some(l) => l,
            Option::None => unreached(),
        }
    }

    /// The name of the file being processed.
    fn file_name(&self) -> (r: Vec<u8>)
        ensures
            r@ == basename(self.file_path@),
    {
        basename_exec(&self.file_path)
    }

    /// The engine's position rendered as `<file>:<line>(<overall>)`.
    pub fn current_position(&self) -> (r: Vec<u8>)
        ensures
            r@ == basename(self.path_view()) + bytes_of_str(":"@) + dec_digits(
                self.line_no_view() as nat,
            ) + bytes_of_str("("@) + dec_digits(self.overall_view() as nat) + bytes_of_str(")"@),
    {
        proof {
            reveal_strlit(":");
            reveal_strlit("(");
            reveal_strlit(")");
        }
        let mut r = self.file_name();
        text::push_str_bytes(&mut r, ":");
        let d1 = text::usize_to_dec(self.line_no);
        text::push_bytes(&mut r, &d1);
        text::push_str_bytes(&mut r, "(");
        let d2 = text::usize_to_dec(self.overall_line_no);
        text::push_bytes(&mut r, &d2);
        text::push_str_bytes(&mut r, ")");
        r
    }

    /// Builds the preprocessing failure `msg` at the current position.
    fn make_error(&self, msg: Vec<u8>, line: Vec<u8>) -> (r: errors::Error)
        ensures
            r@ == self.perr_here(msg@, line@),
    {
        errors::Error::Preprocessor(
            errors::PreprocessorError::new(
                msg,
                self.file_name(),
                self.line_no,
                self.overall_line_no,
                line,
            ),
        )
    }

    /// Whether every stack level wants its lines copied.
    fn is_copy(&self) -> (r: bool)
        ensures
            r == spec_copy_all(self.ifstack@),
    {
        let n = self.ifstack.len();
        let mut k: usize = 0;
        while k < n
            invariant
                k <= n == self.ifstack@.len(),
                forall|t: int| 0 <= t < k ==> self.ifstack@[t].copy,
            decreases n - k,
        {
            if !self.ifstack[k].copy() {
                return false;
            }
            k += 1;
        }
        true
    }

    fn is_in_if(&self) -> (r: bool)
        requires
            self.ifstack@.len() >= 1,
        ensures
            r == self.ifstack@.last().in_if,
    {
        self.ifstack[self.ifstack.len() - 1].in_if()
    }

    fn is_saw_else(&self) -> (r: bool)
        requires
            self.ifstack@.len() >= 1,
        ensures
            r == self.ifstack@.last().saw_else,
    {
        self.ifstack[self.ifstack.len() - 1].saw_else()
    }

    fn is_handled(&self) -> (r: bool)
        requires
            self.ifstack@.len() >= 1,
        ensures
            r == self.ifstack@.last().handled,
    {
        self.ifstack[self.ifstack.len() - 1].handled()
    }

    fn set_copy(&mut self, is_copy: bool)
        requires
            old(self).ifstack@.len() >= 1,
        ensures
            final(self).ifstack@ == old(self).ifstack@.update(
                old(self).ifstack@.len() - 1,
                (ConditionalHelper { copy: is_copy, ..old(self).ifstack@.last() }),
            ),
            *final(self) == (SleighPreprocessor { ifstack: final(self).ifstack, ..*old(self) }),
    {
        let n = self.ifstack.len();
        let frame = self.ifstack[n - 1];
        self.ifstack.set(n - 1, ConditionalHelper { copy: is_copy, ..frame });
    }

    fn set_saw_else(&mut self, is_saw_else: bool)
        requires
            old(self).ifstack@.len() >= 1,
        ensures
            final(self).ifstack@ == old(self).ifstack@.update(
                old(self).ifstack@.len() - 1,
                (ConditionalHelper { saw_else: is_saw_else, ..old(self).ifstack@.last() }),
            ),
            *final(self) == (SleighPreprocessor { ifstack: final(self).ifstack, ..*old(self) }),
    {
        let n = self.ifstack.len();
        let frame = self.ifstack[n - 1];
        self.ifstack.set(n - 1, ConditionalHelper { saw_else: is_saw_else, ..frame });
    }

    fn set_handled(&mut self, is_handled: bool)
        requires
            old(self).ifstack@.len() >= 1,
        ensures
            final(self).ifstack@ == old(self).ifstack@.update(
                old(self).ifstack@.len() - 1,
                (ConditionalHelper { handled: is_handled, ..old(self).ifstack@.last() }),
            ),
            *final(self) == (SleighPreprocessor { ifstack: final(self).ifstack, ..*old(self) }),
    {
        let n = self.ifstack.len();
        let frame = self.ifstack[n - 1];
        self.ifstack.set(n - 1, ConditionalHelper { handled: is_handled, ..frame });
    }

    /// Opens a new nesting level; its own copy wish starts as the current
    /// global decision.
    fn enter_if(&mut self)
        ensures
            final(self).ifstack@ == old(self).ifstack@.push(
                (ConditionalHelper {
                    in_if: true,
                    saw_else: false,
                    handled: false,
                    copy: spec_copy_all(old(self).ifstack@),
                }),
            ),
            *final(self) == (SleighPreprocessor { ifstack: final(self).ifstack, ..*old(self) }),
    {
        let copying = self.is_copy();
        self.ifstack.push(ConditionalHelper::new(true, false, false, copying));
    }

    /// Checks that an `@elif` stands inside an open conditional that has not
    /// yet seen its `@else`.
    fn enter_elif(&self, line: &Vec<u8>) -> (r: Result<(), errors::Error>)
        requires
            self.ifstack@.len() >= 1,
        ensures
            match r {
                Result::Ok(()) => self.ifstack@.last().in_if && !self.ifstack@.last().saw_else,
                Result::Err(e) => {
                    &&& if !self.ifstack@.last().in_if {
                        e@ == self.perr_here(msg_elif_outside(), line@)
                    } else {
                        self.ifstack@.last().saw_else && e@ == self.perr_here(
                            msg_already_saw_else(),
                            line@,
                        )
                    }
                },
            },
    {
        if !self.is_in_if() {
            proof {
                reveal_strlit("elif outside of IF* directive");
            }
            let msg = text::str_to_bytes("elif outside of IF* directive");
            return Result::Err(self.make_error(msg, text::clone_bytes(line)));
        }
        if self.is_saw_else() {
            proof {
                reveal_strlit("already saw else directive");
            }
            let msg = text::str_to_bytes("already saw else directive");
            return Result::Err(self.make_error(msg, text::clone_bytes(line)));
        }
        Result::Ok(())
    }

    /// Closes the nearest nesting level at `@endif`.
    fn leave_if(&mut self, line: &Vec<u8>) -> (r: Result<(), errors::Error>)
        requires
            old(self).ifstack@.len() >= 1,
        ensures
            match r {
                Result::Ok(()) => old(self).ifstack@.last().in_if && final(self).ifstack@ == old(
                    self,
                ).ifstack@.drop_last() && *final(self) == (SleighPreprocessor {
                    ifstack: final(self).ifstack,
                    ..*old(self)
                }),
                Result::Err(e) => !old(self).ifstack@.last().in_if && e@ == old(self).perr_here(
                    msg_not_in_if(),
                    line@,
                ) && *final(self) == *old(self),
            },
    {
        if !self.is_in_if() {
            proof {
                reveal_strlit("not in IF* directive");
            }
            let msg = text::str_to_bytes("not in IF* directive");
            return Result::Err(self.make_error(msg, text::clone_bytes(line)));
        }
        self.ifstack.pop();
        Result::Ok(())
    }

    /// Records the `@else` of the nearest nesting level, refusing one
    /// outside a conditional or a second one at the same level.
    fn enter_else(&mut self, line: &Vec<u8>) -> (r: Result<(), errors::Error>)
        requires
            old(self).ifstack@.len() >= 1,
        ensures
            match r {
                Result::Ok(()) => {
                    &&& old(self).ifstack@.last().in_if
                    &&& !old(self).ifstack@.last().saw_else
                    &&& final(self).ifstack@ == old(self).ifstack@.update(
                        old(self).ifstack@.len() - 1,
                        (ConditionalHelper { saw_else: true, ..old(self).ifstack@.last() }),
                    )
                    &&& *final(self) == (SleighPreprocessor {
                        ifstack: final(self).ifstack,
                        ..*old(self)
                    })
                },
                Result::Err(e) => {
                    &&& *final(self) == *old(self)
                    &&& if !old(self).ifstack@.last().in_if {
                        e@ == old(self).perr_here(msg_else_outside(), line@)
                    } else {
                        old(self).ifstack@.last().saw_else && e@ == old(self).perr_here(
                            msg_duplicate_else(),
                            line@,
                        )
                    }
                },
            },
    {
        if !self.is_in_if() {
            proof {
                reveal_strlit("else outside of IF* directive");
            }
            let msg = text::str_to_bytes("else outside of IF* directive");
            return Result::Err(self.make_error(msg, text::clone_bytes(line)));
        }
        if self.is_saw_else() {
            proof {
                reveal_strlit("duplicate else directive");
            }
            let msg = text::str_to_bytes("duplicate else directive");
            return Result::Err(self.make_error(msg, text::clone_bytes(line)));
        }
        self.set_saw_else(true);
        Result::Ok(())
    }
}

} // verus!

verus! {

impl SleighPreprocessor {
    /// Inserts or overwrites a definition.
    fn define(&mut self, key: Vec<u8>, value: Vec<u8>)
        requires
            old(self).definitions is Some,
            old(self).definitions->0.wf(),
        ensures
            final(self).definitions is Some,
            final(self).definitions->0.wf(),
            final(self).definitions->0@ == old(self).definitions->0@.insert(key@, value@),
            *final(self) == (SleighPreprocessor {
                definitions: final(self).definitions,
                ..*old(self)
            }),
    {
        match &mut self.definitions {
            Option::Some(d) => d.insert(key, value),
            Option::None => {},
        }
    }

    /// Removes a definition; absence is not an error.
    fn undefine(&mut self, key: &Vec<u8>)
        requires
            old(self).definitions is Some,
            old(self).definitions->0.wf(),
        ensures
            final(self).definitions is Some,
            final(self).definitions->0.wf(),
            final(self).definitions->0@ == old(self).definitions->0@.remove(key@),
            *final(self) == (SleighPreprocessor {
                definitions: final(self).definitions,
                ..*old(self)
            }),
    {
        match &mut self.definitions {
            Option::Some(d) => d.remove(key),
            Option::None => {},
        }
    }

    /// Whether a name has a definition.
    fn is_defined(&self, name: &Vec<u8>) -> (r: bool)
        requires
            self.definitions is Some,
            self.definitions->0.wf(),
        ensures
            r == self.definitions->0@.contains_key(name@),
    {
        match &self.definitions {
            Option::Some(d) => d.contains_key(name),
            Option::None => false,
        }
    }

    /// Substitutes every variable reference of `input`; in compatible mode
    /// plain text replaces each reference, otherwise the reference is kept
    /// between control bytes ahead of its value. The failure names the
    /// unknown variable and carries the whole input line.
    fn handle_variables(&self, input: &Vec<u8>, is_compatible: bool) -> (r: Result<
        Vec<u8>,
        errors::Error,
    >)
        requires
            self.definitions is Some,
            self.definitions->0.wf(),
        ensures
            match r {
                Result::Ok(t) => spec_subst(input@, self.definitions->0@, !is_compatible)
                    == Result::<Seq<u8>, Seq<u8>>::Ok(t@),
                Result::Err(e) => {
                    &&& spec_subst(input@, self.definitions->0@, !is_compatible) matches Result::Err(
                        name,
                    ) && e@ == self.perr_here(msg_unknown_variable(name), input@)
                },
            },
    {
        let sr = match &self.definitions {
            Option::Some(d) => substitute(input, d, !is_compatible),
            Option::None => Result::Err(Vec::new()),
        };
        match sr {
            Result::Ok(t) => Result::Ok(t),
            Result::Err(name) => {
                proof {
                    reveal_strlit("unknown variable: ");
                }
                let mut msg = text::str_to_bytes("unknown variable: ");
                text::push_bytes(&mut msg, &name);
                Result::Err(self.make_error(msg, text::clone_bytes(input)))
            },
        }
    }

    /// Parses and evaluates an `@if`/`@elif` expression; a failure of the
    /// evaluator is wrapped as a preprocessing failure at the current
    /// position, carrying the expression text.
    fn parse_expression(&self, expression: &Vec<u8>) -> (r: Result<bool, errors::Error>)
        requires
            self.definitions is Some,
            self.definitions->0.wf(),
        ensures
            match r {
                Result::Ok(b) => spec_parse_boolean_expression(expression@, self.definitions->0@)
                    == Result::<bool, ErrorV>::Ok(b),
                Result::Err(e) => {
                    &&& spec_parse_boolean_expression(expression@, self.definitions->0@)
                        matches Result::Err(e0) && e@ == self.perr_here(
                        msg_parser_error(e0),
                        expression@,
                    )
                },
            },
    {
        let pr = match &self.definitions {
            Option::Some(d) => boolean_expression::parse_boolean_expression(expression, d),
            Option::None => Result::Ok(false),
        };
        match pr {
            Result::Ok(b) => Result::Ok(b),
            Result::Err(e) => {
                proof {
                    reveal_strlit("parser error: ");
                }
                let mut msg = text::str_to_bytes("parser error: ");
                let shown = e.display_bytes();
                text::push_bytes(&mut msg, &shown);
                Result::Err(self.make_error(msg, text::clone_bytes(expression)))
            },
        }
    }

    /// Applies an `@if`/`@elif` expression to the nearest frame: a level
    /// already handled goes quiet without evaluating; otherwise the frame
    /// copies and is handled exactly when the expression holds.
    fn handle_expression(&mut self, expression: &Vec<u8>) -> (r: Result<(), errors::Error>)
        requires
            old(self).definitions is Some,
            old(self).definitions->0.wf(),
            old(self).ifstack@.len() >= 1,
        ensures
            match r {
                Result::Ok(()) => {
                    &&& final(self).ifstack@ == old(self).ifstack@.update(
                        old(self).ifstack@.len() - 1,
                        (if old(self).ifstack@.last().handled {
                            ConditionalHelper { copy: false, ..old(self).ifstack@.last() }
                        } else if spec_parse_boolean_expression(
                            expression@,
                            old(self).definitions->0@,
                        ) == Result::<bool, ErrorV>::Ok(true) {
                            ConditionalHelper {
                                copy: true,
                                handled: true,
                                ..old(self).ifstack@.last()
                            }
                        } else {
                            ConditionalHelper { copy: false, ..old(self).ifstack@.last() }
                        }),
                    )
                    &&& (old(self).ifstack@.last().handled || spec_parse_boolean_expression(
                        expression@,
                        old(self).definitions->0@,
                    ) is Ok)
                    &&& *final(self) == (SleighPreprocessor {
                        ifstack: final(self).ifstack,
                        ..*old(self)
                    })
                },
                Result::Err(e) => {
                    &&& !old(self).ifstack@.last().handled
                    &&& spec_parse_boolean_expression(expression@, old(self).definitions->0@)
                        matches Result::Err(e0) && e@ == old(self).perr_here(
                        msg_parser_error(e0),
                        expression@,
                    )
                },
            },
    {
        if self.is_handled() {
            self.set_copy(false);
        } else {
            let b = match self.parse_expression(expression) {
                Result::Ok(b) => b,
                Result::Err(e) => {
                    return Result::Err(e);
                },
            };
            if !b {
                self.set_copy(false);
            } else {
                self.set_copy(true);
                self.set_handled(true);
            }
        }
        Result::Ok(())
    }

    /// Emits a position marker (suppressed in compatible mode) and records
    /// the matching `Location` entry at output line `all_line_count`.
    fn output_position(&mut self, writer: &mut Vec<u8>, all_line_count: usize)
        requires
            old(self).locations is Some,
        ensures
            final(self).locations is Some,
            locs_view(final(self).locations->0@) == locs_view(old(self).locations->0@).push(
                (LocationV {
                    filepath: old(self).file_path@,
                    local_line_num: old(self).line_no as int,
                    global_line_num: all_line_count as int,
                }),
            ),
            final(writer)@ == old(writer)@ + (if old(self).compatible {
                Seq::<u8>::empty()
            } else {
                marker_bytes(basename(old(self).file_path@), old(self).line_no as int)
            }),
            *final(self) == (SleighPreprocessor { locations: final(self).locations, ..*old(self) }),
    {
        let file_name = self.file_name();
        let ghost w0 = writer@;
        if !self.compatible {
            proof {
                reveal_strlit("###");
            }
            writer.push(8);
            text::push_bytes(writer, &file_name);
            text::push_str_bytes(writer, "###");
            let d = text::usize_to_dec(self.line_no);
            text::push_bytes(writer, &d);
            writer.push(8);
            proof {
                assert(writer@ =~= w0 + marker_bytes(basename(self.file_path@), self.line_no as int));
            }
        }
        let entry = location::Location::new(
            text::clone_bytes(&self.file_path),
            self.line_no,
            all_line_count,
        );
        match &mut self.locations {
            Option::Some(l) => l.push(entry),
            Option::None => {},
        }
        proof {
            assert(locs_view(self.locations->0@) =~= locs_view(old(self).locations->0@).push(
                (LocationV {
                    filepath: old(self).file_path@,
                    local_line_num: old(self).line_no as int,
                    global_line_num: all_line_count as int,
                }),
            ));
        }
    }
}

} // verus!

verus! {

/// What one line asked of the engine: go on to the next line, recurse into
/// the resolved include path, or stop with a failure.
enum StepOutcome {
    Next,
    Rec(Vec<u8>),
    Fault(errors::Error),
}

impl SleighPreprocessor {
    /// One physical line: blanks a full-line comment, dispatches a sigil
    /// line on the directive set and echoes it as a comment, emits any other
    /// line substituted or as a disabled placeholder, and advances the
    /// counters. An enabled `@include` is handed back, resolved, for the
    /// caller to recurse on, with nothing yet changed.
    #[verifier::rlimit(100)]
    fn step_line(&mut self, files: &FileTable, writer: &mut Vec<u8>, raw: &Vec<u8>) -> (r:
        StepOutcome)
        requires
            files.wf(),
            old(self).definitions is Some,
            old(self).definitions->0.wf(),
            old(self).locations is Some,
            old(self).ifstack@.len() >= 1,
            !old(self).ifstack@[0].in_if,
            old(self).line_no >= 1,
            old(self).line_no <= old(self).overall_line_no,
        ensures
            match r {
                StepOutcome::Next => {
                    &&& spec_step(
                        files@,
                        old(self).st_of(old(writer)@),
                        raw@,
                        old(self).compatible,
                    ) == StepRes::Cont(final(self).st_of(final(writer)@))
                    &&& final(self).definitions is Some
                    &&& final(self).definitions->0.wf()
                    &&& final(self).locations == old(self).locations
                    &&& final(self).ifstack@.len() >= 1
                    &&& !final(self).ifstack@[0].in_if
                    &&& final(self).compatible == old(self).compatible
                    &&& final(self).file_path == old(self).file_path
                    &&& final(self).error_count == old(self).error_count
                    &&& final(self).line_no == old(self).line_no + 1
                    &&& final(self).overall_line_no == old(self).overall_line_no + 1
                },
                StepOutcome::Rec(rp) => {
                    &&& spec_step(
                        files@,
                        old(self).st_of(old(writer)@),
                        raw@,
                        old(self).compatible,
                    ) == StepRes::DoInclude(rp@, old(self).st_of(old(writer)@))
                    &&& *final(self) == *old(self)
                    &&& final(writer)@ == old(writer)@
                },
                StepOutcome::Fault(e) => spec_step(
                    files@,
                    old(self).st_of(old(writer)@),
                    raw@,
                    old(self).compatible,
                ) == StepRes::Fail(e@),
            },
    {
        proof {
            reveal(spec_step);
        }
        let ghost st_pre = old(self).st_of(old(writer)@);
        let ghost stepv = spec_step(files@, st_pre, raw@, old(self).compatible);
        let blanked: Vec<u8> = if directive::is_full_comment_exec(raw) {
            Vec::new()
        } else {
            text::clone_bytes(raw)
        };
        proof {
            assert(blanked@ =~= (if is_full_comment(raw@) {
                Seq::<u8>::empty()
            } else {
                raw@
            }));
        }
        if blanked.len() > 0 && blanked[0] == 64 {
            let stripped = directive::strip_comment_exec(&blanked);
            let copying = self.is_copy();
            let d = directive::classify(&stripped);
            match d {
                directive::Directive::Include(ptext) => {
                    if copying {
                        let p = match self.handle_variables(&ptext, true) {
                            Result::Err(e) => {
                                proof {
                                    assert(stepv == StepRes::Fail(e@));
                                }
                                return StepOutcome::Fault(e);
                            },
                            Result::Ok(p) => p,
                        };
                        let rp = resolve_include_exec(&self.file_path, &p);
                        if !files.contains_key(&rp) {
                            proof {
                                reveal_strlit("included file \"");
                                reveal_strlit("\" does not exist");
                            }
                            let mut msg = text::str_to_bytes("included file \"");
                            text::push_bytes(&mut msg, &rp);
                            text::push_str_bytes(&mut msg, "\" does not exist");
                            proof {
                                assert(msg@ =~= msg_missing_include(rp@));
                            }
                            let e = self.make_error(msg, stripped);
                            proof {
                                assert(stepv == StepRes::Fail(e@));
                            }
                            return StepOutcome::Fault(e);
                        }
                        proof {
                            assert(stepv == StepRes::DoInclude(rp@, st_pre));
                        }
                        return StepOutcome::Rec(rp);
                    }
                },
                directive::Directive::Define(k, v) => {
                    if copying {
                        self.define(k, v);
                    }
                },
                directive::Directive::Undef(k) => {
                    if copying {
                        self.undefine(&k);
                    }
                },
                directive::Directive::Ifdef(nm) => {
                    self.enter_if();
                    if self.is_defined(&nm) {
                        self.set_handled(true);
                    } else {
                        self.set_copy(false);
                    }
                },
                directive::Directive::Ifndef(nm) => {
                    self.enter_if();
                    if self.is_defined(&nm) {
                        self.set_copy(false);
                    } else {
                        self.set_handled(true);
                    }
                },
                directive::Directive::If(ex) => {
                    self.enter_if();
                    match self.handle_expression(&ex) {
                        Result::Err(e) => {
                            proof {
                                assert(stepv == StepRes::Fail(e@));
                            }
                            return StepOutcome::Fault(e);
                        },
                        Result::Ok(()) => {},
                    }
                },
                directive::Directive::Elif(ex) => {
                    match self.enter_elif(&stripped) {
                        Result::Err(e) => {
                            proof {
                                assert(stepv == StepRes::Fail(e@));
                            }
                            return StepOutcome::Fault(e);
                        },
                        Result::Ok(()) => {},
                    }
                    match self.handle_expression(&ex) {
                        Result::Err(e) => {
                            proof {
                                assert(stepv == StepRes::Fail(e@));
                            }
                            return StepOutcome::Fault(e);
                        },
                        Result::Ok(()) => {},
                    }
                },
                directive::Directive::Endif => {
                    match self.leave_if(&stripped) {
                        Result::Err(e) => {
                            proof {
                                assert(stepv == StepRes::Fail(e@));
                            }
                            return StepOutcome::Fault(e);
                        },
                        Result::Ok(()) => {},
                    }
                },
                directive::Directive::Else => {
                    match self.enter_else(&stripped) {
                        Result::Err(e) => {
                            proof {
                                assert(stepv == StepRes::Fail(e@));
                            }
                            return StepOutcome::Fault(e);
                        },
                        Result::Ok(()) => {},
                    }
                    let h = self.is_handled();
                    self.set_copy(!h);
                },
                directive::Directive::Unrecognized => {
                    proof {
                        reveal_strlit("unrecognized preprocessor directive");
                    }
                    let msg = text::str_to_bytes("unrecognized preprocessor directive");
                    let e = self.make_error(msg, stripped);
                    proof {
                        assert(stepv == StepRes::Fail(e@));
                    }
                    return StepOutcome::Fault(e);
                },
            }
            writer.push(35);
            text::push_bytes(writer, raw);
            writer.push(10);
            proof {
                assert(writer@ =~= st_pre.out + seq![35u8] + raw@ + seq![10u8]);
            }
        } else if self.is_copy() {
            let t = match self.handle_variables(&blanked, self.compatible) {
                Result::Err(e) => {
                    proof {
                        assert(stepv == StepRes::Fail(e@));
                    }
                    return StepOutcome::Fault(e);
                },
                Result::Ok(t) => t,
            };
            text::push_bytes(writer, &t);
            writer.push(10);
            proof {
                assert(writer@ =~= st_pre.out + t@ + seq![10u8]);
            }
        } else {
            writer.push(35);
            text::push_bytes(writer, &blanked);
            writer.push(10);
            proof {
                assert(writer@ =~= st_pre.out + seq![35u8] + blanked@ + seq![10u8]);
            }
        }
        if self.overall_line_no == usize::MAX {
            proof {
                reveal_strlit("line counter overflow");
            }
            let msg = text::str_to_bytes("line counter overflow");
            let e = self.make_error(msg, Vec::new());
            proof {
                assert(stepv == StepRes::Fail(e@));
            }
            return StepOutcome::Fault(e);
        }
        self.line_no += 1;
        self.overall_line_no += 1;
        proof {
            assert(stepv is Cont);
            assert(stepv->Cont_0 =~= self.st_of(writer@));
        }
        StepOutcome::Next
    }

    /// Runs a nested engine against an included file, handing it the live
    /// definition table and location list and taking them back on success.
    fn include_file(
        &mut self,
        files: &FileTable,
        writer: &mut Vec<u8>,
        overall_line_no: usize,
        file_path: Vec<u8>,
        depth: u64,
    ) -> (r: Result<(), errors::Error>)
        requires
            files.wf(),
            old(self).definitions is Some,
            old(self).definitions->0.wf(),
            old(self).locations is Some,
            overall_line_no >= 1,
        ensures
            ({
                let rr = spec_run_file(
                    files@,
                    old(self).compatible,
                    file_path@,
                    old(self).definitions->0@,
                    locs_view(old(self).locations->0@),
                    old(writer)@,
                    overall_line_no as int,
                    depth as nat,
                );
                match r {
                    Result::Ok(()) => {
                        &&& rr matches RunRes::Done(stf) && final(self).definitions->0@ == stf.defs
                            && locs_view(final(self).locations->0@) == stf.locs && final(writer)@
                            == stf.out
                        &&& final(self).definitions is Some
                        &&& final(self).definitions->0.wf()
                        &&& final(self).locations is Some
                        &&& *final(self) == (SleighPreprocessor {
                            definitions: final(self).definitions,
                            locations: final(self).locations,
                            ..*old(self)
                        })
                    },
                    Result::Err(e) => rr matches RunRes::Fail(e0) && e@ == e0,
                }
            }),
        decreases depth, 1int,
    {
        let definitions = self.definitions.take();
        let locations = self.locations.take();
        let mut preprocessor = SleighPreprocessor {
            compatible: self.compatible,
            file_path,
            definitions,
            locations,
            ifstack: Vec::new(),
            error_count: 0,
            line_no: 0,
            overall_line_no: 0,
        };
        match preprocessor.process_internal(files, writer, overall_line_no, depth) {
            Result::Ok((definitions, locations)) => {
                self.definitions = Option::Some(definitions);
                self.locations = Option::Some(locations);
                Result::Ok(())
            },
            Result::Err(e) => Result::Err(e),
        }
    }

    /// Runs every line of the engine's own file against the file table,
    /// appending to `writer`; on success the final definition table and
    /// location list are handed back and no longer held.
    #[verifier::rlimit(60)]
    fn process_internal(
        &mut self,
        files: &FileTable,
        writer: &mut Vec<u8>,
        overall_line_no: usize,
        depth: u64,
    ) -> (r: Result<(Definitions, Vec<location::Location>), errors::Error>)
        requires
            files.wf(),
            old(self).definitions is Some,
            old(self).definitions->0.wf(),
            old(self).locations is Some,
            old(self).ifstack@.len() == 0,
            old(self).error_count == 0,
            overall_line_no >= 1,
        ensures
            ({
                let rr = spec_run_file(
                    files@,
                    old(self).compatible,
                    old(self).file_path@,
                    old(self).definitions->0@,
                    locs_view(old(self).locations->0@),
                    old(writer)@,
                    overall_line_no as int,
                    depth as nat,
                );
                match r {
                    Result::Ok(dl) => {
                        &&& rr matches RunRes::Done(stf) && dl.0@ == stf.defs && locs_view(dl.1@)
                            == stf.locs && final(writer)@ == stf.out
                        &&& dl.0.wf()
                        &&& final(self).compatible == old(self).compatible
                        &&& final(self).file_path == old(self).file_path
                    },
                    Result::Err(e) => rr matches RunRes::Fail(e0) && e@ == e0,
                }
            }),
        decreases depth, 0int,
    {
        self.line_no = 1;
        self.overall_line_no = overall_line_no;
        self.ifstack.push(ConditionalHelper::new(false, false, false, true));

        let source = match files.get(&self.file_path) {
            Option::Some(s) => s,
            Option::None => {
                return Result::Err(errors::Error::Io(text::clone_bytes(&self.file_path)));
            },
        };
        let c0 = text::count_output_lines(writer);
        if c0 == usize::MAX {
            proof {
                reveal_strlit("line counter overflow");
            }
            let msg = text::str_to_bytes("line counter overflow");
            return Result::Err(self.make_error(msg, Vec::new()));
        }
        self.output_position(writer, c0 + 1);

        let ghost comp = self.compatible;
        let ghost linesV = source@;
        let ghost st_start = self.st_of(writer@);
        let ghost goal = spec_run_lines(files@, comp, linesV, 0, st_start, depth as nat);
        proof {
            let st0 = StV {
                path: old(self).file_path@,
                defs: old(self).definitions->0@,
                locs: locs_view(old(self).locations->0@),
                out: old(writer)@,
                stack: seq![
                    ConditionalHelper { in_if: false, saw_else: false, handled: false, copy: true },
                ],
                line_no: 1,
                overall: overall_line_no as int,
            };
            assert(self.ifstack@ =~= st0.stack);
            assert(st_start =~= output_position(st0, comp));
            let rr = spec_run_file(
                files@,
                old(self).compatible,
                old(self).file_path@,
                old(self).definitions->0@,
                locs_view(old(self).locations->0@),
                old(writer)@,
                overall_line_no as int,
                depth as nat,
            );
            assert(rr == goal);
        }

        let n = source.lines.len();
        let mut i: usize = 0;
        while i < n
            invariant
                files.wf(),
                n == source.lines@.len(),
                linesV == source@,
                linesV.len() == n,
                self.definitions is Some,
                self.definitions->0.wf(),
                self.locations is Some,
                self.error_count == 0,
                self.ifstack@.len() >= 1,
                !self.ifstack@[0].in_if,
                self.compatible == comp,
                self.file_path == old(self).file_path,
                self.line_no == i + 1,
                self.line_no <= self.overall_line_no,
                spec_run_lines(files@, comp, linesV, i as int, self.st_of(writer@), depth as nat)
                    == goal,
                goal == spec_run_file(
                    files@,
                    old(self).compatible,
                    old(self).file_path@,
                    old(self).definitions->0@,
                    locs_view(old(self).locations->0@),
                    old(writer)@,
                    overall_line_no as int,
                    depth as nat,
                ),
            decreases n - i,
        {
            let raw: &Vec<u8> = &source.lines[i];
            proof {
                assert(raw@ == linesV[i as int]);
            }
            let ghost st_pre = self.st_of(writer@);
            match self.step_line(files, writer, raw) {
                StepOutcome::Fault(e) => {
                    proof {
                        assert(spec_run_lines(files@, comp, linesV, i as int, st_pre, depth as nat)
                            == RunRes::Fail(e@));
                    }
                    return Result::Err(e);
                },
                StepOutcome::Next => {
                    proof {
                        assert(spec_run_lines(files@, comp, linesV, i as int, st_pre, depth as nat)
                            == spec_run_lines(
                            files@,
                            comp,
                            linesV,
                            i + 1,
                            self.st_of(writer@),
                            depth as nat,
                        ));
                    }
                    i += 1;
                },
                StepOutcome::Rec(rp) => {
                    if depth == 0 {
                        proof {
                            reveal_strlit("include depth limit exceeded");
                        }
                        let msg = text::str_to_bytes("include depth limit exceeded");
                        let e = self.make_error(msg, text::clone_bytes(raw));
                        proof {
                            assert(spec_run_lines(
                                files@,
                                comp,
                                linesV,
                                i as int,
                                st_pre,
                                depth as nat,
                            ) == RunRes::Fail(e@));
                        }
                        return Result::Err(e);
                    }
                    let ov = self.overall_line_no;
                    match self.include_file(files, writer, ov, rp, depth - 1) {
                        Result::Err(e) => {
                            proof {
                                assert(spec_run_lines(
                                    files@,
                                    comp,
                                    linesV,
                                    i as int,
                                    st_pre,
                                    depth as nat,
                                ) == RunRes::Fail(e@));
                            }
                            return Result::Err(e);
                        },
                        Result::Ok(()) => {},
                    }
                    let ghost stf = self.st_of(writer@);
                    if self.overall_line_no == usize::MAX {
                        proof {
                            reveal_strlit("line counter overflow");
                        }
                        let msg = text::str_to_bytes("line counter overflow");
                        let e = self.make_error(msg, Vec::new());
                        proof {
                            assert(spec_run_lines(
                                files@,
                                comp,
                                linesV,
                                i as int,
                                st_pre,
                                depth as nat,
                            ) == RunRes::Fail(e@));
                        }
                        return Result::Err(e);
                    }
                    self.line_no += 1;
                    self.overall_line_no += 1;
                    let ghost st2 = StV {
                        path: st_pre.path,
                        defs: stf.defs,
                        locs: stf.locs,
                        out: stf.out,
                        stack: st_pre.stack,
                        line_no: st_pre.line_no + 1,
                        overall: st_pre.overall + 1,
                    };
                    let c = text::count_output_lines(writer);
                    if c == usize::MAX {
                        proof {
                            reveal_strlit("line counter overflow");
                        }
                        let msg = text::str_to_bytes("line counter overflow");
                        let e = self.make_error(msg, Vec::new());
                        proof {
                            assert(self.st_of(writer@) =~= st2);
                            assert(spec_run_lines(
                                files@,
                                comp,
                                linesV,
                                i as int,
                                st_pre,
                                depth as nat,
                            ) == RunRes::Fail(e@));
                        }
                        return Result::Err(e);
                    }
                    self.output_position(writer, c + 1);
                    proof {
                        assert(self.st_of(writer@) =~= output_position(st2, comp));
                        assert(spec_run_lines(files@, comp, linesV, i as int, st_pre, depth as nat)
                            == spec_run_lines(
                            files@,
                            comp,
                            linesV,
                            i + 1,
                            self.st_of(writer@),
                            depth as nat,
                        ));
                    }
                    i += 1;
                },
            }
        }
        proof {
            assert(spec_run_lines(files@, comp, linesV, i as int, self.st_of(writer@), depth as nat)
                == RunRes::Done(self.st_of(writer@)));
        }
        if self.error_count > 0 {
            proof {
                assert(false);
            }
            let msg = Vec::new();
            return Result::Err(self.make_error(msg, Vec::new()));
        }
        let defs = match self.definitions.take() {
            Option::Some(d) => d,
            Option::None => unreached(),
        };
        let locs = match self.locations.take() {
            Option::Some(l) => l,
            Option::None => unreached(),
        };
        Result::Ok((defs, locs))
    }

    /// Runs the whole preprocessing pass over the engine's file: reads it
    /// from the file table, expands and filters every line into `writer`,
    /// and keeps the final definition table and location list.
    pub fn process(&mut self, files: &FileTable, writer: &mut Vec<u8>) -> (r: Result<
        (),
        errors::Error,
    >)
        requires
            files.wf(),
            old(self).ready(),
        ensures
            ({
                let rr = spec_run_file(
                    files@,
                    old(self).compatible_mode(),
                    old(self).path_view(),
                    old(self).defs_view(),
                    old(self).locs_seq(),
                    old(writer)@,
                    1,
                    MAX_INCLUDE_DEPTH as nat,
                );
                match r {
                    Result::Ok(()) => {
                        &&& rr matches RunRes::Done(stf) && final(self).defs_view() == stf.defs
                            && final(self).locs_seq() == stf.locs && final(writer)@ == stf.out
                        &&& final(self).has_definitions()
                        &&& final(self).defs_wf()
                        &&& final(self).has_locations()
                        &&& final(self).path_view() == old(self).path_view()
                        &&& final(self).compatible_mode() == old(self).compatible_mode()
                    },
                    Result::Err(e) => rr matches RunRes::Fail(e0) && e@ == e0,
                }
            }),
    {
        match self.process_internal(files, writer, 1, MAX_INCLUDE_DEPTH) {
            Result::Ok((definitions, locations)) => {
                self.definitions = Option::Some(definitions);
                self.locations = Option::Some(locations);
                Result::Ok(())
            },
            Result::Err(e) => Result::Err(e),
        }
    }
}

} // verus!

verus! {

/// No variable reference anywhere in `s`.
pub open spec fn no_reference(s: Seq<u8>) -> bool {
    forall|j: int| 0 <= j < s.len() ==> !match_at(s, j)
}

/// Substitution is the identity on text holding no variable reference; in
/// particular, running compatible-mode substitution a second time on output
/// in which no `$(NAME)` pattern remains hands the text back unchanged.
pub proof fn lemma_subst_without_reference_is_identity(
    s: Seq<u8>,
    defs: Map<Seq<u8>, Seq<u8>>,
    annotate: bool,
)
    requires
        no_reference(s),
    ensures
        spec_subst(s, defs, annotate) == Result::<Seq<u8>, Seq<u8>>::Ok(s),
{
    reveal(spec_subst);
    lemma_find_expansion_none(s, 0);
}

/// An `@elif` at a level that some earlier branch already handled never
/// evaluates its expression: the step is the same fixed outcome -- the
/// level goes quiet and the line is echoed -- whatever expression text
/// follows the keyword, even one whose evaluation would fail.
pub proof fn lemma_elif_after_handled_skips_expression(
    files: Map<Seq<u8>, Seq<Seq<u8>>>,
    st: StV,
    raw: Seq<u8>,
    compatible: bool,
)
    requires
        !is_full_comment(raw),
        raw.len() > 0,
        raw[0] == 64,
        spec_classify(strip_comment(raw)) is Elif,
        st.stack.len() > 0,
        st.stack.last().in_if,
        !st.stack.last().saw_else,
        st.stack.last().handled,
    ensures
        spec_step(files, st, raw, compatible) == bump(
            echo(
                StV {
                    stack: st.stack.update(
                        st.stack.len() - 1,
                        (ConditionalHelper { copy: false, ..st.stack.last() }),
                    ),
                    ..st
                },
                raw,
            ),
        ),
        st.overall < usize::MAX as int ==> spec_step(files, st, raw, compatible) is Cont,
{
    reveal(spec_step);
}

/// An extra `@endif`, one that meets the sentinel root frame rather than an
/// open conditional level, always fails with the conditional-structure
/// error.
pub proof fn lemma_extra_endif_fails(
    files: Map<Seq<u8>, Seq<Seq<u8>>>,
    st: StV,
    raw: Seq<u8>,
    compatible: bool,
)
    requires
        !is_full_comment(raw),
        raw.len() > 0,
        raw[0] == 64,
        spec_classify(strip_comment(raw)) is Endif,
        st.stack.len() == 1,
        !st.stack[0].in_if,
    ensures
        spec_step(files, st, raw, compatible) == StepRes::Fail(
            perr(st, msg_not_in_if(), strip_comment(raw)),
        ),
{
    reveal(spec_step);
}

/// How one line changes the conditional nesting depth: the `@if` family
/// opens a level, `@endif` closes one, everything else leaves the depth
/// alone.
pub open spec fn line_depth_delta(raw: Seq<u8>) -> int {
    let blanked: Seq<u8> = if is_full_comment(raw) {
        Seq::empty()
    } else {
        raw
    };
    if blanked.len() > 0 && blanked[0] == 64 {
        match spec_classify(strip_comment(blanked)) {
            DirectiveV::Ifdef(_) => 1,
            DirectiveV::Ifndef(_) => 1,
            DirectiveV::If(_) => 1,
            DirectiveV::Endif => -1,
            _ => 0,
        }
    } else {
        0
    }
}

/// The nesting depth change over the lines from `i` on.
pub open spec fn lines_depth_balance(lines: Seq<Seq<u8>>, i: int) -> int
    decreases lines.len() - i,
{
    if !(0 <= i < lines.len()) {
        0
    } else {
        line_depth_delta(lines[i]) + lines_depth_balance(lines, i + 1)
    }
}

/// A step that goes on changes the stack depth exactly by the line's
/// nesting delta, and a step never touches frames below the top.
proof fn lemma_step_stack_depth(
    files: Map<Seq<u8>, Seq<Seq<u8>>>,
    st: StV,
    raw: Seq<u8>,
    compatible: bool,
)
    ensures
        spec_step(files, st, raw, compatible) matches StepRes::Cont(st2) ==> st2.stack.len()
            == st.stack.len() + line_depth_delta(raw),
        spec_step(files, st, raw, compatible) matches StepRes::DoInclude(_, st1) ==> st1 == st
            && line_depth_delta(raw) == 0,
{
    reveal(spec_step);
}

/// A run that reaches the end of its lines changes the stack depth by
/// exactly the lines' total nesting delta.
proof fn lemma_run_lines_depth(
    files: Map<Seq<u8>, Seq<Seq<u8>>>,
    compatible: bool,
    lines: Seq<Seq<u8>>,
    i: int,
    st: StV,
    depth: nat,
)
    ensures
        spec_run_lines(files, compatible, lines, i, st, depth) matches RunRes::Done(stf)
            ==> stf.stack.len() == st.stack.len() + lines_depth_balance(lines, i),
    decreases depth, 0int, lines.len() - i,
{
    if 0 <= i < lines.len() {
        lemma_step_stack_depth(files, st, lines[i], compatible);
        match spec_step(files, st, lines[i], compatible) {
            StepRes::Fail(_) => {},
            StepRes::Cont(st2) => {
                lemma_run_lines_depth(files, compatible, lines, i + 1, st2, depth);
            },
            StepRes::DoInclude(rp, _) => {
                if depth > 0 {
                    match spec_run_file(
                        files,
                        compatible,
                        rp,
                        st.defs,
                        st.locs,
                        st.out,
                        st.overall,
                        (depth - 1) as nat,
                    ) {
                        RunRes::Fail(_) => {},
                        RunRes::Done(sti) => {
                            if st.overall < usize::MAX as int {
                                let st2 = StV {
                                    path: st.path,
                                    defs: sti.defs,
                                    locs: sti.locs,
                                    out: sti.out,
                                    stack: st.stack,
                                    line_no: st.line_no + 1,
                                    overall: st.overall + 1,
                                };
                                if out_line_count(st2.out) < usize::MAX as int {
                                    lemma_run_lines_depth(
                                        files,
                                        compatible,
                                        lines,
                                        i + 1,
                                        output_position(st2, compatible),
                                        depth,
                                    );
                                }
                            }
                        },
                    }
                }
            },
        }
    }
}

/// For well-formed input with balanced nesting -- as many `@endif`s as
/// lines of the `@if` family -- a run that completes leaves the conditional
/// stack at depth one: the sentinel root frame alone.
pub proof fn lemma_balanced_run_returns_to_root(
    files: Map<Seq<u8>, Seq<Seq<u8>>>,
    compatible: bool,
    lines: Seq<Seq<u8>>,
    st: StV,
    depth: nat,
)
    requires
        st.stack.len() == 1,
        lines_depth_balance(lines, 0) == 0,
        spec_run_lines(files, compatible, lines, 0, st, depth) is Done,
    ensures
        spec_run_lines(files, compatible, lines, 0, st, depth)->Done_0.stack.len() == 1,
{
    lemma_run_lines_depth(files, compatible, lines, 0, st, depth);
}

/// The same, over a whole file run: with balanced nesting a completed run
/// ends with the sentinel root frame alone on the conditional stack.
pub proof fn lemma_balanced_file_returns_to_root(
    files: Map<Seq<u8>, Seq<Seq<u8>>>,
    compatible: bool,
    path: Seq<u8>,
    defs: Map<Seq<u8>, Seq<u8>>,
    locs: Seq<LocationV>,
    out: Seq<u8>,
    overall: int,
    depth: nat,
)
    requires
        files.contains_key(path),
        lines_depth_balance(files[path], 0) == 0,
        spec_run_file(files, compatible, path, defs, locs, out, overall, depth) is Done,
    ensures
        spec_run_file(files, compatible, path, defs, locs, out, overall, depth)->Done_0.stack.len()
            == 1,
{
    let st0 = StV {
        path,
        defs,
        locs,
        out,
        stack: seq![
            ConditionalHelper { in_if: false, saw_else: false, handled: false, copy: true },
        ],
        line_no: 1,
        overall,
    };
    if out_line_count(out) < usize::MAX as int {
        lemma_run_lines_depth(
            files,
            compatible,
            files[path],
            0,
            output_position(st0, compatible),
            depth,
        );
    }
}

} // verus!

verus! {

/// Every value in the definition table is free of newlines.
pub open spec fn defs_nl_free(defs: Map<Seq<u8>, Seq<u8>>) -> bool {
    forall|k: Seq<u8>| defs.contains_key(k) ==> text::nl_free(#[trigger] defs[k])
}

proof fn lemma_subst_nl_free(s: Seq<u8>, defs: Map<Seq<u8>, Seq<u8>>, annotate: bool)
    requires
        text::nl_free(s),
        defs_nl_free(defs),
    ensures
        spec_subst(s, defs, annotate) matches Result::Ok(t) ==> text::nl_free(t),
    decreases s.len(),
{
    reveal(spec_subst);
    lemma_find_expansion_bounds(s, 0);
    match find_expansion(s, 0) {
        Option::None => {},
        Option::Some((a, b)) => {
            let name = s.subrange(a + 2, b - 1);
            if defs.contains_key(name) {
                assert(text::nl_free(s.subrange(b, s.len() as int)));
                lemma_subst_nl_free(s.subrange(b, s.len() as int), defs, annotate);
            }
        },
    }
}

/// The value a `@define` line carries is part of the line itself, or empty.
proof fn lemma_define_value_nl_free(s: Seq<u8>)
    requires
        text::nl_free(s),
    ensures
        spec_classify(s) matches DirectiveV::Define(k, v) ==> text::nl_free(v),
{
    reveal(spec_classify);
    match directive::after_kw(s, bytes_of_str("define"@)) {
        Option::None => {},
        Option::Some(k) => {
            directive::lemma_skip_ws(s, 1 + bytes_of_str("define"@).len() as int);
            boolean_expression::lemma_ident_end(s, k);
            let e1 = ident_end(s, k);
            if e1 > k && !directive::all_ws(s, e1) && e1 < s.len() && text::is_ws(s[e1]) {
                directive::lemma_skip_ws(s, e1);
                let w = directive::skip_ws(s, e1);
                directive::lemma_rtrim_bounds(s);
                if w <= s.len() {
                    directive::lemma_nonws_end_bounds(s, w);
                }
            }
        },
    }
}

/// Whether a line is a recognized `@include` directive.
pub open spec fn is_include_line(raw: Seq<u8>) -> bool {
    let blanked: Seq<u8> = if is_full_comment(raw) {
        Seq::empty()
    } else {
        raw
    };
    blanked.len() > 0 && blanked[0] == 64 && spec_classify(strip_comment(blanked)) is Include
}

/// A line that goes on appends exactly one newline to the output and keeps
/// the definition table free of newlines.
proof fn lemma_step_line_count(
    files: Map<Seq<u8>, Seq<Seq<u8>>>,
    st: StV,
    raw: Seq<u8>,
    compatible: bool,
)
    requires
        text::nl_free(raw),
        defs_nl_free(st.defs),
    ensures
        spec_step(files, st, raw, compatible) matches StepRes::Cont(st2) ==> text::count_nl(st2.out)
            == text::count_nl(st.out) + 1 && defs_nl_free(st2.defs),
{
    reveal(spec_step);
    let blanked: Seq<u8> = if is_full_comment(raw) {
        Seq::empty()
    } else {
        raw
    };
    text::lemma_count_nl_single(35);
    text::lemma_count_nl_single(10);
    if spec_step(files, st, raw, compatible) is Cont {
        let st2 = spec_step(files, st, raw, compatible)->Cont_0;
        if blanked.len() > 0 && blanked[0] == 64 {
            let stripped = strip_comment(blanked);
            directive::lemma_hash_pos_bounds(blanked);
            assert(text::nl_free(stripped));
            match spec_classify(stripped) {
                DirectiveV::Define(k, v) => {
                    lemma_define_value_nl_free(stripped);
                    assert(defs_nl_free(st2.defs)) by {
                        if spec_copy_all(st.stack) {
                            assert forall|q: Seq<u8>| st.defs.insert(k, v).contains_key(q)
                                implies text::nl_free(#[trigger] st.defs.insert(k, v)[q]) by {
                                if q != k {
                                    assert(st.defs.contains_key(q));
                                }
                            }
                        }
                    }
                },
                DirectiveV::Undef(k) => {
                    assert(defs_nl_free(st2.defs)) by {
                        if spec_copy_all(st.stack) {
                            assert forall|q: Seq<u8>| st.defs.remove(k).contains_key(q)
                                implies text::nl_free(#[trigger] st.defs.remove(k)[q]) by {
                                assert(st.defs.contains_key(q));
                            }
                        }
                    }
                },
                _ => {},
            }
            assert(st2.out == st.out + seq![35u8] + raw + seq![10u8]);
            text::lemma_count_nl_concat(st.out + seq![35u8] + raw, seq![10u8]);
            text::lemma_count_nl_concat(st.out + seq![35u8], raw);
            text::lemma_count_nl_concat(st.out, seq![35u8]);
            text::lemma_count_nl_free(raw);
        } else if spec_copy_all(st.stack) {
            let t = spec_subst(blanked, st.defs, !compatible)->Ok_0;
            lemma_subst_nl_free(blanked, st.defs, !compatible);
            assert(st2.out == st.out + t + seq![10u8]);
            text::lemma_count_nl_concat(st.out + t, seq![10u8]);
            text::lemma_count_nl_concat(st.out, t);
            text::lemma_count_nl_free(t);
        } else {
            assert(st2.out == st.out + seq![35u8] + blanked + seq![10u8]);
            text::lemma_count_nl_concat(st.out + seq![35u8] + blanked, seq![10u8]);
            text::lemma_count_nl_concat(st.out + seq![35u8], blanked);
            text::lemma_count_nl_concat(st.out, seq![35u8]);
            text::lemma_count_nl_free(blanked);
        }
    }
}

/// For newline-free input lines none of which is an `@include`, a completed
/// run appends exactly one output line per input line: emitted and disabled
/// placeholder lines together keep line-count parity with the source.
pub proof fn lemma_run_lines_count_parity(
    files: Map<Seq<u8>, Seq<Seq<u8>>>,
    compatible: bool,
    lines: Seq<Seq<u8>>,
    i: int,
    st: StV,
    depth: nat,
)
    requires
        forall|j: int| 0 <= j < lines.len() ==> text::nl_free(#[trigger] lines[j]),
        forall|j: int| 0 <= j < lines.len() ==> !is_include_line(#[trigger] lines[j]),
        defs_nl_free(st.defs),
        0 <= i <= lines.len(),
    ensures
        spec_run_lines(files, compatible, lines, i, st, depth) matches RunRes::Done(stf)
            ==> text::count_nl(stf.out) == text::count_nl(st.out) + (lines.len() - i),
    decreases lines.len() - i,
{
    if i < lines.len() {
        lemma_step_line_count(files, st, lines[i], compatible);
        match spec_step(files, st, lines[i], compatible) {
            StepRes::Fail(_) => {},
            StepRes::Cont(st2) => {
                lemma_run_lines_count_parity(files, compatible, lines, i + 1, st2, depth);
            },
            StepRes::DoInclude(_, _) => {
                assert(is_include_line(lines[i])) by {
                    reveal(spec_step);
                }
            },
        }
    }
}

/// Output line count equals input line count for a single file without
/// includes: a completed run over such a file adds exactly as many newlines
/// to the output as the file has lines (the position marker holds none).
pub proof fn lemma_single_file_line_parity(
    files: Map<Seq<u8>, Seq<Seq<u8>>>,
    compatible: bool,
    path: Seq<u8>,
    defs: Map<Seq<u8>, Seq<u8>>,
    locs: Seq<LocationV>,
    out: Seq<u8>,
    overall: int,
    depth: nat,
)
    requires
        files.contains_key(path),
        text::nl_free(path),
        forall|j: int|
            0 <= j < files[path].len() ==> text::nl_free(#[trigger] files[path][j]),
        forall|j: int|
            0 <= j < files[path].len() ==> !is_include_line(#[trigger] files[path][j]),
        defs_nl_free(defs),
    ensures
        spec_run_file(files, compatible, path, defs, locs, out, overall, depth)
            matches RunRes::Done(stf) ==> text::count_nl(stf.out) == text::count_nl(out)
            + files[path].len(),
{
    let st0 = StV {
        path,
        defs,
        locs,
        out,
        stack: seq![
            ConditionalHelper { in_if: false, saw_else: false, handled: false, copy: true },
        ],
        line_no: 1,
        overall,
    };
    if out_line_count(out) < usize::MAX as int {
        let st1 = output_position(st0, compatible);
        assert(text::count_nl(st1.out) == text::count_nl(out)) by {
            if !compatible {
                let m = marker_bytes(basename(path), 1);
                assert(text::nl_free(m)) by {
                    text::lemma_dec_digits_nl_free(1nat);
                    proof_marker_nl_free(path);
                }
                text::lemma_count_nl_concat(out, m);
                text::lemma_count_nl_free(m);
            } else {
                assert(st1.out =~= out);
            }
        }
        lemma_run_lines_count_parity(files, compatible, files[path], 0, st1, depth);
    }
}

proof fn proof_marker_nl_free(path: Seq<u8>)
    requires
        text::nl_free(path),
    ensures
        text::nl_free(marker_bytes(basename(path), 1)),
{
    reveal_strlit("###");
    text::lemma_dec_digits_nl_free(1nat);
    let m = marker_bytes(basename(path), 1);
    lemma_last_slash_bounds(path);
    assert forall|k: int| 0 <= k < m.len() implies m[k] != 10 by {
        let f = basename(path);
        let h = bytes_of_str("###"@);
        let d = dec_digits(1nat);
        assert(m == ctrl() + f + h + d + ctrl());
        assert(h.len() == 3 && h[0] == 35 && h[1] == 35 && h[2] == 35);
        if 1 <= k < 1 + f.len() {
            assert(m[k] == f[k - 1]);
            assert(f[k - 1] == path[last_slash(path) + 1 + (k - 1)]);
            assert(path[last_slash(path) + 1 + (k - 1)] != 10);
        }
    }
}

} // verus!
