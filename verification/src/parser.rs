//! Line classification and the scanning loop: consuming a file as a sequence
//! of lines and accumulating the declared targets.

use vstd::prelude::*;
use vstd::string::StrSliceExecFns;
use vstd::string::StringExecFns;

use crate::resolve::ResolveError;
use crate::resolve::ResolveErrorV;
use crate::resolve::res_view;
use crate::resolve::resolve;
use crate::resolve::resolve_text;
use crate::text::CharClass;
use crate::text::char_in_class;
use crate::text::is_ws;
use crate::text::lemma_run_from_chars;
use crate::text::run_end;
use crate::text::run_from;
use crate::types::Target;
use crate::types::TargetV;
use crate::types::targets_view;
use crate::vars::VarMap;

verus! {

// ---------------------------------------------------------------------------
// Target declarations: an unindented word immediately followed by `:`.
// ---------------------------------------------------------------------------
/// Whether the line declares a target.
pub open spec fn is_target_line(line: Seq<char>) -> bool {
    let r = run_from(line, 0, CharClass::Word);
    r >= 1 && r < line.len() && line[r] == ':'
}

/// The declared target's name: the word before `:`.
pub open spec fn target_name(line: Seq<char>) -> Seq<char> {
    line.take(run_from(line, 0, CharClass::Word))
}

/// Recognize a target declaration at run time.
fn match_target(line: &str) -> (r: Option<String>)
    ensures
        (match r {
            Option::Some(name) => is_target_line(line@) && name@ == target_name(line@),
            Option::None => !is_target_line(line@),
        }),
{
    let n = line.unicode_len();
    let rend = run_end(line, 0, CharClass::Word);
    if rend >= 1 && rend < n && line.get_char(rend) == ':' {
        let name = String::from_str(line.substring_char(0, rend));
        proof {
            assert(line@.take(rend as int) =~= line@.subrange(0, rend as int));
        }
        Option::Some(name)
    } else {
        Option::None
    }
}

// ---------------------------------------------------------------------------
// Variable assignments: `name = value`, accepting `=`, `?=` or `:=`, with the
// value running to the end of the line but excluding a trailing comment.
// ---------------------------------------------------------------------------
/// A recognized variable assignment.
pub ghost struct VarDef {
    pub name: Seq<char>,
    pub value: Seq<char>,
}

/// The assignment the line makes, if any: a run of name characters, optional
/// whitespace, an optional `?` or `:` immediately before `=`, then the value:
/// the rest of the line up to `#` or a line break, less leading whitespace
/// (keeping at least one character).
pub open spec fn var_def(line: Seq<char>) -> Option<VarDef> {
    let n = run_from(line, 0, CharClass::VarName);
    if n == 0 {
        Option::None
    } else {
        let j = n + run_from(line, n, CharClass::Ws);
        if j < line.len() && line[j] == '=' {
            var_def_value(line, n, j + 1)
        } else if j + 1 < line.len() && (line[j] == '?' || line[j] == ':') && line[j + 1] == '=' {
            var_def_value(line, n, j + 2)
        } else {
            Option::None
        }
    }
}

/// The assigned value, given that the name runs to `n` and the text after
/// `=` starts at `k`.
pub open spec fn var_def_value(line: Seq<char>, n: int, k: int) -> Option<VarDef> {
    let e = k + run_from(line, k, CharClass::Value);
    if e == k {
        Option::None
    } else {
        let w = run_from(line, k, CharClass::Ws);
        let vs = if k + w < e {
            k + w
        } else {
            e - 1
        };
        Option::Some(VarDef { name: line.take(n), value: line.subrange(vs, e) })
    }
}

/// Recognize a variable assignment at run time.
fn match_var_def(line: &str) -> (r: Option<(String, String)>)
    ensures
        (match r {
            Option::Some((name, value)) => var_def(line@) == Option::Some(
                (VarDef { name: name@, value: value@ }),
            ),
            Option::None => var_def(line@) is None,
        }),
{
    let len = line.unicode_len();
    let n = run_end(line, 0, CharClass::VarName);
    if n == 0 {
        return Option::None;
    }
    let j = run_end(line, n, CharClass::Ws);
    let k: usize = if j < len && line.get_char(j) == '=' {
        j + 1
    } else if j < len && len - j >= 2 && (line.get_char(j) == '?' || line.get_char(j) == ':')
        && line.get_char(j + 1) == '=' {
        j + 2
    } else {
        return Option::None;
    };
    let e = run_end(line, k, CharClass::Value);
    if e == k {
        return Option::None;
    }
    let w_end = run_end(line, k, CharClass::Ws);
    let vs: usize = if w_end < e {
        w_end
    } else {
        e - 1
    };
    let name = String::from_str(line.substring_char(0, n));
    let value = String::from_str(line.substring_char(vs, e));
    proof {
        assert(line@.take(n as int) =~= line@.subrange(0, n as int));
    }
    Option::Some((name, value))
}

// ---------------------------------------------------------------------------
// Indentation and comments: indentation is any number of units, a unit being
// four spaces or one tab; a comment is indentation followed by `#`.
// ---------------------------------------------------------------------------
/// Where the line's leading indentation units end.
pub open spec fn indent_end(line: Seq<char>, i: int) -> int
    decreases line.len() - i,
{
    if 0 <= i && i + 4 <= line.len() && line[i] == ' ' && line[i + 1] == ' ' && line[i + 2] == ' '
        && line[i + 3] == ' ' {
        indent_end(line, i + 4)
    } else if 0 <= i && i < line.len() && line[i] == '\t' {
        indent_end(line, i + 1)
    } else {
        i
    }
}

pub proof fn lemma_indent_end_bounds(line: Seq<char>, i: int)
    requires
        0 <= i <= line.len(),
    ensures
        i <= indent_end(line, i) <= line.len(),
    decreases line.len() - i,
{
    if i + 4 <= line.len() && line[i] == ' ' && line[i + 1] == ' ' && line[i + 2] == ' ' && line[i
        + 3] == ' ' {
        lemma_indent_end_bounds(line, i + 4);
    } else if i < line.len() && line[i] == '\t' {
        lemma_indent_end_bounds(line, i + 1);
    }
}

/// Where the line's leading indentation units end, at run time.
fn indent_end_exec(line: &str, i: usize) -> (p: usize)
    requires
        i <= line@.len(),
    ensures
        p == indent_end(line@, i as int),
        i <= p <= line@.len(),
    decreases line@.len() - i,
{
    let n = line.unicode_len();
    if n - i >= 4 && line.get_char(i) == ' ' && line.get_char(i + 1) == ' ' && line.get_char(i + 2)
        == ' ' && line.get_char(i + 3) == ' ' {
        indent_end_exec(line, i + 4)
    } else if i < n && line.get_char(i) == '\t' {
        indent_end_exec(line, i + 1)
    } else {
        i
    }
}

/// Whether the line is a comment: indentation units then `#`.
pub open spec fn is_comment(line: Seq<char>) -> bool {
    let p = indent_end(line, 0);
    p < line.len() && line[p] == '#'
}

/// Whether the line is a comment, at run time.
fn is_comment_exec(line: &str) -> (r: bool)
    ensures
        r == is_comment(line@),
{
    let n = line.unicode_len();
    let p = indent_end_exec(line, 0);
    p < n && line.get_char(p) == '#'
}

// ---------------------------------------------------------------------------
// Output declarations, three sub-patterns in fixed priority order:
//   (i)  a tagged comment `# Output: path`;
//   (ii) an indented `mkdir` command, taking its trailing token;
//   (iii) an indented command with a `-o` flag, taking the token after it.
// ---------------------------------------------------------------------------
/// The path of a tagged output comment: optional indentation, `#`, optional
/// blanks, `Output`, optional blanks, `:`, optional blanks, then a
/// whitespace-free path token.
pub open spec fn out_comment(line: Seq<char>) -> Option<Seq<char>> {
    let p = indent_end(line, 0);
    if !(p < line.len() && line[p] == '#') {
        Option::None
    } else {
        let a = p + 1 + run_from(line, p + 1, CharClass::SpTab);
        if !(a + 6 <= line.len() && line[a] == 'O' && line[a + 1] == 'u' && line[a + 2] == 't'
            && line[a + 3] == 'p' && line[a + 4] == 'u' && line[a + 5] == 't') {
            Option::None
        } else {
            let b = a + 6 + run_from(line, a + 6, CharClass::SpTab);
            if !(b < line.len() && line[b] == ':') {
                Option::None
            } else {
                let c = b + 1 + run_from(line, b + 1, CharClass::SpTab);
                let pr = run_from(line, c, CharClass::NonWs);
                if pr >= 1 {
                    Option::Some(line.subrange(c, c + pr))
                } else {
                    Option::None
                }
            }
        }
    }
}

/// Recognize a tagged output comment at run time.
fn match_out_comment(line: &str) -> (r: Option<String>)
    ensures
        (match r {
            Option::Some(path) => out_comment(line@) == Option::Some(path@),
            Option::None => out_comment(line@) is None,
        }),
{
    let n = line.unicode_len();
    let p = indent_end_exec(line, 0);
    if !(p < n && line.get_char(p) == '#') {
        return Option::None;
    }
    let a = run_end(line, p + 1, CharClass::SpTab);
    if !(n - a >= 6 && line.get_char(a) == 'O' && line.get_char(a + 1) == 'u' && line.get_char(
        a + 2,
    ) == 't' && line.get_char(a + 3) == 'p' && line.get_char(a + 4) == 'u' && line.get_char(a + 5)
        == 't') {
        return Option::None;
    }
    let b = run_end(line, a + 6, CharClass::SpTab);
    if !(b < n && line.get_char(b) == ':') {
        return Option::None;
    }
    let c = run_end(line, b + 1, CharClass::SpTab);
    let pe = run_end(line, c, CharClass::NonWs);
    if pe > c {
        Option::Some(String::from_str(line.substring_char(c, pe)))
    } else {
        Option::None
    }
}

/// The exclusive end of the last whitespace-free token before `hi`, looking
/// no further left than `from`; negative when there is none.
pub open spec fn token_end(line: Seq<char>, from: int, hi: int) -> int
    decreases hi,
{
    if hi <= from || hi <= 0 {
        -1
    } else if !is_ws(line[hi - 1]) {
        hi
    } else {
        token_end(line, from, hi - 1)
    }
}

/// The start of the whitespace-free token that ends at `j`, looking no
/// further left than `from`.
pub open spec fn token_start(line: Seq<char>, from: int, j: int) -> int
    decreases j,
{
    if j - 1 >= from && j - 1 >= 0 && j - 1 < line.len() && !is_ws(line[j - 1]) {
        token_start(line, from, j - 1)
    } else {
        j
    }
}

/// The last whitespace-delimited token of `line` at or after `from`, if any.
pub open spec fn last_token(line: Seq<char>, from: int) -> Option<Seq<char>> {
    let e = token_end(line, from, line.len() as int);
    if e < 0 {
        Option::None
    } else {
        Option::Some(line.subrange(token_start(line, from, e), e))
    }
}

/// `token_end`, at run time: `None` stands for "no token".
fn token_end_exec(line: &str, from: usize, hi: usize) -> (r: Option<usize>)
    requires
        hi <= line@.len(),
    ensures
        (match r {
            Option::Some(e) => token_end(line@, from as int, hi as int) == e as int && from < e
                <= line@.len(),
            Option::None => token_end(line@, from as int, hi as int) == -1,
        }),
    decreases hi,
{
    if hi <= from {
        Option::None
    } else if !char_in_class(CharClass::Ws, line.get_char(hi - 1)) {
        Option::Some(hi)
    } else {
        token_end_exec(line, from, hi - 1)
    }
}

/// `token_start`, at run time.
fn token_start_exec(line: &str, from: usize, j: usize) -> (s: usize)
    requires
        j <= line@.len(),
    ensures
        s as int == token_start(line@, from as int, j as int),
        s <= j,
    decreases j,
{
    if j >= 1 && j - 1 >= from && !char_in_class(CharClass::Ws, line.get_char(j - 1)) {
        token_start_exec(line, from, j - 1)
    } else {
        j
    }
}

/// The path of an indented `mkdir` command: one or more indentation units,
/// the word `mkdir`, then the line's trailing token as the path.
pub open spec fn out_mkdir(line: Seq<char>) -> Option<Seq<char>> {
    let p = indent_end(line, 0);
    if !(p > 0 && p + 5 <= line.len() && line[p] == 'm' && line[p + 1] == 'k' && line[p + 2] == 'd'
        && line[p + 3] == 'i' && line[p + 4] == 'r') {
        Option::None
    } else {
        last_token(line, p + 5)
    }
}

/// Recognize an indented `mkdir` command at run time.
fn match_out_mkdir(line: &str) -> (r: Option<String>)
    ensures
        (match r {
            Option::Some(path) => out_mkdir(line@) == Option::Some(path@),
            Option::None => out_mkdir(line@) is None,
        }),
{
    let n = line.unicode_len();
    let p = indent_end_exec(line, 0);
    if !(p > 0 && n - p >= 5 && line.get_char(p) == 'm' && line.get_char(p + 1) == 'k'
        && line.get_char(p + 2) == 'd' && line.get_char(p + 3) == 'i' && line.get_char(p + 4)
        == 'r') {
        return Option::None;
    }
    match token_end_exec(line, p + 5, n) {
        Option::None => Option::None,
        Option::Some(e) => {
            let s = token_start_exec(line, p + 5, e);
            Option::Some(String::from_str(line.substring_char(s, e)))
        },
    }
}

/// Whether a `-o` flag at `q` completes pattern (iii): nothing before it back
/// to `p` may be a `#` or a line break, and a whitespace-free token must
/// follow it after at least one whitespace character.
pub open spec fn oflag_candidate(line: Seq<char>, p: int, q: int) -> bool {
    &&& p <= q
    &&& q + 2 <= line.len()
    &&& line[q] == '-'
    &&& line[q + 1] == 'o'
    &&& p + run_from(line, p, CharClass::Value) >= q
    &&& run_from(line, q + 2, CharClass::Ws) >= 1
    &&& run_from(line, q + 2 + run_from(line, q + 2, CharClass::Ws), CharClass::NonWs) >= 1
}

/// The rightmost completing `-o` flag at or before `q`.
pub open spec fn find_oflag(line: Seq<char>, p: int, q: int) -> Option<int>
    decreases q - p + 1,
{
    if q < p {
        Option::None
    } else if oflag_candidate(line, p, q) {
        Option::Some(q)
    } else {
        find_oflag(line, p, q - 1)
    }
}

/// The path of an indented command with a `-o` flag: the token after the
/// rightmost `-o` that one follows.
pub open spec fn out_oflag(line: Seq<char>) -> Option<Seq<char>> {
    let p = indent_end(line, 0);
    if p == 0 {
        Option::None
    } else {
        match find_oflag(line, p, line.len() - 2) {
            Option::None => Option::None,
            Option::Some(q) => {
                let w = run_from(line, q + 2, CharClass::Ws);
                let pr = run_from(line, q + 2 + w, CharClass::NonWs);
                Option::Some(line.subrange(q + 2 + w, q + 2 + w + pr))
            },
        }
    }
}

/// Decide `oflag_candidate` at run time.
fn oflag_candidate_exec(line: &str, p: usize, q: usize) -> (r: bool)
    requires
        p <= line@.len(),
        q + 2 <= line@.len(),
    ensures
        r == oflag_candidate(line@, p as int, q as int),
{
    let n = line.unicode_len();
    if !(p <= q && line.get_char(q) == '-' && line.get_char(q + 1) == 'o') {
        return false;
    }
    let ve = run_end(line, p, CharClass::Value);
    if ve < q {
        return false;
    }
    let w_end = run_end(line, q + 2, CharClass::Ws);
    if w_end == q + 2 {
        return false;
    }
    let t_end = run_end(line, w_end, CharClass::NonWs);
    t_end > w_end
}

/// Find the rightmost completing `-o` flag at run time.
fn find_oflag_exec(line: &str, p: usize, q: usize) -> (r: Option<usize>)
    requires
        1 <= p <= line@.len(),
        q + 2 <= line@.len(),
    ensures
        (match r {
            Option::Some(f) => find_oflag(line@, p as int, q as int) == Option::Some(f as int)
                && p <= f && f + 2 <= line@.len(),
            Option::None => find_oflag(line@, p as int, q as int) is None,
        }),
    decreases q,
{
    if q < p {
        Option::None
    } else if oflag_candidate_exec(line, p, q) {
        Option::Some(q)
    } else {
        find_oflag_exec(line, p, q - 1)
    }
}

/// Recognize an indented command with a `-o` flag at run time.
fn match_out_oflag(line: &str) -> (r: Option<String>)
    ensures
        (match r {
            Option::Some(path) => out_oflag(line@) == Option::Some(path@),
            Option::None => out_oflag(line@) is None,
        }),
{
    let n = line.unicode_len();
    let p = indent_end_exec(line, 0);
    if p == 0 || n < 2 {
        proof {
            if p >= 1 && n < 2 {
                assert(line@.len() - 2 < p);
            }
        }
        return Option::None;
    }
    match find_oflag_exec(line, p, n - 2) {
        Option::None => Option::None,
        Option::Some(q) => {
            let w_end = run_end(line, q + 2, CharClass::Ws);
            let t_end = run_end(line, w_end, CharClass::NonWs);
            Option::Some(String::from_str(line.substring_char(w_end, t_end)))
        },
    }
}

/// The first of the three output sub-patterns that matches, if any.
pub open spec fn output_match(line: Seq<char>) -> Option<Seq<char>> {
    if out_comment(line) is Some {
        out_comment(line)
    } else if out_mkdir(line) is Some {
        out_mkdir(line)
    } else {
        out_oflag(line)
    }
}

/// Recognize an output declaration at run time, in priority order.
fn match_output(line: &str) -> (r: Option<String>)
    ensures
        (match r {
            Option::Some(path) => output_match(line@) == Option::Some(path@),
            Option::None => output_match(line@) is None,
        }),
{
    match match_out_comment(line) {
        Option::Some(path) => Option::Some(path),
        Option::None => match match_out_mkdir(line) {
            Option::Some(path) => Option::Some(path),
            Option::None => match_out_oflag(line),
        },
    }
}

// ---------------------------------------------------------------------------
// The scanner: one pass over the lines, accumulating targets and bindings.
// ---------------------------------------------------------------------------
/// Ghost model of the scanner's state: the targets produced so far and the
/// current variable bindings.
#[verifier::ext_equal]
pub ghost struct StateV {
    pub targets: Seq<TargetV>,
    pub vars: Map<Seq<char>, Seq<char>>,
}

/// The state before any line has been scanned.
pub open spec fn init_state() -> StateV {
    StateV { targets: Seq::empty(), vars: Map::empty() }
}

/// Classification of one already-resolved line, in fixed priority order:
/// a target declaration appends a target (the first one as the default) and
/// rebinds `@`; otherwise a variable assignment binds its name; otherwise,
/// while the newest target has no output yet, an output declaration records
/// its path there; any other line changes nothing.
pub open spec fn classify(st: StateV, r: Seq<char>) -> StateV {
    if is_target_line(r) {
        StateV {
            targets: st.targets.push(
                TargetV {
                    name: target_name(r),
                    default: st.targets.len() == 0,
                    output: Option::None,
                },
            ),
            vars: st.vars.insert(seq!['@'], target_name(r)),
        }
    } else if var_def(r) is Some {
        StateV {
            targets: st.targets,
            vars: st.vars.insert(var_def(r)->Some_0.name, var_def(r)->Some_0.value),
        }
    } else if st.targets.len() > 0 && st.targets.last().output is None && output_match(r) is Some {
        StateV {
            targets: st.targets.update(
                st.targets.len() - 1,
                TargetV {
                    name: st.targets.last().name,
                    default: st.targets.last().default,
                    output: Option::Some(seq![output_match(r)->Some_0]),
                },
            ),
            vars: st.vars,
        }
    } else {
        st
    }
}

/// One line of the scan: comments other than the tagged output comment are
/// skipped outright; every other line is resolved against the current
/// bindings and classified, or reports its resolution error.
pub open spec fn step_line(st: StateV, line: Seq<char>) -> Result<StateV, ResolveErrorV> {
    if is_comment(line) && out_comment(line) is None {
        Result::Ok(st)
    } else {
        match resolve(line, st.vars, Seq::empty()) {
            Result::Ok(r) => Result::Ok(classify(st, r)),
            Result::Err(e) => Result::Err(e),
        }
    }
}

/// Ghost model of a [`ParseError`]: which line failed, and how.
#[verifier::ext_equal]
pub ghost struct ParseErrorV {
    pub line: int,
    pub error: ResolveErrorV,
}

/// The scan of the lines from index `i` onward, starting in state `st`.
/// In strict mode the first failing line aborts the scan; otherwise a
/// failing line is skipped and contributes nothing.
pub open spec fn scan_from(lines: Seq<Seq<char>>, i: int, st: StateV, strict: bool) -> Result<
    StateV,
    ParseErrorV,
>
    decreases lines.len() - i,
{
    if i < 0 || i >= lines.len() {
        Result::Ok(st)
    } else {
        match step_line(st, lines[i]) {
            Result::Ok(st2) => scan_from(lines, i + 1, st2, strict),
            Result::Err(e) => if strict {
                Result::Err(ParseErrorV { line: i, error: e })
            } else {
                scan_from(lines, i + 1, st, strict)
            },
        }
    }
}

/// The whole scan of a file, from its first line.
pub open spec fn scan(lines: Seq<Seq<char>>, st: StateV, strict: bool) -> Result<
    StateV,
    ParseErrorV,
> {
    scan_from(lines, 0, st, strict)
}

/// A failure of one parse: the line (by index) that failed, and why.
#[derive(Debug, PartialEq, Eq)]
pub struct ParseError {
    /// Index of the line whose resolution failed.
    pub line: usize,
    /// The resolution error itself, naming the offending variable.
    pub error: ResolveError,
}

impl View for ParseError {
    type V = ParseErrorV;

    open spec fn view(&self) -> ParseErrorV {
        ParseErrorV { line: self.line as int, error: self.error@ }
    }
}

/// A deep copy of a target list.
fn clone_targets(v: &Vec<Target>) -> (r: Vec<Target>)
    ensures
        targets_view(r@) == targets_view(v@),
{
    let n = v.len();
    let mut out: Vec<Target> = Vec::new();
    let mut i: usize = 0;
    proof {
        assert(targets_view(out@) =~= targets_view(v@.take(0)));
    }
    while i < n
        invariant
            0 <= i <= n,
            n == v@.len(),
            out@.len() == i,
            targets_view(out@) == targets_view(v@.take(i as int)),
        decreases n - i,
    {
        let ghost pre = out;
        out.push(v[i].clone());
        proof {
            assert forall|k: int| 0 <= k < out@.len() implies targets_view(out@)[k]
                == targets_view(v@.take(i + 1 as int))[k] by {
                if k < i {
                    assert(out@[k] == pre@[k]);
                    assert(targets_view(pre@)[k] == targets_view(v@.take(i as int))[k]);
                }
            }
            assert(targets_view(out@) =~= targets_view(v@.take(i + 1 as int)));
        }
        i = i + 1;
    }
    proof {
        assert(v@.take(n as int) =~= v@);
    }
    out
}

/// The line scanner: accumulates discovered targets and variable bindings
/// over one pass of a file's lines.
pub struct Parser {
    targets: Vec<Target>,
    vars: VarMap,
}

impl View for Parser {
    type V = StateV;

    closed spec fn view(&self) -> StateV {
        StateV { targets: targets_view(self.targets@), vars: self.vars@ }
    }
}

impl Parser {
    /// A fresh parser: no targets, no bindings.
    pub fn new() -> (p: Parser)
        ensures
            p@ == init_state(),
    {
        let p = Parser { targets: Vec::new(), vars: VarMap::new() };
        proof {
            assert(targets_view(p.targets@) =~= Seq::<TargetV>::empty());
            assert(p@ =~= init_state());
        }
        p
    }

    /// Resolve every variable reference in one line against the current
    /// bindings, without classifying it.
    pub fn resolve_line(&self, line: &str) -> (r: Result<String, ResolveError>)
        ensures
            res_view(r) == resolve(line@, self@.vars, Seq::empty()),
    {
        resolve_text(&self.vars, line)
    }

    /// Apply the classification of one already-resolved line to the state.
    fn classify_line(&mut self, line: &str)
        ensures
            final(self)@ == classify(old(self)@, line@),
    {
        match match_target(line) {
            Option::Some(name) => {
                let bind = name.clone();
                let mut t = Target::new(name);
                if self.targets.len() == 0 {
                    t.default = true;
                }
                let ghost pre = self.targets;
                self.targets.push(t);
                let key = String::from_str("@");
                proof {
                    reveal_strlit("@");
                    assert(key@ =~= seq!['@']);
                }
                self.vars.insert(key, bind);
                proof {
                    assert(targets_view(self.targets@) =~= targets_view(pre@).push(
                        (TargetV {
                            name: target_name(line@),
                            default: pre@.len() == 0,
                            output: Option::None,
                        }),
                    ));
                    assert(self@ =~= classify(old(self)@, line@));
                }
            },
            Option::None => match match_var_def(line) {
                Option::Some((name, value)) => {
                    self.vars.insert(name, value);
                    proof {
                        assert(self@ =~= classify(old(self)@, line@));
                    }
                },
                Option::None => {
                    let tlen = self.targets.len();
                    if tlen > 0 && self.targets[tlen - 1].output.is_none() {
                        match match_output(line) {
                            Option::Some(path) => {
                                let ghost pre = self.targets;
                                let mut t = match self.targets.pop() {
                                    Option::Some(t) => t,
                                    Option::None => {
                                        proof {
                                            assert(false);
                                        }
                                        unreached()
                                    },
                                };
                                let mut paths: Vec<String> = Vec::new();
                                paths.push(path);
                                t.output = Option::Some(paths);
                                self.targets.push(t);
                                proof {
                                    assert(paths.deep_view() =~= seq![output_match(
                                        line@,
                                    )->Some_0]);
                                    assert(targets_view(self.targets@) =~~= targets_view(
                                        pre@,
                                    ).update(
                                        pre@.len() - 1,
                                        (TargetV {
                                            name: targets_view(pre@).last().name,
                                            default: targets_view(pre@).last().default,
                                            output: Option::Some(seq![output_match(line@)->Some_0]),
                                        }),
                                    ));
                                    assert(self@ =~= classify(old(self)@, line@));
                                }
                            },
                            Option::None => {
                                proof {
                                    assert(self@ =~= classify(old(self)@, line@));
                                }
                            },
                        }
                    } else {
                        proof {
                            assert(self@ =~= classify(old(self)@, line@));
                        }
                    }
                },
            },
        }
    }

    /// Scan the file's lines in order, returning the accumulated targets,
    /// or, in strict mode, the first variable-resolution failure.
    pub fn parse_lines(&mut self, lines: &Vec<String>, strict: bool) -> (r: Result<
        Vec<Target>,
        ParseError,
    >)
        ensures
            (match r {
                Result::Ok(ts) => scan(lines.deep_view(), old(self)@, strict)
                    == Result::<StateV, ParseErrorV>::Ok(final(self)@) && targets_view(ts@)
                    == final(self)@.targets,
                Result::Err(e) => scan(lines.deep_view(), old(self)@, strict)
                    == Result::<StateV, ParseErrorV>::Err(e@),
            }),
    {
        let n = lines.len();
        let mut idx: usize = 0;
        while idx < n
            invariant
                0 <= idx <= n,
                n == lines@.len(),
                scan_from(lines.deep_view(), 0, old(self)@, strict) == scan_from(
                    lines.deep_view(),
                    idx as int,
                    self@,
                    strict,
                ),
            decreases n - idx,
        {
            let line = &lines[idx];
            proof {
                assert(lines.deep_view()[idx as int] == line@);
            }
            if !(is_comment_exec(line.as_str()) && match_out_comment(line.as_str()).is_none()) {
                match resolve_text(&self.vars, line.as_str()) {
                    Result::Err(e) => {
                        if strict {
                            return Result::Err(ParseError { line: idx, error: e });
                        }
                    },
                    Result::Ok(resolved) => {
                        self.classify_line(resolved.as_str());
                    },
                }
            }
            idx = idx + 1;
        }
        Result::Ok(clone_targets(&self.targets))
    }
}

// ---------------------------------------------------------------------------
// Laws of the scan.
// ---------------------------------------------------------------------------
/// A target declaration rebinds `@` to the new target's name, so a later
/// `$@` reflects whichever target was declared most recently; the bound name
/// is made of word characters, so resolving a value that holds the sigil
/// (see the resolver's sigil-substitution law) puts exactly this name there.
pub proof fn lemma_target_rebinds_current(st: StateV, r: Seq<char>)
    requires
        is_target_line(r),
    ensures
        classify(st, r).vars.contains_key(seq!['@']),
        classify(st, r).vars[seq!['@']] == target_name(r),
        classify(st, r).targets.last().name == target_name(r),
        crate::resolve::word_name(target_name(r)),
{
    lemma_run_from_chars(r, 0, CharClass::Word);
    assert forall|k: int| 0 <= k < target_name(r).len() implies crate::text::in_class(
        CharClass::Word,
        target_name(r)[k],
    ) by {
        assert(target_name(r)[k] == r[k]);
    }
}

/// The names declared by the target-declaration lines from index `i` on,
/// in order of appearance.
pub open spec fn decl_from(lines: Seq<Seq<char>>, i: int) -> Seq<Seq<char>>
    decreases lines.len() - i,
{
    if i < 0 || i >= lines.len() {
        Seq::empty()
    } else if is_target_line(lines[i]) {
        seq![target_name(lines[i])] + decl_from(lines, i + 1)
    } else {
        decl_from(lines, i + 1)
    }
}

/// The names of all the file's target-declaration lines, in order.
pub open spec fn declared_targets(lines: Seq<Seq<char>>) -> Seq<Seq<char>> {
    decl_from(lines, 0)
}

/// A comment line never declares a target.
proof fn lemma_comment_not_target(line: Seq<char>)
    requires
        is_comment(line),
    ensures
        !is_target_line(line),
{
    if is_target_line(line) {
        lemma_run_from_chars(line, 0, CharClass::Word);
        assert(crate::text::in_class(CharClass::Word, line[0]));
        assert(indent_end(line, 0) == 0);
    }
}

proof fn lemma_scan_plain_from(lines: Seq<Seq<char>>, i: int, st: StateV, strict: bool)
    requires
        0 <= i <= lines.len(),
        forall|j: int| i <= j < lines.len() ==> crate::resolve::first_ref(lines[j]) is None,
    ensures
        scan_from(lines, i, st, strict) is Ok,
        scan_from(lines, i, st, strict)->Ok_0.targets.len() == st.targets.len() + decl_from(
            lines,
            i,
        ).len(),
        forall|k: int|
            0 <= k < st.targets.len() ==> scan_from(lines, i, st, strict)->Ok_0.targets[k].name
                == st.targets[k].name && scan_from(lines, i, st, strict)->Ok_0.targets[k].default
                == st.targets[k].default,
        forall|k: int|
            st.targets.len() <= k < st.targets.len() + decl_from(lines, i).len() ==> scan_from(
                lines,
                i,
                st,
                strict,
            )->Ok_0.targets[k].name == decl_from(lines, i)[k - st.targets.len()] && scan_from(
                lines,
                i,
                st,
                strict,
            )->Ok_0.targets[k].default == (k == 0),
    decreases lines.len() - i,
{
    if i < lines.len() {
        let line = lines[i];
        if is_comment(line) && out_comment(line) is None {
            lemma_comment_not_target(line);
            assert(scan_from(lines, i, st, strict) == scan_from(lines, i + 1, st, strict));
            assert(decl_from(lines, i) == decl_from(lines, i + 1));
            lemma_scan_plain_from(lines, i + 1, st, strict);
        } else {
            crate::resolve::lemma_resolve_without_refs(line, st.vars, Seq::empty());
            let st1 = classify(st, line);
            assert(step_line(st, line) == Result::<StateV, ResolveErrorV>::Ok(st1));
            assert(scan_from(lines, i, st, strict) == scan_from(lines, i + 1, st1, strict));
            lemma_scan_plain_from(lines, i + 1, st1, strict);
            let r1 = scan_from(lines, i + 1, st1, strict)->Ok_0;
            let d = decl_from(lines, i);
            let d1 = decl_from(lines, i + 1);
            if is_target_line(line) {
                assert(d == seq![target_name(line)] + d1);
                assert(st1.targets.len() == st.targets.len() + 1);
                assert forall|k: int|
                    0 <= k < st.targets.len() implies r1.targets[k].name == st.targets[k].name
                    && r1.targets[k].default == st.targets[k].default by {
                    assert(st1.targets[k] == st.targets[k]);
                }
                assert forall|k: int|
                    st.targets.len() <= k < st.targets.len() + d.len() implies r1.targets[k].name
                    == d[k - st.targets.len()] && r1.targets[k].default == (k == 0) by {
                    if k == st.targets.len() {
                        assert(st1.targets[k].name == target_name(line));
                        assert(st1.targets[k].default == (st.targets.len() == 0));
                        assert(d[0] == target_name(line));
                    } else {
                        assert(r1.targets[k].name == d1[k - st1.targets.len()]);
                        assert(d[k - st.targets.len()] == d1[k - st.targets.len() - 1]);
                    }
                }
            } else {
                assert(d == d1);
                assert(st1.targets.len() == st.targets.len());
                assert forall|k: int|
                    0 <= k < st.targets.len() implies st1.targets[k].name == st.targets[k].name
                    && st1.targets[k].default == st.targets[k].default by {
                    if var_def(line) is Some {
                        assert(st1.targets == st.targets);
                    } else if st.targets.len() > 0 && st.targets.last().output is None
                        && output_match(line) is Some {
                        assert(st1.targets == st.targets.update(
                            st.targets.len() - 1,
                            (TargetV {
                                name: st.targets.last().name,
                                default: st.targets.last().default,
                                output: Option::Some(seq![output_match(line)->Some_0]),
                            }),
                        ));
                    } else {
                        assert(st1.targets == st.targets);
                    }
                }
            }
        }
    }
}

/// Re-parsing the same file yields identical output: the scan's result is a
/// function of the lines and the mode alone, so any two results obtained
/// from fresh parsers on the same lines agree.
pub proof fn lemma_scan_deterministic(
    lines: Seq<Seq<char>>,
    strict: bool,
    r1: Result<StateV, ParseErrorV>,
    r2: Result<StateV, ParseErrorV>,
)
    requires
        r1 == scan(lines, init_state(), strict),
        r2 == scan(lines, init_state(), strict),
    ensures
        r1 == r2,
{
}

/// In a file with no variable references, the scan cannot fail, and its
/// targets are exactly the unindented `name:` declaration lines, in order
/// of first appearance, the first marked as the default and no other.
pub proof fn lemma_plain_file_targets(lines: Seq<Seq<char>>, strict: bool)
    requires
        forall|j: int| 0 <= j < lines.len() ==> crate::resolve::first_ref(lines[j]) is None,
    ensures
        scan(lines, init_state(), strict) is Ok,
        scan(lines, init_state(), strict)->Ok_0.targets.len() == declared_targets(lines).len(),
        forall|k: int|
            0 <= k < declared_targets(lines).len() ==> scan(
                lines,
                init_state(),
                strict,
            )->Ok_0.targets[k].name == declared_targets(lines)[k] && scan(
                lines,
                init_state(),
                strict,
            )->Ok_0.targets[k].default == (k == 0),
{
    lemma_scan_plain_from(lines, 0, init_state(), strict);
}

} // verus!
