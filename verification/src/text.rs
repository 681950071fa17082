//! Character classes and maximal-run scanning over lines of text.
//!
//! Every pattern the parser recognizes is built from a handful of character
//! classes and "longest run of a class starting here" computations.
//!
//! The classes are deliberately ASCII-only: a word character is an ASCII
//! letter, digit or underscore, and whitespace is the six ASCII blank
//! characters. Target names or blanks outside ASCII are not recognized;
//! the full Unicode classes are not practical to state here, so this
//! narrowing is a documented choice.

use vstd::prelude::*;
use vstd::string::StrSliceExecFns;

verus! {

/// The character classes that the line patterns are built from; all of
/// them ASCII-only (see the module note).
#[derive(Clone, Copy, PartialEq, Eq, Structural)]
pub enum CharClass {
    /// Whitespace: space, tab, newline, carriage return, vertical tab, form feed.
    Ws,
    /// Space or tab only.
    SpTab,
    /// ASCII alphanumeric or underscore: the characters of a target name.
    Word,
    /// A character allowed in an assigned variable's name:
    /// anything but whitespace, `:`, `#`, `=`.
    VarName,
    /// A character allowed inside a `$(...)` or `${...}` reference name:
    /// a `VarName` character that is none of `{ } ( ) [ ] / \`.
    RefName,
    /// A character allowed in an assigned value: anything but `\n`, `\r`, `#`.
    Value,
    /// Any character that is not whitespace.
    NonWs,
}

/// Whitespace as the patterns understand it.
pub open spec fn is_ws(c: char) -> bool {
    c == ' ' || c == '\t' || c == '\n' || c == '\r' || c == '\u{b}' || c == '\u{c}'
}

/// A character allowed in an assigned variable's name.
pub open spec fn is_var_name(c: char) -> bool {
    !is_ws(c) && c != ':' && c != '#' && c != '='
}

/// Whether `c` belongs to class `cc`.
pub open spec fn in_class(cc: CharClass, c: char) -> bool {
    match cc {
        CharClass::Ws => is_ws(c),
        CharClass::SpTab => c == ' ' || c == '\t',
        CharClass::Word => ('a' <= c && c <= 'z') || ('A' <= c && c <= 'Z') || ('0' <= c && c
            <= '9') || c == '_',
        CharClass::VarName => is_var_name(c),
        CharClass::RefName => is_var_name(c) && c != '{' && c != '}' && c != '(' && c != ')' && c
            != '[' && c != ']' && c != '/' && c != '\\',
        CharClass::Value => c != '\n' && c != '\r' && c != '#',
        CharClass::NonWs => !is_ws(c),
    }
}

/// Length of the longest run of `cc`-class characters in `text` starting at `i`.
pub open spec fn run_from(text: Seq<char>, i: int, cc: CharClass) -> int
    decreases text.len() - i,
{
    if i < 0 || i >= text.len() || !in_class(cc, text[i]) {
        0
    } else {
        1 + run_from(text, i + 1, cc)
    }
}

pub proof fn lemma_run_from_bounds(text: Seq<char>, i: int, cc: CharClass)
    requires
        0 <= i <= text.len(),
    ensures
        0 <= run_from(text, i, cc),
        i + run_from(text, i, cc) <= text.len(),
    decreases text.len() - i,
{
    if i < text.len() && in_class(cc, text[i]) {
        lemma_run_from_bounds(text, i + 1, cc);
    }
}

/// Every character inside the run is in the class, and the run is maximal.
pub proof fn lemma_run_from_chars(text: Seq<char>, i: int, cc: CharClass)
    requires
        0 <= i <= text.len(),
    ensures
        forall|k: int|
            i <= k < i + run_from(text, i, cc) ==> in_class(cc, text[k]),
        i + run_from(text, i, cc) < text.len() ==> !in_class(
            cc,
            text[i + run_from(text, i, cc)],
        ),
    decreases text.len() - i,
{
    if i < text.len() && in_class(cc, text[i]) {
        lemma_run_from_chars(text, i + 1, cc);
    }
}

/// Whether `c` belongs to class `cc`, decided at run time.
pub fn char_in_class(cc: CharClass, c: char) -> (r: bool)
    ensures
        r == in_class(cc, c),
{
    match cc {
        CharClass::Ws => c == ' ' || c == '\t' || c == '\n' || c == '\r' || c == '\u{b}'
            || c == '\u{c}',
        CharClass::SpTab => c == ' ' || c == '\t',
        CharClass::Word => ('a' <= c && c <= 'z') || ('A' <= c && c <= 'Z') || ('0' <= c && c
            <= '9') || c == '_',
        CharClass::VarName => !(c == ' ' || c == '\t' || c == '\n' || c == '\r' || c == '\u{b}'
            || c == '\u{c}') && c != ':' && c != '#' && c != '=',
        CharClass::RefName => !(c == ' ' || c == '\t' || c == '\n' || c == '\r' || c == '\u{b}'
            || c == '\u{c}') && c != ':' && c != '#' && c != '=' && c != '{' && c != '}' && c != '('
            && c != ')' && c != '[' && c != ']' && c != '/' && c != '\\',
        CharClass::Value => c != '\n' && c != '\r' && c != '#',
        CharClass::NonWs => !(c == ' ' || c == '\t' || c == '\n' || c == '\r' || c == '\u{b}'
            || c == '\u{c}'),
    }
}

/// First index at or after `i` whose character leaves class `cc`:
/// the end of the maximal `cc` run starting at `i`.
pub fn run_end(s: &str, i: usize, cc: CharClass) -> (j: usize)
    requires
        i <= s@.len(),
    ensures
        j == i + run_from(s@, i as int, cc),
        i <= j <= s@.len(),
{
    let n = s.unicode_len();
    let mut j = i;
    proof {
        lemma_run_from_bounds(s@, i as int, cc);
    }
    while j < n && char_in_class(cc, s.get_char(j))
        invariant
            i <= j <= n,
            n == s@.len(),
            run_from(s@, i as int, cc) == (j - i) + run_from(s@, j as int, cc),
        decreases n - j,
    {
        proof {
            lemma_run_from_bounds(s@, j + 1, cc);
        }
        j = j + 1;
    }
    proof {
        assert(run_from(s@, j as int, cc) == 0);
        lemma_run_from_bounds(s@, i as int, cc);
    }
    j
}

} // verus!
