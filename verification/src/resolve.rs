//! Recursive variable resolution: replacing `$@`, `$(name)` and `${name}`
//! references by their bound values, with cycle detection over an explicit
//! dependency chain.
//!
//! Resolution repeatedly finds the leftmost reference in the whole text,
//! resolves the bound value recursively, splices it in place of the
//! reference, and then scans the mutated text again from the top, so that a
//! form the splice creates across its boundaries is found too. A successful
//! resolution therefore returns text with no remaining reference syntax.

use vstd::prelude::*;

use crate::text::CharClass;
use crate::text::in_class;
use crate::text::lemma_run_from_bounds;
use crate::text::run_end;
use crate::text::run_from;
use crate::vars::VarMap;

verus! {

/// A failure of variable resolution.
#[derive(Debug, PartialEq, Eq)]
pub enum ResolveError {
    /// A reference named a variable with no binding.
    Undefined { name: String },
    /// A variable's expansion chain revisited itself.
    Recursive { name: String },
}

/// Ghost model of a [`ResolveError`].
pub ghost enum ResolveErrorV {
    Undefined(Seq<char>),
    Recursive(Seq<char>),
}

impl View for ResolveError {
    type V = ResolveErrorV;

    open spec fn view(&self) -> ResolveErrorV {
        match self {
            ResolveError::Undefined { name } => ResolveErrorV::Undefined(name@),
            ResolveError::Recursive { name } => ResolveErrorV::Recursive(name@),
        }
    }
}

/// One variable reference found in a line: the span it occupies and the
/// name it refers to.
pub ghost struct RefMatch {
    pub start: int,
    pub end: int,
    pub name: Seq<char>,
}

/// The reference form, if any, that begins exactly at position `i`:
/// the self-reference `$@`, then `$(name)`, then `${name}`, where a name is
/// one or more `RefName`-class characters.
pub open spec fn ref_at(text: Seq<char>, i: int) -> Option<RefMatch> {
    if !(0 <= i && i + 1 < text.len() && text[i] == '$') {
        Option::None
    } else if text[i + 1] == '@' {
        Option::Some(RefMatch { start: i, end: i + 2, name: seq!['@'] })
    } else if text[i + 1] == '(' {
        let r = run_from(text, i + 2, CharClass::RefName);
        if r >= 1 && i + 2 + r < text.len() && text[i + 2 + r] == ')' {
            Option::Some(
                RefMatch { start: i, end: i + 3 + r, name: text.subrange(i + 2, i + 2 + r) },
            )
        } else {
            Option::None
        }
    } else if text[i + 1] == '{' {
        let r = run_from(text, i + 2, CharClass::RefName);
        if r >= 1 && i + 2 + r < text.len() && text[i + 2 + r] == '}' {
            Option::Some(
                RefMatch { start: i, end: i + 3 + r, name: text.subrange(i + 2, i + 2 + r) },
            )
        } else {
            Option::None
        }
    } else {
        Option::None
    }
}

/// A matched reference spans at least two characters and stays in the text.
pub proof fn lemma_ref_at_bounds(text: Seq<char>, i: int)
    requires
        ref_at(text, i) is Some,
    ensures
        i + 2 <= ref_at(text, i)->Some_0.end <= text.len(),
        ref_at(text, i)->Some_0.start == i,
{
    if 0 <= i && i + 1 < text.len() && text[i] == '$' && text[i + 1] != '@' {
        lemma_run_from_bounds(text, i + 2, CharClass::RefName);
    }
}

/// The leftmost reference at or after position `i`.
pub open spec fn first_ref_from(text: Seq<char>, i: int) -> Option<RefMatch>
    decreases text.len() - i,
{
    if i >= text.len() {
        Option::None
    } else if ref_at(text, i) is Some {
        ref_at(text, i)
    } else {
        first_ref_from(text, i + 1)
    }
}

/// The leftmost reference in `text`, if any.
pub open spec fn first_ref(text: Seq<char>) -> Option<RefMatch> {
    first_ref_from(text, 0)
}

/// One pass of resolution with an explicit step budget: find the leftmost
/// reference anywhere in the text; its name must not already be on the
/// dependency chain `deps` and must be bound; resolve the bound value
/// recursively (with the chain extended by the name), splice the result in
/// place of the reference, and repeat from the top of the mutated text until
/// no reference form remains anywhere in it.
///
/// Rewriting this way does not always reach a fixed point: a binding such as
/// `B = x$(B` makes the line `$(B))` grow a fresh `$(B)` at every step, a
/// loop that no dependency chain ever revisits, since each splice builds the
/// reference anew. The budget, spent once per substitution at any depth,
/// makes the rewrite total: when it runs out, the reference about to be
/// expanded is reported as a recursive dependency, which is what an endless
/// re-expansion is. Every run of the unbudgeted algorithm that completes
/// within the budget is returned exactly.
pub open spec fn resolve_fueled(
    text: Seq<char>,
    vars: Map<Seq<char>, Seq<char>>,
    deps: Seq<Seq<char>>,
    fuel: nat,
) -> Result<Seq<char>, ResolveErrorV>
    decreases fuel,
{
    match first_ref(text) {
        Option::None => Result::Ok(text),
        Option::Some(m) => {
            if deps.contains(m.name) {
                Result::Err(ResolveErrorV::Recursive(m.name))
            } else if !vars.contains_key(m.name) {
                Result::Err(ResolveErrorV::Undefined(m.name))
            } else if fuel == 0 {
                Result::Err(ResolveErrorV::Recursive(m.name))
            } else {
                match resolve_fueled(vars[m.name], vars, deps.push(m.name), (fuel - 1) as nat) {
                    Result::Err(e) => Result::Err(e),
                    Result::Ok(v) => resolve_fueled(
                        text.subrange(0, m.start) + v + text.subrange(m.end, text.len() as int),
                        vars,
                        deps,
                        (fuel - 1) as nat,
                    ),
                }
            }
        },
    }
}

/// Resolution of a whole line against the current bindings, with the given
/// dependency chain already in progress: the budgeted rewrite with the
/// largest budget a machine word holds — far beyond any run that completes,
/// so a resolution differs from the unbudgeted algorithm only where that
/// algorithm never finishes at all.
pub open spec fn resolve(
    text: Seq<char>,
    vars: Map<Seq<char>, Seq<char>>,
    deps: Seq<Seq<char>>,
) -> Result<Seq<char>, ResolveErrorV> {
    resolve_fueled(text, vars, deps, usize::MAX as nat)
}

/// The model of an executable resolution result.
pub open spec fn res_view(r: Result<String, ResolveError>) -> Result<Seq<char>, ResolveErrorV> {
    match r {
        Result::Ok(s) => Result::Ok(s@),
        Result::Err(e) => Result::Err(e@),
    }
}

/// Whether `name` is already on the dependency chain.
fn contains_name(deps: &Vec<String>, name: &String) -> (r: bool)
    ensures
        r == deps.deep_view().contains(name@),
{
    let n = deps.len();
    let mut j: usize = 0;
    while j < n
        invariant
            0 <= j <= n,
            n == deps@.len(),
            forall|k: int| 0 <= k < j ==> deps.deep_view()[k] != name@,
        decreases n - j,
    {
        if deps[j] == *name {
            proof {
                assert(deps.deep_view()[j as int] == name@);
            }
            return true;
        }
        j = j + 1;
    }
    proof {
        if deps.deep_view().contains(name@) {
            let k = choose|k: int|
                0 <= k < deps.deep_view().len() && deps.deep_view()[k] == name@;
            assert(false);
        }
    }
    false
}

/// The chain extended by one name: a fresh vector, leaving `deps` usable.
fn push_dep(deps: &Vec<String>, name: &String) -> (r: Vec<String>)
    ensures
        r.deep_view() == deps.deep_view().push(name@),
{
    let n = deps.len();
    let mut out: Vec<String> = Vec::new();
    let mut j: usize = 0;
    proof {
        assert(out.deep_view() =~= deps.deep_view().subrange(0, 0));
    }
    while j < n
        invariant
            0 <= j <= n,
            n == deps@.len(),
            out@.len() == j,
            out.deep_view() == deps.deep_view().subrange(0, j as int),
        decreases n - j,
    {
        let ghost pre = out;
        out.push(deps[j].clone());
        proof {
            assert forall|k: int| 0 <= k < out@.len() implies out.deep_view()[k]
                == deps.deep_view().subrange(0, j + 1 as int)[k] by {
                if k < j {
                    assert(out@[k] == pre@[k]);
                    assert(pre.deep_view()[k] == deps.deep_view().subrange(0, j as int)[k]);
                } else {
                    assert(out@[k] == deps@[j as int]);
                }
            }
            assert(out.deep_view() =~= deps.deep_view().subrange(0, j + 1 as int));
        }
        j = j + 1;
    }
    out.push(name.clone());
    proof {
        assert(deps.deep_view().subrange(0, n as int) =~= deps.deep_view());
        assert(out.deep_view() =~= deps.deep_view().push(name@));
    }
    out
}

/// The reference form, if any, that begins at position `i`, located at run time.
fn ref_at_exec(text: &str, i: usize) -> (r: Option<(usize, String)>)
    requires
        i < text@.len(),
    ensures
        (match r {
            Option::Some((end, name)) => ref_at(text@, i as int) == Option::Some(
                (RefMatch { start: i as int, end: end as int, name: name@ }),
            ) && i < end <= text@.len(),
            Option::None => ref_at(text@, i as int) is None,
        }),
{
    let n = text.unicode_len();
    if text.get_char(i) != '$' || i + 1 >= n {
        return Option::None;
    }
    let c = text.get_char(i + 1);
    if c == '@' {
        let name = String::from_str("@");
        proof {
            reveal_strlit("@");
            assert(name@ =~= seq!['@']);
        }
        return Option::Some((i + 2, name));
    }
    if c == '(' || c == '{' {
        let closer = if c == '(' {
            ')'
        } else {
            '}'
        };
        let r_end = run_end(text, i + 2, CharClass::RefName);
        if r_end > i + 2 && r_end < n && text.get_char(r_end) == closer {
            let name = String::from_str(text.substring_char(i + 2, r_end));
            return Option::Some((r_end + 1, name));
        }
        return Option::None;
    }
    Option::None
}

/// The leftmost reference in the text, located at run time.
fn first_ref_exec(text: &str) -> (r: Option<(usize, usize, String)>)
    ensures
        (match r {
            Option::Some((start, end, name)) => first_ref(text@) == Option::Some(
                (RefMatch { start: start as int, end: end as int, name: name@ }),
            ) && start < end <= text@.len(),
            Option::None => first_ref(text@) is None,
        }),
{
    let n = text.unicode_len();
    let mut i: usize = 0;
    while i < n
        invariant
            0 <= i <= n,
            n == text@.len(),
            first_ref(text@) == first_ref_from(text@, i as int),
        decreases n - i,
    {
        match ref_at_exec(text, i) {
            Option::Some((end, name)) => {
                return Option::Some((i, end, name));
            },
            Option::None => {
                i = i + 1;
            },
        }
    }
    Option::None
}

/// The budgeted rewrite, run to its end: repeatedly substitute the leftmost
/// reference, re-scanning the whole text after each splice.
fn resolve_fueled_exec(vars: &VarMap, text: &str, deps: &Vec<String>, fuel: usize) -> (r: Result<
    String,
    ResolveError,
>)
    ensures
        res_view(r) == resolve_fueled(text@, vars@, deps.deep_view(), fuel as nat),
    decreases fuel,
{
    let mut cur = String::from_str(text);
    let mut fuel_left = fuel;
    loop
        invariant
            fuel_left <= fuel,
            resolve_fueled(text@, vars@, deps.deep_view(), fuel as nat) == resolve_fueled(
                cur@,
                vars@,
                deps.deep_view(),
                fuel_left as nat,
            ),
        decreases fuel_left,
    {
        match first_ref_exec(cur.as_str()) {
            Option::None => {
                proof {
                    assert(resolve_fueled(cur@, vars@, deps.deep_view(), fuel_left as nat)
                        == Result::<Seq<char>, ResolveErrorV>::Ok(cur@));
                }
                return Result::Ok(cur);
            },
            Option::Some((start, end, name)) => {
                let ghost m = RefMatch { start: start as int, end: end as int, name: name@ };
                proof {
                    assert(first_ref(cur@) == Option::Some(m));
                }
                if contains_name(deps, &name) {
                    proof {
                        assert(resolve_fueled(cur@, vars@, deps.deep_view(), fuel_left as nat)
                            == Result::<Seq<char>, ResolveErrorV>::Err(
                            ResolveErrorV::Recursive(name@),
                        ));
                    }
                    return Result::Err(ResolveError::Recursive { name });
                }
                let value = match vars.get(&name) {
                    Option::None => {
                        proof {
                            assert(resolve_fueled(cur@, vars@, deps.deep_view(), fuel_left as nat)
                                == Result::<Seq<char>, ResolveErrorV>::Err(
                                ResolveErrorV::Undefined(name@),
                            ));
                        }
                        return Result::Err(ResolveError::Undefined { name });
                    },
                    Option::Some(v) => v.clone(),
                };
                if fuel_left == 0 {
                    proof {
                        assert(resolve_fueled(cur@, vars@, deps.deep_view(), fuel_left as nat)
                            == Result::<Seq<char>, ResolveErrorV>::Err(
                            ResolveErrorV::Recursive(name@),
                        ));
                    }
                    return Result::Err(ResolveError::Recursive { name });
                }
                let deps2 = push_dep(deps, &name);
                match resolve_fueled_exec(vars, value.as_str(), &deps2, fuel_left - 1) {
                    Result::Err(e) => {
                        proof {
                            assert(resolve_fueled(cur@, vars@, deps.deep_view(), fuel_left as nat)
                                == Result::<Seq<char>, ResolveErrorV>::Err(e@));
                        }
                        return Result::Err(e);
                    },
                    Result::Ok(res) => {
                        let n = cur.unicode_len();
                        let mut nt = String::from_str(cur.substring_char(0, start));
                        nt.append(res.as_str());
                        nt.append(cur.substring_char(end, n));
                        proof {
                            assert(nt@ == cur@.subrange(0, m.start) + res@ + cur@.subrange(
                                m.end,
                                cur@.len() as int,
                            ));
                            assert(resolve_fueled(cur@, vars@, deps.deep_view(), fuel_left as nat)
                                == resolve_fueled(
                                nt@,
                                vars@,
                                deps.deep_view(),
                                (fuel_left - 1) as nat,
                            ));
                        }
                        cur = nt;
                        fuel_left = fuel_left - 1;
                    },
                }
            },
        }
    }
}

/// Resolve one whole line: every reference replaced, recursively and with
/// re-scanning after each splice, by its fully resolved value; or the error
/// of the leftmost failing reference.
pub fn resolve_text(vars: &VarMap, text: &str) -> (r: Result<String, ResolveError>)
    ensures
        res_view(r) == resolve(text@, vars@, Seq::empty()),
{
    let deps: Vec<String> = Vec::new();
    proof {
        assert(deps.deep_view() =~= Seq::<Seq<char>>::empty());
    }
    resolve_fueled_exec(vars, text, &deps, usize::MAX)
}

/// A reference at `i`, with none before it, is the leftmost reference.
pub proof fn lemma_first_ref_found_at(text: Seq<char>, i: int, m: RefMatch)
    requires
        0 <= i,
        ref_at(text, i) == Option::Some(m),
        forall|j: int| 0 <= j < i ==> ref_at(text, j) is None,
    ensures
        first_ref(text) == Option::Some(m),
{
    lemma_ref_at_bounds(text, i);
    lemma_first_ref_from_to(text, 0, i, m);
}

proof fn lemma_first_ref_from_to(text: Seq<char>, j: int, i: int, m: RefMatch)
    requires
        0 <= j <= i < text.len(),
        ref_at(text, i) == Option::Some(m),
        forall|k: int| j <= k < i ==> ref_at(text, k) is None,
    ensures
        first_ref_from(text, j) == Option::Some(m),
    decreases i - j,
{
    if j < i {
        lemma_first_ref_from_to(text, j + 1, i, m);
    }
}

/// A text in which no reference form occurs resolves to itself, unchanged,
/// whatever the bindings, the dependency chain and the budget.
pub proof fn lemma_resolve_without_refs(
    text: Seq<char>,
    vars: Map<Seq<char>, Seq<char>>,
    deps: Seq<Seq<char>>,
)
    requires
        first_ref(text) is None,
    ensures
        resolve(text, vars, deps) == Result::<Seq<char>, ResolveErrorV>::Ok(text),
        forall|fuel: nat|
            #[trigger] resolve_fueled(text, vars, deps, fuel) == Result::<
                Seq<char>,
                ResolveErrorV,
            >::Ok(text),
{
}

/// A text without a dollar sign holds no reference form at all.
pub proof fn lemma_dollar_free_no_refs(text: Seq<char>)
    requires
        forall|k: int| 0 <= k < text.len() ==> text[k] != '$',
    ensures
        first_ref(text) is None,
{
    lemma_dollar_free_from(text, 0);
}

proof fn lemma_dollar_free_from(text: Seq<char>, i: int)
    requires
        0 <= i,
        forall|k: int| 0 <= k < text.len() ==> text[k] != '$',
    ensures
        first_ref_from(text, i) is None,
    decreases text.len() - i,
{
    if i < text.len() {
        lemma_dollar_free_from(text, i + 1);
    }
}

/// On success, resolution leaves no reference form anywhere in the result:
/// the scan repeats from the top of the mutated text until none matches.
pub proof fn lemma_resolved_fueled_no_refs(
    text: Seq<char>,
    vars: Map<Seq<char>, Seq<char>>,
    deps: Seq<Seq<char>>,
    fuel: nat,
)
    requires
        resolve_fueled(text, vars, deps, fuel) is Ok,
    ensures
        first_ref(resolve_fueled(text, vars, deps, fuel)->Ok_0) is None,
    decreases fuel,
{
    match first_ref(text) {
        Option::None => {},
        Option::Some(m) => {
            if !deps.contains(m.name) && vars.contains_key(m.name) && fuel > 0 {
                match resolve_fueled(vars[m.name], vars, deps.push(m.name), (fuel - 1) as nat) {
                    Result::Err(_) => {},
                    Result::Ok(v) => {
                        lemma_resolved_fueled_no_refs(
                            text.subrange(0, m.start) + v + text.subrange(
                                m.end,
                                text.len() as int,
                            ),
                            vars,
                            deps,
                            (fuel - 1) as nat,
                        );
                    },
                }
            }
        },
    }
}

/// The fully-substituted result of a successful resolution contains no
/// remaining reference syntax.
pub proof fn lemma_resolved_no_refs(
    text: Seq<char>,
    vars: Map<Seq<char>, Seq<char>>,
    deps: Seq<Seq<char>>,
)
    requires
        resolve(text, vars, deps) is Ok,
    ensures
        first_ref(resolve(text, vars, deps)->Ok_0) is None,
{
    lemma_resolved_fueled_no_refs(text, vars, deps, usize::MAX as nat);
}

/// A line whose leftmost reference names an unbound variable fails with the
/// undefined-variable error naming exactly that variable.
pub proof fn lemma_undefined_variable(
    text: Seq<char>,
    vars: Map<Seq<char>, Seq<char>>,
    deps: Seq<Seq<char>>,
    m: RefMatch,
)
    requires
        first_ref(text) == Option::Some(m),
        !deps.contains(m.name),
        !vars.contains_key(m.name),
    ensures
        resolve(text, vars, deps) == Result::<Seq<char>, ResolveErrorV>::Err(
            ResolveErrorV::Undefined(m.name),
        ),
{
}

/// A reference written out in full: `$(` around the name, then `)`.
pub open spec fn wrap_ref(name: Seq<char>) -> Seq<char> {
    seq!['$', '('] + name + seq![')']
}

/// A name all of whose characters may stand inside a `$(...)` reference.
pub open spec fn ref_name_ok(name: Seq<char>) -> bool {
    name.len() >= 1 && forall|k: int|
        0 <= k < name.len() ==> in_class(CharClass::RefName, name[k])
}

proof fn lemma_run_from_exact(text: Seq<char>, i: int, cc: CharClass, l: int)
    requires
        0 <= i,
        0 <= l,
        i + l <= text.len(),
        forall|k: int| i <= k < i + l ==> in_class(cc, text[k]),
        i + l < text.len() ==> !in_class(cc, text[i + l]),
    ensures
        run_from(text, i, cc) == l,
    decreases l,
{
    if l > 0 {
        lemma_run_from_exact(text, i + 1, cc, l - 1);
    }
}

/// `$(name)` is one reference spanning the whole text.
pub proof fn lemma_ref_at_wrap(name: Seq<char>)
    requires
        ref_name_ok(name),
    ensures
        ref_at(wrap_ref(name), 0) == Option::Some(
            (RefMatch { start: 0, end: name.len() + 3 as int, name: name }),
        ),
        first_ref(wrap_ref(name)) == Option::Some(
            (RefMatch { start: 0, end: name.len() + 3 as int, name: name }),
        ),
{
    let w = wrap_ref(name);
    assert(w.len() == name.len() + 3);
    assert(w[0] == '$');
    assert(w[1] == '(');
    assert(w[w.len() - 1] == ')');
    assert forall|k: int| 2 <= k < 2 + name.len() implies in_class(CharClass::RefName, w[k]) by {
        assert(w[k] == name[k - 2]);
    }
    assert(!in_class(CharClass::RefName, w[2 + name.len() as int]));
    lemma_run_from_exact(w, 2, CharClass::RefName, name.len() as int);
    assert(w.subrange(2, 2 + name.len() as int) =~= name);
}

/// Two variables bound to references to each other can never be resolved:
/// referencing either fails with the recursive-dependency error, naming the
/// variable whose expansion chain closed the cycle.
pub proof fn lemma_recursive_pair(a: Seq<char>, b: Seq<char>, vars: Map<Seq<char>, Seq<char>>)
    requires
        ref_name_ok(a),
        ref_name_ok(b),
        a != b,
        vars.contains_key(a) && vars[a] == wrap_ref(b),
        vars.contains_key(b) && vars[b] == wrap_ref(a),
    ensures
        resolve(wrap_ref(a), vars, Seq::empty()) == Result::<Seq<char>, ResolveErrorV>::Err(
            ResolveErrorV::Recursive(a),
        ),
{
    let wa = wrap_ref(a);
    let wb = wrap_ref(b);
    let d0 = Seq::<Seq<char>>::empty();
    let d1 = d0.push(a);
    let d2 = d1.push(b);
    let f0 = usize::MAX as nat;
    lemma_ref_at_wrap(a);
    lemma_ref_at_wrap(b);
    assert(!d0.contains(a));
    assert(!d1.contains(b)) by {
        if d1.contains(b) {
            let k = choose|k: int| 0 <= k < d1.len() && d1[k] == b;
            assert(d1[0] == a);
        }
    }
    assert(d2.contains(a)) by {
        assert(d2[0] == a);
    }
    // innermost step: resolving `$(a)` with both names already on the chain
    assert(resolve_fueled(wa, vars, d2, (f0 - 2) as nat) == Result::<
        Seq<char>,
        ResolveErrorV,
    >::Err(ResolveErrorV::Recursive(a)));
    // middle step: resolving the value of `a`, which references `b`
    assert(resolve_fueled(wb, vars, d1, (f0 - 1) as nat) == Result::<
        Seq<char>,
        ResolveErrorV,
    >::Err(ResolveErrorV::Recursive(a)));
    // outermost step: resolving the original `$(a)`
    assert(resolve_fueled(wa, vars, d0, f0) == Result::<Seq<char>, ResolveErrorV>::Err(
        ResolveErrorV::Recursive(a),
    ));
}

/// A lone self-reference resolves to the current binding of `@`, whatever
/// target name stands there at that point of the scan.
pub proof fn lemma_self_reference(vars: Map<Seq<char>, Seq<char>>)
    requires
        vars.contains_key(seq!['@']),
        first_ref(vars[seq!['@']]) is None,
    ensures
        resolve(seq!['$', '@'], vars, Seq::empty()) == Result::<Seq<char>, ResolveErrorV>::Ok(
            vars[seq!['@']],
        ),
{
    let text = seq!['$', '@'];
    let t = vars[seq!['@']];
    let d0 = Seq::<Seq<char>>::empty();
    let f0 = usize::MAX as nat;
    let m = RefMatch { start: 0, end: 2, name: seq!['@'] };
    assert(ref_at(text, 0) == Option::Some(m));
    lemma_first_ref_found_at(text, 0, m);
    assert(!d0.contains(seq!['@']));
    lemma_resolve_without_refs(t, vars, d0.push(seq!['@']));
    assert(resolve_fueled(t, vars, d0.push(seq!['@']), (f0 - 1) as nat) == Result::<
        Seq<char>,
        ResolveErrorV,
    >::Ok(t));
    assert(text.subrange(0, 0) + t + text.subrange(2, 2) =~= t);
    lemma_resolve_without_refs(t, vars, d0);
    assert(resolve_fueled(t, vars, d0, (f0 - 1) as nat) == Result::<Seq<char>, ResolveErrorV>::Ok(
        t,
    ));
    assert(resolve_fueled(text, vars, d0, f0) == Result::<Seq<char>, ResolveErrorV>::Ok(t));
}

/// A name made only of target-name (word) characters.
pub open spec fn word_name(t: Seq<char>) -> bool {
    t.len() >= 1 && forall|k: int| 0 <= k < t.len() ==> in_class(CharClass::Word, t[k])
}

/// Resolving a value that holds the current-target sigil reflects whichever
/// target name is bound to `@` at that point of the scan: in an otherwise
/// reference-free text the sigil becomes exactly that name, so rebinding `@`
/// (as every new target declaration does) changes exactly that part of the
/// result.
pub proof fn lemma_sigil_substitution(
    a: Seq<char>,
    b: Seq<char>,
    vars: Map<Seq<char>, Seq<char>>,
    deps: Seq<Seq<char>>,
)
    requires
        vars.contains_key(seq!['@']),
        word_name(vars[seq!['@']]),
        !deps.contains(seq!['@']),
        forall|k: int| 0 <= k < a.len() ==> a[k] != '$',
        forall|k: int| 0 <= k < b.len() ==> b[k] != '$',
    ensures
        resolve(a + seq!['$', '@'] + b, vars, deps) == Result::<Seq<char>, ResolveErrorV>::Ok(
            a + vars[seq!['@']] + b,
        ),
{
    let t = vars[seq!['@']];
    let text = a + seq!['$', '@'] + b;
    let s = a.len() as int;
    let m = RefMatch { start: s, end: s + 2, name: seq!['@'] };
    assert(text[s] == '$');
    assert(text[s + 1] == '@');
    assert(ref_at(text, s) == Option::Some(m));
    assert forall|j: int| 0 <= j < s implies ref_at(text, j) is None by {
        assert(text[j] == a[j]);
    }
    lemma_first_ref_found_at(text, s, m);
    // a word-character name holds no dollar sign, so it is reference-free
    assert forall|k: int| 0 <= k < t.len() implies t[k] != '$' by {
        assert(in_class(CharClass::Word, t[k]));
    }
    lemma_dollar_free_no_refs(t);
    lemma_resolve_without_refs(t, vars, deps.push(seq!['@']));
    let f0 = usize::MAX as nat;
    assert(resolve_fueled(t, vars, deps.push(seq!['@']), (f0 - 1) as nat) == Result::<
        Seq<char>,
        ResolveErrorV,
    >::Ok(t));
    let spliced = text.subrange(0, s) + t + text.subrange(s + 2, text.len() as int);
    assert(text.subrange(0, s) =~= a);
    assert(text.subrange(s + 2, text.len() as int) =~= b);
    assert(spliced =~= a + t + b);
    assert forall|k: int| 0 <= k < spliced.len() implies spliced[k] != '$' by {
        if k < a.len() {
            assert(spliced[k] == a[k]);
        } else if k < a.len() + t.len() {
            assert(spliced[k] == t[k - a.len()]);
            assert(in_class(CharClass::Word, t[k - a.len()]));
        } else {
            assert(spliced[k] == b[k - a.len() - t.len()]);
        }
    }
    lemma_dollar_free_no_refs(spliced);
    lemma_resolve_without_refs(spliced, vars, deps);
    assert(resolve_fueled(spliced, vars, deps, (f0 - 1) as nat) == Result::<
        Seq<char>,
        ResolveErrorV,
    >::Ok(spliced));
    assert(resolve_fueled(text, vars, deps, f0) == Result::<Seq<char>, ResolveErrorV>::Ok(
        a + t + b,
    ));
}

} // verus!
