//! The post-pass name filter: drops targets whose names match an exclusion
//! pattern and, when an inclusion set is given, keeps only names matching
//! some inclusion pattern. The patterns themselves are regular expressions
//! compiled and matched by the `regex` crate behind trusted wrappers.

use vstd::prelude::*;

use crate::types::Target;
use crate::types::TargetV;
use crate::types::targets_view;

verus! {

#[verifier::external_type_specification]
#[verifier::external_body]
pub struct ExRegex(regex::Regex);

/// Whether `regex::Regex::new` accepts the pattern: a function of the
/// pattern text alone.
pub uninterp spec fn regex_accepts(pattern: Seq<char>) -> bool;

/// Whether the compiled pattern matches anywhere in the text: a function of
/// pattern and text alone.
pub uninterp spec fn regex_matches(pattern: Seq<char>, text: Seq<char>) -> bool;

/// A user-supplied name pattern, compiled and ready to match, remembering
/// the text it was compiled from.
pub struct Pattern {
    source: String,
    re: regex::Regex,
}

impl Pattern {
    /// The pattern text this value was compiled from.
    pub closed spec fn src(&self) -> Seq<char> {
        self.source@
    }

    /// Relies on regex::Regex::new: compiling a pattern succeeds or fails on
    /// the pattern text alone, and this value remembers that text.
    #[verifier::external_body]
    pub fn compile(pattern: &str) -> (r: Option<Pattern>)
        ensures
            r is Some <==> regex_accepts(pattern@),
            (match r {
                Option::Some(p) => p.src() == pattern@,
                Option::None => true,
            }),
    {
        match regex::Regex::new(pattern) {
            Ok(re) => Some(Pattern { source: pattern.to_string(), re }),
            Err(_) => None,
        }
    }

    /// Relies on regex::Regex::is_match: whether the compiled pattern
    /// matches anywhere in `text`, a function of pattern and text alone.
    #[verifier::external_body]
    pub fn is_match(&self, text: &str) -> (r: bool)
        ensures
            r == regex_matches(self.src(), text@),
    {
        self.re.is_match(text)
    }
}

/// The pattern texts of a compiled list.
pub open spec fn pats_view(ps: Seq<Pattern>) -> Seq<Seq<char>> {
    ps.map_values(|p: Pattern| p.src())
}

/// Whether any pattern of the set matches the text.
pub open spec fn any_match(pats: Seq<Seq<char>>, text: Seq<char>) -> bool {
    exists|k: int| 0 <= k < pats.len() && regex_matches(pats[k], text)
}

/// Whether a target of this name survives the filter: its name matches no
/// exclusion pattern, and, if an inclusion set is present, matches at least
/// one inclusion pattern.
pub open spec fn kept(
    name: Seq<char>,
    excl: Option<Seq<Seq<char>>>,
    incl: Option<Seq<Seq<char>>>,
) -> bool {
    &&& (match excl {
        Option::Some(ps) => !any_match(ps, name),
        Option::None => true,
    })
    &&& (match incl {
        Option::Some(ps) => any_match(ps, name),
        Option::None => true,
    })
}

/// The patterns of a user-supplied set that compile; the rest are dropped.
pub open spec fn accepted_pats(ps: Seq<Seq<char>>) -> Seq<Seq<char>> {
    ps.filter(|p: Seq<char>| regex_accepts(p))
}

/// The accepted patterns of an optional set.
pub open spec fn accepted_opt(ps: Option<Seq<Seq<char>>>) -> Option<Seq<Seq<char>>> {
    match ps {
        Option::Some(s) => Option::Some(accepted_pats(s)),
        Option::None => Option::None,
    }
}

/// Whether one target survives the filter, over the accepted patterns of
/// the two optional sets.
pub open spec fn kept_target(
    t: TargetV,
    filters: Option<Seq<Seq<char>>>,
    includes: Option<Seq<Seq<char>>>,
) -> bool {
    kept(t.name, accepted_opt(filters), accepted_opt(includes))
}

/// The subsequence of targets that survives the filter, in scan order.
pub open spec fn filtered(
    ts: Seq<TargetV>,
    filters: Option<Seq<Seq<char>>>,
    includes: Option<Seq<Seq<char>>>,
) -> Seq<TargetV> {
    ts.filter(|t: TargetV| kept_target(t, filters, includes))
}

/// The first pattern of the set that does not compile, if any.
pub open spec fn first_bad(ps: Seq<Seq<char>>) -> Option<Seq<char>>
    decreases ps.len(),
{
    if ps.len() == 0 {
        Option::None
    } else if !regex_accepts(ps[0]) {
        Option::Some(ps[0])
    } else {
        first_bad(ps.drop_first())
    }
}

/// The first malformed pattern over both sets, exclusions first.
pub open spec fn first_bad_opt(
    excl: Option<Seq<Seq<char>>>,
    incl: Option<Seq<Seq<char>>>,
) -> Option<Seq<char>> {
    let from_excl = match excl {
        Option::Some(ps) => first_bad(ps),
        Option::None => Option::None,
    };
    if from_excl is Some {
        from_excl
    } else {
        match incl {
            Option::Some(ps) => first_bad(ps),
            Option::None => Option::None,
        }
    }
}

proof fn lemma_first_bad_at(ps: Seq<Seq<char>>, j: int)
    requires
        0 <= j < ps.len(),
        forall|k: int| 0 <= k < j ==> regex_accepts(ps[k]),
        !regex_accepts(ps[j]),
    ensures
        first_bad(ps) == Option::Some(ps[j]),
    decreases j,
{
    if j > 0 {
        lemma_first_bad_at(ps.drop_first(), j - 1);
    }
}

proof fn lemma_first_bad_none(ps: Seq<Seq<char>>)
    requires
        forall|k: int| 0 <= k < ps.len() ==> regex_accepts(ps[k]),
    ensures
        first_bad(ps) is None,
    decreases ps.len(),
{
    if ps.len() > 0 {
        lemma_first_bad_none(ps.drop_first());
    }
}

/// A malformed user-supplied filter pattern, reported in strict mode.
#[derive(Debug, PartialEq, Eq)]
pub struct FilterError {
    /// The pattern text that did not compile.
    pub pattern: String,
}

impl View for FilterError {
    type V = Seq<char>;

    open spec fn view(&self) -> Seq<char> {
        self.pattern@
    }
}

/// Compile one pattern set. In strict mode the first malformed pattern is
/// returned as the error; otherwise malformed patterns are dropped and the
/// rest still apply.
fn compile_set(texts: &Vec<String>, strict_mode: bool) -> (r: Result<Vec<Pattern>, FilterError>)
    ensures
        (match r {
            Result::Ok(v) => pats_view(v@) == accepted_pats(texts.deep_view()) && (strict_mode
                ==> first_bad(texts.deep_view()) is None),
            Result::Err(e) => strict_mode && first_bad(texts.deep_view()) == Option::Some(e@),
        }),
{
    let n = texts.len();
    let mut out: Vec<Pattern> = Vec::new();
    let mut j: usize = 0;
    proof {
        reveal_with_fuel(Seq::<_>::filter, 2);
        assert(pats_view(out@) =~= accepted_pats(texts.deep_view().take(0)));
    }
    while j < n
        invariant
            0 <= j <= n,
            n == texts@.len(),
            pats_view(out@) == accepted_pats(texts.deep_view().take(j as int)),
            strict_mode ==> forall|k: int| 0 <= k < j ==> regex_accepts(texts.deep_view()[k]),
        decreases n - j,
    {
        let ghost pre = out;
        proof {
            assert(texts.deep_view()[j as int] == texts@[j as int]@);
        }
        match Pattern::compile(texts[j].as_str()) {
            Option::Some(p) => {
                out.push(p);
            },
            Option::None => {
                if strict_mode {
                    proof {
                        lemma_first_bad_at(texts.deep_view(), j as int);
                    }
                    return Result::Err(FilterError { pattern: texts[j].clone() });
                }
            },
        }
        proof {
            reveal_with_fuel(Seq::<_>::filter, 2);
            let tj = texts.deep_view().take(j + 1 as int);
            assert(tj.len() == j + 1);
            assert(tj.drop_last() =~= texts.deep_view().take(j as int));
            assert(tj.last() == texts.deep_view()[j as int]);
            if regex_accepts(texts.deep_view()[j as int]) {
                assert(pats_view(out@) =~= pats_view(pre@).push(texts.deep_view()[j as int]));
            } else {
                assert(out == pre);
            }
            assert(pats_view(out@) =~= accepted_pats(tj));
        }
        j = j + 1;
    }
    proof {
        assert(texts.deep_view().take(n as int) =~= texts.deep_view());
        if strict_mode {
            lemma_first_bad_none(texts.deep_view());
        }
    }
    Result::Ok(out)
}

/// Whether any pattern of the compiled set matches the text.
fn any_match_exec(ps: &Vec<Pattern>, text: &str) -> (r: bool)
    ensures
        r == any_match(pats_view(ps@), text@),
{
    let n = ps.len();
    let mut j: usize = 0;
    while j < n
        invariant
            0 <= j <= n,
            n == ps@.len(),
            forall|k: int| 0 <= k < j ==> !regex_matches(pats_view(ps@)[k], text@),
        decreases n - j,
    {
        if ps[j].is_match(text) {
            proof {
                assert(regex_matches(pats_view(ps@)[j as int], text@));
            }
            return true;
        }
        j = j + 1;
    }
    false
}

/// Apply the user's exclusion and inclusion patterns to the target list:
/// of the patterns that compile, a target is kept when its name matches no
/// exclusion and, if an inclusion set was given, matches some inclusion;
/// survivors keep their scan order. In strict mode a malformed pattern is
/// the whole run's error (exclusions checked first); otherwise it is
/// dropped from its set and the rest still apply.
pub fn filter_targets(
    targets: Vec<Target>,
    strict_mode: bool,
    filters: Option<Vec<String>>,
    includes: Option<Vec<String>>,
) -> (r: Result<Vec<Target>, FilterError>)
    ensures
        r is Err <==> strict_mode && first_bad_opt(filters.deep_view(), includes.deep_view())
            is Some,
        (match r {
            Result::Err(e) => first_bad_opt(filters.deep_view(), includes.deep_view())
                == Option::Some(e@),
            Result::Ok(out) => targets_view(out@) == filtered(
                targets_view(targets@),
                filters.deep_view(),
                includes.deep_view(),
            ),
        }),
{
    let excl: Option<Vec<Pattern>> = match &filters {
        Option::None => Option::None,
        Option::Some(texts) => match compile_set(texts, strict_mode) {
            Result::Err(e) => {
                return Result::Err(e);
            },
            Result::Ok(v) => Option::Some(v),
        },
    };
    let incl: Option<Vec<Pattern>> = match &includes {
        Option::None => Option::None,
        Option::Some(texts) => match compile_set(texts, strict_mode) {
            Result::Err(e) => {
                return Result::Err(e);
            },
            Result::Ok(v) => Option::Some(v),
        },
    };
    let ghost fdv = filters.deep_view();
    let ghost idv = includes.deep_view();
    let n = targets.len();
    let mut out: Vec<Target> = Vec::new();
    let mut i: usize = 0;
    proof {
        reveal_with_fuel(Seq::<_>::filter, 2);
        assert(targets_view(out@) =~= filtered(targets_view(targets@.take(0)), fdv, idv));
    }
    while i < n
        invariant
            0 <= i <= n,
            n == targets@.len(),
            targets_view(out@) == filtered(targets_view(targets@.take(i as int)), fdv, idv),
            fdv == filters.deep_view(),
            idv == includes.deep_view(),
            (match excl {
                Option::Some(v) => fdv matches Option::Some(ts) && pats_view(v@)
                    == accepted_pats(ts),
                Option::None => fdv is None,
            }),
            (match incl {
                Option::Some(v) => idv matches Option::Some(ts) && pats_view(v@)
                    == accepted_pats(ts),
                Option::None => idv is None,
            }),
        decreases n - i,
    {
        let ghost pre = out;
        let excluded = match &excl {
            Option::Some(ps) => any_match_exec(ps, targets[i].name.as_str()),
            Option::None => false,
        };
        let included = match &incl {
            Option::Some(ps) => any_match_exec(ps, targets[i].name.as_str()),
            Option::None => true,
        };
        if !excluded && included {
            out.push(targets[i].clone());
        }
        proof {
            reveal_with_fuel(Seq::<_>::filter, 2);
            let tv = targets_view(targets@.take(i + 1 as int));
            assert(tv.len() == i + 1);
            assert(targets@.take(i + 1 as int).drop_last() =~= targets@.take(i as int));
            assert(tv.drop_last() =~= targets_view(targets@.take(i as int)));
            assert(tv.last() == targets@[i as int]@);
            assert(kept_target(targets@[i as int]@, fdv, idv) == (!excluded && included));
            if !excluded && included {
                assert(targets_view(out@) =~= targets_view(pre@).push(targets@[i as int]@));
            } else {
                assert(out == pre);
            }
            assert(targets_view(out@) =~= filtered(tv, fdv, idv));
        }
        i = i + 1;
    }
    proof {
        assert(targets@.take(n as int) =~= targets@);
    }
    Result::Ok(out)
}

} // verus!
