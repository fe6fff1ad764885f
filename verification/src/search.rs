//! The search engine: filtering a candidate list by a query under one of
//! three modes (exact substring, regular expression, fuzzy), honouring a
//! case-sensitivity flag.  The regular-expression and fuzzy matchers are
//! outside crates; their decisions are named, and everything around them is
//! verified.

use vstd::prelude::*;
use fuzzy_matcher::FuzzyMatcher;
use fuzzy_matcher::skim::SkimMatcherV2;
use crate::state::SearchMode;

verus! {

#[verifier::external_type_specification]
#[verifier::external_body]
pub struct ExRegex(regex::Regex);

/// Whether a pattern is accepted by the regular-expression compiler under a
/// case option; a function of the two alone.
pub uninterp spec fn regex_ok(pattern: Seq<char>, case_insensitive: bool) -> bool;

/// The pattern a compiled matcher was built from.
pub uninterp spec fn regex_pattern(re: regex::Regex) -> Seq<char>;

/// The case option a compiled matcher was built with.
pub uninterp spec fn regex_case_insensitive(re: regex::Regex) -> bool;

/// Whether the pattern, compiled with the given case option, matches
/// somewhere in the text; a function of its three arguments alone.
pub uninterp spec fn regex_match(pattern: Seq<char>, case_insensitive: bool, text: Seq<char>) -> bool;

/// The characters that carry meaning in a regular expression; the set is
/// fixed by the expression syntax.
pub open spec fn is_meta_character(c: char) -> bool {
    ||| c == '\\'
    ||| c == '.'
    ||| c == '+'
    ||| c == '*'
    ||| c == '?'
    ||| c == '('
    ||| c == ')'
    ||| c == '|'
    ||| c == '['
    ||| c == ']'
    ||| c == '{'
    ||| c == '}'
    ||| c == '^'
    ||| c == '$'
    ||| c == '#'
    ||| c == '&'
    ||| c == '-'
    ||| c == '~'
}

/// The pattern with a backslash put before every meta character, so that it
/// matches itself literally.
pub open spec fn regex_escaped(s: Seq<char>) -> Seq<char>
    decreases s.len(),
{
    if s.len() == 0 {
        Seq::empty()
    } else {
        (if is_meta_character(s[0]) {
            seq!['\\', s[0]]
        } else {
            seq![s[0]]
        }) + regex_escaped(s.subrange(1, s.len() as int))
    }
}

/// Whether the query fuzzily matches within the text; a function of the two
/// strings and the case setting alone.
pub uninterp spec fn fuzzy_match(text: Seq<char>, query: Seq<char>, case_sensitive: bool) -> bool;

/// The byte positions covered by the pattern's matches in the text.
pub uninterp spec fn regex_match_positions(pattern: Seq<char>, text: Seq<char>) -> Seq<usize>;

/// Relies on `regex::escape`: puts a backslash before each meta character
/// and copies every other character through.
#[verifier::external_body]
fn escape_query(s: &str) -> (r: String)
    ensures
        r@ == regex_escaped(s@),
{
    regex::escape(s)
}

/// Relies on `regex::RegexBuilder` (`new`, `case_insensitive`, `build`):
/// whether building succeeds is a function of the pattern and the case
/// option (it fails on invalid syntax or when the default compiled-size
/// limit is exceeded); the empty pattern is documented valid; the returned
/// matcher holds the pattern and case option it was built from.
#[verifier::external_body]
fn build_regex(pattern: &str, case_insensitive: bool) -> (r: Option<regex::Regex>)
    ensures
        r is Some <==> regex_ok(pattern@, case_insensitive),
        pattern@.len() == 0 ==> r is Some,
        r matches Some(re) ==> regex_pattern(re) == pattern@ && regex_case_insensitive(re)
            == case_insensitive,
{
    regex::RegexBuilder::new(pattern).case_insensitive(case_insensitive).build().ok()
}

/// Relies on `regex::Regex::is_match`: true exactly when the compiled
/// pattern matches anywhere in the text; the empty pattern is documented to
/// match at every position, so it matches every text.
#[verifier::external_body]
fn regex_is_match(re: &regex::Regex, text: &str) -> (r: bool)
    ensures
        r == regex_match(regex_pattern(*re), regex_case_insensitive(*re), text@),
        regex_pattern(*re).len() == 0 ==> r,
{
    re.is_match(text)
}

/// Relies on `fuzzy_matcher::skim::SkimMatcherV2::fuzzy_match` (with
/// `respect_case` when case-sensitive): the match decision is a pure function
/// of the two strings and the case setting.
#[verifier::external_body]
fn fuzzy_is_match(text: &str, query: &str, case_sensitive: bool) -> (r: bool)
    ensures
        r == fuzzy_match(text@, query@, case_sensitive),
{
    let matcher = if case_sensitive {
        SkimMatcherV2::default().respect_case()
    } else {
        SkimMatcherV2::default()
    };
    matcher.fuzzy_match(text, query).is_some()
}

/// Relies on `regex::Regex::new` and `find_iter`: the byte positions covered
/// by the pattern's matches in the string, or nothing when the pattern is
/// invalid.  Used by the rendering layer to highlight matched characters.
#[verifier::external_body]
pub fn substring_indices(string: &str, substring: &str) -> (r: Vec<usize>)
    ensures
        regex_ok(substring@, false) ==> r@ == regex_match_positions(substring@, string@),
        !regex_ok(substring@, false) ==> r@ == Seq::<usize>::empty(),
{
    match regex::Regex::new(substring) {
        Ok(re) => re.find_iter(string).flat_map(|m| m.range()).collect(),
        Err(_) => Vec::new(),
    }
}

/// The pattern a query denotes under a mode: escaped for exact search, used
/// as written for regular-expression search.
pub open spec fn effective_pattern(query: Seq<char>, mode: SearchMode) -> Seq<char> {
    match mode {
        SearchMode::Exact => regex_escaped(query),
        _ => query,
    }
}

/// Whether one candidate matches the query under the given mode and case
/// setting.
pub open spec fn matches_query(
    text: Seq<char>,
    query: Seq<char>,
    mode: SearchMode,
    case_sensitive: bool,
) -> bool {
    match mode {
        SearchMode::Fuzzy => fuzzy_match(text, query, case_sensitive),
        _ => regex_match(effective_pattern(query, mode), !case_sensitive, text),
    }
}

/// Whether the filter applies at all: it does not only when a
/// regular-expression query fails to compile.
pub open spec fn filter_applies(query: Seq<char>, mode: SearchMode, case_sensitive: bool) -> bool {
    match mode {
        SearchMode::Exact => regex_ok(regex_escaped(query), !case_sensitive),
        SearchMode::Regex => regex_ok(query, !case_sensitive),
        SearchMode::Fuzzy => true,
    }
}

/// What filtering a candidate list yields: the matching candidates in their
/// original order, or the list unchanged when the pattern is invalid.
pub open spec fn filtered(
    candidates: Seq<Seq<char>>,
    query: Seq<char>,
    mode: SearchMode,
    case_sensitive: bool,
) -> Seq<Seq<char>> {
    if filter_applies(query, mode, case_sensitive) {
        candidates.filter(|t: Seq<char>| matches_query(t, query, mode, case_sensitive))
    } else {
        candidates
    }
}

/// Filtering one more element extends the filtered sequence exactly when the
/// element passes the predicate.
pub proof fn lemma_filter_push<A>(s: Seq<A>, pred: spec_fn(A) -> bool, x: A)
    ensures
        s.push(x).filter(pred) == if pred(x) {
            s.filter(pred).push(x)
        } else {
            s.filter(pred)
        },
{
    reveal(Seq::filter);
    assert(s.push(x).drop_last() =~= s);
    assert(s.push(x).last() == x);
}

/// Two pointwise-equal predicates filter a sequence to the same result.
pub proof fn lemma_filter_congruence<A>(s: Seq<A>, p: spec_fn(A) -> bool, q: spec_fn(A) -> bool)
    requires
        forall|x: A| #[trigger] p(x) == q(x),
    ensures
        s.filter(p) == s.filter(q),
    decreases s.len(),
{
    reveal(Seq::filter);
    if s.len() > 0 {
        lemma_filter_congruence(s.drop_last(), p, q);
    }
}

/// Filtering is idempotent: filtering an already-filtered list with the same
/// query, mode and case-sensitivity yields it unchanged.
pub proof fn lemma_filter_idempotent(
    candidates: Seq<Seq<char>>,
    query: Seq<char>,
    mode: SearchMode,
    case_sensitive: bool,
)
    ensures
        filtered(filtered(candidates, query, mode, case_sensitive), query, mode, case_sensitive)
            == filtered(candidates, query, mode, case_sensitive),
{
    if filter_applies(query, mode, case_sensitive) {
        let pred = |t: Seq<char>| matches_query(t, query, mode, case_sensitive);
        lemma_filter_twice(candidates, pred);
    }
}

proof fn lemma_filter_twice<A>(s: Seq<A>, pred: spec_fn(A) -> bool)
    ensures
        s.filter(pred).filter(pred) == s.filter(pred),
    decreases s.len(),
{
    reveal(Seq::filter);
    if s.len() == 0 {
        assert(s.filter(pred) =~= Seq::<A>::empty());
    } else {
        lemma_filter_twice(s.drop_last(), pred);
        if pred(s.last()) {
            lemma_filter_push(s.drop_last().filter(pred), pred, s.last());
        }
    }
}

/// Keep the candidates that a compiled matcher accepts, in order; under the
/// empty pattern every candidate is kept.
fn retain_regex(candidates: &Vec<String>, re: &regex::Regex) -> (r: Vec<String>)
    ensures
        r.deep_view() == candidates.deep_view().filter(
            |t: Seq<char>|
                regex_match(regex_pattern(*re), regex_case_insensitive(*re), t),
        ),
        regex_pattern(*re).len() == 0 ==> r.deep_view() == candidates.deep_view(),
{
    let ghost c = candidates.deep_view();
    let ghost pred = |t: Seq<char>|
        regex_match(regex_pattern(*re), regex_case_insensitive(*re), t);
    let mut out: Vec<String> = Vec::new();
    let mut i: usize = 0;
    proof {
        assert(c.subrange(0, 0).filter(pred) =~= Seq::<Seq<char>>::empty());
        assert(out.deep_view() =~= Seq::<Seq<char>>::empty());
    }
    while i < candidates.len()
        invariant
            0 <= i <= candidates.len(),
            c == candidates.deep_view(),
            c.len() == candidates.len(),
            pred == (|t: Seq<char>|
                regex_match(regex_pattern(*re), regex_case_insensitive(*re), t)),
            out.deep_view() == c.subrange(0, i as int).filter(pred),
            regex_pattern(*re).len() == 0 ==> out.deep_view() == c.subrange(0, i as int),
        decreases candidates.len() - i,
    {
        let ghost old_out = out.deep_view();
        let keep = regex_is_match(re, candidates[i].as_str());
        if keep {
            let item = candidates[i].clone();
            out.push(item);
        }
        proof {
            assert(c.subrange(0, i + 1) =~= c.subrange(0, i as int).push(c[i as int]));
            lemma_filter_push(c.subrange(0, i as int), pred, c[i as int]);
            if keep {
                assert(out.deep_view() =~= old_out.push(c[i as int]));
            }
        }
        i += 1;
    }
    proof {
        assert(c.subrange(0, c.len() as int) =~= c);
    }
    out
}

/// Keep the candidates that the fuzzy matcher accepts, in order.
fn retain_fuzzy(candidates: &Vec<String>, query: &String, case_sensitive: bool) -> (r: Vec<String>)
    ensures
        r.deep_view() == candidates.deep_view().filter(
            |t: Seq<char>| fuzzy_match(t, query@, case_sensitive),
        ),
{
    let ghost c = candidates.deep_view();
    let ghost pred = |t: Seq<char>| fuzzy_match(t, query@, case_sensitive);
    let mut out: Vec<String> = Vec::new();
    let mut i: usize = 0;
    proof {
        assert(c.subrange(0, 0).filter(pred) =~= Seq::<Seq<char>>::empty());
        assert(out.deep_view() =~= Seq::<Seq<char>>::empty());
    }
    while i < candidates.len()
        invariant
            0 <= i <= candidates.len(),
            c == candidates.deep_view(),
            c.len() == candidates.len(),
            pred == (|t: Seq<char>| fuzzy_match(t, query@, case_sensitive)),
            out.deep_view() == c.subrange(0, i as int).filter(pred),
        decreases candidates.len() - i,
    {
        let ghost old_out = out.deep_view();
        let keep = fuzzy_is_match(candidates[i].as_str(), query.as_str(), case_sensitive);
        if keep {
            let item = candidates[i].clone();
            out.push(item);
        }
        proof {
            assert(c.subrange(0, i + 1) =~= c.subrange(0, i as int).push(c[i as int]));
            lemma_filter_push(c.subrange(0, i as int), pred, c[i as int]);
            if keep {
                assert(out.deep_view() =~= old_out.push(c[i as int]));
            }
        }
        i += 1;
    }
    proof {
        assert(c.subrange(0, c.len() as int) =~= c);
    }
    out
}

/// Copy a list of commands.
pub fn clone_commands(v: &Vec<String>) -> (r: Vec<String>)
    ensures
        r@ == v@,
{
    let r = v.clone();
    proof {
        assert(r@ =~= v@);
    }
    r
}

/// Filter a candidate list by the query: exact substring search (escaped,
/// case-folded unless case-sensitive), regular-expression search (the list
/// is returned unchanged when the pattern is invalid), or fuzzy search.
/// The result keeps the candidates' relative order.
pub fn filter_commands(
    candidates: &Vec<String>,
    query: &String,
    mode: SearchMode,
    case_sensitive: bool,
) -> (r: Vec<String>)
    ensures
        r.deep_view() == filtered(candidates.deep_view(), query@, mode, case_sensitive),
        query@.len() == 0 && mode != SearchMode::Fuzzy ==> r.deep_view()
            == candidates.deep_view(),
{
    match mode {
        SearchMode::Exact => {
            let pattern = escape_query(query.as_str());
            proof {
                if query@.len() == 0 {
                    assert(regex_escaped(query@) =~= Seq::<char>::empty());
                }
            }
            let re_opt = build_regex(pattern.as_str(), !case_sensitive);
            match re_opt {
                Some(re) => {
                    let r = retain_regex(candidates, &re);
                    proof {
                        lemma_filter_congruence(
                            candidates.deep_view(),
                            |t: Seq<char>|
                                regex_match(regex_pattern(re), regex_case_insensitive(re), t),
                            |t: Seq<char>| matches_query(t, query@, mode, case_sensitive),
                        );
                    }
                    r
                },
                None => clone_commands(candidates),
            }
        },
        SearchMode::Regex => {
            let re_opt = build_regex(query.as_str(), !case_sensitive);
            match re_opt {
                Some(re) => {
                    let r = retain_regex(candidates, &re);
                    proof {
                        lemma_filter_congruence(
                            candidates.deep_view(),
                            |t: Seq<char>|
                                regex_match(regex_pattern(re), regex_case_insensitive(re), t),
                            |t: Seq<char>| matches_query(t, query@, mode, case_sensitive),
                        );
                    }
                    r
                },
                None => clone_commands(candidates),
            }
        },
        SearchMode::Fuzzy => {
            let r = retain_fuzzy(candidates, query, case_sensitive);
            proof {
                lemma_filter_congruence(
                    candidates.deep_view(),
                    |t: Seq<char>| fuzzy_match(t, query@, case_sensitive),
                    |t: Seq<char>| matches_query(t, query@, mode, case_sensitive),
                );
            }
            r
        },
    }
}

} // verus!
