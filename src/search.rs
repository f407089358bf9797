//! Tiered search over the index: exact names, names that match a query, and
//! descriptions that match a query.
use vstd::prelude::*;
use crate::krate::{Crate, views};
use owo_colors::OwoColorize;

verus! {

#[verifier::external_type_specification]
#[verifier::external_body]
pub struct ExRegexSet(regex::RegexSet);

#[verifier::external_type_specification]
#[verifier::external_body]
pub struct ExRegex(regex::Regex);

/// Whether the regular expression `pattern`, compiled with the given case
/// sensitivity, matches somewhere in `text`.
pub uninterp spec fn regex_matches(pattern: Seq<char>, case_insensitive: bool, text: Seq<char>) -> bool;

/// The successive non-overlapping matches of `pattern` in `text`, each as
/// the character positions where it starts and where it ends.
pub uninterp spec fn regex_spans(pattern: Seq<char>, case_insensitive: bool, text: Seq<char>) -> Seq<(usize, usize)>;

/// `text` wrapped in the terminal's bold and green markers, each closed
/// after it.
pub open spec fn emphasized(text: Seq<char>) -> Seq<char> {
    "\x1b[1m\x1b[32m"@ + text + "\x1b[39m\x1b[0m"@
}

/// Whether all the queries compile together into one set, with the given
/// case sensitivity.
pub uninterp spec fn regex_set_compiles(patterns: Seq<Seq<char>>, case_insensitive: bool) -> bool;

/// Whether `pattern` compiles on its own, with the given case sensitivity.
pub uninterp spec fn regex_compiles(pattern: Seq<char>, case_insensitive: bool) -> bool;

/// Whether every query compiles, together and one by one.
pub open spec fn queries_compile(queries: Seq<Seq<char>>, case_insensitive: bool) -> bool {
    regex_set_compiles(queries, case_insensitive)
        && forall|i: int| 0 <= i < queries.len() ==> regex_compiles(#[trigger] queries[i], case_insensitive)
}

/// Whether one of the queries matches `text`.
pub open spec fn any_matches(queries: Seq<Seq<char>>, case_insensitive: bool, text: Seq<char>) -> bool {
    exists|i: int| 0 <= i < queries.len() && regex_matches(#[trigger] queries[i], case_insensitive, text)
}

/// All queries compiled into one matcher.
pub struct MatchSet {
    queries: Vec<String>,
    case_insensitive: bool,
    set: regex::RegexSet,
}

impl MatchSet {
    pub closed spec fn queries(&self) -> Seq<Seq<char>> {
        views(self.queries@)
    }

    pub closed spec fn case_insensitive(&self) -> bool {
        self.case_insensitive
    }
}

/// Relies on `regex::RegexSetBuilder::build`, which compiles every query
/// with the given case sensitivity, or fails on one that is no valid
/// regular expression (or exceeds the size limits); the outcome depends on
/// the queries and the flag alone.
#[verifier::external_body]
fn build_match_set(queries: &Vec<String>, case_insensitive: bool) -> (r: Option<MatchSet>)
    ensures
        r is Some <==> regex_set_compiles(views(queries@), case_insensitive),
        r matches Some(m) ==> m.queries() == views(queries@) && m.case_insensitive() == case_insensitive,
{
    regex::RegexSetBuilder::new(queries)
        .case_insensitive(case_insensitive)
        .build()
        .ok()
        .map(|set| MatchSet { queries: queries.clone(), case_insensitive, set })
}

/// Relies on `regex::RegexSet::is_match`: true if and only if one of the
/// set's expressions matches the text.
#[verifier::external_body]
fn set_is_match(m: &MatchSet, text: &str) -> (r: bool)
    ensures
        r == (exists|i: int| 0 <= i < m.queries().len()
            && regex_matches(#[trigger] m.queries()[i], m.case_insensitive(), text@)),
{
    m.set.is_match(text)
}

/// One query compiled on its own, for highlighting.
pub struct Pattern {
    pattern: String,
    case_insensitive: bool,
    re: regex::Regex,
}

impl View for Pattern {
    type V = (Seq<char>, bool);

    closed spec fn view(&self) -> (Seq<char>, bool) {
        (self.pattern@, self.case_insensitive)
    }
}

/// Relies on `regex::RegexBuilder::build`, which compiles the pattern with
/// the given case sensitivity, or fails on an invalid one; the outcome
/// depends on the pattern and the flag alone.
#[verifier::external_body]
fn build_pattern(pattern: &String, case_insensitive: bool) -> (r: Option<Pattern>)
    ensures
        r is Some <==> regex_compiles(pattern@, case_insensitive),
        r matches Some(p) ==> p@ == (pattern@, case_insensitive),
{
    regex::RegexBuilder::new(pattern)
        .case_insensitive(case_insensitive)
        .build()
        .ok()
        .map(|re| Pattern { pattern: pattern.clone(), case_insensitive, re })
}

/// Relies on `regex::Regex::find_iter`: the successive non-overlapping
/// matches, each within the text; its byte offsets are turned into
/// character positions.
#[verifier::external_body]
pub(crate) fn find_spans(p: &Pattern, text: &str) -> (r: Vec<(usize, usize)>)
    ensures
        r@ == regex_spans(p@.0, p@.1, text@),
        forall|j: int| 0 <= j < r@.len() ==> (#[trigger] r@[j]).0 <= r@[j].1 <= text@.len(),
{
    p.re.find_iter(text).map(|m| (text[..m.start()].chars().count(), text[..m.end()].chars().count())).collect()
}

/// Relies on `owo_colors::OwoColorize::green` and `bold`: the bold marker
/// wraps the green one, each written before the text with its reset after.
#[verifier::external_body]
pub(crate) fn emphasize(text: &String) -> (r: String)
    ensures
        r@ == emphasized(text@),
{
    text.green().bold().to_string()
}

/// The first record named `q`.
pub open spec fn lookup(cs: Seq<Crate>, q: Seq<char>) -> Option<Crate>
    decreases cs.len(),
{
    if cs.len() == 0 {
        None
    } else if cs[0].name@ == q {
        Some(cs[0])
    } else {
        lookup(cs.drop_first(), q)
    }
}

/// Whether a record named `n` is in `tier`.
pub open spec fn named_in(tier: Seq<Crate>, n: Seq<char>) -> bool {
    exists|j: int| 0 <= j < tier.len() && (#[trigger] tier[j]).name@ == n
}

/// The exact tier: for each query in order, the record of that name, once.
pub open spec fn exact_tier(queries: Seq<Seq<char>>, cs: Seq<Crate>) -> Seq<Crate>
    decreases queries.len(),
{
    if queries.len() == 0 {
        Seq::empty()
    } else {
        let prev = exact_tier(queries.drop_last(), cs);
        match lookup(cs, queries.last()) {
            Some(c) => if named_in(prev, queries.last()) { prev } else { prev.push(c) },
            None => prev,
        }
    }
}

/// The name tier: in index order, records outside the exact tier whose name
/// matches a query.
pub open spec fn name_tier(queries: Seq<Seq<char>>, ci: bool, cs: Seq<Crate>, exact: Seq<Crate>) -> Seq<Crate> {
    cs.filter(|c: Crate| !named_in(exact, c.name@) && any_matches(queries, ci, c.name@))
}

/// The description tier: in index order, the remaining records whose
/// description matches a query.
pub open spec fn desc_tier(queries: Seq<Seq<char>>, ci: bool, cs: Seq<Crate>, exact: Seq<Crate>) -> Seq<Crate> {
    cs.filter(|c: Crate| !named_in(exact, c.name@) && !any_matches(queries, ci, c.name@)
        && c.description is Some && any_matches(queries, ci, c.description.unwrap()@))
}

/// The outcome of a search.
pub struct Search {
    pub name_exact: Vec<Crate>,
    pub name_contains: Vec<Crate>,
    pub desc_contains: Vec<Crate>,
    pub re: Vec<Pattern>,
}

/// Finds the first record named `q`.
fn find_crate(cs: &Vec<Crate>, q: &String) -> (r: Option<usize>)
    ensures
        match r {
            Some(i) => i < cs@.len() && lookup(cs@, q@) == Some(cs@[i as int]),
            None => lookup(cs@, q@) is None,
        },
{
    let mut i: usize = 0;
    assert(cs@.subrange(0, cs@.len() as int) =~= cs@);
    while i < cs.len()
        invariant
            i <= cs@.len(),
            lookup(cs@, q@) == lookup(cs@.subrange(i as int, cs@.len() as int), q@),
        decreases cs@.len() - i,
    {
        assert(cs@.subrange(i as int, cs@.len() as int)[0] == cs@[i as int]);
        if cs[i].name == *q {
            return Some(i);
        }
        assert(cs@.subrange(i as int, cs@.len() as int).drop_first() =~= cs@.subrange(i + 1, cs@.len() as int));
        i += 1;
    }
    None
}

/// Whether a record named `n` is in `tier`.
fn contains_name(tier: &Vec<Crate>, n: &String) -> (r: bool)
    ensures
        r == named_in(tier@, n@),
{
    let mut j: usize = 0;
    while j < tier.len()
        invariant
            j <= tier@.len(),
            forall|k: int| 0 <= k < j ==> (#[trigger] tier@[k]).name@ != n@,
        decreases tier@.len() - j,
    {
        if tier[j].name == *n {
            return true;
        }
        j += 1;
    }
    false
}

impl Search {
    /// The compiled per-query patterns, as (pattern, case-insensitive) pairs.
    pub open spec fn patterns(&self) -> Seq<(Seq<char>, bool)> {
        self.re@.map_values(|p: Pattern| p@)
    }

    /// Sorts `crates` (the index, in order) into the three tiers for
    /// `queries`, given the queries compiled into `matcher` and one by one
    /// into `re`.
    pub fn from_matcher(queries: &Vec<String>, crates: &Vec<Crate>, matcher: &MatchSet, re: Vec<Pattern>) -> (r: Search)
        requires
            matcher.queries() == views(queries@),
        ensures
            r.name_exact@ == exact_tier(views(queries@), crates@),
            r.name_contains@ == name_tier(views(queries@), matcher.case_insensitive(), crates@, r.name_exact@),
            r.desc_contains@ == desc_tier(views(queries@), matcher.case_insensitive(), crates@, r.name_exact@),
            r.re@ == re@,
    {
        proof {
            reveal(Seq::filter);
        }
        let ghost qs = views(queries@);
        let ghost ci = matcher.case_insensitive();
        let mut name_exact: Vec<Crate> = Vec::new();
        let mut k: usize = 0;
        while k < queries.len()
            invariant
                k <= queries@.len(),
                qs == views(queries@),
                name_exact@ == exact_tier(qs.subrange(0, k as int), crates@),
            decreases queries@.len() - k,
        {
            assert(qs.subrange(0, k + 1).drop_last() =~= qs.subrange(0, k as int));
            assert(qs.subrange(0, k + 1).last() == queries@[k as int]@);
            if let Some(i) = find_crate(crates, &queries[k]) {
                if !contains_name(&name_exact, &queries[k]) {
                    name_exact.push(crates[i].duplicate());
                }
            }
            k += 1;
        }
        assert(qs.subrange(0, queries@.len() as int) =~= qs);
        let ghost ex = name_exact@;
        let mut name_contains: Vec<Crate> = Vec::new();
        let mut desc_contains: Vec<Crate> = Vec::new();
        let mut i: usize = 0;
        while i < crates.len()
            invariant
                i <= crates@.len(),
                name_exact@ == ex,
                qs == views(queries@),
                ci == matcher.case_insensitive(),
                matcher.queries() == qs,
                name_contains@ == name_tier(qs, ci, crates@.subrange(0, i as int), ex),
                desc_contains@ == desc_tier(qs, ci, crates@.subrange(0, i as int), ex),
            decreases crates@.len() - i,
        {
            proof {
                reveal(Seq::filter);
            }
            let c = &crates[i];
            assert(crates@.subrange(0, i + 1).drop_last() =~= crates@.subrange(0, i as int));
            assert(crates@.subrange(0, i + 1).last() == crates@[i as int]);
            if !contains_name(&name_exact, &c.name) {
                if set_is_match(matcher, c.name.as_str()) {
                    name_contains.push(c.duplicate());
                } else if let Some(d) = &c.description {
                    if set_is_match(matcher, d.as_str()) {
                        desc_contains.push(c.duplicate());
                    }
                }
            }
            i += 1;
        }
        assert(crates@.subrange(0, crates@.len() as int) =~= crates@);
        Search { name_exact, name_contains, desc_contains, re }
    }

    /// Searches `crates` (the index, in order) for `queries`. Returns `None`
    /// where a query is no valid regular expression.
    pub fn new(queries: &Vec<String>, case_insensitive: bool, crates: &Vec<Crate>) -> (r: Option<Search>)
        ensures
            r is Some <==> queries_compile(views(queries@), case_insensitive),
            r matches Some(s) ==> {
                &&& s.name_exact@ == exact_tier(views(queries@), crates@)
                &&& s.name_contains@ == name_tier(views(queries@), case_insensitive, crates@, s.name_exact@)
                &&& s.desc_contains@ == desc_tier(views(queries@), case_insensitive, crates@, s.name_exact@)
                &&& s.patterns().len() == queries@.len()
                &&& forall|i: int| 0 <= i < queries@.len() ==> #[trigger] s.patterns()[i] == (queries@[i]@, case_insensitive)
            },
    {
        let matcher = match build_match_set(queries, case_insensitive) {
            Some(m) => m,
            None => return None,
        };
        let mut re: Vec<Pattern> = Vec::new();
        let mut k: usize = 0;
        while k < queries.len()
            invariant
                k <= queries@.len(),
                re@.len() == k,
                forall|j: int| 0 <= j < k ==> #[trigger] re@[j]@ == (queries@[j]@, case_insensitive),
                forall|j: int| 0 <= j < k ==> regex_compiles(#[trigger] views(queries@)[j], case_insensitive),
                regex_set_compiles(views(queries@), case_insensitive),
            decreases queries@.len() - k,
        {
            match build_pattern(&queries[k], case_insensitive) {
                Some(p) => re.push(p),
                None => {
                    assert(!regex_compiles(views(queries@)[k as int], case_insensitive));
                    return None;
                },
            }
            k += 1;
        }
        let s = Search::from_matcher(queries, crates, &matcher, re);
        Some(s)
    }
}

} // verus!
