//! The fuzzy file search page.

use vstd::prelude::*;

use crate::context::{param_or_empty_spec, PageContext};
use crate::framework::Update;
use crate::git::{is_unicode_whitespace, trim_end, trim_end_string};
use crate::text::{chars_of, string_from_range, strings_view};

use crate::pages::{chosen_ref, chosen_ref_of};
use crate::text::opt_string_view;

verus! {

/// Cap on rendered results, to keep the page light on large repositories.
pub const MAX_RESULTS: usize = 200;

pub struct SearchPage;

/// The repository searched and the query as typed.
#[derive(Debug, Clone)]
pub struct Model {
    pub repo: String,
    pub query: String,
    /// The branch or tag searched (`None`: `HEAD`).
    pub git_ref: Option<String>,
}

impl SearchPage {
    /// The model from the `repo` parameter and the `q` query value (empty
    /// when absent).
    pub fn init(ctx: &PageContext) -> (res: Model)
        ensures
            res.repo@ == param_or_empty_spec(ctx@, "repo"@),
            res.query@ == (if ctx@.query.contains_key("q"@) {
                ctx@.query["q"@]
            } else {
                Seq::<char>::empty()
            }),
            opt_string_view(res.git_ref) == chosen_ref(ctx@),
    {
        let q = match ctx.query("q") {
            Some(q) => q.to_owned(),
            None => String::new(),
        };
        Model { repo: ctx.param_or_empty("repo").to_owned(), query: q, git_ref: chosen_ref_of(ctx) }
    }

    /// Handling an event renders the page again with the same model (the
    /// page defines no events).
    pub fn update(model: Model) -> (res: Update<Model>)
        ensures
            res == Update::Render(model),
    {
        Update::Render(model)
    }
}

/// The number of leading whitespace characters of `s`, from position `i`.
pub open spec fn leading_ws_end(s: Seq<char>, i: int) -> int
    decreases s.len() - i,
{
    if i >= s.len() {
        s.len() as int
    } else if is_unicode_whitespace(s[i]) {
        leading_ws_end(s, i + 1)
    } else {
        i
    }
}

/// `s` without leading and trailing whitespace (`str::trim`).
pub open spec fn trim(s: Seq<char>) -> Seq<char> {
    trim_end(s.skip(leading_ws_end(s, 0)))
}

proof fn lemma_leading_ws_end(s: Seq<char>, i: int)
    requires
        0 <= i <= s.len(),
    ensures
        i <= leading_ws_end(s, i) <= s.len(),
    decreases s.len() - i,
{
    if i < s.len() {
        lemma_leading_ws_end(s, i + 1);
    }
}

/// The query without surrounding whitespace.
pub fn trimmed_query(q: &str) -> (res: String)
    ensures
        res@ == trim(q@),
{
    let cs = chars_of(q);
    let mut i: usize = 0;
    proof {
        lemma_leading_ws_end(cs@, 0);
    }
    while i < cs.len() && crate::git::is_whitespace_char(cs[i])
        invariant
            i <= cs@.len(),
            cs@ == q@,
            leading_ws_end(cs@, 0) == leading_ws_end(cs@, i as int),
        decreases cs@.len() - i,
    {
        i = i + 1;
    }
    let n = cs.len();
    let rest = string_from_range(&cs, i, n);
    assert(cs@.subrange(i as int, n as int) =~= cs@.skip(i as int));
    trim_end_string(rest.as_str())
}

/// The paths that `nucleo` matches against the query, each with its score,
/// best first (with `Matcher` configured for paths, smart case and smart
/// normalization).
pub uninterp spec fn fuzzy_matches(query: Seq<char>, paths: Seq<Seq<char>>) -> Seq<(Seq<char>, u32)>;

pub open spec fn scored_view(v: Seq<(String, u32)>) -> Seq<(Seq<char>, u32)> {
    v.map_values(|p: (String, u32)| (p.0@, p.1))
}

/// Fuzzy-matches `paths` against `query` with `nucleo_matcher`
/// (`Pattern::parse` then `match_list`). As its source shows, only given
/// paths come back, ordered by non-increasing score.
#[verifier::external_body]
fn fuzzy_match(query: &str, paths: &Vec<String>) -> (res: Vec<(String, u32)>)
    ensures
        scored_view(res@) == fuzzy_matches(query@, strings_view(paths@)),
        forall|i: int| 0 <= i < res@.len() ==> strings_view(paths@).contains(#[trigger] res@[i].0@),
        forall|i: int, j: int| 0 <= i < j < res@.len() ==> #[trigger] res@[i].1 >= #[trigger] res@[j].1,
{
    let mut matcher = nucleo_matcher::Matcher::new(nucleo_matcher::Config::DEFAULT.match_paths());
    nucleo_matcher::pattern::Pattern::parse(
        query,
        nucleo_matcher::pattern::CaseMatching::Smart,
        nucleo_matcher::pattern::Normalization::Smart,
    )
        .match_list(paths.iter().map(String::as_str), &mut matcher)
        .into_iter()
        .map(|(p, score)| (p.to_owned(), score))
        .collect()
}

/// The outcome of a search: how many paths matched, and the best ones shown.
#[derive(Debug, Clone)]
pub struct SearchResults {
    pub total: usize,
    pub shown: Vec<String>,
}

/// The first `min(len, MAX_RESULTS)` paths of a scored list, in order.
pub open spec fn shown_paths(matches: Seq<(Seq<char>, u32)>) -> Seq<Seq<char>> {
    matches.take(
        if matches.len() < MAX_RESULTS { matches.len() as int } else { MAX_RESULTS as int },
    ).map_values(|p: (Seq<char>, u32)| p.0)
}

/// The results for a list of matches, best first: every match counts, the
/// first [`MAX_RESULTS`] are shown.
pub fn rank_matches(matches: &Vec<(String, u32)>) -> (res: SearchResults)
    ensures
        res.total == matches@.len(),
        strings_view(res.shown@) == shown_paths(scored_view(matches@)),
{
    let ghost mv = scored_view(matches@);
    let total = matches.len();
    let n = if total < MAX_RESULTS { total } else { MAX_RESULTS };
    let mut shown: Vec<String> = Vec::new();
    let mut i: usize = 0;
    while i < n
        invariant
            i <= n <= matches@.len(),
            n == (if matches@.len() < MAX_RESULTS { matches@.len() } else { MAX_RESULTS as nat }),
            mv == scored_view(matches@),
            strings_view(shown@) == mv.take(i as int).map_values(|p: (Seq<char>, u32)| p.0),
        decreases n - i,
    {
        let ghost before = shown@;
        let p = matches[i].0.clone();
        assert(p@ == mv[i as int].0);
        shown.push(p);
        assert(strings_view(shown@) =~= strings_view(before).push(mv[i as int].0));
        i = i + 1;
        assert(strings_view(shown@) =~= mv.take(i as int).map_values(|p: (Seq<char>, u32)| p.0));
    }
    SearchResults { total, shown }
}

/// Searches `all` for `query`: every match counts, the first
/// [`MAX_RESULTS`] are shown, best first.
pub fn search_results(query: &str, all: &Vec<String>) -> (res: SearchResults)
    ensures
        res.total == fuzzy_matches(query@, strings_view(all@)).len(),
        strings_view(res.shown@) == shown_paths(fuzzy_matches(query@, strings_view(all@))),
{
    let matches = fuzzy_match(query, all);
    rank_matches(&matches)
}

/// The summary line above the results.
#[derive(Debug, Clone, Copy, PartialEq, Eq)]
pub enum SearchSummary {
    /// No file matches.
    NoMatches,
    /// Only the first [`MAX_RESULTS`] of `total` matches are shown.
    Truncated { total: usize },
    /// All `total` matches are shown.
    All { total: usize },
}

/// The summary for `total` matches.
pub fn search_summary(total: usize) -> (res: SearchSummary)
    ensures
        res == (if total == 0 {
            SearchSummary::NoMatches
        } else if total > MAX_RESULTS {
            SearchSummary::Truncated { total }
        } else {
            SearchSummary::All { total }
        }),
{
    if total == 0 {
        SearchSummary::NoMatches
    } else if total > MAX_RESULTS {
        SearchSummary::Truncated { total }
    } else {
        SearchSummary::All { total }
    }
}

} // verus!
