//! The diff page: a timeline from the uncommitted changes back through the
//! first-parent history, one diff at a time.

use vstd::prelude::*;

use crate::context::{param_or_empty_spec, PageContext};
use crate::framework::Update;
use crate::git::{DiffLineRow, DiffTarget, FileDiff, RevInfo};
use crate::pages::{cat, starts_with, starts_with_exec};
use crate::text::{decimal, decimal_string, opt_str_view, opt_string_view};

verus! {

/// How many commits the timeline reaches back.
pub const HISTORY_LIMIT: usize = 100;

pub struct DiffPage;

/// Which repository and revision the page shows (`None`: the working tree).
#[derive(Debug, Clone)]
pub struct Model {
    pub repo: String,
    pub rev: Option<String>,
}

impl DiffPage {
    /// The model from the `repo` parameter and the `rev` query value (an
    /// empty one counts as absent).
    pub fn init(ctx: &PageContext) -> (res: Model)
        ensures
            res.repo@ == param_or_empty_spec(ctx@, "repo"@),
            opt_string_view(res.rev) == (if ctx@.query.contains_key("rev"@) && ctx@.query["rev"@].len() > 0 {
                Some(ctx@.query["rev"@])
            } else {
                None
            }),
    {
        let rev = match ctx.query("rev") {
            Some(s) => {
                if s.unicode_len() > 0 {
                    Some(s.to_owned())
                } else {
                    None
                }
            },
            None => None,
        };
        Model { repo: ctx.param_or_empty("repo").to_owned(), rev }
    }

    /// Handling an event renders the page again with the same model (the
    /// page defines no events).
    pub fn update(model: Model) -> (res: Update<Model>)
        ensures
            res == Update::Render(model),
    {
        Update::Render(model)
    }
}

/// The page URL for a revision (`None`: the working tree).
pub open spec fn diff_url_spec(repo: Seq<char>, rev: Option<Seq<char>>) -> Seq<char> {
    match rev {
        None => "/repo/"@ + repo + "/diff"@,
        Some(oid) => "/repo/"@ + repo + "/diff?rev="@ + oid,
    }
}

/// The page URL for a revision (`None`: the working tree).
pub fn diff_url(repo: &str, rev: Option<&str>) -> (res: String)
    ensures
        res@ == diff_url_spec(repo@, opt_str_view(rev)),
{
    let mut res = cat("/repo/", repo);
    match rev {
        None => {
            res.append("/diff");
        },
        Some(oid) => {
            res.append("/diff?rev=");
            res.append(oid);
        },
    }
    res
}

/// What to diff for a revision.
pub fn diff_target(rev: &Option<String>) -> (res: DiffTarget)
    ensures
        match res {
            DiffTarget::WorkingTree => rev is None,
            DiffTarget::Commit(oid) => rev is Some && oid@ == rev.unwrap()@,
        },
{
    match rev {
        None => DiffTarget::WorkingTree,
        Some(oid) => DiffTarget::Commit(oid.clone()),
    }
}

/// The first of the first `n` commits whose id starts with `oid`.
pub open spec fn first_prefixed(history: Seq<RevInfo>, oid: Seq<char>, n: int) -> Option<int>
    decreases n,
{
    if n <= 0 {
        None
    } else {
        match first_prefixed(history, oid, n - 1) {
            Some(k) => Some(k),
            None => if starts_with(history[n - 1].oid@, oid) {
                Some(n - 1)
            } else {
                None
            },
        }
    }
}

/// The position on the timeline (0: the working tree, `k`: the `k`-th commit
/// of the history) of a revision; `None` for a commit outside the history.
pub open spec fn timeline_index(history: Seq<RevInfo>, rev: Option<Seq<char>>) -> Option<int> {
    match rev {
        None => Some(0),
        Some(oid) => match first_prefixed(history, oid, history.len() as int) {
            Some(k) => Some(k + 1),
            None => None,
        },
    }
}

/// The revision at a timeline position (`None` for the working tree or a
/// position off the timeline).
pub open spec fn rev_at(history: Seq<RevInfo>, idx: int) -> Option<Seq<char>> {
    if 1 <= idx <= history.len() {
        Some(history[idx - 1].oid@)
    } else {
        None
    }
}

/// The navigation header of the diff page.
#[derive(Debug, Clone)]
pub struct DiffNav {
    /// The link one step towards the working tree, if any.
    pub newer_url: Option<String>,
    /// The link one step back in history, if any.
    pub older_url: Option<String>,
    pub title: String,
    pub subtitle: String,
}

/// The header for revision `rev` of `repo` with the given history: links to
/// the neighbours on the timeline, and a title and subtitle describing the
/// shown state.
pub open spec fn diff_nav_ok(nav: DiffNav, repo: Seq<char>, rev: Option<Seq<char>>, history: Seq<RevInfo>) -> bool {
    let idx = timeline_index(history, rev);
    &&& opt_string_view(nav.newer_url) == (match idx {
        Some(i) => if i > 0 {
            Some(diff_url_spec(repo, rev_at(history, i - 1)))
        } else {
            None
        },
        None => None,
    })
    &&& opt_string_view(nav.older_url) == (match idx {
        Some(i) => if i + 1 < history.len() + 1 {
            Some(diff_url_spec(repo, rev_at(history, i + 1)))
        } else {
            None
        },
        None => None,
    })
    &&& (nav.title@, nav.subtitle@) == (match idx {
        Some(i) => if i == 0 {
            ("Working tree"@, "Uncommitted changes"@)
        } else {
            (
                history[i - 1].short@ + "  "@ + history[i - 1].summary@,
                history[i - 1].author@ + " \u{b7} "@ + history[i - 1].when@,
            )
        },
        None => (
            match rev {
                Some(r) => r,
                None => seq![],
            },
            "commit outside recent history"@,
        ),
    })
}

/// The position of the first commit whose id starts with `oid`.
fn find_prefixed(history: &Vec<RevInfo>, oid: &str) -> (res: Option<usize>)
    ensures
        match res {
            Some(k) => k < history@.len() && first_prefixed(history@, oid@, history@.len() as int) == Some(k as int),
            None => first_prefixed(history@, oid@, history@.len() as int) is None,
        },
{
    let mut k: usize = 0;
    while k < history.len()
        invariant
            k <= history@.len(),
            first_prefixed(history@, oid@, k as int) is None,
        decreases history@.len() - k,
    {
        if starts_with_exec(history[k].oid.as_str(), oid) {
            proof {
                lemma_first_prefixed_stable(history@, oid@, k + 1, history@.len() as int);
            }
            return Some(k);
        }
        k = k + 1;
    }
    None
}

proof fn lemma_first_prefixed_stable(h: Seq<RevInfo>, oid: Seq<char>, n: int, m: int)
    requires
        0 <= n <= m,
        first_prefixed(h, oid, n) is Some,
    ensures
        first_prefixed(h, oid, m) == first_prefixed(h, oid, n),
    decreases m - n,
{
    if m > n {
        lemma_first_prefixed_stable(h, oid, n, m - 1);
    }
}

/// The diff URL of the revision at timeline position `idx`.
fn url_at(repo: &str, history: &Vec<RevInfo>, idx: usize) -> (res: String)
    ensures
        res@ == diff_url_spec(repo@, rev_at(history@, idx as int)),
{
    if idx >= 1 && idx <= history.len() {
        diff_url(repo, Some(history[idx - 1].oid.as_str()))
    } else {
        diff_url(repo, None)
    }
}

/// Computes the header of the diff page for revision `rev` of `repo`.
pub fn diff_nav(repo: &str, rev: Option<&str>, history: &Vec<RevInfo>) -> (res: DiffNav)
    ensures
        diff_nav_ok(res, repo@, opt_str_view(rev), history@),
{
    let timeline_len = history.len();
    let cur_index: Option<usize> = match rev {
        None => Some(0),
        Some(oid) => match find_prefixed(history, oid) {
            Some(k) => Some(k + 1),
            None => None,
        },
    };
    let (newer_url, older_url) = match cur_index {
        Some(i) => (
            if i > 0 { Some(url_at(repo, history, i - 1)) } else { None },
            if i < timeline_len { Some(url_at(repo, history, i + 1)) } else { None },
        ),
        None => (None, None),
    };
    let (title, subtitle) = match cur_index {
        Some(i) => {
            if i == 0 {
                ("Working tree".to_owned(), "Uncommitted changes".to_owned())
            } else {
                let r = &history[i - 1];
                let mut t = r.short.clone();
                t.append("  ");
                t.append(r.summary.as_str());
                let mut s = r.author.clone();
                s.append(" \u{b7} ");
                s.append(r.when.as_str());
                (t, s)
            }
        },
        None => (
            match rev {
                Some(r) => r.to_owned(),
                None => String::new(),
            },
            "commit outside recent history".to_owned(),
        ),
    };
    DiffNav { newer_url, older_url, title, subtitle }
}

/// The commit ids of the history are pairwise different and of one length
/// (as full Git object ids are).
pub open spec fn full_distinct_ids(history: Seq<RevInfo>) -> bool {
    forall|a: int, b: int|
        0 <= a < b < history.len() ==> #[trigger] history[a].oid@ != #[trigger] history[b].oid@
            && history[a].oid@.len() == history[b].oid@.len()
}

proof fn lemma_first_prefixed_at(history: Seq<RevInfo>, k: int, n: int)
    requires
        0 <= k < history.len(),
        0 <= n <= history.len(),
        full_distinct_ids(history),
    ensures
        first_prefixed(history, history[k].oid@, n) == (if n <= k {
            None
        } else {
            Some(k)
        }),
    decreases n,
{
    if n > 0 {
        lemma_first_prefixed_at(history, k, n - 1);
        let s = history[n - 1].oid@;
        let t = history[k].oid@;
        if n - 1 < k {
            if starts_with(s, t) {
                assert(s.take(t.len() as int) =~= s);
            }
        } else if n - 1 == k {
            assert(t.take(t.len() as int) =~= t);
        }
    }
}

proof fn lemma_first_prefixed_range(history: Seq<RevInfo>, oid: Seq<char>, n: int)
    ensures
        first_prefixed(history, oid, n) matches Some(k) ==> 0 <= k < n,
    decreases n,
{
    if n > 0 {
        lemma_first_prefixed_range(history, oid, n - 1);
    }
}

/// Each position of the timeline is where its own revision leads: the
/// working tree at 0, the `j`-th commit of the history at `j`.
pub proof fn lemma_timeline_positions(history: Seq<RevInfo>, j: int)
    requires
        0 <= j <= history.len(),
        full_distinct_ids(history),
    ensures
        timeline_index(history, rev_at(history, j)) == Some(j),
{
    if j >= 1 {
        lemma_first_prefixed_at(history, j - 1, history.len() as int);
    }
}

/// Following the "older" link and then the "newer" link of the page reached
/// comes back to the same position of the timeline, and the other way round.
pub proof fn lemma_nav_round_trip(
    repo: Seq<char>,
    rev: Option<Seq<char>>,
    history: Seq<RevInfo>,
    i: int,
    here: DiffNav,
    older: DiffNav,
    newer: DiffNav,
)
    requires
        full_distinct_ids(history),
        timeline_index(history, rev) == Some(i),
        diff_nav_ok(here, repo, rev, history),
        i < history.len() ==> diff_nav_ok(older, repo, rev_at(history, i + 1), history),
        i > 0 ==> diff_nav_ok(newer, repo, rev_at(history, i - 1), history),
    ensures
        i < history.len() ==> {
            &&& opt_string_view(here.older_url) == Some(diff_url_spec(repo, rev_at(history, i + 1)))
            &&& opt_string_view(older.newer_url) == Some(diff_url_spec(repo, rev_at(history, i)))
        },
        i > 0 ==> {
            &&& opt_string_view(here.newer_url) == Some(diff_url_spec(repo, rev_at(history, i - 1)))
            &&& opt_string_view(newer.older_url) == Some(diff_url_spec(repo, rev_at(history, i)))
        },
        timeline_index(history, rev_at(history, i)) == Some(i),
{
    if let Some(oid) = rev {
        lemma_first_prefixed_range(history, oid, history.len() as int);
    }
    lemma_timeline_positions(history, i);
    if i < history.len() {
        lemma_timeline_positions(history, i + 1);
    }
    if i > 0 {
        lemma_timeline_positions(history, i - 1);
    }
}

/// The label of a changed file: `old → new` for a rename, else its path.
pub open spec fn file_label_spec(old: Option<Seq<char>>, new: Option<Seq<char>>) -> Seq<char> {
    match (old, new) {
        (Some(o), Some(n)) => if o != n {
            o + " \u{2192} "@ + n
        } else {
            n
        },
        (_, Some(n)) => n,
        (Some(o), None) => o,
        (None, None) => "?"@,
    }
}

/// A file whose path did not change is labelled with that path alone; a
/// renamed file's label begins with the old path and ends with the new one,
/// and is longer than both together.
pub proof fn lemma_file_label_paths(old: Seq<char>, new: Seq<char>)
    ensures
        old == new ==> file_label_spec(Some(old), Some(new)) == new,
        old != new ==> {
            let l = file_label_spec(Some(old), Some(new));
            &&& l.take(old.len() as int) == old
            &&& l.skip(l.len() - new.len()) == new
            &&& l.len() > old.len() + new.len()
        },
{
    if old != new {
        reveal_strlit(" \u{2192} ");
        let l = file_label_spec(Some(old), Some(new));
        assert(l.take(old.len() as int) =~= old);
        assert(l.skip(l.len() - new.len()) =~= new);
    }
}

/// The label of a changed file.
pub fn file_label(f: &FileDiff) -> (res: String)
    ensures
        res@ == file_label_spec(opt_string_view(f.old_path), opt_string_view(f.new_path)),
{
    match (&f.old_path, &f.new_path) {
        (Some(o), Some(n)) => {
            if !o.eq(n) {
                let mut res = o.clone();
                res.append(" \u{2192} ");
                res.append(n.as_str());
                res
            } else {
                n.clone()
            }
        },
        (_, Some(n)) => n.clone(),
        (Some(o), None) => o.clone(),
        (None, None) => "?".to_owned(),
    }
}

/// The CSS class of a diff line, by its origin.
pub fn line_class(origin: char) -> (res: &'static str)
    ensures
        res@ == (if origin == '+' {
            "dl add"@
        } else if origin == '-' {
            "dl del"@
        } else {
            "dl ctx"@
        }),
{
    if origin == '+' {
        "dl add"
    } else if origin == '-' {
        "dl del"
    } else {
        "dl ctx"
    }
}

/// The sign shown before a diff line, by its origin.
pub fn sign(origin: char) -> (res: &'static str)
    ensures
        res@ == (if origin == '+' {
            "+"@
        } else if origin == '-' {
            "\u{2212}"@
        } else {
            " "@
        }),
{
    if origin == '+' {
        "+"
    } else if origin == '-' {
        "\u{2212}"
    } else {
        " "
    }
}

/// The line number shown for a diff line: the new one, else the old one,
/// else nothing.
pub fn lineno(line: &DiffLineRow) -> (res: String)
    ensures
        res@ == (match line.new_lineno {
            Some(n) => decimal(n as nat),
            None => match line.old_lineno {
                Some(n) => decimal(n as nat),
                None => seq![],
            },
        }),
{
    match line.new_lineno {
        Some(n) => decimal_string(n as u64),
        None => match line.old_lineno {
            Some(n) => decimal_string(n as u64),
            None => String::new(),
        },
    }
}

} // verus!
