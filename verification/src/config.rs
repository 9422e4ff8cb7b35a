//! Configuration: which repositories to serve and how to bind.
//!
//! Sources, merged in this order: a TOML config file, then positional command
//! line paths. Repositories can be listed explicitly or discovered by scanning
//! `scan_roots`. The registry maps unique, URL-safe names to canonical paths
//! and is rebuilt from the captured sources whenever a rescan is wanted.

use vstd::prelude::*;

use crate::order::{
    is_permutation, is_stable_sorted, keys_view, lemma_seq_lt_total, lemma_seq_lt_transitive, seq_lt,
    seq_lt_exec, stable_sort_order, SortKey, SortKeyView,
};
use crate::paths::{file_name, file_name_of, join, parent_name, parent_name_of, path_join};
use crate::text::{chars_of, clone_strings, nested_strings_view, opt_str_view, strings_view, decimal, decimal_string, lemma_decimal_digits, lemma_decimal_injective};

verus! {

/// A served repository.
#[derive(Debug, Clone)]
pub struct RepoInfo {
    pub name: String,
    pub path: String,
}

/// Server bind settings resolved from config + CLI.
#[derive(Debug)]
pub struct Settings {
    pub bind: String,
    pub port: u16,
}

/// Options gathered from the command line.
#[derive(Debug, Default)]
pub struct CliOptions {
    pub config_path: Option<String>,
    pub paths: Vec<String>,
    pub bind: Option<String>,
    pub port: Option<u16>,
}

/// One `[[repos]]` entry of the config file.
#[derive(Debug, Clone)]
pub struct RepoEntry {
    pub path: String,
    pub name: Option<String>,
}

/// The config file's contents.
#[derive(Debug, Default)]
pub struct FileConfig {
    pub bind: Option<String>,
    pub port: Option<u16>,
    pub repos: Vec<RepoEntry>,
    pub scan_roots: Vec<String>,
}

/// The inputs needed to (re)build the registry, captured once at startup.
#[derive(Debug)]
pub struct Sources {
    pub repos: Vec<RepoEntry>,
    pub scan_roots: Vec<String>,
    pub cli_paths: Vec<String>,
}

pub open spec fn opt_view(o: Option<String>) -> Option<Seq<char>> {
    crate::text::opt_string_view(o)
}

/// The bind address: the command line's, else the file's, else `0.0.0.0`.
pub open spec fn resolved_bind(cli: Option<Seq<char>>, file: Option<Seq<char>>) -> Seq<char> {
    match cli {
        Some(b) => b,
        None => match file {
            Some(b) => b,
            None => seq!['0', '.', '0', '.', '0', '.', '0'],
        },
    }
}

/// The port: the command line's, else the file's, else 3000.
pub open spec fn resolved_port(cli: Option<u16>, file: Option<u16>) -> u16 {
    match cli {
        Some(p) => p,
        None => match file {
            Some(p) => p,
            None => 3000,
        },
    }
}

/// Resolves the bind settings and captures the registry sources from the
/// command line and the config file.
pub fn load(cli: CliOptions, file: FileConfig) -> (res: (Settings, Sources))
    ensures
        res.0.bind@ == resolved_bind(opt_view(cli.bind), opt_view(file.bind)),
        res.0.port == resolved_port(cli.port, file.port),
        res.1.repos@ == file.repos@,
        res.1.scan_roots@ == file.scan_roots@,
        res.1.cli_paths@ == cli.paths@,
{
    let bind = match cli.bind {
        Some(b) => b,
        None => match file.bind {
            Some(b) => b,
            None => {
                let mut s = String::new();
                crate::text::push_char(&mut s, '0');
                crate::text::push_char(&mut s, '.');
                crate::text::push_char(&mut s, '0');
                crate::text::push_char(&mut s, '.');
                crate::text::push_char(&mut s, '0');
                crate::text::push_char(&mut s, '.');
                crate::text::push_char(&mut s, '0');
                s
            },
        },
    };
    let port = match cli.port {
        Some(p) => p,
        None => match file.port {
            Some(p) => p,
            None => 3000,
        },
    };
    (Settings { bind, port }, Sources {
        repos: file.repos,
        scan_roots: file.scan_roots,
        cli_paths: cli.paths,
    })
}

/// `~` and a leading `~/` expanded against the home directory `home`.
pub open spec fn expand_tilde_spec(s: Seq<char>, home: Option<Seq<char>>) -> Seq<char> {
    if s == seq!['~'] {
        match home {
            Some(h) => h,
            None => s,
        }
    } else if s.len() >= 2 && s[0] == '~' && s[1] == '/' && home is Some {
        path_join(home.unwrap(), s.skip(2))
    } else {
        s
    }
}

/// Expands `~` and a leading `~/` against the home directory, when known.
pub fn expand_tilde(s: &str, home: Option<&str>) -> (res: String)
    ensures
        res@ == expand_tilde_spec(
            s@,
            match home {
                Some(h) => Some(h@),
                None => None,
            },
        ),
{
    let cs = chars_of(s);
    if cs.len() == 1 && cs[0] == '~' {
        assert(cs@ =~= seq!['~']);
        return match home {
            Some(h) => h.to_owned(),
            None => s.to_owned(),
        };
    }
    assert(cs@ != seq!['~'] || cs@.len() == 1);
    if cs.len() >= 2 && cs[0] == '~' && cs[1] == '/' {
        if let Some(h) = home {
            let rest = crate::text::string_from_range(&cs, 2, cs.len());
            assert(cs@.subrange(2, cs@.len() as int) =~= cs@.skip(2));
            return join(h, rest.as_str());
        }
    }
    s.to_owned()
}

/// The default config file: `$XDG_CONFIG_HOME` (else `$HOME/.config`),
/// then `pocket-repo/config.toml`.
pub open spec fn default_config_path_spec(xdg: Option<Seq<char>>, home: Option<Seq<char>>) -> Option<
    Seq<char>,
> {
    let base = match xdg {
        Some(x) => Some(x),
        None => match home {
            Some(h) => Some(path_join(h, seq!['.', 'c', 'o', 'n', 'f', 'i', 'g'])),
            None => None,
        },
    };
    match base {
        Some(b) => Some(
            path_join(
                path_join(b, seq!['p', 'o', 'c', 'k', 'e', 't', '-', 'r', 'e', 'p', 'o']),
                seq!['c', 'o', 'n', 'f', 'i', 'g', '.', 't', 'o', 'm', 'l'],
            ),
        ),
        None => None,
    }
}

/// The path of the default config file, from the values of the
/// `XDG_CONFIG_HOME` and `HOME` environment variables.
pub fn default_config_path(xdg: Option<&str>, home: Option<&str>) -> (res: Option<String>)
    ensures
        opt_view(res) == default_config_path_spec(
            match xdg {
                Some(x) => Some(x@),
                None => None,
            },
            match home {
                Some(h) => Some(h@),
                None => None,
            },
        ),
{
    let base = match xdg {
        Some(x) => x.to_owned(),
        None => match home {
            Some(h) => {
                let config = ".config";
                proof {
                    reveal_strlit(".config");
                }
                join(h, config)
            },
            None => {
                return None;
            },
        },
    };
    let dir = "pocket-repo";
    let file = "config.toml";
    proof {
        reveal_strlit("pocket-repo");
        reveal_strlit("config.toml");
    }
    let p = join(base.as_str(), dir);
    Some(join(p.as_str(), file))
}

/// The display name derived from a canonical path: its last component, or
/// `repo` when it has none.
pub open spec fn basename_spec(path: Seq<char>) -> Seq<char> {
    match file_name_of(path) {
        Some(f) => f,
        None => seq!['r', 'e', 'p', 'o'],
    }
}

/// The display name derived from a canonical path.
pub fn basename(path: &str) -> (res: String)
    ensures
        res@ == basename_spec(path@),
{
    match file_name(path) {
        Some(f) => f,
        None => {
            let r = "repo";
            proof {
                reveal_strlit("repo");
            }
            r.to_owned()
        },
    }
}


// ---------------------------------------------------------------------------
// Scanning for repositories
// ---------------------------------------------------------------------------

/// What the scan does with a path under a scan root.
#[derive(Debug, Clone, Copy, PartialEq, Eq)]
pub enum ScanAction {
    /// Not a directory, or the depth bound is reached: nothing to do.
    Skip,
    /// A repository (it has a `.git` entry): record it, do not descend.
    Found,
    /// A plain directory: look at its entries, one level deeper.
    Descend,
}

/// The scan's decision for a path with `depth` levels still allowed, given
/// whether it is a directory and whether it has a `.git` entry.
pub fn scan_step(depth: usize, is_dir: bool, has_git: bool) -> (res: ScanAction)
    ensures
        res == (if depth == 0 || !is_dir {
            ScanAction::Skip
        } else if has_git {
            ScanAction::Found
        } else {
            ScanAction::Descend
        }),
{
    if depth == 0 || !is_dir {
        ScanAction::Skip
    } else if has_git {
        ScanAction::Found
    } else {
        ScanAction::Descend
    }
}

/// Whether the scan enters a subdirectory with this name: hidden
/// directories (names starting with `.`) are skipped.
pub fn descend_into(name: &str) -> (res: bool)
    ensures
        res == !(name@.len() > 0 && name@[0] == '.'),
{
    let cs = chars_of(name);
    !(cs.len() > 0 && cs[0] == '.')
}

// ---------------------------------------------------------------------------
// Unique names
// ---------------------------------------------------------------------------

/// `base-n`.
pub open spec fn suffixed(base: Seq<char>, n: nat) -> Seq<char> {
    base + seq!['-'] + decimal(n)
}

/// `n` is the smallest number from 2 on such that `base-n` is free.
pub open spec fn first_free_suffix(names: Set<Seq<char>>, base: Seq<char>, n: nat) -> bool {
    &&& n >= 2
    &&& !names.contains(suffixed(base, n))
    &&& forall|j: nat| 2 <= j < n ==> names.contains(#[trigger] suffixed(base, j))
}

/// `parent-base`.
pub open spec fn parent_prefixed(parent: Seq<char>, base: Seq<char>) -> Seq<char> {
    parent + seq!['-'] + base
}

/// A character that cannot stand as itself in a URL path segment: a space,
/// `?`, `#`, `%` or `/`.
pub open spec fn is_url_unsafe(c: char) -> bool {
    c == ' ' || c == '?' || c == '#' || c == '%' || c == '/'
}

/// `s` with each URL-unsafe character replaced by `-`.
pub open spec fn url_safe(s: Seq<char>) -> Seq<char> {
    s.map_values(|c: char| if is_url_unsafe(c) { '-' } else { c })
}

/// `s` has no URL-unsafe character.
pub open spec fn is_url_safe_name(s: Seq<char>) -> bool {
    forall|i: int| 0 <= i < s.len() ==> !is_url_unsafe(#[trigger] s[i])
}

/// The URL-safe name of the directory containing `path`, if any.
pub open spec fn safe_parent(path: Seq<char>) -> Option<Seq<char>> {
    match parent_name_of(path) {
        Some(p) => Some(url_safe(p)),
        None => None,
    }
}

/// The name under which a repository at `path` with preferred name `base` is
/// registered when `names` are taken. With `b` the URL-safe form of `base`:
/// `b` if free; else `parent-b` (with the URL-safe name of the directory
/// containing `path`) if free; else `b-n` for the smallest free `n` from 2 on.
pub open spec fn unique_name_spec(names: Set<Seq<char>>, base: Seq<char>, path: Seq<char>) -> Seq<
    char,
> {
    let b = url_safe(base);
    if !names.contains(b) {
        b
    } else if safe_parent(path) is Some && !names.contains(
        parent_prefixed(safe_parent(path).unwrap(), b),
    ) {
        parent_prefixed(safe_parent(path).unwrap(), b)
    } else {
        suffixed(b, choose|n: nat| first_free_suffix(names, b, n))
    }
}

pub open spec fn entry_names(es: Seq<(Seq<char>, Seq<char>)>) -> Seq<Seq<char>> {
    es.map_values(|e: (Seq<char>, Seq<char>)| e.0)
}

proof fn lemma_suffixed_injective(base: Seq<char>, a: nat, b: nat)
    requires
        a != b,
    ensures
        suffixed(base, a) != suffixed(base, b),
{
    lemma_decimal_injective(a, b);
    let k = base.len() as int + 1;
    if suffixed(base, a) == suffixed(base, b) {
        assert(suffixed(base, a).skip(k) =~= decimal(a));
        assert(suffixed(base, b).skip(k) =~= decimal(b));
    }
}

/// If `base-2 ..= base-i` are all among `names`, there are at least `i - 1`
/// names.
proof fn lemma_suffixes_bound(names: Seq<Seq<char>>, base: Seq<char>, i: nat)
    requires
        i >= 2,
        forall|j: nat| 2 <= j <= i ==> names.to_set().contains(#[trigger] suffixed(base, j)),
    ensures
        i - 1 <= names.len(),
{
    let s = Seq::new((i - 1) as nat, |k: int| suffixed(base, (k + 2) as nat));
    assert forall|a: int, b: int| 0 <= a < s.len() && 0 <= b < s.len() && a != b implies s[a]
        != s[b] by {
        lemma_suffixed_injective(base, (a + 2) as nat, (b + 2) as nat);
    }
    s.unique_seq_to_set();
    assert forall|x: Seq<char>| s.to_set().contains(x) implies names.to_set().contains(x) by {
        let k = choose|k: int| 0 <= k < s.len() && s[k] == x;
        assert(names.to_set().contains(suffixed(base, (k + 2) as nat)));
    }
    names.lemma_cardinality_of_set();
    vstd::seq_lib::seq_to_set_is_finite(names);
    vstd::set_lib::lemma_len_subset(s.to_set(), names.to_set());
}

proof fn lemma_free_suffix_exists(names: Seq<Seq<char>>, base: Seq<char>, i: nat)
    requires
        i >= 2,
        forall|j: nat| 2 <= j < i ==> names.to_set().contains(#[trigger] suffixed(base, j)),
    ensures
        exists|n: nat| first_free_suffix(names.to_set(), base, n),
    decreases names.len() + 2 - i,
{
    if !names.to_set().contains(suffixed(base, i)) {
        assert(first_free_suffix(names.to_set(), base, i));
    } else {
        lemma_suffixes_bound(names, base, i);
        lemma_free_suffix_exists(names, base, i + 1);
    }
}

proof fn lemma_first_free_unique(names: Set<Seq<char>>, base: Seq<char>, a: nat, b: nat)
    requires
        first_free_suffix(names, base, a),
        first_free_suffix(names, base, b),
    ensures
        a == b,
{
    if a < b {
        assert(names.contains(suffixed(base, a)));
    } else if b < a {
        assert(names.contains(suffixed(base, b)));
    }
}

/// The unique name is never one of the taken names, and it is URL-safe.
pub proof fn lemma_unique_name_is_free(names: Seq<Seq<char>>, base: Seq<char>, path: Seq<char>)
    ensures
        !names.to_set().contains(unique_name_spec(names.to_set(), base, path)),
        is_url_safe_name(unique_name_spec(names.to_set(), base, path)),
{
    let b = url_safe(base);
    if names.to_set().contains(b) && !(safe_parent(path) is Some && !names.to_set().contains(
        parent_prefixed(safe_parent(path).unwrap(), b),
    )) {
        lemma_free_suffix_exists(names, b, 2);
    }
    lemma_unique_name_url_safe(names.to_set(), base, path);
}

proof fn lemma_unique_name_url_safe(names: Set<Seq<char>>, base: Seq<char>, path: Seq<char>)
    ensures
        is_url_safe_name(unique_name_spec(names, base, path)),
{
    let b = url_safe(base);
    let r = unique_name_spec(names, base, path);
    if !names.contains(b) {
    } else if safe_parent(path) is Some && !names.contains(
        parent_prefixed(safe_parent(path).unwrap(), b),
    ) {
        let p = safe_parent(path).unwrap();
        assert forall|i: int| 0 <= i < r.len() implies !is_url_unsafe(#[trigger] r[i]) by {
            if i < p.len() {
                assert(r[i] == p[i]);
            } else if i > p.len() {
                assert(r[i] == b[i - p.len() - 1]);
            }
        }
    } else {
        let n = choose|n: nat| first_free_suffix(names, b, n);
        lemma_decimal_digits(n);
        assert forall|i: int| 0 <= i < r.len() implies !is_url_unsafe(#[trigger] r[i]) by {
            if i < b.len() {
                assert(r[i] == b[i]);
            } else if i > b.len() {
                assert(r[i] == decimal(n)[i - b.len() - 1]);
            }
        }
    }
}

/// The URL-safe form of `s` (see [`url_safe`]).
pub fn url_safe_string(s: &str) -> (res: String)
    ensures
        res@ == url_safe(s@),
{
    let cs = chars_of(s);
    let mut res = String::new();
    let mut i: usize = 0;
    while i < cs.len()
        invariant
            i <= cs@.len(),
            cs@ == s@,
            res@ == url_safe(cs@.take(i as int)),
        decreases cs@.len() - i,
    {
        let c = cs[i];
        let d = if c == ' ' || c == '?' || c == '#' || c == '%' || c == '/' {
            '-'
        } else {
            c
        };
        crate::text::push_char(&mut res, d);
        i = i + 1;
        assert(url_safe(cs@.take(i as int)) =~= url_safe(cs@.take(i - 1)).push(d));
    }
    assert(cs@.take(i as int) =~= cs@);
    res
}

/// Whether `name` is the name of one of `entries`.
fn name_taken(entries: &Vec<RepoInfo>, name: &String) -> (res: bool)
    ensures
        res == entry_names(entries_view(entries@)).to_set().contains(name@),
{
    let ghost ns = entry_names(entries_view(entries@));
    let mut k: usize = 0;
    while k < entries.len()
        invariant
            k <= entries@.len(),
            ns == entry_names(entries_view(entries@)),
            forall|t: int| 0 <= t < k ==> #[trigger] ns[t] != name@,
        decreases entries@.len() - k,
    {
        assert(ns[k as int] == entries@[k as int].name@);
        if entries[k].name.eq(name) {
            assert(ns.contains(name@));
            return true;
        }
        k = k + 1;
    }
    false
}

pub open spec fn entries_view(es: Seq<RepoInfo>) -> Seq<(Seq<char>, Seq<char>)> {
    es.map_values(|e: RepoInfo| (e.name@, e.path@))
}

/// `a-b`.
fn dash_joined(a: &String, b: &String) -> (res: String)
    ensures
        res@ == a@ + seq!['-'] + b@,
{
    let mut res = a.clone();
    crate::text::push_char(&mut res, '-');
    res.append(b.as_str());
    res
}

/// A URL-safe name for the repository at `path`, unique among `entries`:
/// with `b` the URL-safe form of `base`, `b` if free, else `parent-b`, else
/// `b-2`, `b-3`, ...
fn unique_name(entries: &Vec<RepoInfo>, base: String, path: &str) -> (res: String)
    requires
        entries@.len() < u64::MAX - 2,
    ensures
        res@ == unique_name_spec(entry_names(entries_view(entries@)).to_set(), base@, path@),
        is_url_safe_name(res@),
{
    let ghost ns = entry_names(entries_view(entries@));
    let ghost orig = base@;
    proof {
        lemma_unique_name_url_safe(ns.to_set(), orig, path@);
    }
    let b = url_safe_string(base.as_str());
    if !name_taken(entries, &b) {
        return b;
    }
    match parent_name(path) {
        Some(parent) => {
            let parent = url_safe_string(parent.as_str());
            let alt = dash_joined(&parent, &b);
            if !name_taken(entries, &alt) {
                return alt;
            }
        },
        None => {},
    }
    let mut i: u64 = 2;
    while true
        invariant
            2 <= i <= ns.len() + 2,
            ns == entry_names(entries_view(entries@)),
            entries@.len() < u64::MAX - 2,
            ns.to_set().contains(b@),
            b@ == url_safe(orig),
            orig == base@,
            is_url_safe_name(unique_name_spec(ns.to_set(), orig, path@)),
            !(safe_parent(path@) is Some && !ns.to_set().contains(
                parent_prefixed(safe_parent(path@).unwrap(), b@),
            )),
            forall|j: nat| 2 <= j < i ==> ns.to_set().contains(#[trigger] suffixed(b@, j)),
        decreases ns.len() + 2 - i,
    {
        let digits = decimal_string(i);
        let alt = dash_joined(&b, &digits);
        if !name_taken(entries, &alt) {
            proof {
                assert(first_free_suffix(ns.to_set(), b@, i as nat));
                let n = choose|n: nat| first_free_suffix(ns.to_set(), b@, n);
                lemma_first_free_unique(ns.to_set(), b@, i as nat, n);
                assert(unique_name_spec(ns.to_set(), orig, path@) == suffixed(b@, i as nat));
                assert(alt@ =~= suffixed(b@, i as nat));
            }
            return alt;
        }
        proof {
            lemma_suffixes_bound(ns, b@, i as nat);
        }
        i = i + 1;
    }
    proof {
        assert(false);
    }
    b
}

// ---------------------------------------------------------------------------
// The registry
// ---------------------------------------------------------------------------

/// A registry candidate after the file system was consulted: its explicit
/// name, its canonical path, and whether that path is a directory that opens
/// as a Git repository.
#[derive(Debug, Clone)]
pub struct CheckedCandidate {
    pub name: Option<String>,
    pub canonical: String,
    pub usable: bool,
}

pub struct CandidateView {
    pub name: Option<Seq<char>>,
    pub canonical: Seq<char>,
    pub usable: bool,
}

impl View for CheckedCandidate {
    type V = CandidateView;

    open spec fn view(&self) -> CandidateView {
        CandidateView { name: opt_view(self.name), canonical: self.canonical@, usable: self.usable }
    }
}

pub open spec fn candidates_view(cs: Seq<CheckedCandidate>) -> Seq<CandidateView> {
    cs.map_values(|c: CheckedCandidate| c@)
}

/// Names strictly increase along the entries (so each name occurs once).
pub open spec fn names_sorted(es: Seq<(Seq<char>, Seq<char>)>) -> bool {
    forall|i: int, j: int| 0 <= i < j < es.len() ==> seq_lt(#[trigger] es[i].0, #[trigger] es[j].0)
}

/// No two entries share a path.
pub open spec fn paths_distinct(es: Seq<(Seq<char>, Seq<char>)>) -> bool {
    forall|i: int, j: int| 0 <= i < j < es.len() ==> #[trigger] es[i].1 != #[trigger] es[j].1
}

/// The position at which `name` goes, searching from `p`: the first entry
/// whose name comes after it.
pub open spec fn insert_pos_from(es: Seq<(Seq<char>, Seq<char>)>, name: Seq<char>, p: int) -> int
    decreases es.len() - p,
{
    if p >= es.len() {
        es.len() as int
    } else if seq_lt(name, es[p].0) {
        p
    } else {
        insert_pos_from(es, name, p + 1)
    }
}

/// `es` with `(name, path)` inserted in name order.
pub open spec fn sorted_insert(es: Seq<(Seq<char>, Seq<char>)>, name: Seq<char>, path: Seq<char>) -> Seq<
    (Seq<char>, Seq<char>),
> {
    es.insert(insert_pos_from(es, name, 0), (name, path))
}

/// The registry entries and the paths seen after the first `n` candidates.
pub open spec fn build_state(cands: Seq<CandidateView>, n: int) -> (
    Seq<(Seq<char>, Seq<char>)>,
    Seq<Seq<char>>,
)
    decreases n,
{
    if n <= 0 {
        (seq![], seq![])
    } else {
        let prev = build_state(cands, n - 1);
        let c = cands[n - 1];
        if !c.usable || prev.1.contains(c.canonical) {
            prev
        } else {
            let base = match c.name {
                Some(x) => x,
                None => basename_spec(c.canonical),
            };
            let name = unique_name_spec(entry_names(prev.0).to_set(), base, c.canonical);
            (sorted_insert(prev.0, name, c.canonical), prev.1.push(c.canonical))
        }
    }
}

/// The registry built from the candidates, in priority order.
pub open spec fn build_entries(cands: Seq<CandidateView>) -> Seq<(Seq<char>, Seq<char>)> {
    build_state(cands, cands.len() as int).0
}

/// The served repositories, keyed by unique name, in name order.
pub struct Registry {
    entries: Vec<RepoInfo>,
}

impl View for Registry {
    type V = Seq<(Seq<char>, Seq<char>)>;

    closed spec fn view(&self) -> Seq<(Seq<char>, Seq<char>)> {
        entries_view(self.entries@)
    }
}

impl Registry {
    /// Every registry has its names in ascending order (so no name twice)
    /// and each path once.
    #[verifier::type_invariant]
    spec fn well_formed(self) -> bool {
        names_sorted(entries_view(self.entries@)) && paths_distinct(entries_view(self.entries@))
    }
}

proof fn lemma_insert_pos(es: Seq<(Seq<char>, Seq<char>)>, name: Seq<char>, p: int)
    requires
        0 <= p <= es.len(),
        forall|k: int| 0 <= k < p ==> !seq_lt(name, #[trigger] es[k].0),
    ensures
        p <= insert_pos_from(es, name, p) <= es.len(),
        forall|k: int| 0 <= k < insert_pos_from(es, name, p) ==> !seq_lt(name, #[trigger] es[k].0),
        insert_pos_from(es, name, p) < es.len() ==> seq_lt(name, es[insert_pos_from(es, name, p)].0),
    decreases es.len() - p,
{
    if p < es.len() && !seq_lt(name, es[p].0) {
        lemma_insert_pos(es, name, p + 1);
    }
}

proof fn lemma_sorted_insert(es: Seq<(Seq<char>, Seq<char>)>, name: Seq<char>, path: Seq<char>)
    requires
        names_sorted(es),
        paths_distinct(es),
        !entry_names(es).to_set().contains(name),
        forall|k: int| 0 <= k < es.len() ==> #[trigger] es[k].1 != path,
    ensures
        names_sorted(sorted_insert(es, name, path)),
        paths_distinct(sorted_insert(es, name, path)),
{
    lemma_insert_pos(es, name, 0);
    let pos = insert_pos_from(es, name, 0);
    let r = sorted_insert(es, name, path);
    assert forall|k: int| 0 <= k < pos implies seq_lt(#[trigger] es[k].0, name) by {
        lemma_seq_lt_total(es[k].0, name);
        if es[k].0 == name {
            assert(entry_names(es)[k] == name);
        }
    }
    assert forall|k: int| pos <= k < es.len() implies seq_lt(name, #[trigger] es[k].0) by {
        if k > pos {
            lemma_seq_lt_transitive(name, es[pos].0, es[k].0);
        }
    }
    assert forall|i: int, j: int| 0 <= i < j < r.len() implies seq_lt(#[trigger] r[i].0, #[trigger] r[j].0) by {
        if j < pos {
            assert(r[i] == es[i] && r[j] == es[j]);
        } else if j == pos {
            assert(r[i] == es[i]);
        } else if i == pos {
            assert(r[j] == es[j - 1]);
        } else if i < pos {
            assert(r[i] == es[i] && r[j] == es[j - 1]);
            lemma_seq_lt_transitive(es[i].0, name, es[j - 1].0);
        } else {
            assert(r[i] == es[i - 1] && r[j] == es[j - 1]);
        }
    }
    assert forall|i: int, j: int| 0 <= i < j < r.len() implies #[trigger] r[i].1 != #[trigger] r[j].1 by {
        if j < pos {
            assert(r[i] == es[i] && r[j] == es[j]);
        } else if j == pos {
            assert(r[i] == es[i]);
        } else if i == pos {
            assert(r[j] == es[j - 1]);
        } else if i < pos {
            assert(r[i] == es[i] && r[j] == es[j - 1]);
        } else {
            assert(r[i] == es[i - 1] && r[j] == es[j - 1]);
        }
    }
}

/// What every stage of the build keeps: names sorted and unique, each path
/// once, and the seen paths are exactly the registered ones.
pub proof fn lemma_build_state_ok(cands: Seq<CandidateView>, n: int)
    requires
        n <= cands.len(),
    ensures
        names_sorted(build_state(cands, n).0),
        paths_distinct(build_state(cands, n).0),
        build_state(cands, n).0.len() == build_state(cands, n).1.len(),
        forall|p: Seq<char>|
            build_state(cands, n).1.contains(p) <==> exists|k: int|
                0 <= k < build_state(cands, n).0.len() && #[trigger] build_state(cands, n).0[k].1 == p,
    decreases n,
{
    if n > 0 {
        lemma_build_state_ok(cands, n - 1);
        let prev = build_state(cands, n - 1);
        let c = cands[n - 1];
        if c.usable && !prev.1.contains(c.canonical) {
            let base = match c.name {
                Some(x) => x,
                None => basename_spec(c.canonical),
            };
            let name = unique_name_spec(entry_names(prev.0).to_set(), base, c.canonical);
            lemma_unique_name_is_free(entry_names(prev.0), base, c.canonical);
            assert forall|k: int| 0 <= k < prev.0.len() implies #[trigger] prev.0[k].1 != c.canonical by {}
            lemma_sorted_insert(prev.0, name, c.canonical);
            lemma_insert_pos(prev.0, name, 0);
            let pos = insert_pos_from(prev.0, name, 0);
            let r = sorted_insert(prev.0, name, c.canonical);
            let seen = prev.1.push(c.canonical);
            assert forall|p: Seq<char>| seen.contains(p) <==> exists|k: int|
                0 <= k < r.len() && #[trigger] r[k].1 == p by {
                if seen.contains(p) {
                    if p == c.canonical {
                        assert(r[pos].1 == p);
                    } else {
                        let i = choose|i: int| 0 <= i < seen.len() && seen[i] == p;
                        assert(prev.1[i] == p);
                        assert(prev.1.contains(p));
                        let k = choose|k: int| 0 <= k < prev.0.len() && #[trigger] prev.0[k].1 == p;
                        if k < pos {
                            assert(r[k] == prev.0[k]);
                        } else {
                            assert(r[k + 1] == prev.0[k]);
                        }
                    }
                }
                if exists|k: int| 0 <= k < r.len() && #[trigger] r[k].1 == p {
                    let k = choose|k: int| 0 <= k < r.len() && #[trigger] r[k].1 == p;
                    if k == pos {
                        assert(seen[seen.len() - 1] == p);
                    } else {
                        let kk = if k < pos { k } else { k - 1 };
                        assert(r[k] == prev.0[kk]);
                        assert(prev.1.contains(p));
                        let i = choose|i: int| 0 <= i < prev.1.len() && prev.1[i] == p;
                        assert(seen[i] == p);
                    }
                }
            }
        }
    }
}

/// Every usable candidate ends up registered: its canonical path is the path
/// of some entry of the registry.
pub proof fn lemma_usable_candidates_registered(cands: Seq<CandidateView>, n: int, i: int)
    requires
        0 <= i < n <= cands.len(),
        cands[i].usable,
    ensures
        exists|k: int|
            0 <= k < build_state(cands, n).0.len() && #[trigger] build_state(cands, n).0[k].1
                == cands[i].canonical,
    decreases n,
{
    lemma_build_state_ok(cands, n);
    lemma_build_state_ok(cands, n - 1);
    let prev = build_state(cands, n - 1);
    if i < n - 1 {
        lemma_usable_candidates_registered(cands, n - 1, i);
        assert(prev.1.contains(cands[i].canonical));
    } else {
        if !prev.1.contains(cands[i].canonical) {
            let c = cands[i];
            let base = match c.name {
                Some(x) => x,
                None => basename_spec(c.canonical),
            };
            let name = unique_name_spec(entry_names(prev.0).to_set(), base, c.canonical);
            assert(build_state(cands, n).1 == prev.1.push(c.canonical));
            assert(build_state(cands, n).1.contains(c.canonical)) by {
                assert(prev.1.push(c.canonical)[prev.1.len() as int] == c.canonical);
            }
        }
    }
    assert(build_state(cands, n).1.contains(cands[i].canonical)) by {
        if i < n - 1 || prev.1.contains(cands[i].canonical) {
            let j = choose|j: int| 0 <= j < prev.1.len() && prev.1[j] == cands[i].canonical;
            assert(build_state(cands, n).1[j] == cands[i].canonical);
        }
    }
}

/// Whether `p` is among `seen`.
fn seen_contains(seen: &Vec<String>, p: &String) -> (res: bool)
    ensures
        res == strings_view(seen@).contains(p@),
{
    let ghost sv = strings_view(seen@);
    let mut k: usize = 0;
    while k < seen.len()
        invariant
            k <= seen@.len(),
            sv == strings_view(seen@),
            forall|t: int| 0 <= t < k ==> #[trigger] sv[t] != p@,
        decreases seen@.len() - k,
    {
        if seen[k].eq(p) {
            assert(sv[k as int] == p@);
            return true;
        }
        k = k + 1;
    }
    false
}

/// Builds the registry from checked candidates, in priority order: unusable
/// candidates are skipped, a path already registered is not registered again,
/// and each repository gets a unique name (its explicit name or its directory
/// name, disambiguated by [`unique_name_spec`]).
pub fn build_map(candidates: Vec<CheckedCandidate>) -> (res: Registry)
    requires
        candidates@.len() < u64::MAX - 2,
    ensures
        res@ == build_entries(candidates_view(candidates@)),
        names_sorted(res@),
        paths_distinct(res@),
{
    let ghost cv = candidates_view(candidates@);
    let mut entries: Vec<RepoInfo> = Vec::new();
    let mut seen: Vec<String> = Vec::new();
    let mut i: usize = 0;
    assert(entries_view(entries@) =~= build_state(cv, 0).0);
    assert(strings_view(seen@) =~= build_state(cv, 0).1);
    while i < candidates.len()
        invariant
            i <= candidates@.len(),
            candidates@.len() < u64::MAX - 2,
            cv == candidates_view(candidates@),
            entries_view(entries@) == build_state(cv, i as int).0,
            strings_view(seen@) == build_state(cv, i as int).1,
            entries@.len() <= i,
        decreases candidates@.len() - i,
    {
        let c = &candidates[i];
        assert(cv[i as int] == c@);
        if c.usable && !seen_contains(&seen, &c.canonical) {
            let base = match &c.name {
                Some(n) => n.clone(),
                None => basename(c.canonical.as_str()),
            };
            let name = unique_name(&entries, base, c.canonical.as_str());
            let name_codes = chars_of(name.as_str());
            let mut pos: usize = 0;
            let ghost ev = entries_view(entries@);
            while pos < entries.len() && !seq_lt_exec(&name_codes, &chars_of(entries[pos].name.as_str()))
                invariant
                    pos <= entries@.len(),
                    ev == entries_view(entries@),
                    name_codes@ == name@,
                    insert_pos_from(ev, name@, 0) == insert_pos_from(ev, name@, pos as int),
                decreases entries@.len() - pos,
            {
                assert(ev[pos as int].0 == entries@[pos as int].name@);
                pos = pos + 1;
            }
            proof {
                if pos < entries@.len() {
                    assert(ev[pos as int].0 == entries@[pos as int].name@);
                }
            }
            entries.insert(pos, RepoInfo { name, path: c.canonical.clone() });
            seen.push(c.canonical.clone());
            proof {
                assert(entries_view(entries@) =~= sorted_insert(ev, name@, c.canonical@));
                assert(strings_view(seen@) =~= build_state(cv, i as int).1.push(
                    c.canonical@,
                ));
            }
        }
        i = i + 1;
    }
    proof {
        lemma_build_state_ok(cv, cv.len() as int);
    }
    Registry { entries }
}

impl Registry {
    /// The registered repositories, in name order.
    pub fn repos(&self) -> (res: Vec<RepoInfo>)
        ensures
            entries_view(res@) == self@,
            names_sorted(self@),
            paths_distinct(self@),
    {
        proof {
            use_type_invariant(self);
        }
        let mut res: Vec<RepoInfo> = Vec::new();
        let mut k: usize = 0;
        while k < self.entries.len()
            invariant
                k <= self.entries@.len(),
                entries_view(res@) == entries_view(self.entries@).take(k as int),
            decreases self.entries@.len() - k,
        {
            let e = &self.entries[k];
            let ghost before = res@;
            res.push(RepoInfo { name: e.name.clone(), path: e.path.clone() });
            assert(entries_view(res@) =~= entries_view(before).push((e.name@, e.path@)));
            k = k + 1;
            assert(entries_view(res@) =~= entries_view(self.entries@).take(k as int));
        }
        assert(entries_view(self.entries@).take(k as int) =~= entries_view(self.entries@));
        res
    }

    /// The on-disk path registered under `name`.
    pub fn repo_path(&self, name: &str) -> (res: Option<String>)
        ensures
            match res {
                Some(p) => exists|k: int| 0 <= k < self@.len() && #[trigger] self@[k] == (name@, p@),
                None => forall|k: int| 0 <= k < self@.len() ==> #[trigger] self@[k].0 != name@,
            },
            names_sorted(self@),
            paths_distinct(self@),
    {
        proof {
            use_type_invariant(self);
        }
        let n = name.to_owned();
        let mut k: usize = 0;
        while k < self.entries.len()
            invariant
                k <= self.entries@.len(),
                n@ == name@,
                forall|t: int| 0 <= t < k ==> #[trigger] entries_view(self.entries@)[t].0 != name@,
            decreases self.entries@.len() - k,
        {
            if self.entries[k].name.eq(&n) {
                let p = self.entries[k].path.clone();
                assert(entries_view(self.entries@)[k as int] == (name@, p@));
                assert(self@[k as int] == (name@, p@));
                proof {
                    use_type_invariant(self);
                }
                return Some(p);
            }
            k = k + 1;
        }
        None
    }
}

// ---------------------------------------------------------------------------
// Candidates
// ---------------------------------------------------------------------------

/// A repository to consider for the registry: an explicit name, if any, and
/// a path (not yet canonical).
#[derive(Debug, Clone)]
pub struct Candidate {
    pub name: Option<String>,
    pub path: String,
}

pub open spec fn candidate_view(c: Candidate) -> (Option<Seq<char>>, Seq<char>) {
    (opt_view(c.name), c.path@)
}

pub open spec fn candidate_list_view(cs: Seq<Candidate>) -> Seq<(Option<Seq<char>>, Seq<char>)> {
    cs.map_values(|c: Candidate| candidate_view(c))
}

/// The sort key of a path: paths are ordered component by component, which
/// for paths without empty or `.` components is the order of their characters
/// with `/` placed before every other character.
pub open spec fn path_key(p: Seq<char>) -> SortKeyView {
    SortKeyView { first: false, codes: p.map_values(|c: char| if c == '/' { '\0' } else { c }) }
}

/// `sorted` is `paths` in the order of a stable sort by [`path_key`].
pub open spec fn is_sorted_paths(sorted: Seq<Seq<char>>, paths: Seq<Seq<char>>) -> bool {
    exists|order: Seq<usize>|
        is_permutation(order, paths.len()) && is_stable_sorted(
            order,
            paths.map_values(|p: Seq<char>| path_key(p)),
        ) && sorted.len() == paths.len() && forall|i: int|
            0 <= i < sorted.len() ==> #[trigger] sorted[i] == paths[order[i] as int]
}

fn path_sort_key(p: &String) -> (res: SortKey)
    ensures
        res@ == path_key(p@),
{
    let cs = chars_of(p.as_str());
    let mut codes: Vec<char> = Vec::new();
    let mut i: usize = 0;
    while i < cs.len()
        invariant
            i <= cs@.len(),
            cs@ == p@,
            codes@ == cs@.take(i as int).map_values(|c: char| if c == '/' { '\0' } else { c }),
        decreases cs@.len() - i,
    {
        let c = cs[i];
        codes.push(if c == '/' { '\0' } else { c });
        i = i + 1;
        assert(codes@ =~= cs@.take(i as int).map_values(|c: char| if c == '/' { '\0' } else { c }));
    }
    assert(cs@.take(cs@.len() as int) =~= cs@);
    SortKey { first: false, codes }
}

/// `paths` sorted component by component (a stable sort by [`path_key`]).
pub fn sort_paths(paths: Vec<String>) -> (res: Vec<String>)
    ensures
        is_sorted_paths(strings_view(res@), strings_view(paths@)),
{
    let ghost pv = strings_view(paths@);
    let mut keys: Vec<SortKey> = Vec::new();
    let mut i: usize = 0;
    while i < paths.len()
        invariant
            i <= paths@.len(),
            pv == strings_view(paths@),
            keys_view(keys@) == pv.take(i as int).map_values(|p: Seq<char>| path_key(p)),
        decreases paths@.len() - i,
    {
        let k = path_sort_key(&paths[i]);
        let ghost before = keys@;
        assert(pv[i as int] == paths@[i as int]@);
        keys.push(k);
        assert(keys_view(keys@) =~= keys_view(before).push(path_key(pv[i as int])));
        i = i + 1;
        assert(keys_view(keys@) =~= pv.take(i as int).map_values(|p: Seq<char>| path_key(p)));
    }
    assert(pv.take(pv.len() as int) =~= pv);
    let order = stable_sort_order(&keys);
    let mut res: Vec<String> = Vec::new();
    let mut j: usize = 0;
    while j < order.len()
        invariant
            j <= order@.len(),
            is_permutation(order@, paths@.len() as nat),
            pv == strings_view(paths@),
            res@.len() == j,
            forall|t: int| 0 <= t < j ==> #[trigger] res@[t]@ == pv[order@[t] as int],
        decreases order@.len() - j,
    {
        res.push(paths[order[j]].clone());
        j = j + 1;
    }
    let ghost rv = strings_view(res@);
    assert forall|t: int| 0 <= t < rv.len() implies #[trigger] rv[t] == pv[order@[t] as int] by {
        assert(rv[t] == res@[t]@);
    }
    assert(keys_view(keys@) == pv.map_values(|p: Seq<char>| path_key(p)));
    res
}

/// The candidates of the scan blocks, in order, each without a name.
pub open spec fn block_candidates(blocks: Seq<Seq<Seq<char>>>) -> Seq<(Option<Seq<char>>, Seq<char>)>
    decreases blocks.len(),
{
    if blocks.len() == 0 {
        seq![]
    } else {
        block_candidates(blocks.drop_last()) + blocks.last().map_values(
            |p: Seq<char>| (None::<Seq<char>>, p),
        )
    }
}

/// All candidates in priority order: the config file's repositories (paths
/// expanded against `home`), then what each scan root found (each block in
/// path order), then the command line paths; `.` alone when there are none.
pub open spec fn candidates_spec(
    entries: Seq<(Option<Seq<char>>, Seq<char>)>,
    home: Option<Seq<char>>,
    blocks: Seq<Seq<Seq<char>>>,
    cli: Seq<Seq<char>>,
) -> Seq<(Option<Seq<char>>, Seq<char>)> {
    let all = entries.map_values(
        |e: (Option<Seq<char>>, Seq<char>)| (e.0, expand_tilde_spec(e.1, home)),
    ) + block_candidates(blocks) + cli.map_values(|p: Seq<char>| (None::<Seq<char>>, p));
    if all.len() == 0 {
        seq![(None::<Seq<char>>, seq!['.'])]
    } else {
        all
    }
}

/// The number of paths in all blocks together.
pub open spec fn paths_count(blocks: Seq<Seq<Seq<char>>>) -> int
    decreases blocks.len(),
{
    if blocks.len() == 0 {
        0
    } else {
        paths_count(blocks.drop_last()) + blocks.last().len()
    }
}

proof fn lemma_block_candidates_len(blocks: Seq<Seq<Seq<char>>>)
    ensures
        block_candidates(blocks).len() == paths_count(blocks),
    decreases blocks.len(),
{
    if blocks.len() > 0 {
        lemma_block_candidates_len(blocks.drop_last());
    }
}

proof fn lemma_paths_count_same(a: Seq<Seq<Seq<char>>>, b: Seq<Seq<Seq<char>>>)
    requires
        a.len() == b.len(),
        forall|r: int| 0 <= r < a.len() ==> (#[trigger] a[r]).len() == b[r].len(),
    ensures
        paths_count(a) == paths_count(b),
    decreases a.len(),
{
    if a.len() > 0 {
        lemma_paths_count_same(a.drop_last(), b.drop_last());
    }
}

proof fn lemma_paths_count_prefix(blocks: Seq<Seq<Seq<char>>>, r: int)
    requires
        0 <= r < blocks.len(),
    ensures
        paths_count(blocks.take(r)) + blocks[r].len() <= paths_count(blocks),
    decreases blocks.len(),
{
    let init = blocks.drop_last();
    if r < blocks.len() - 1 {
        lemma_paths_count_prefix(init, r);
        assert(init.take(r) =~= blocks.take(r));
    } else {
        assert(init =~= blocks.take(r));
    }
}

proof fn lemma_block_candidates_at(blocks: Seq<Seq<Seq<char>>>, r: int, q: int)
    requires
        0 <= r < blocks.len(),
        0 <= q < blocks[r].len(),
    ensures
        paths_count(blocks.take(r)) + q < block_candidates(blocks).len(),
        block_candidates(blocks)[paths_count(blocks.take(r)) + q] == (None::<Seq<char>>, blocks[r][q]),
    decreases blocks.len(),
{
    let init = blocks.drop_last();
    lemma_block_candidates_len(blocks);
    lemma_block_candidates_len(init);
    lemma_paths_count_prefix(blocks, r);
    let tail = blocks.last().map_values(|p: Seq<char>| (None::<Seq<char>>, p));
    assert(block_candidates(blocks) == block_candidates(init) + tail);
    let x = block_candidates(init);
    lemma_block_candidates_len(blocks.take(r));
    let idx = paths_count(blocks.take(r)) + q;
    if r < blocks.len() - 1 {
        lemma_block_candidates_at(init, r, q);
        assert(init.take(r) =~= blocks.take(r));
        assert(init[r] == blocks[r]);
        assert(idx < x.len());
        assert((x + tail)[idx] == x[idx]);
    } else {
        assert(init =~= blocks.take(r));
        assert(idx == x.len() + q);
        assert(tail[q] == (None::<Seq<char>>, blocks[r][q]));
        assert((x + tail)[idx] == tail[q]);
    }
}

/// The candidates gathered from the sources: when the configured
/// repositories, the paths found by the scans and the command line paths are
/// not all empty, there is one candidate for each of them and nothing else:
/// the configured repositories first (expanded against `home`), then each
/// scan's paths in path order, block after block, and the command line paths
/// last; only when all are empty is `.` the one candidate.
pub proof fn lemma_candidates_shape(
    res: Seq<(Option<Seq<char>>, Seq<char>)>,
    entries: Seq<(Option<Seq<char>>, Seq<char>)>,
    home: Option<Seq<char>>,
    blocks: Seq<Seq<Seq<char>>>,
    scanned: Seq<Seq<Seq<char>>>,
    cli: Seq<Seq<char>>,
)
    requires
        assembled_from(res, entries, home, blocks, scanned, cli),
    ensures
        ({
            let n = entries.len() + paths_count(scanned) + cli.len();
            &&& n == 0 ==> res == seq![(None::<Seq<char>>, seq!['.'])]
            &&& n > 0 ==> res.len() == n
            &&& n > 0 ==> forall|i: int|
                0 <= i < entries.len() ==> #[trigger] res[i] == (entries[i].0, expand_tilde_spec(entries[i].1, home))
            &&& n > 0 ==> forall|i: int|
                0 <= i < cli.len() ==> #[trigger] res[n - cli.len() + i] == (None::<Seq<char>>, cli[i])
            &&& n > 0 ==> forall|r: int, q: int|
                0 <= r < blocks.len() && 0 <= q < blocks[r].len() ==> #[trigger] res[entries.len()
                    + paths_count(blocks.take(r)) + q] == (None::<Seq<char>>, #[trigger] blocks[r][q])
        }),
{
    assert forall|r: int| 0 <= r < blocks.len() implies (#[trigger] blocks[r]).len() == scanned[r].len() by {
        assert(is_sorted_paths(blocks[r], scanned[r]));
    }
    lemma_paths_count_same(blocks, scanned);
    lemma_block_candidates_len(blocks);
    let n = entries.len() + paths_count(scanned) + cli.len();
    let e = entries.map_values(
        |e: (Option<Seq<char>>, Seq<char>)| (e.0, expand_tilde_spec(e.1, home)),
    );
    let b = block_candidates(blocks);
    let c = cli.map_values(|p: Seq<char>| (None::<Seq<char>>, p));
    let all = e + b + c;
    assert(all.len() == n);
    if n > 0 {
        assert forall|i: int| 0 <= i < entries.len() implies #[trigger] res[i] == (
            entries[i].0,
            expand_tilde_spec(entries[i].1, home),
        ) by {
            assert(all[i] == e[i]);
        }
        assert forall|i: int| 0 <= i < cli.len() implies #[trigger] res[n - cli.len() + i] == (
            None::<Seq<char>>,
            cli[i],
        ) by {
            assert(all[n - cli.len() + i] == c[i]);
        }
        assert forall|r: int, q: int|
            0 <= r < blocks.len() && 0 <= q < blocks[r].len() implies #[trigger] res[entries.len()
                + paths_count(blocks.take(r)) + q] == (None::<Seq<char>>, #[trigger] blocks[r][q]) by {
            lemma_block_candidates_at(blocks, r, q);
            lemma_block_candidates_len(blocks.take(r));
            let x = paths_count(blocks.take(r)) + q;
            assert(x < b.len());
            assert(e.len() == entries.len());
            assert((e + b)[e.len() + x] == b[x]);
            assert(all[e.len() + x] == (e + b)[e.len() + x]);
        }
    }
}

/// `res` is [`candidates_spec`] of the given sources, where `blocks[r]` is
/// `scanned[r]` in path order.
pub open spec fn assembled_from(
    res: Seq<(Option<Seq<char>>, Seq<char>)>,
    entries: Seq<(Option<Seq<char>>, Seq<char>)>,
    home: Option<Seq<char>>,
    blocks: Seq<Seq<Seq<char>>>,
    scanned: Seq<Seq<Seq<char>>>,
    cli: Seq<Seq<char>>,
) -> bool {
    &&& blocks.len() == scanned.len()
    &&& forall|r: int| 0 <= r < blocks.len() ==> is_sorted_paths(#[trigger] blocks[r], scanned[r])
    &&& res == candidates_spec(entries, home, blocks, cli)
}

pub open spec fn repo_entries_view(es: Seq<RepoEntry>) -> Seq<(Option<Seq<char>>, Seq<char>)> {
    es.map_values(|e: RepoEntry| (opt_view(e.name), e.path@))
}

/// Gathers the registry candidates from the captured sources; `scanned[r]`
/// lists the repositories found under the `r`-th scan root (in any order).
pub fn collect_candidates(sources: &Sources, home: Option<&str>, scanned: &Vec<Vec<String>>) -> (res:
    Vec<Candidate>)
    ensures
        exists|blocks: Seq<Seq<Seq<char>>>|
            #[trigger] assembled_from(
                candidate_list_view(res@),
                repo_entries_view(sources.repos@),
                opt_str_view(home),
                blocks,
                nested_strings_view(scanned@),
                strings_view(sources.cli_paths@),
            ),
{
    let ghost hv: Option<Seq<char>> = match home {
        Some(h) => Some(h@),
        None => None,
    };
    let ghost ev = repo_entries_view(sources.repos@);
    let mut res: Vec<Candidate> = Vec::new();
    let mut i: usize = 0;
    while i < sources.repos.len()
        invariant
            i <= sources.repos@.len(),
            ev == repo_entries_view(sources.repos@),
            hv == (match home {
                Some(h) => Some(h@),
                None => None::<Seq<char>>,
            }),
            candidate_list_view(res@) == ev.take(i as int).map_values(
                |e: (Option<Seq<char>>, Seq<char>)| (e.0, expand_tilde_spec(e.1, hv)),
            ),
        decreases sources.repos@.len() - i,
    {
        let e = &sources.repos[i];
        let path = expand_tilde(e.path.as_str(), home);
        let ghost before = res@;
        let cand = Candidate { name: crate::text::clone_opt_string(&e.name), path };
        assert(ev[i as int] == (opt_view(e.name), e.path@));
        res.push(cand);
        assert(candidate_list_view(res@) =~= candidate_list_view(before).push(candidate_view(cand)));
        i = i + 1;
        assert(candidate_list_view(res@) =~= ev.take(i as int).map_values(
            |e: (Option<Seq<char>>, Seq<char>)| (e.0, expand_tilde_spec(e.1, hv)),
        ));
    }
    assert(ev.take(ev.len() as int) =~= ev);
    let ghost prefix = candidate_list_view(res@);
    let ghost mut blocks: Seq<Seq<Seq<char>>> = seq![];
    let mut r: usize = 0;
    let ghost sv = scanned@;
    let n_roots = scanned.len();
    assert(prefix + block_candidates(blocks) =~= prefix);
    while r < n_roots
        invariant
            r <= n_roots == sv.len(),
            scanned@ == sv,
            blocks.len() == r,
            forall|t: int|
                0 <= t < r ==> is_sorted_paths(#[trigger] blocks[t], strings_view(sv[t]@)),
            candidate_list_view(res@) == prefix + block_candidates(blocks),
        decreases n_roots - r,
    {
        let found = clone_strings(&scanned[r]);
        let sorted = sort_paths(found);
        let ghost b = strings_view(sorted@);
        let ghost before = candidate_list_view(res@);
        let mut k: usize = 0;
        while k < sorted.len()
            invariant
                k <= sorted@.len(),
                b == strings_view(sorted@),
                candidate_list_view(res@) == before + b.take(k as int).map_values(
                    |p: Seq<char>| (None::<Seq<char>>, p),
                ),
            decreases sorted@.len() - k,
        {
            let ghost before2 = res@;
            let cand = Candidate { name: None, path: sorted[k].clone() };
            assert(cand.path@ == b[k as int]);
            res.push(cand);
            assert(candidate_list_view(res@) =~= candidate_list_view(before2).push(candidate_view(cand)));
            k = k + 1;
            assert(candidate_list_view(res@) =~= before + b.take(k as int).map_values(
                |p: Seq<char>| (None::<Seq<char>>, p),
            ));
        }
        assert(b.take(b.len() as int) =~= b);
        proof {
            let nb = blocks.push(b);
            assert(nb.drop_last() =~= blocks);
            assert(candidate_list_view(res@) =~= prefix + block_candidates(nb));
            blocks = nb;
        }
        r = r + 1;
    }
    let ghost mid = candidate_list_view(res@);
    let ghost cv = strings_view(sources.cli_paths@);
    let mut c: usize = 0;
    while c < sources.cli_paths.len()
        invariant
            c <= sources.cli_paths@.len(),
            cv == strings_view(sources.cli_paths@),
            candidate_list_view(res@) == mid + cv.take(c as int).map_values(
                |p: Seq<char>| (None::<Seq<char>>, p),
            ),
        decreases sources.cli_paths@.len() - c,
    {
        let ghost before = res@;
        let cand = Candidate { name: None, path: sources.cli_paths[c].clone() };
        assert(cand.path@ == cv[c as int]);
        res.push(cand);
        assert(candidate_list_view(res@) =~= candidate_list_view(before).push(candidate_view(cand)));
        c = c + 1;
        assert(candidate_list_view(res@) =~= mid + cv.take(c as int).map_values(
            |p: Seq<char>| (None::<Seq<char>>, p),
        ));
    }
    assert(cv.take(cv.len() as int) =~= cv);
    if res.len() == 0 {
        let dot = ".";
        proof {
            reveal_strlit(".");
        }
        let cand = Candidate { name: None, path: dot.to_owned() };
        assert(cand.path@ =~= seq!['.']);
        res.push(cand);
        assert(candidate_list_view(res@) =~= seq![(None::<Seq<char>>, seq!['.'])]);
    }
    assert(assembled_from(
        candidate_list_view(res@),
        ev,
        hv,
        blocks,
        nested_strings_view(scanned@),
        strings_view(sources.cli_paths@),
    ));
    res
}

/// The repositories of a registry, in name order.
pub fn repos(registry: &Registry) -> (res: Vec<RepoInfo>)
    ensures
        entries_view(res@) == registry@,
        names_sorted(registry@),
        paths_distinct(registry@),
{
    registry.repos()
}

/// The on-disk path registered under `name`.
pub fn repo_path(registry: &Registry, name: &str) -> (res: Option<String>)
    ensures
        match res {
            Some(p) => exists|k: int| 0 <= k < registry@.len() && #[trigger] registry@[k] == (name@, p@),
            None => forall|k: int| 0 <= k < registry@.len() ==> #[trigger] registry@[k].0 != name@,
        },
        names_sorted(registry@),
        paths_distinct(registry@),
{
    registry.repo_path(name)
}

} // verus!
