//! The repository data the pages show, and the computations on it: ordering
//! directory listings and refs, commit history entries, dates, and diffs.
//! Reading the repository itself happens outside the library; what it reads
//! comes in as plain values.

use vstd::prelude::*;

use crate::order::{is_permutation, is_stable_sorted, keys_view, stable_sort_order, SortKey, SortKeyView};
use crate::text::{
    chars_of, lowercase, opt_string_view, push_char, strings_view, to_lowercase, zero_padded,
    zero_padded_string,
};

verus! {

/// Why a repository read failed, so pages can render a message.
#[derive(Debug, Clone)]
pub enum GitError {
    RepoNotFound(String),
    RefNotFound(String),
    PathNotFound(String),
    /// A failure reported by the Git library, with its message.
    Git(String),
}

pub open spec fn error_message(e: GitError) -> Seq<char> {
    match e {
        GitError::RepoNotFound(name) => "repository not found: "@ + name@,
        GitError::RefNotFound(r) => "ref not found: "@ + r@,
        GitError::PathNotFound(p) => "path not found: "@ + p@,
        GitError::Git(m) => "git error: "@ + m@,
    }
}

impl GitError {
    /// The message shown for the error.
    pub fn message(&self) -> (res: String)
        ensures
            res@ == error_message(*self),
    {
        let (prefix, detail) = match self {
            GitError::RepoNotFound(name) => ("repository not found: ", name),
            GitError::RefNotFound(r) => ("ref not found: ", r),
            GitError::PathNotFound(p) => ("path not found: ", p),
            GitError::Git(m) => ("git error: ", m),
        };
        let mut res = prefix.to_owned();
        res.append(detail.as_str());
        res
    }
}

/// One entry in a directory listing.
#[derive(Debug, Clone)]
pub struct TreeEntry {
    pub name: String,
    pub is_dir: bool,
}

/// A file's content.
#[derive(Debug, Clone)]
pub struct Blob {
    pub content: Vec<u8>,
    pub is_binary: bool,
}

/// The result of resolving a path inside a repository.
#[derive(Debug)]
pub enum Resolved {
    Dir(Vec<TreeEntry>),
    File(Blob),
}

/// A branch or tag, for the refs picker.
#[derive(Debug, Clone)]
pub struct RefInfo {
    pub name: String,
    pub is_tag: bool,
    pub is_head: bool,
}

/// The sort key of a name that is compared case-insensitively, after the
/// entries whose flag is set.
pub open spec fn flagged_key(flag: bool, name: Seq<char>) -> SortKeyView {
    SortKeyView { first: flag, codes: lowercase(name) }
}

/// `sorted` is `items` in the order of a stable sort by `keys`.
pub open spec fn is_stable_sort_of<T>(sorted: Seq<T>, items: Seq<T>, keys: Seq<SortKeyView>) -> bool {
    exists|order: Seq<usize>|
        is_permutation(order, items.len()) && is_stable_sorted(order, keys) && sorted.len()
            == items.len() && forall|i: int|
            0 <= i < sorted.len() ==> #[trigger] sorted[i] == items[order[i] as int]
}

pub open spec fn tree_keys(es: Seq<TreeEntry>) -> Seq<SortKeyView> {
    es.map_values(|e: TreeEntry| flagged_key(e.is_dir, e.name@))
}

pub open spec fn ref_keys(rs: Seq<RefInfo>) -> Seq<SortKeyView> {
    rs.map_values(|r: RefInfo| flagged_key(r.is_head, r.name@))
}

fn flagged_sort_key(flag: bool, name: &String) -> (res: SortKey)
    ensures
        res@ == flagged_key(flag, name@),
{
    let lower = to_lowercase(name.as_str());
    SortKey { first: flag, codes: chars_of(lower.as_str()) }
}

/// A directory listing in display order: directories first, then files,
/// each group by case-insensitive name (a stable sort).
pub fn sort_tree_entries(entries: Vec<TreeEntry>) -> (res: Vec<TreeEntry>)
    ensures
        is_stable_sort_of(res@, entries@, tree_keys(entries@)),
{
    let mut keys: Vec<SortKey> = Vec::new();
    let mut i: usize = 0;
    while i < entries.len()
        invariant
            i <= entries@.len(),
            keys_view(keys@) == tree_keys(entries@).take(i as int),
        decreases entries@.len() - i,
    {
        let k = flagged_sort_key(entries[i].is_dir, &entries[i].name);
        let ghost before = keys@;
        keys.push(k);
        assert(keys_view(keys@) =~= keys_view(before).push(k@));
        i = i + 1;
        assert(keys_view(keys@) =~= tree_keys(entries@).take(i as int));
    }
    assert(tree_keys(entries@).take(entries@.len() as int) =~= tree_keys(entries@));
    let order = stable_sort_order(&keys);
    let mut res: Vec<TreeEntry> = Vec::new();
    let mut j: usize = 0;
    while j < order.len()
        invariant
            j <= order@.len(),
            is_permutation(order@, entries@.len() as nat),
            res@.len() == j,
            forall|t: int| 0 <= t < j ==> #[trigger] res@[t] == entries@[order@[t] as int],
        decreases order@.len() - j,
    {
        let e = &entries[order[j]];
        res.push(TreeEntry { name: e.name.clone(), is_dir: e.is_dir });
        j = j + 1;
    }
    res
}

/// Orders the refs for the picker: local branches (the current one first,
/// then by case-insensitive name), followed by the tags (by case-insensitive
/// name). Both sorts are stable.
pub fn order_refs(branches: Vec<RefInfo>, tag_names: Vec<String>) -> (res: Vec<RefInfo>)
    ensures
        exists|b: Seq<RefInfo>, t: Seq<RefInfo>|
            #[trigger] refs_ordered(res@, b, t, branches@, strings_view(tag_names@)),
{
    let mut tags: Vec<RefInfo> = Vec::new();
    let mut i: usize = 0;
    while i < tag_names.len()
        invariant
            i <= tag_names@.len(),
            tags@.len() == i,
            forall|k: int|
                0 <= k < i ==> (#[trigger] tags@[k]).name@ == tag_names@[k]@ && tags@[k].is_tag
                    && !tags@[k].is_head,
        decreases tag_names@.len() - i,
    {
        tags.push(RefInfo { name: tag_names[i].clone(), is_tag: true, is_head: false });
        i = i + 1;
    }
    let ghost tag_items = tags@;
    let sorted_branches = sort_refs_by_key(branches);
    let sorted_tags = sort_refs_by_key(tags);
    let mut res = sorted_branches;
    let ghost b = res@;
    let mut st = sorted_tags;
    let ghost t = st@;
    res.append(&mut st);
    assert(tag_refs(tag_items, strings_view(tag_names@)));
    assert(refs_ordered(res@, b, t, branches@, strings_view(tag_names@)));
    res
}

/// `tags` are the tag refs named `names`, in that order.
pub open spec fn tag_refs(tags: Seq<RefInfo>, names: Seq<Seq<char>>) -> bool {
    &&& tags.len() == names.len()
    &&& forall|k: int|
        0 <= k < tags.len() ==> (#[trigger] tags[k]).name@ == names[k] && tags[k].is_tag
            && !tags[k].is_head
}

/// `res` is the branches `b` (a stable sort of `branches`, current branch
/// first) followed by the tags `t` (a stable sort of the tags named
/// `tag_names`).
pub open spec fn refs_ordered(
    res: Seq<RefInfo>,
    b: Seq<RefInfo>,
    t: Seq<RefInfo>,
    branches: Seq<RefInfo>,
    tag_names: Seq<Seq<char>>,
) -> bool {
    &&& res == b + t
    &&& is_stable_sort_of(b, branches, ref_keys(branches))
    &&& exists|tags: Seq<RefInfo>|
        tag_refs(tags, tag_names) && #[trigger] is_stable_sort_of(t, tags, ref_keys(tags))
}

fn sort_refs_by_key(refs: Vec<RefInfo>) -> (res: Vec<RefInfo>)
    ensures
        is_stable_sort_of(res@, refs@, ref_keys(refs@)),
{
    let mut keys: Vec<SortKey> = Vec::new();
    let mut i: usize = 0;
    while i < refs.len()
        invariant
            i <= refs@.len(),
            keys_view(keys@) == ref_keys(refs@).take(i as int),
        decreases refs@.len() - i,
    {
        let k = flagged_sort_key(refs[i].is_head, &refs[i].name);
        let ghost before = keys@;
        keys.push(k);
        assert(keys_view(keys@) =~= keys_view(before).push(k@));
        i = i + 1;
        assert(keys_view(keys@) =~= ref_keys(refs@).take(i as int));
    }
    assert(ref_keys(refs@).take(refs@.len() as int) =~= ref_keys(refs@));
    let order = stable_sort_order(&keys);
    let mut res: Vec<RefInfo> = Vec::new();
    let mut j: usize = 0;
    while j < order.len()
        invariant
            j <= order@.len(),
            is_permutation(order@, refs@.len() as nat),
            res@.len() == j,
            forall|t: int| 0 <= t < j ==> #[trigger] res@[t] == refs@[order@[t] as int],
        decreases order@.len() - j,
    {
        let r = &refs[order[j]];
        res.push(RefInfo { name: r.name.clone(), is_tag: r.is_tag, is_head: r.is_head });
        j = j + 1;
    }
    res
}


// ---------------------------------------------------------------------------
// Commit history
// ---------------------------------------------------------------------------

/// A commit as read from the repository: its full id (hex), summary line,
/// author name (empty when absent) and commit time in unix seconds.
#[derive(Debug, Clone)]
pub struct RawCommit {
    pub oid: String,
    pub summary: String,
    pub author: String,
    pub seconds: i64,
}

/// One commit in the first-parent history, for the diff timeline.
#[derive(Debug, Clone)]
pub struct RevInfo {
    pub oid: String,
    pub short: String,
    pub summary: String,
    pub author: String,
    pub when: String,
}

/// `when` is the `YYYY-MM-DD` text of timestamp `secs`.
pub open spec fn is_date_text_of(when: Seq<char>, secs: int) -> bool {
    exists|y: int, m: int, d: int|
        is_valid_date(y, m, d) && days_from_civil(y, m, d) == secs / 86400 && when
            == #[trigger] date_text(y, m, d)
}

/// `r` shows commit `c`: its id, the id's first seven characters, its
/// summary and author, and its date.
pub open spec fn rev_of(r: RevInfo, c: RawCommit) -> bool {
    &&& r.oid@ == c.oid@
    &&& r.short@ == c.oid@.take(if c.oid@.len() < 7 { c.oid@.len() as int } else { 7 })
    &&& r.summary@ == c.summary@
    &&& r.author@ == c.author@
    &&& is_date_text_of(r.when@, c.seconds as int)
}

/// The timeline entry of one commit. Commit ids are ASCII hex, so their
/// first seven bytes are their first seven characters.
pub fn rev_info(c: &RawCommit) -> (res: RevInfo)
    requires
        vstd::string::string_is_ascii(&c.oid),
    ensures
        rev_of(res, *c),
{
    let cs = chars_of(c.oid.as_str());
    let n = if cs.len() < 7 { cs.len() } else { 7 };
    let short = crate::text::string_from_range(&cs, 0, n);
    assert(cs@.subrange(0, n as int) =~= cs@.take(n as int));
    RevInfo {
        oid: c.oid.clone(),
        short,
        summary: c.summary.clone(),
        author: c.author.clone(),
        when: format_time(c.seconds),
    }
}

/// The timeline: the first `limit` commits of the first-parent chain
/// (newest first), each as a [`RevInfo`].
pub fn history(chain: &Vec<RawCommit>, limit: usize) -> (res: Vec<RevInfo>)
    requires
        forall|i: int| 0 <= i < chain@.len() ==> vstd::string::string_is_ascii(&#[trigger] chain@[i].oid),
    ensures
        res@.len() == (if chain@.len() < limit { chain@.len() } else { limit as nat }),
        forall|i: int| 0 <= i < res@.len() ==> rev_of(#[trigger] res@[i], chain@[i]),
{
    let mut out: Vec<RevInfo> = Vec::new();
    let mut i: usize = 0;
    while i < limit && i < chain.len()
        invariant
            i <= chain@.len(),
            i <= limit,
            out@.len() == i,
            forall|k: int| 0 <= k < chain@.len() ==> vstd::string::string_is_ascii(&#[trigger] chain@[k].oid),
            forall|k: int| 0 <= k < i ==> rev_of(#[trigger] out@[k], chain@[k]),
        decreases chain@.len() - i,
    {
        let r = rev_info(&chain[i]);
        out.push(r);
        i = i + 1;
    }
    out
}

// ---------------------------------------------------------------------------
// Diffs
// ---------------------------------------------------------------------------

/// What to diff.
#[derive(Debug, Clone)]
pub enum DiffTarget {
    /// Uncommitted changes (index + working tree) against `HEAD`.
    WorkingTree,
    /// A commit against its first parent (or the empty tree for a root commit).
    Commit(String),
}

/// The status of a changed file, as the Git library reports it.
#[derive(Debug, Clone, Copy, PartialEq, Eq)]
pub enum DeltaStatus {
    Unmodified,
    Added,
    Deleted,
    Modified,
    Renamed,
    Copied,
    Ignored,
    Untracked,
    Typechange,
    Unreadable,
    Conflicted,
}

/// The one-letter status shown for a changed file.
pub open spec fn status_letter(s: DeltaStatus) -> char {
    match s {
        DeltaStatus::Added => 'A',
        DeltaStatus::Deleted => 'D',
        DeltaStatus::Modified => 'M',
        DeltaStatus::Renamed => 'R',
        DeltaStatus::Copied => 'C',
        DeltaStatus::Typechange => 'T',
        _ => '?',
    }
}

/// The one-letter status shown for a changed file.
pub fn status_char(s: DeltaStatus) -> (c: char)
    ensures
        c == status_letter(s),
{
    match s {
        DeltaStatus::Added => 'A',
        DeltaStatus::Deleted => 'D',
        DeltaStatus::Modified => 'M',
        DeltaStatus::Renamed => 'R',
        DeltaStatus::Copied => 'C',
        DeltaStatus::Typechange => 'T',
        _ => '?',
    }
}

/// A diff line as read: origin (`+`, `-`, ` `, ...), raw bytes, line numbers.
#[derive(Debug, Clone)]
pub struct RawLine {
    pub origin: char,
    pub content: Vec<u8>,
    pub old_lineno: Option<u32>,
    pub new_lineno: Option<u32>,
}

/// A hunk as read: its raw header bytes and its lines.
#[derive(Debug, Clone)]
pub struct RawHunk {
    pub header: Vec<u8>,
    pub lines: Vec<RawLine>,
}

/// A changed file as read from the Git library.
#[derive(Debug, Clone)]
pub struct RawFileDelta {
    pub old_path: Option<String>,
    pub new_path: Option<String>,
    pub status: DeltaStatus,
    pub is_binary: bool,
    pub hunks: Vec<RawHunk>,
}

#[derive(Debug, Clone)]
pub struct DiffLineRow {
    pub origin: char,
    pub content: String,
    pub old_lineno: Option<u32>,
    pub new_lineno: Option<u32>,
}

#[derive(Debug, Clone)]
pub struct DiffHunkBlock {
    pub header: String,
    pub lines: Vec<DiffLineRow>,
}

#[derive(Debug, Clone)]
pub struct FileDiff {
    pub old_path: Option<String>,
    pub new_path: Option<String>,
    pub status: char,
    pub is_binary: bool,
    pub additions: usize,
    pub deletions: usize,
    pub hunks: Vec<DiffHunkBlock>,
}

#[derive(Debug, Clone)]
pub struct DiffView {
    pub files: Vec<FileDiff>,
}

/// The text of `bytes` as `String::from_utf8_lossy` decodes it (invalid
/// sequences become U+FFFD).
pub uninterp spec fn utf8_lossy(bytes: Seq<u8>) -> Seq<char>;

/// `String::from_utf8_lossy`: valid UTF-8 is decoded as is; otherwise the
/// contract only names the result.
#[verifier::external_body]
fn from_utf8_lossy(bytes: &[u8]) -> (res: String)
    ensures
        res@ == utf8_lossy(bytes@),
        vstd::utf8::valid_utf8(bytes@) ==> res@ == vstd::utf8::decode_utf8(bytes@),
{
    String::from_utf8_lossy(bytes).into_owned()
}

/// `s` without one trailing `\n`, and then without one `\r` before it.
pub open spec fn strip_line_end(s: Seq<char>) -> Seq<char> {
    if s.len() > 0 && s.last() == '\n' {
        let t = s.drop_last();
        if t.len() > 0 && t.last() == '\r' {
            t.drop_last()
        } else {
            t
        }
    } else {
        s
    }
}

/// A character with the Unicode `White_Space` property (`char::is_whitespace`).
pub open spec fn is_unicode_whitespace(c: char) -> bool {
    ('\u{9}' <= c && c <= '\u{d}') || c == ' ' || c == '\u{85}' || c == '\u{a0}' || c == '\u{1680}'
        || ('\u{2000}' <= c && c <= '\u{200a}') || c == '\u{2028}' || c == '\u{2029}' || c
        == '\u{202f}' || c == '\u{205f}' || c == '\u{3000}'
}

/// The length of `s` without its trailing whitespace, looking at the first `n`
/// characters.
pub open spec fn trimmed_end_len(s: Seq<char>, n: int) -> int
    decreases n,
{
    if n <= 0 {
        0
    } else if is_unicode_whitespace(s[n - 1]) {
        trimmed_end_len(s, n - 1)
    } else {
        n
    }
}

/// `s` without trailing whitespace (`str::trim_end`).
pub open spec fn trim_end(s: Seq<char>) -> Seq<char> {
    s.take(trimmed_end_len(s, s.len() as int))
}

pub fn is_whitespace_char(c: char) -> (res: bool)
    ensures
        res == is_unicode_whitespace(c),
{
    ('\u{9}' <= c && c <= '\u{d}') || c == ' ' || c == '\u{85}' || c == '\u{a0}' || c == '\u{1680}'
        || ('\u{2000}' <= c && c <= '\u{200a}') || c == '\u{2028}' || c == '\u{2029}' || c
        == '\u{202f}' || c == '\u{205f}' || c == '\u{3000}'
}

proof fn lemma_trimmed_end_len(s: Seq<char>, n: int)
    requires
        0 <= n <= s.len(),
    ensures
        0 <= trimmed_end_len(s, n) <= n,
    decreases n,
{
    if n > 0 {
        lemma_trimmed_end_len(s, n - 1);
    }
}

/// `s` without trailing whitespace.
pub fn trim_end_string(s: &str) -> (res: String)
    ensures
        res@ == trim_end(s@),
{
    let cs = chars_of(s);
    let mut n: usize = cs.len();
    while n > 0 && is_whitespace_char(cs[n - 1])
        invariant
            n <= cs@.len(),
            trimmed_end_len(cs@, cs@.len() as int) == trimmed_end_len(cs@, n as int),
        decreases n,
    {
        n = n - 1;
    }
    assert(cs@.subrange(0, n as int) =~= cs@.take(n as int));
    crate::text::string_from_range(&cs, 0, n)
}

/// `s` without one trailing line ending.
pub fn strip_line_end_string(s: String) -> (res: String)
    ensures
        res@ == strip_line_end(s@),
{
    let cs = chars_of(s.as_str());
    let n = cs.len();
    if n > 0 && cs[n - 1] == '\n' {
        if n > 1 && cs[n - 2] == '\r' {
            assert(cs@.subrange(0, n - 2) =~= cs@.drop_last().drop_last());
            return crate::text::string_from_range(&cs, 0, n - 2);
        }
        assert(cs@.subrange(0, n - 1) =~= cs@.drop_last());
        return crate::text::string_from_range(&cs, 0, n - 1);
    }
    s
}

/// The number of occurrences of `c` in `s`.
pub open spec fn count_of(s: Seq<char>, c: char) -> nat
    decreases s.len(),
{
    if s.len() == 0 {
        0
    } else {
        count_of(s.drop_last(), c) + (if s.last() == c { 1nat } else { 0nat })
    }
}

/// The origins of all lines of the hunks, in order.
pub open spec fn origins_of(hunks: Seq<RawHunk>) -> Seq<char>
    decreases hunks.len(),
{
    if hunks.len() == 0 {
        seq![]
    } else {
        origins_of(hunks.drop_last()) + hunks.last().lines@.map_values(|l: RawLine| l.origin)
    }
}

/// `row` shows `line`: same origin and line numbers, content decoded and
/// without its line ending.
pub open spec fn row_of(row: DiffLineRow, line: RawLine) -> bool {
    &&& row.origin == line.origin
    &&& row.content@ == strip_line_end(utf8_lossy(line.content@))
    &&& row.old_lineno == line.old_lineno
    &&& row.new_lineno == line.new_lineno
}

/// `block` shows `hunk`: header decoded and trimmed at the end, one row per line.
pub open spec fn block_of(block: DiffHunkBlock, hunk: RawHunk) -> bool {
    &&& block.header@ == trim_end(utf8_lossy(hunk.header@))
    &&& block.lines@.len() == hunk.lines@.len()
    &&& forall|l: int| 0 <= l < block.lines@.len() ==> row_of(#[trigger] block.lines@[l], hunk.lines@[l])
}

/// `f` shows the changed file `raw`: paths and binary flag as read, the
/// status letter, one block per hunk, and the numbers of added and deleted
/// lines.
pub open spec fn file_diff_of(f: FileDiff, raw: RawFileDelta) -> bool {
    &&& opt_string_view(f.old_path) == opt_string_view(raw.old_path)
    &&& opt_string_view(f.new_path) == opt_string_view(raw.new_path)
    &&& f.status == status_letter(raw.status)
    &&& f.is_binary == raw.is_binary
    &&& f.additions == count_of(origins_of(raw.hunks@), '+')
    &&& f.deletions == count_of(origins_of(raw.hunks@), '-')
    &&& f.hunks@.len() == raw.hunks@.len()
    &&& forall|h: int| 0 <= h < f.hunks@.len() ==> block_of(#[trigger] f.hunks@[h], raw.hunks@[h])
}

proof fn lemma_count_append(a: Seq<char>, b: Seq<char>, c: char)
    ensures
        count_of(a + b, c) == count_of(a, c) + count_of(b, c),
    decreases b.len(),
{
    if b.len() == 0 {
        assert(a + b =~= a);
    } else {
        lemma_count_append(a, b.drop_last(), c);
        assert((a + b).drop_last() =~= a + b.drop_last());
    }
}

/// The row of one diff line.
fn line_row(line: &RawLine) -> (res: DiffLineRow)
    ensures
        row_of(res, *line),
{
    let text = from_utf8_lossy(line.content.as_slice());
    DiffLineRow {
        origin: line.origin,
        content: strip_line_end_string(text),
        old_lineno: line.old_lineno,
        new_lineno: line.new_lineno,
    }
}

/// Converts one changed file as read into what the diff page shows.
pub fn build_file_diff(raw: &RawFileDelta) -> (res: FileDiff)
    requires
        origins_of(raw.hunks@).len() <= usize::MAX,
    ensures
        file_diff_of(res, *raw),
{
    let mut additions: usize = 0;
    let mut deletions: usize = 0;
    let mut hunks: Vec<DiffHunkBlock> = Vec::new();
    let mut h: usize = 0;
    assert(raw.hunks@.take(0) =~= Seq::<RawHunk>::empty());
    while h < raw.hunks.len()
        invariant
            h <= raw.hunks@.len(),
            origins_of(raw.hunks@).len() <= usize::MAX,
            hunks@.len() == h,
            forall|k: int| 0 <= k < h ==> block_of(#[trigger] hunks@[k], raw.hunks@[k]),
            additions == count_of(origins_of(raw.hunks@.take(h as int)), '+'),
            deletions == count_of(origins_of(raw.hunks@.take(h as int)), '-'),
        decreases raw.hunks@.len() - h,
    {
        let hunk = &raw.hunks[h];
        let ghost prefix = origins_of(raw.hunks@.take(h as int));
        let ghost mine = hunk.lines@.map_values(|l: RawLine| l.origin);
        proof {
            assert(raw.hunks@.take(h + 1).drop_last() =~= raw.hunks@.take(h as int));
            assert(origins_of(raw.hunks@.take(h + 1)) == prefix + mine);
            lemma_origins_prefix_len(raw.hunks@, h + 1);
        }
        let mut lines: Vec<DiffLineRow> = Vec::new();
        let mut l: usize = 0;
        while l < hunk.lines.len()
            invariant
                l <= hunk.lines@.len(),
                mine == hunk.lines@.map_values(|l: RawLine| l.origin),
                prefix.len() + mine.len() <= usize::MAX,
                lines@.len() == l,
                forall|k: int| 0 <= k < l ==> row_of(#[trigger] lines@[k], hunk.lines@[k]),
                additions == count_of(prefix + mine.take(l as int), '+'),
                deletions == count_of(prefix + mine.take(l as int), '-'),
            decreases hunk.lines@.len() - l,
        {
            let line = &hunk.lines[l];
            proof {
                lemma_count_append(prefix, mine.take(l as int), '+');
                lemma_count_append(prefix, mine.take(l as int), '-');
                lemma_count_append(prefix, mine.take(l + 1), '+');
                lemma_count_append(prefix, mine.take(l + 1), '-');
                assert(mine.take(l + 1).drop_last() =~= mine.take(l as int));
                lemma_count_le_len(mine.take(l + 1), '+');
                lemma_count_le_len(prefix, '+');
                lemma_count_le_len(mine.take(l + 1), '-');
                lemma_count_le_len(prefix, '-');
            }
            if line.origin == '+' {
                additions = additions + 1;
            } else if line.origin == '-' {
                deletions = deletions + 1;
            }
            lines.push(line_row(line));
            l = l + 1;
        }
        assert(mine.take(mine.len() as int) =~= mine);
        let header_text = from_utf8_lossy(hunk.header.as_slice());
        let header = trim_end_string(header_text.as_str());
        hunks.push(DiffHunkBlock { header, lines });
        h = h + 1;
    }
    assert(raw.hunks@.take(raw.hunks@.len() as int) =~= raw.hunks@);
    FileDiff {
        old_path: crate::text::clone_opt_string(&raw.old_path),
        new_path: crate::text::clone_opt_string(&raw.new_path),
        status: status_char(raw.status),
        is_binary: raw.is_binary,
        additions,
        deletions,
        hunks,
    }
}

proof fn lemma_count_le_len(s: Seq<char>, c: char)
    ensures
        count_of(s, c) <= s.len(),
    decreases s.len(),
{
    if s.len() > 0 {
        lemma_count_le_len(s.drop_last(), c);
    }
}

proof fn lemma_origins_prefix_len(hunks: Seq<RawHunk>, n: int)
    requires
        0 <= n <= hunks.len(),
    ensures
        origins_of(hunks.take(n)).len() <= origins_of(hunks).len(),
    decreases hunks.len() - n,
{
    if n < hunks.len() {
        lemma_origins_prefix_len(hunks, n + 1);
        assert(hunks.take(n + 1).drop_last() =~= hunks.take(n));
    } else {
        assert(hunks.take(n) =~= hunks);
    }
}

/// What the diff page shows for the changed files, in order.
pub fn build_view(deltas: &Vec<RawFileDelta>) -> (res: DiffView)
    requires
        forall|i: int| 0 <= i < deltas@.len() ==> origins_of((#[trigger] deltas@[i]).hunks@).len() <= usize::MAX,
    ensures
        res.files@.len() == deltas@.len(),
        forall|i: int| 0 <= i < deltas@.len() ==> file_diff_of(#[trigger] res.files@[i], deltas@[i]),
{
    let mut files: Vec<FileDiff> = Vec::new();
    let mut i: usize = 0;
    while i < deltas.len()
        invariant
            i <= deltas@.len(),
            files@.len() == i,
            forall|k: int| 0 <= k < deltas@.len() ==> origins_of((#[trigger] deltas@[k]).hunks@).len() <= usize::MAX,
            forall|k: int| 0 <= k < i ==> file_diff_of(#[trigger] files@[k], deltas@[k]),
        decreases deltas@.len() - i,
    {
        files.push(build_file_diff(&deltas[i]));
        i = i + 1;
    }
    DiffView { files }
}

// ---------------------------------------------------------------------------
// Dates (proleptic Gregorian calendar, UTC)
// ---------------------------------------------------------------------------

pub open spec fn is_leap_year(y: int) -> bool {
    y % 4 == 0 && (y % 100 != 0 || y % 400 == 0)
}

pub open spec fn days_in_month(y: int, m: int) -> int {
    if m == 2 {
        if is_leap_year(y) { 29 } else { 28 }
    } else if m == 4 || m == 6 || m == 9 || m == 11 {
        30
    } else {
        31
    }
}

pub open spec fn days_before_month(y: int, m: int) -> int {
    (if m == 1 { 0int } else if m == 2 { 31 } else if m == 3 { 59 } else if m == 4 { 90 } else if m == 5 { 120 }
    else if m == 6 { 151 } else if m == 7 { 181 } else if m == 8 { 212 } else if m == 9 { 243 }
    else if m == 10 { 273 } else if m == 11 { 304 } else { 334 }) + (if m > 2 && is_leap_year(y) { 1int } else { 0int })
}

pub open spec fn leap_years_before(y: int) -> int {
    (y - 1) / 4 - (y - 1) / 100 + (y - 1) / 400
}

pub open spec fn days_from_civil(y: int, m: int, d: int) -> int {
    365 * (y - 1970) + leap_years_before(y) - leap_years_before(1970) + days_before_month(y, m) + d - 1
}

pub open spec fn is_valid_date(y: int, m: int, d: int) -> bool {
    1 <= m <= 12 && 1 <= d <= days_in_month(y, m)
}

pub open spec fn yoe_of(doe: int) -> int {
    (doe - doe / 1460 + doe / 36524 - doe / 146096) / 365
}

pub open spec fn days_before_yoe(yoe: int) -> int {
    365 * yoe + yoe / 4 - yoe / 100
}

#[verifier::spinoff_prover]
proof fn lemma_year_of_era(doe: int)
    requires
        0 <= doe <= 146096,
    ensures
        0 <= yoe_of(doe) <= 399,
        days_before_yoe(yoe_of(doe)) <= doe,
        doe < days_before_yoe(yoe_of(doe) + 1) + (if yoe_of(doe) == 399 { 1int } else { 0int }),
{
}

#[verifier::spinoff_prover]
proof fn lemma_doy_bound(era: int, yoe: int, doy: int)
    requires
        0 <= yoe <= 399,
        0 <= doy,
        doy < days_before_yoe(yoe + 1) + (if yoe == 399 { 1int } else { 0int }) - days_before_yoe(yoe),
    ensures
        doy <= 364 + (if is_leap_year(era * 400 + yoe + 1) { 1int } else { 0int }),
{
}

#[verifier::spinoff_prover]
proof fn lemma_month(doy: int, leap: bool)
    requires
        0 <= doy <= 364 + (if leap { 1int } else { 0int }),
    ensures
        ({
            let mp = (5 * doy + 2) / 153;
            let d = doy - (153 * mp + 2) / 5 + 1;
            let m = if mp < 10 { mp + 3 } else { mp - 9 };
            &&& 0 <= mp <= 11
            &&& 1 <= m <= 12
            &&& 1 <= d
            &&& d <= (if m == 2 { if leap { 29int } else { 28 } } else if m == 4 || m == 6 || m == 9 || m == 11 { 30 } else { 31 })
            &&& (m >= 3 ==> (153 * mp + 2) / 5 == days_before_month(1, m) - 59)
            &&& (m <= 2 ==> (153 * mp + 2) / 5 == 306 + days_before_month(1, m))
        }),
{
}

#[verifier::spinoff_prover]
#[verifier::rlimit(50)]
proof fn lemma_days(era: int, yoe: int, doy: int, m: int, d: int, mp: int)
    requires
        0 <= yoe <= 399,
        1 <= m <= 12,
        m >= 3 ==> (153 * mp + 2) / 5 == days_before_month(1, m) - 59,
        m <= 2 ==> (153 * mp + 2) / 5 == 306 + days_before_month(1, m),
        d == doy - (153 * mp + 2) / 5 + 1,
    ensures
        days_from_civil(if m <= 2 { era * 400 + yoe + 1 } else { era * 400 + yoe }, m, d)
            == era * 146097 + days_before_yoe(yoe) + doy - 719468,
{
    let y0 = era * 400 + yoe;
    assert(leap_years_before(y0 + 1) == era * 97 + yoe / 4 - yoe / 100);
    if m > 2 {
        assert(leap_years_before(y0) + (if is_leap_year(y0) { 1int } else { 0int }) == leap_years_before(y0 + 1));
    }
}


/// The calendar date `(year, month, day)` of day `z`, counted from
/// 1970-01-01 (Howard Hinnant's days-from-civil inverse).
pub fn civil_from_days(z: i64) -> (res: (i64, u32, u32))
    requires
        z <= i64::MAX - 719_468,
    ensures
        is_valid_date(res.0 as int, res.1 as int, res.2 as int),
        days_from_civil(res.0 as int, res.1 as int, res.2 as int) == z,
        forall|y: int, m: int, d: int|
            is_valid_date(y, m, d) && #[trigger] days_from_civil(y, m, d) == z ==> res.0 == y
                && res.1 == m && res.2 == d,
{
    let z = z + 719_468;
    let era = (if z >= 0 { z } else { z - 146_096 }) / 146_097;
    assert(era == z as int / 146_097);
    let doe = (z - era * 146_097) as u64;
    proof {
        lemma_year_of_era(doe as int);
    }
    let yoe = (doe - doe / 1460 + doe / 36524 - doe / 146096) / 365;
    assert(yoe == yoe_of(doe as int));
    let y = yoe as i64 + era * 400;
    let doy = doe - (365 * yoe + yoe / 4 - yoe / 100);
    proof {
        lemma_doy_bound(era as int, yoe as int, doy as int);
        lemma_month(doy as int, is_leap_year(era * 400 + yoe + 1));
    }
    let mp = (5 * doy + 2) / 153;
    let d = (doy - (153 * mp + 2) / 5 + 1) as u32;
    let m = (if mp < 10 { mp + 3 } else { mp - 9 }) as u32;
    proof {
        lemma_days(era as int, yoe as int, doy as int, m as int, d as int, mp as int);
    }
    let res = (if m <= 2 { y + 1 } else { y }, m, d);
    assert forall|y2: int, m2: int, d2: int|
        is_valid_date(y2, m2, d2) && #[trigger] days_from_civil(y2, m2, d2) == z - 719_468 implies res.0
            == y2 && res.1 == m2 && res.2 == d2 by {
        lemma_date_unique(y2, m2, d2, res.0 as int, res.1 as int, res.2 as int);
    }
    res
}

/// The number of the first day of year `y`.
pub open spec fn year_start(y: int) -> int {
    days_from_civil(y, 1, 1)
}

#[verifier::spinoff_prover]
proof fn lemma_date_in_year(y: int, m: int, d: int)
    requires
        is_valid_date(y, m, d),
    ensures
        year_start(y) <= days_from_civil(y, m, d) < year_start(y + 1),
{
    assert(leap_years_before(y + 1) == leap_years_before(y) + (if is_leap_year(y) { 1int } else { 0int }));
}

#[verifier::spinoff_prover]
proof fn lemma_year_start_monotonic(a: int, b: int)
    requires
        a < b,
    ensures
        year_start(a) < year_start(b),
    decreases b - a,
{
    assert(leap_years_before(a + 1) >= leap_years_before(a));
    if b > a + 1 {
        lemma_year_start_monotonic(a + 1, b);
    }
}

/// Each day has exactly one date: two valid dates with the same day number
/// are the same date.
#[verifier::spinoff_prover]
pub proof fn lemma_date_unique(y1: int, m1: int, d1: int, y2: int, m2: int, d2: int)
    requires
        is_valid_date(y1, m1, d1),
        is_valid_date(y2, m2, d2),
        days_from_civil(y1, m1, d1) == days_from_civil(y2, m2, d2),
    ensures
        y1 == y2 && m1 == m2 && d1 == d2,
{
    lemma_date_in_year(y1, m1, d1);
    lemma_date_in_year(y2, m2, d2);
    if y1 < y2 {
        lemma_year_start_monotonic(y1 + 1, y2 + 1);
        if y1 + 1 < y2 {
            lemma_year_start_monotonic(y1 + 1, y2);
        }
    } else if y2 < y1 {
        if y2 + 1 < y1 {
            lemma_year_start_monotonic(y2 + 1, y1);
        }
    }
    assert(y1 == y2);
}

/// The calendar day after `(y, m, d)`.
pub open spec fn next_day(y: int, m: int, d: int) -> (int, int, int) {
    if d < days_in_month(y, m) {
        (y, m, d + 1)
    } else if m < 12 {
        (y, m + 1, 1)
    } else {
        (y + 1, 1, 1)
    }
}

/// The day after a valid date is a valid date, and its day number is one
/// more.
#[verifier::spinoff_prover]
pub proof fn lemma_next_day(y: int, m: int, d: int)
    requires
        is_valid_date(y, m, d),
    ensures
        ({
            let (y2, m2, d2) = next_day(y, m, d);
            is_valid_date(y2, m2, d2) && days_from_civil(y2, m2, d2) == days_from_civil(y, m, d) + 1
        }),
{
    if d == days_in_month(y, m) && m == 12 {
        assert(leap_years_before(y + 1) == leap_years_before(y) + (if is_leap_year(y) { 1int } else { 0int }));
    }
}

/// Consecutive day numbers have consecutive dates: the date of day `z + 1`
/// is the calendar day after the date of day `z` (so `civil_from_days(z + 1)`
/// is the day after `civil_from_days(z)`).
pub proof fn lemma_consecutive_days(y: int, m: int, d: int, y2: int, m2: int, d2: int)
    requires
        is_valid_date(y, m, d),
        is_valid_date(y2, m2, d2),
        days_from_civil(y2, m2, d2) == days_from_civil(y, m, d) + 1,
    ensures
        (y2, m2, d2) == next_day(y, m, d),
{
    lemma_next_day(y, m, d);
    let (a, b, c) = next_day(y, m, d);
    lemma_date_unique(y2, m2, d2, a, b, c);
}

/// `YYYY-MM-DD` for a date.
pub open spec fn date_text(y: int, m: int, d: int) -> Seq<char> {
    zero_padded(y, 4) + seq!['-'] + zero_padded(m, 2) + seq!['-'] + zero_padded(d, 2)
}

/// The unix timestamp `secs` as `YYYY-MM-DD` (UTC): the text of the valid
/// date whose day number is `secs` divided by 86400, rounded down.
pub fn format_time(secs: i64) -> (res: String)
    ensures
        exists|y: int, m: int, d: int|
            is_valid_date(y, m, d) && days_from_civil(y, m, d) == secs as int / 86400 && res@
                == #[trigger] date_text(y, m, d),
        forall|y: int, m: int, d: int|
            is_valid_date(y, m, d) && days_from_civil(y, m, d) == secs as int / 86400 ==> res@
                == #[trigger] date_text(y, m, d),
{
    let q = secs / 86_400;
    let r = secs % 86_400;
    let days = if r < 0 { q - 1 } else { q };
    assert(days == secs as int / 86400);
    let (year, month, day) = civil_from_days(days);
    let mut res = zero_padded_string(year, 4);
    push_char(&mut res, '-');
    let ms = zero_padded_string(month as i64, 2);
    res.append(ms.as_str());
    push_char(&mut res, '-');
    let ds = zero_padded_string(day as i64, 2);
    res.append(ds.as_str());
    assert(res@ == date_text(year as int, month as int, day as int));
    assert forall|y: int, m: int, d: int|
        is_valid_date(y, m, d) && days_from_civil(y, m, d) == secs as int / 86400 implies res@
            == #[trigger] date_text(y, m, d) by {
        lemma_date_unique(y, m, d, year as int, month as int, day as int);
    }
    res
}

} // verus!
