//! The pages: their models, how they are initialised from the request, and
//! the links, labels and paths their views are made of.

pub mod blob;
pub mod diff;
pub mod recent;
pub mod refs;
pub mod repos;
pub mod search;
pub mod tree;

use vstd::prelude::*;

use crate::paths::{last_index_of, find_last, trim_slashes, trim_slashes_string};
use crate::context::{PageContext, PageContextView};
use crate::text::{chars_of, opt_str_view, opt_string_view, string_from_range};

verus! {

/// `a` followed by `b`.
pub fn cat(a: &str, b: &str) -> (res: String)
    ensures
        res@ == a@ + b@,
{
    let mut res = a.to_owned();
    res.append(b);
    res
}

/// A `?ref=<name>` query suffix carrying the selected branch or tag through
/// links; empty when viewing the default `HEAD`.
pub open spec fn ref_query_spec(ref_name: Option<Seq<char>>) -> Seq<char> {
    match ref_name {
        Some(r) => if r.len() > 0 {
            "?ref="@ + r
        } else {
            seq![]
        },
        None => seq![],
    }
}

/// A `?ref=<name>` query suffix, or `""` for the default `HEAD`.
pub fn ref_query(ref_name: Option<&str>) -> (res: String)
    ensures
        res@ == ref_query_spec(opt_str_view(ref_name)),
{
    match ref_name {
        Some(r) => {
            if r.unicode_len() > 0 {
                cat("?ref=", r)
            } else {
                String::new()
            }
        },
        None => String::new(),
    }
}

/// The branch or tag chosen with a non-empty `ref` query value (`None`:
/// the default `HEAD`).
pub open spec fn chosen_ref(ctx: PageContextView) -> Option<Seq<char>> {
    if ctx.query.contains_key("ref"@) && ctx.query["ref"@].len() > 0 {
        Some(ctx.query["ref"@])
    } else {
        None
    }
}

/// The branch or tag chosen with the request's `ref` query value.
pub fn chosen_ref_of(ctx: &PageContext) -> (res: Option<String>)
    ensures
        opt_string_view(res) == chosen_ref(ctx@),
{
    match ctx.query("ref") {
        Some(r) => {
            if r.unicode_len() > 0 {
                Some(r.to_owned())
            } else {
                None
            }
        },
        None => None,
    }
}

/// The text after the last `.` of a path (all of it without a dot).
pub open spec fn dot_suffix(path: Seq<char>) -> Seq<char> {
    match last_index_of(path, '.') {
        Some(i) => path.skip(i + 1),
        None => path,
    }
}

/// The extension of a path: the text after the last `.` of its file name,
/// empty when the file name has no `.`.
pub open spec fn extension_of(path: Seq<char>) -> Seq<char> {
    match last_index_of(path, '.') {
        Some(i) => match last_index_of(path, '/') {
            Some(j) => if j < i {
                path.skip(i + 1)
            } else {
                seq![]
            },
            None => path.skip(i + 1),
        },
        None => seq![],
    }
}

/// `ext` spelled like `lower` in any mix of ASCII case (`upper` is `lower`
/// in upper case).
pub open spec fn ext_matches(ext: Seq<char>, lower: Seq<char>, upper: Seq<char>) -> bool {
    &&& ext.len() == lower.len()
    &&& forall|i: int| 0 <= i < ext.len() ==> #[trigger] ext[i] == lower[i] || ext[i] == upper[i]
}

/// The content type guessed from a path's extension (ASCII case ignored).
pub open spec fn content_type_spec(path: Seq<char>) -> Seq<char> {
    let e = extension_of(path);
    if ext_matches(e, "png"@, "PNG"@) {
        "image/png"@
    } else if ext_matches(e, "jpg"@, "JPG"@) || ext_matches(e, "jpeg"@, "JPEG"@) {
        "image/jpeg"@
    } else if ext_matches(e, "gif"@, "GIF"@) {
        "image/gif"@
    } else if ext_matches(e, "webp"@, "WEBP"@) {
        "image/webp"@
    } else if ext_matches(e, "avif"@, "AVIF"@) {
        "image/avif"@
    } else if ext_matches(e, "bmp"@, "BMP"@) {
        "image/bmp"@
    } else if ext_matches(e, "ico"@, "ICO"@) {
        "image/x-icon"@
    } else if ext_matches(e, "svg"@, "SVG"@) {
        "image/svg+xml"@
    } else {
        "application/octet-stream"@
    }
}

/// The characters of `cs` from position `from` on.
fn chars_from(cs: &Vec<char>, from: usize) -> (res: Vec<char>)
    requires
        from <= cs@.len(),
    ensures
        res@ == cs@.skip(from as int),
{
    let mut res: Vec<char> = Vec::new();
    let mut k: usize = from;
    while k < cs.len()
        invariant
            from <= k <= cs@.len(),
            res@ == cs@.subrange(from as int, k as int),
        decreases cs@.len() - k,
    {
        res.push(cs[k]);
        k = k + 1;
        assert(res@ =~= cs@.subrange(from as int, k as int));
    }
    assert(cs@.subrange(from as int, cs@.len() as int) =~= cs@.skip(from as int));
    res
}

/// The text after the last `.` of a path (see [`dot_suffix`]).
pub fn dot_suffix_chars(path: &str) -> (res: Vec<char>)
    ensures
        res@ == dot_suffix(path@),
{
    let cs = chars_of(path);
    match find_last(&cs, '.') {
        Some(i) => {
            assert(i < cs.len());
            chars_from(&cs, i + 1)
        },
        None => cs,
    }
}

/// The extension of a path (see [`extension_of`]).
pub fn extension(path: &str) -> (res: Vec<char>)
    ensures
        res@ == extension_of(path@),
{
    let cs = chars_of(path);
    match find_last(&cs, '.') {
        Some(i) => match find_last(&cs, '/') {
            Some(j) => {
                assert(i < cs.len());
                if j < i {
                    chars_from(&cs, i + 1)
                } else {
                    Vec::new()
                }
            },
            None => {
                assert(i < cs.len());
                chars_from(&cs, i + 1)
            },
        },
        None => Vec::new(),
    }
}

fn ext_matches_exec(ext: &Vec<char>, lower: &str, upper: &str) -> (res: bool)
    requires
        lower@.len() == upper@.len(),
    ensures
        res == ext_matches(ext@, lower@, upper@),
{
    let lo = chars_of(lower);
    let up = chars_of(upper);
    if ext.len() != lo.len() {
        return false;
    }
    let mut i: usize = 0;
    while i < ext.len()
        invariant
            i <= ext@.len(),
            ext@.len() == lo@.len() == up@.len(),
            lo@ == lower@,
            up@ == upper@,
            forall|k: int| 0 <= k < i ==> #[trigger] ext@[k] == lo@[k] || ext@[k] == up@[k],
        decreases ext@.len() - i,
    {
        if ext[i] != lo[i] && ext[i] != up[i] {
            return false;
        }
        i = i + 1;
    }
    true
}

/// Guesses a content type from a file's extension (for raw byte serving).
pub fn content_type_for(path: &str) -> (res: &'static str)
    ensures
        res@ == content_type_spec(path@),
{
    proof {
        reveal_strlit("png");
        reveal_strlit("PNG");
        reveal_strlit("jpg");
        reveal_strlit("JPG");
        reveal_strlit("jpeg");
        reveal_strlit("JPEG");
        reveal_strlit("gif");
        reveal_strlit("GIF");
        reveal_strlit("webp");
        reveal_strlit("WEBP");
        reveal_strlit("avif");
        reveal_strlit("AVIF");
        reveal_strlit("bmp");
        reveal_strlit("BMP");
        reveal_strlit("ico");
        reveal_strlit("ICO");
        reveal_strlit("svg");
        reveal_strlit("SVG");
    }
    let e = extension(path);
    if ext_matches_exec(&e, "png", "PNG") {
        "image/png"
    } else if ext_matches_exec(&e, "jpg", "JPG") || ext_matches_exec(&e, "jpeg", "JPEG") {
        "image/jpeg"
    } else if ext_matches_exec(&e, "gif", "GIF") {
        "image/gif"
    } else if ext_matches_exec(&e, "webp", "WEBP") {
        "image/webp"
    } else if ext_matches_exec(&e, "avif", "AVIF") {
        "image/avif"
    } else if ext_matches_exec(&e, "bmp", "BMP") {
        "image/bmp"
    } else if ext_matches_exec(&e, "ico", "ICO") {
        "image/x-icon"
    } else if ext_matches_exec(&e, "svg", "SVG") {
        "image/svg+xml"
    } else {
        "application/octet-stream"
    }
}

/// `s` begins with `prefix`.
pub open spec fn starts_with(s: Seq<char>, prefix: Seq<char>) -> bool {
    prefix.len() <= s.len() && s.take(prefix.len() as int) == prefix
}

/// Whether `s` begins with `prefix`.
pub fn starts_with_exec(s: &str, prefix: &str) -> (res: bool)
    ensures
        res == starts_with(s@, prefix@),
{
    let a = chars_of(s);
    let b = chars_of(prefix);
    if b.len() > a.len() {
        return false;
    }
    let mut i: usize = 0;
    while i < b.len()
        invariant
            i <= b@.len() <= a@.len(),
            a@ == s@,
            b@ == prefix@,
            a@.take(i as int) == b@.take(i as int),
        decreases b@.len() - i,
    {
        if a[i] != b[i] {
            assert(a@.take(b@.len() as int)[i as int] != b@[i as int]);
            return false;
        }
        assert(a@.take(i + 1) =~= a@.take(i as int).push(a@[i as int]));
        assert(b@.take(i + 1) =~= b@.take(i as int).push(b@[i as int]));
        i = i + 1;
    }
    assert(b@.take(b@.len() as int) =~= b@);
    true
}

/// Whether a path should be rendered as an image in the file view: its
/// content type is an `image/` one.
pub fn is_image_path(path: &str) -> (res: bool)
    ensures
        res == starts_with(content_type_spec(path@), "image/"@),
{
    starts_with_exec(content_type_for(path), "image/")
}

/// The directory prefix of a path (up to and including its last `/`, or
/// empty) and its basename.
pub open spec fn split_path_spec(path: Seq<char>) -> (Seq<char>, Seq<char>) {
    match last_index_of(path, '/') {
        Some(i) => (path.take(i + 1), path.skip(i + 1)),
        None => (seq![], path),
    }
}

/// Splits a path into its directory prefix (with trailing slash, or `""`)
/// and its basename.
pub fn split_path(path: &str) -> (res: (String, String))
    ensures
        (res.0@, res.1@) == split_path_spec(path@),
{
    let cs = chars_of(path);
    let n = cs.len();
    match find_last(&cs, '/') {
        Some(i) => {
            let dir = string_from_range(&cs, 0, i + 1);
            let base = string_from_range(&cs, i + 1, cs.len());
            assert(cs@.subrange(0, i + 1) =~= cs@.take(i + 1));
            assert(cs@.subrange(i + 1, cs@.len() as int) =~= cs@.skip(i + 1));
            (dir, base)
        },
        None => (String::new(), path.to_owned()),
    }
}

/// A directory path and a child name joined into a clean repo-relative path.
pub open spec fn join_path_spec(base: Seq<char>, name: Seq<char>) -> Seq<char> {
    let b = trim_slashes(base);
    if b.len() == 0 {
        name
    } else {
        b + seq!['/'] + name
    }
}

/// Joins a directory path and a child name into a clean repo-relative path.
pub fn join_path(base: &str, name: &str) -> (res: String)
    ensures
        res@ == join_path_spec(base@, name@),
{
    let b = trim_slashes_string(base);
    if b.as_str().unicode_len() == 0 {
        name.to_owned()
    } else {
        let mut res = b;
        crate::text::push_char(&mut res, '/');
        res.append(name);
        res
    }
}

/// `/repo/<repo>/tree` followed by `rest`.
pub open spec fn tree_url(repo: Seq<char>, rest: Seq<char>) -> Seq<char> {
    "/repo/"@ + repo + "/tree"@ + rest
}

/// One breadcrumb segment: its label and, unless it is the current file,
/// the tree URL it links to.
#[derive(Debug, Clone)]
pub struct Crumb {
    pub label: String,
    pub href: Option<String>,
}

/// The non-empty components of a `/`-separated path, among its first `n`
/// characters.
pub open spec fn segments_upto(s: Seq<char>, n: int) -> Seq<Seq<char>>
    decreases n,
{
    if n <= 0 {
        seq![]
    } else {
        match crate::paths::last_index_upto(s, '/', n) {
            Some(i) => if 0 <= i < n {
                let prev = segments_upto(s, i);
                if i + 1 < n {
                    prev.push(s.subrange(i + 1, n))
                } else {
                    prev
                }
            } else {
                seq![]
            },
            None => seq![s.take(n)],
        }
    }
}

/// The non-empty components of a `/`-separated path.
pub open spec fn segments(s: Seq<char>) -> Seq<Seq<char>> {
    segments_upto(s, s.len() as int)
}

/// The first `k + 1` segments joined by `/`.
pub open spec fn joined_prefix(segs: Seq<Seq<char>>, k: int) -> Seq<char>
    decreases k,
{
    if k <= 0 {
        segs[0]
    } else {
        joined_prefix(segs, k - 1) + seq!['/'] + segs[k]
    }
}

/// The breadcrumb segments for `path` in `repo`: one per path component,
/// labelled with the component and linking to the tree of the path up to it
/// (with the ref query `rq`); the last one has no link when it is a file.
pub open spec fn crumbs_spec(
    repo: Seq<char>,
    path: Seq<char>,
    rq: Seq<char>,
    leaf_is_file: bool,
    k: int,
) -> (Seq<char>, Option<Seq<char>>) {
    let segs = segments(path);
    (
        segs[k],
        if k == segs.len() - 1 && leaf_is_file {
            None
        } else {
            Some(tree_url(repo, seq!['/'] + joined_prefix(segs, k) + rq))
        },
    )
}

/// Each breadcrumb links to the tree of the path up to and including its
/// own component: the first links to its component alone, and every later
/// one links to the previous crumb's path followed by `/` and its own
/// component (so crumb `k` covers components `0..=k`).
pub proof fn lemma_crumb_links_accumulate(
    repo: Seq<char>,
    path: Seq<char>,
    rq: Seq<char>,
    leaf_is_file: bool,
    k: int,
)
    requires
        0 <= k < segments(path).len(),
    ensures
        crumbs_spec(repo, path, rq, leaf_is_file, k).0 == segments(path)[k],
        k == 0 && !(segments(path).len() == 1 && leaf_is_file) ==> crumbs_spec(
            repo,
            path,
            rq,
            leaf_is_file,
            k,
        ).1 == Some(tree_url(repo, seq!['/'] + segments(path)[0] + rq)),
        k > 0 ==> exists|prev: Seq<char>|
            crumbs_spec(repo, path, rq, false, k - 1).1 == Some(tree_url(repo, seq!['/'] + prev + rq))
                && crumbs_spec(repo, path, rq, false, k).1 == Some(
                tree_url(repo, seq!['/'] + prev + seq!['/'] + segments(path)[k] + rq),
            ),
{
    if k > 0 {
        let segs = segments(path);
        let prev = joined_prefix(segs, k - 1);
        assert(crumbs_spec(repo, path, rq, false, k - 1).1 == Some(tree_url(repo, seq!['/'] + prev + rq)));
        assert(seq!['/'] + joined_prefix(segs, k) + rq =~= seq!['/'] + prev + seq!['/'] + segs[k] + rq);
    }
}

proof fn lemma_last_upto_bound(s: Seq<char>, n: int)
    requires
        0 <= n <= s.len(),
    ensures
        match crate::paths::last_index_upto(s, '/', n) {
            Some(i) => 0 <= i < n && s[i] == '/',
            None => forall|k: int| 0 <= k < n ==> s[k] != '/',
        },
    decreases n,
{
    crate::paths::lemma_last_index_upto(s, '/', n);
}

/// The segments of `path`.
fn split_segments(path: &str) -> (res: Vec<String>)
    ensures
        crate::text::strings_view(res@) == segments(path@),
{
    let cs = chars_of(path);
    let mut res: Vec<String> = Vec::new();
    let mut start: usize = 0;
    let mut j: usize = 0;
    // Segments are read left to right; `start` is where the current one began.
    while j < cs.len()
        invariant
            start <= j <= cs@.len(),
            cs@ == path@,
            start == 0 || cs@[start - 1] == '/',
            forall|k: int| start <= k < j ==> cs@[k] != '/',
            crate::text::strings_view(res@) == segments_upto(cs@, if start == 0 { 0 } else { start - 1 }),
        decreases cs@.len() - j,
    {
        if cs[j] == '/' {
            proof {
                crate::paths::lemma_last_index_upto(cs@, '/', j + 1);
                lemma_segments_step(cs@, start as int, j as int);
            }
            if j > start {
                let seg = string_from_range(&cs, start, j);
                res.push(seg);
            }
            proof {
                assert(crate::text::strings_view(res@) =~= segments_upto(cs@, j as int));
            }
            start = j + 1;
        }
        j = j + 1;
    }
    proof {
        lemma_segments_end(cs@, start as int);
    }
    if cs.len() > start {
        let seg = string_from_range(&cs, start, cs.len());
        res.push(seg);
    }
    proof {
        assert(crate::text::strings_view(res@) =~= segments_upto(cs@, cs@.len() as int));
    }
    res
}

/// The link of the breadcrumb's root: the repository's top tree.
pub fn breadcrumb_root_url(repo: &str, ref_name: Option<&str>) -> (res: String)
    ensures
        res@ == tree_url(repo@, ref_query_spec(opt_str_view(ref_name))),
{
    let mut res = cat("/repo/", repo);
    res.append("/tree");
    let rq = ref_query(ref_name);
    res.append(rq.as_str());
    res
}

/// Breadcrumb navigation segments for `path` in `repo`: one per path
/// component, each linking to the tree up to it; the last one is a plain
/// label when it is a file.
pub fn breadcrumb_crumbs(repo: &str, path: &str, ref_name: Option<&str>, leaf_is_file: bool) -> (res:
    Vec<Crumb>)
    ensures
        res@.len() == segments(path@).len(),
        forall|k: int|
            0 <= k < res@.len() ==> ((#[trigger] res@[k]).label@, crate::text::opt_string_view(res@[k].href))
                == crumbs_spec(repo@, path@, ref_query_spec(opt_str_view(ref_name)), leaf_is_file, k),
{
    let segs = split_segments(path);
    let ghost sv = crate::text::strings_view(segs@);
    let rq = ref_query(ref_name);
    let mut res: Vec<Crumb> = Vec::new();
    let mut acc = String::new();
    let mut i: usize = 0;
    while i < segs.len()
        invariant
            i <= segs@.len(),
            sv == crate::text::strings_view(segs@),
            sv == segments(path@),
            rq@ == ref_query_spec(opt_str_view(ref_name)),
            res@.len() == i,
            i > 0 ==> acc@ == joined_prefix(sv, i - 1),
            forall|k: int|
                0 <= k < i ==> ((#[trigger] res@[k]).label@, crate::text::opt_string_view(res@[k].href))
                    == crumbs_spec(repo@, path@, rq@, leaf_is_file, k),
        decreases segs@.len() - i,
    {
        assert(sv[i as int] == segs@[i as int]@);
        if i == 0 {
            acc = segs[i].clone();
        } else {
            crate::text::push_char(&mut acc, '/');
            acc.append(segs[i].as_str());
        }
        assert(acc@ == joined_prefix(sv, i as int));
        let is_last = i + 1 == segs.len();
        let href = if is_last && leaf_is_file {
            None
        } else {
            let mut u = cat("/repo/", repo);
            u.append("/tree/");
            u.append(acc.as_str());
            u.append(rq.as_str());
            assert(u@ =~= tree_url(repo@, seq!['/'] + joined_prefix(sv, i as int) + rq@)) by {
                reveal_strlit("/tree/");
                reveal_strlit("/tree");
            }
            Some(u)
        };
        res.push(Crumb { label: segs[i].clone(), href });
        i = i + 1;
    }
    res
}

/// One step of reading the segments: at a `/` at position `j`, after the
/// segment that began at `start`.
proof fn lemma_segments_step(s: Seq<char>, start: int, j: int)
    requires
        0 <= start <= j < s.len(),
        s[j] == '/',
        start == 0 || s[start - 1] == '/',
        forall|k: int| start <= k < j ==> s[k] != '/',
    ensures
        segments_upto(s, j + 1) == (if j > start {
            segments_upto(s, if start == 0 { 0 } else { start - 1 }).push(s.subrange(start, j))
        } else {
            segments_upto(s, if start == 0 { 0 } else { start - 1 })
        }),
{
    assert(crate::paths::last_index_upto(s, '/', j + 1) == Some(j));
    lemma_segments_at(s, start, j);
}

/// The segments up to a `/` at position `j` (exclusive), when the segment
/// before it began at `start`.
proof fn lemma_segments_at(s: Seq<char>, start: int, j: int)
    requires
        0 <= start <= j <= s.len(),
        start == 0 || s[start - 1] == '/',
        forall|k: int| start <= k < j ==> s[k] != '/',
    ensures
        segments_upto(s, j) == (if j > start {
            segments_upto(s, if start == 0 { 0 } else { start - 1 }).push(s.subrange(start, j))
        } else {
            segments_upto(s, if start == 0 { 0 } else { start - 1 })
        }),
{
    if j > start {
        crate::paths::lemma_last_index_upto(s, '/', j);
        if start == 0 {
            assert(crate::paths::last_index_upto(s, '/', j) is None);
            assert(s.take(j) =~= s.subrange(0, j));
            assert(segments_upto(s, 0) =~= Seq::<Seq<char>>::empty());
            assert(Seq::<Seq<char>>::empty().push(s.subrange(0, j)) =~= seq![s.subrange(0, j)]);
        } else {
            assert(crate::paths::last_index_upto(s, '/', j) == Some(start - 1));
        }
    } else if start > 0 {
        // j == start: the text up to j ends with the slash at start - 1.
        crate::paths::lemma_last_index_upto(s, '/', j);
        assert(crate::paths::last_index_upto(s, '/', j) == Some(start - 1));
    }
}

proof fn lemma_segments_end(s: Seq<char>, start: int)
    requires
        0 <= start <= s.len(),
        start == 0 || s[start - 1] == '/',
        forall|k: int| start <= k < s.len() ==> s[k] != '/',
    ensures
        segments_upto(s, s.len() as int) == (if s.len() > start {
            segments_upto(s, if start == 0 { 0 } else { start - 1 }).push(s.subrange(start, s.len() as int))
        } else {
            segments_upto(s, if start == 0 { 0 } else { start - 1 })
        }),
{
    lemma_segments_at(s, start, s.len() as int);
}

} // verus!
