//! Paths as character sequences: joining, splitting at slashes, trimming.
//! Only `/` is a separator (Unix paths).

use vstd::prelude::*;

use crate::text::{chars_of, string_from_range};

verus! {

/// The position of the last `c` among the first `n` characters of `s`.
pub open spec fn last_index_upto(s: Seq<char>, c: char, n: int) -> Option<int>
    decreases n,
{
    if n <= 0 {
        None
    } else if s[n - 1] == c {
        Some(n - 1)
    } else {
        last_index_upto(s, c, n - 1)
    }
}

/// The position of the last `c` in `s`.
pub open spec fn last_index_of(s: Seq<char>, c: char) -> Option<int> {
    last_index_upto(s, c, s.len() as int)
}

/// `last_index_upto` finds a `c` with no `c` after it before position `n`,
/// or there is none before `n`.
pub proof fn lemma_last_index_upto(s: Seq<char>, c: char, n: int)
    requires
        n <= s.len(),
    ensures
        match last_index_upto(s, c, n) {
            Some(i) => 0 <= i < n && s[i] == c && forall|k: int| i < k < n ==> s[k] != c,
            None => forall|k: int| 0 <= k < n ==> s[k] != c,
        },
    decreases n,
{
    if n > 0 {
        lemma_last_index_upto(s, c, n - 1);
    }
}

/// The position of the last `c` in `cs`.
pub fn find_last(cs: &Vec<char>, c: char) -> (res: Option<usize>)
    ensures
        match res {
            Some(i) => i < cs@.len() && last_index_of(cs@, c) == Some(i as int),
            None => last_index_of(cs@, c) is None,
        },
{
    let mut n: usize = cs.len();
    while n > 0
        invariant
            n <= cs@.len(),
            last_index_of(cs@, c) == last_index_upto(cs@, c, n as int),
        decreases n,
    {
        if cs[n - 1] == c {
            return Some(n - 1);
        }
        n = n - 1;
    }
    None
}

/// `base` joined with `rest` as `PathBuf::push` does it on Unix: an absolute
/// `rest` replaces `base`; otherwise a `/` is put between them unless `base`
/// is empty or already ends with one.
pub open spec fn path_join(base: Seq<char>, rest: Seq<char>) -> Seq<char> {
    if rest.len() > 0 && rest[0] == '/' {
        rest
    } else if base.len() > 0 && base.last() != '/' {
        base + seq!['/'] + rest
    } else {
        base + rest
    }
}

/// `base` joined with `rest` (see [`path_join`]).
pub fn join(base: &str, rest: &str) -> (res: String)
    ensures
        res@ == path_join(base@, rest@),
{
    let b = chars_of(base);
    let r = chars_of(rest);
    if r.len() > 0 && r[0] == '/' {
        return rest.to_owned();
    }
    let mut res = base.to_owned();
    if b.len() > 0 && b[b.len() - 1] != '/' {
        crate::text::push_char(&mut res, '/');
    }
    res.append(rest);
    proof {
        if b@.len() > 0 {
            assert(b@.last() == b@[b@.len() - 1]);
        }
    }
    res
}

/// The last component of a path: the text after its last `/` (all of it
/// without a slash); `None` when that is empty. For canonical paths (no
/// trailing `/`, no `.` or `..` components) this is `Path::file_name`.
pub open spec fn file_name_of(p: Seq<char>) -> Option<Seq<char>> {
    let f = match last_index_of(p, '/') {
        Some(i) => p.skip(i + 1),
        None => p,
    };
    if f.len() == 0 {
        None
    } else {
        Some(f)
    }
}

/// The path without its last component: the text before the last `/`;
/// `None` without a slash or for the root itself.
pub open spec fn parent_of(p: Seq<char>) -> Option<Seq<char>> {
    match last_index_of(p, '/') {
        Some(i) => if p.len() == 1 {
            None
        } else {
            Some(p.take(i))
        },
        None => if p.len() == 0 {
            None
        } else {
            Some(seq![])
        },
    }
}

/// The last component of a path (see [`file_name_of`]).
pub fn file_name(p: &str) -> (res: Option<String>)
    ensures
        match res {
            Some(s) => file_name_of(p@) == Some(s@),
            None => file_name_of(p@) is None,
        },
{
    let cs = chars_of(p);
    let n = cs.len();
    let start: usize = match find_last(&cs, '/') {
        Some(i) => i + 1,
        None => 0,
    };
    if start == cs.len() {
        return None;
    }
    let f = string_from_range(&cs, start, cs.len());
    proof {
        assert(cs@.skip(start as int) =~= cs@.subrange(start as int, cs@.len() as int));
    }
    Some(f)
}

/// The name of the directory that contains `p` (the last component of its
/// parent), if any.
pub open spec fn parent_name_of(p: Seq<char>) -> Option<Seq<char>> {
    match parent_of(p) {
        Some(q) => file_name_of(q),
        None => None,
    }
}

/// The name of the directory that contains `p`.
pub fn parent_name(p: &str) -> (res: Option<String>)
    ensures
        match res {
            Some(s) => parent_name_of(p@) == Some(s@),
            None => parent_name_of(p@) is None,
        },
{
    let cs = chars_of(p);
    match find_last(&cs, '/') {
        Some(i) => {
            if cs.len() == 1 {
                return None;
            }
            let q = string_from_range(&cs, 0, i);
            proof {
                assert(cs@.take(i as int) =~= cs@.subrange(0, i as int));
            }
            file_name(q.as_str())
        },
        None => {
            if cs.len() == 0 {
                return None;
            }
            let q = String::new();
            proof {
                assert(parent_of(p@) == Some(Seq::<char>::empty()));
                assert(q@ =~= Seq::<char>::empty());
            }
            file_name(q.as_str())
        },
    }
}

/// `s` without leading and trailing `/` characters (`str::trim_matches('/')`).
pub open spec fn trim_slashes(s: Seq<char>) -> Seq<char> {
    let start = first_non_slash(s, 0);
    let end = last_non_slash_end(s, s.len() as int);
    if start >= end {
        seq![]
    } else {
        s.subrange(start, end)
    }
}

/// The first position at or after `i` that holds no `/` (`s.len()` if none).
pub open spec fn first_non_slash(s: Seq<char>, i: int) -> int
    decreases s.len() - i,
{
    if i >= s.len() {
        s.len() as int
    } else if s[i] != '/' {
        i
    } else {
        first_non_slash(s, i + 1)
    }
}

/// One past the last position before `n` that holds no `/` (0 if none).
pub open spec fn last_non_slash_end(s: Seq<char>, n: int) -> int
    decreases n,
{
    if n <= 0 {
        0
    } else if s[n - 1] != '/' {
        n
    } else {
        last_non_slash_end(s, n - 1)
    }
}

/// `s` without leading and trailing `/` characters.
pub fn trim_slashes_string(s: &str) -> (res: String)
    ensures
        res@ == trim_slashes(s@),
{
    let cs = chars_of(s);
    let mut start: usize = 0;
    while start < cs.len() && cs[start] == '/'
        invariant
            start <= cs@.len(),
            cs@ == s@,
            first_non_slash(cs@, 0) == first_non_slash(cs@, start as int),
        decreases cs@.len() - start,
    {
        start = start + 1;
    }
    let mut end: usize = cs.len();
    while end > 0 && cs[end - 1] == '/'
        invariant
            end <= cs@.len(),
            cs@ == s@,
            last_non_slash_end(cs@, cs@.len() as int) == last_non_slash_end(cs@, end as int),
        decreases end,
    {
        end = end - 1;
    }
    if start >= end {
        return String::new();
    }
    let res = string_from_range(&cs, start, end);
    res
}

} // verus!
