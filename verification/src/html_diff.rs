//! ID-keyed HTML patches: given the markup of a page before and after an
//! update, find the smallest set of elements (identified by their `id`
//! attribute) whose new outer HTML must be sent to the browser.
//!
//! Parsing is done by `scraper`; the parsed fragment is handed to the verified
//! code as a flat list of elements in document order, each with its `id`
//! attribute, its outer HTML and its depth in the tree.

use vstd::prelude::*;

use crate::text::{opt_string_view, strings_view};

verus! {

/// A patch: the element with this `id` must be replaced by `html`.
#[derive(Debug, Clone, PartialEq, Eq)]
pub struct Patch {
    pub id: String,
    pub html: String,
}

/// The mathematical value of a [`Patch`].
pub struct PatchView {
    pub id: Seq<char>,
    pub html: Seq<char>,
}

impl View for Patch {
    type V = PatchView;

    open spec fn view(&self) -> PatchView {
        PatchView { id: self.id@, html: self.html@ }
    }
}

/// One element of a parsed fragment, in document order.
#[derive(Debug, Clone)]
pub struct ElementRecord {
    /// The value of its `id` attribute, if it has one.
    pub id: Option<String>,
    /// Its outer HTML, as the parser serializes it.
    pub html: String,
    /// The number of its ancestors (nodes above it in the tree).
    pub depth: usize,
}

/// The mathematical value of an [`ElementRecord`].
pub struct ElementView {
    pub id: Option<Seq<char>>,
    pub html: Seq<char>,
    pub depth: nat,
}

impl View for ElementRecord {
    type V = ElementView;

    open spec fn view(&self) -> ElementView {
        ElementView { id: opt_string_view(self.id), html: self.html@, depth: self.depth as nat }
    }
}

pub open spec fn elements_view(es: Seq<ElementRecord>) -> Seq<ElementView> {
    es.map_values(|e: ElementRecord| e@)
}

pub open spec fn patches_view(ps: Seq<Patch>) -> Seq<PatchView> {
    ps.map_values(|p: Patch| p@)
}

/// The elements of the HTML fragment `html` as `scraper` parses it: every
/// element below the fragment's root (the root `html` element included), in
/// document order.
pub uninterp spec fn fragment_elements(html: Seq<char>) -> Seq<ElementView>;

/// Parses `html` as a fragment with `scraper::Html::parse_fragment` and lists
/// its elements in document order (`descendent_elements` of the root), with
/// each element's `id` attribute, its outer HTML (`ElementRef::html`) and its
/// number of ancestors. The contract only names the result.
#[verifier::external_body]
fn parse_fragment_elements(html: &str) -> (res: Vec<ElementRecord>)
    ensures
        elements_view(res@) == fragment_elements(html@),
{
    let doc = scraper::Html::parse_fragment(html);
    doc.root_element().descendent_elements().map(|e| ElementRecord {
        id: e.value().id().map(String::from),
        html: e.html(),
        depth: e.ancestors().count(),
    }).collect()
}

// ---------------------------------------------------------------------------
// The tree structure, read off the depths of a document-order listing
// ---------------------------------------------------------------------------

/// `j` lies in the subtree of `a` (and is not `a` itself).
pub open spec fn is_descendant(es: Seq<ElementView>, a: int, j: int) -> bool {
    &&& 0 <= a < j < es.len()
    &&& forall|k: int| a < k <= j ==> #[trigger] es[k].depth > es[a].depth
}

/// The nearest ancestor of `j` that has an `id`, searching the candidates
/// `k, k - 1, ..., 0`.
pub open spec fn id_ancestor_from(es: Seq<ElementView>, j: int, k: int) -> Option<int>
    decreases k + 1,
{
    if k < 0 {
        None
    } else if is_descendant(es, k, j) && es[k].id is Some {
        Some(k)
    } else {
        id_ancestor_from(es, j, k - 1)
    }
}

/// The nearest ancestor of `j` that has an `id`.
pub open spec fn nearest_id_ancestor(es: Seq<ElementView>, j: int) -> Option<int> {
    id_ancestor_from(es, j, j - 1)
}

/// `j` is an `id`-carrying descendant of `i` whose nearest `id`-carrying
/// ancestor has the same `id` as `i`, and whose own `id` differs from `i`'s.
pub open spec fn is_id_child(es: Seq<ElementView>, i: int, j: int) -> bool {
    &&& is_descendant(es, i, j)
    &&& es[j].id is Some
    &&& es[j].id != es[i].id
    &&& match nearest_id_ancestor(es, j) {
        Some(k) => es[k].id == es[i].id,
        None => false,
    }
}

/// The ids of the `id`-children of `i` among the first `n` elements, in
/// document order.
pub open spec fn id_children_upto(es: Seq<ElementView>, i: int, n: int) -> Seq<Seq<char>>
    decreases n,
{
    if n <= 0 {
        seq![]
    } else if is_id_child(es, i, n - 1) {
        id_children_upto(es, i, n - 1).push(es[n - 1].id.unwrap())
    } else {
        id_children_upto(es, i, n - 1)
    }
}

pub open spec fn id_children(es: Seq<ElementView>, i: int) -> Seq<Seq<char>> {
    id_children_upto(es, i, es.len() as int)
}

/// The first of the first `n` elements whose `id` is `id`.
pub open spec fn first_with_id_upto(es: Seq<ElementView>, id: Seq<char>, n: int) -> Option<int>
    decreases n,
{
    if n <= 0 {
        None
    } else {
        match first_with_id_upto(es, id, n - 1) {
            Some(k) => Some(k),
            None => if es[n - 1].id == Some(id) {
                Some(n - 1)
            } else {
                None
            },
        }
    }
}

/// The first element (in document order) whose `id` is `id`.
pub open spec fn first_with_id(es: Seq<ElementView>, id: Seq<char>) -> Option<int> {
    first_with_id_upto(es, id, es.len() as int)
}

/// The first of the first `n` elements that has an `id` at all.
pub open spec fn first_having_id_upto(es: Seq<ElementView>, n: int) -> Option<int>
    decreases n,
{
    if n <= 0 {
        None
    } else {
        match first_having_id_upto(es, n - 1) {
            Some(k) => Some(k),
            None => if es[n - 1].id is Some {
                Some(n - 1)
            } else {
                None
            },
        }
    }
}

pub open spec fn first_having_id(es: Seq<ElementView>) -> Option<int> {
    first_having_id_upto(es, es.len() as int)
}

// ---------------------------------------------------------------------------
// String replacement
// ---------------------------------------------------------------------------

/// `p` occurs in `s` at position `i`.
pub open spec fn occurs_at(s: Seq<char>, p: Seq<char>, i: int) -> bool {
    0 <= i && i + p.len() <= s.len() && s.subrange(i, i + p.len()) == p
}

/// `s` with the first occurrence of `p` replaced by `r` (`s` itself when `p`
/// does not occur).
pub open spec fn replace_first(s: Seq<char>, p: Seq<char>, r: Seq<char>) -> Seq<char> {
    if exists|i: int| occurs_at(s, p, i) {
        let i = choose|i: int|
            occurs_at(s, p, i) && forall|j: int| 0 <= j < i ==> !occurs_at(s, p, j);
        s.subrange(0, i) + r + s.subrange(i + p.len(), s.len() as int)
    } else {
        s
    }
}

/// Whether `p` occurs in `s` at position `i`.
fn occurs_at_exec(s: &Vec<char>, p: &Vec<char>, i: usize) -> (res: bool)
    ensures
        res == occurs_at(s@, p@, i as int),
{
    let n = s.len();
    if i > n || p.len() > n - i {
        return false;
    }
    let mut k: usize = 0;
    while k < p.len()
        invariant
            k <= p@.len(),
            n == s@.len(),
            i + p@.len() <= s@.len(),
            forall|t: int| 0 <= t < k ==> s@[i + t] == p@[t],
        decreases p@.len() - k,
    {
        if s[i + k] != p[k] {
            assert(s@.subrange(i as int, i + p@.len())[k as int] != p@[k as int]);
            return false;
        }
        k = k + 1;
    }
    assert(s@.subrange(i as int, i + p@.len()) =~= p@);
    true
}

/// Replaces the first occurrence of `from` in `s` by `to` (what
/// `str::replacen(s, from, to, 1)` computes).
fn replace_first_exec(s: &str, from: &str, to: &str) -> (res: String)
    ensures
        res@ == replace_first(s@, from@, to@),
{
    let sc = crate::text::chars_of(s);
    let pc = crate::text::chars_of(from);
    let n = sc.len();
    let m = pc.len();
    let mut i: usize = 0;
    if m <= n {
        let last = n - m;
        while i <= last
            invariant
                sc@ == s@,
                pc@ == from@,
                n == sc@.len(),
                m == pc@.len(),
                last == n - m,
                forall|j: int| 0 <= j < i ==> !occurs_at(s@, from@, j),
            ensures
                forall|j: int| 0 <= j <= last ==> !occurs_at(s@, from@, j),
            decreases last + 1 - i,
        {
            if occurs_at_exec(&sc, &pc, i) {
                proof {
                    let c = choose|c: int|
                        occurs_at(s@, from@, c) && forall|j: int| 0 <= j < c ==> !occurs_at(s@, from@, j);
                    assert(occurs_at(s@, from@, i as int));
                    if c < i {
                    } else if c > i {
                        assert(!occurs_at(s@, from@, i as int));
                    }
                }
                let mut res = crate::text::string_from_range(&sc, 0, i);
                res.append(to);
                let rest = crate::text::string_from_range(&sc, i + m, n);
                res.append(rest.as_str());
                return res;
            }
            if i == last {
                break;
            }
            i = i + 1;
        }
    }
    assert forall|j: int| !occurs_at(s@, from@, j) by {
        if 0 <= j && j + from@.len() <= s@.len() {
            assert(m <= n);
        }
    }
    s.to_owned()
}

/// Applies `replace_first` for each pair, in order.
pub open spec fn replace_pairs(s: Seq<char>, pairs: Seq<(Seq<char>, Seq<char>)>) -> Seq<char>
    decreases pairs.len(),
{
    if pairs.len() == 0 {
        s
    } else {
        let last = pairs.last();
        replace_first(replace_pairs(s, pairs.drop_last()), last.0, last.1)
    }
}

// ---------------------------------------------------------------------------
// The patch computation
// ---------------------------------------------------------------------------

/// The patch that replaces element `e` as a whole.
pub open spec fn self_patch(e: ElementView) -> Seq<PatchView> {
    match e.id {
        Some(id) => seq![PatchView { id: id, html: e.html }],
        None => seq![],
    }
}

/// The patches for old element `oi` becoming new element `ni`, or `None`
/// when the recursion would go deeper than `fuel` levels.
pub open spec fn diff_el(
    old: Seq<ElementView>,
    new: Seq<ElementView>,
    oi: int,
    ni: int,
    fuel: nat,
) -> Option<Seq<PatchView>>
    decreases fuel, 1nat, 0nat,
{
    if fuel == 0 {
        None
    } else if old[oi].html == new[ni].html {
        Some(seq![])
    } else {
        let cids = id_children(new, ni);
        match diff_children(old, new, cids, fuel) {
            None => None,
            Some(res) => {
                let (cps, pairs) = res;
                if cps.len() == 0 && cids.len() == 0 {
                    Some(self_patch(new[ni]))
                } else if replace_pairs(old[oi].html, pairs) == new[ni].html {
                    Some(cps)
                } else {
                    Some(self_patch(new[ni]))
                }
            },
        }
    }
}

/// Diffs, in order, the elements with the given ids that exist in both
/// documents; gives their patches and the (old, new) outer HTML pairs.
/// `None` when an id to look up is not a plain identifier (see
/// [`is_plain_ident`]) or the recursion would go deeper than `fuel`.
pub open spec fn diff_children(
    old: Seq<ElementView>,
    new: Seq<ElementView>,
    cids: Seq<Seq<char>>,
    fuel: nat,
) -> Option<(Seq<PatchView>, Seq<(Seq<char>, Seq<char>)>)>
    decreases fuel, 0nat, cids.len(),
{
    if cids.len() == 0 {
        Some((seq![], seq![]))
    } else {
        match diff_children(old, new, cids.drop_last(), fuel) {
            None => None,
            Some(prev) => {
                let (ps, prs) = prev;
                let cid = cids.last();
                if !is_plain_ident(cid) {
                    None
                } else {
                    match (first_with_id(old, cid), first_with_id(new, cid)) {
                        (Some(oc), Some(nc)) => {
                            if fuel == 0 {
                                None
                            } else if 0 <= oc < old.len() && 0 <= nc < new.len() {
                                match diff_el(old, new, oc, nc, (fuel - 1) as nat) {
                                    None => None,
                                    Some(cp) => Some((ps + cp, prs.push((old[oc].html, new[nc].html)))),
                                }
                            } else {
                                None
                            }
                        },
                        _ => Some((ps, prs)),
                    }
                }
            },
        }
    }
}

/// The patches that turn the elements `o` of a parsed fragment into the
/// elements `n` of another, starting from the first `id`-carrying element of
/// each (`None` where the computation is not defined).
pub open spec fn elements_diff(o: Seq<ElementView>, n: Seq<ElementView>) -> Option<Seq<PatchView>> {
    match (first_having_id(o), first_having_id(n)) {
        (Some(oi), Some(ni)) => diff_el(o, n, oi, ni, n.len()),
        _ => Some(seq![]),
    }
}

/// The patches that turn the markup `old_html` into `new_html`, when every
/// id looked up is a plain identifier and the recursion ends (`None`
/// otherwise).
pub open spec fn diff_result(old_html: Seq<char>, new_html: Seq<char>) -> Option<Seq<PatchView>> {
    if old_html == new_html {
        Some(seq![])
    } else {
        elements_diff(fragment_elements(old_html), fragment_elements(new_html))
    }
}

/// A character that can start a CSS name: an ASCII letter, `_`, or any
/// character outside ASCII.
pub open spec fn is_ident_start(c: char) -> bool {
    ('a' <= c && c <= 'z') || ('A' <= c && c <= 'Z') || c == '_' || c >= '\u{80}'
}

/// A character of a CSS name: a name start, an ASCII digit or `-`.
pub open spec fn is_ident_char(c: char) -> bool {
    is_ident_start(c) || ('0' <= c && c <= '9') || c == '-'
}

/// A plain CSS identifier (no escapes): name characters only, beginning with
/// a name start, or with `-` followed by a name start or another `-`. Then `#`
/// followed by it is a selector for exactly the elements with this `id`.
pub open spec fn is_plain_ident(s: Seq<char>) -> bool {
    &&& s.len() > 0
    &&& forall|i: int| 0 <= i < s.len() ==> is_ident_char(#[trigger] s[i])
    &&& (is_ident_start(s[0]) || (s[0] == '-' && s.len() > 1 && (is_ident_start(s[1]) || s[1] == '-')))
}

/// The inputs on which the patch computation is defined: every id looked
/// up is a plain identifier and the recursion ends.
pub open spec fn diffable(old_html: Seq<char>, new_html: Seq<char>) -> bool {
    diff_result(old_html, new_html) is Some
}

// ---------------------------------------------------------------------------
// Executable code
// ---------------------------------------------------------------------------

proof fn lemma_first_with_id_upto_bounds(es: Seq<ElementView>, id: Seq<char>, n: int)
    requires
        n <= es.len(),
    ensures
        first_with_id_upto(es, id, n) matches Some(k) ==> 0 <= k < n && es[k].id == Some(id),
    decreases n,
{
    if n > 0 {
        lemma_first_with_id_upto_bounds(es, id, n - 1);
    }
}

/// The index of the first element whose `id` is `id`.
fn find_first_with_id(es: &Vec<ElementRecord>, id: &String) -> (res: Option<usize>)
    ensures
        match res {
            Some(k) => k < es@.len() && first_with_id(elements_view(es@), id@) == Some(k as int),
            None => first_with_id(elements_view(es@), id@) is None,
        },
{
    let ghost ev = elements_view(es@);
    let mut k: usize = 0;
    while k < es.len()
        invariant
            k <= es@.len(),
            ev == elements_view(es@),
            first_with_id_upto(ev, id@, k as int) is None,
        decreases es@.len() - k,
    {
        let matches = match &es[k].id {
            Some(x) => x.eq(id),
            None => false,
        };
        assert(ev[k as int] == es@[k as int]@);
        assert(matches == (ev[k as int].id == Some(id@)));
        if matches {
            proof {
                lemma_first_with_id_upto_bounds(ev, id@, es@.len() as int);
                lemma_first_upto_stable(ev, id@, k as int + 1, es@.len() as int);
            }
            return Some(k);
        }
        k = k + 1;
    }
    None
}

proof fn lemma_first_upto_stable(es: Seq<ElementView>, id: Seq<char>, n: int, m: int)
    requires
        0 <= n <= m,
        first_with_id_upto(es, id, n) is Some,
    ensures
        first_with_id_upto(es, id, m) == first_with_id_upto(es, id, n),
    decreases m - n,
{
    if m > n {
        lemma_first_upto_stable(es, id, n, m - 1);
    }
}

proof fn lemma_first_having_upto_stable(es: Seq<ElementView>, n: int, m: int)
    requires
        0 <= n <= m,
        first_having_id_upto(es, n) is Some,
    ensures
        first_having_id_upto(es, m) == first_having_id_upto(es, n),
    decreases m - n,
{
    if m > n {
        lemma_first_having_upto_stable(es, n, m - 1);
    }
}

/// The index of the first element that has an `id`.
fn find_first_having_id(es: &Vec<ElementRecord>) -> (res: Option<usize>)
    ensures
        match res {
            Some(k) => k < es@.len() && first_having_id(elements_view(es@)) == Some(k as int),
            None => first_having_id(elements_view(es@)) is None,
        },
{
    let ghost ev = elements_view(es@);
    let mut k: usize = 0;
    while k < es.len()
        invariant
            k <= es@.len(),
            ev == elements_view(es@),
            first_having_id_upto(ev, k as int) is None,
        decreases es@.len() - k,
    {
        assert(ev[k as int] == es@[k as int]@);
        if es[k].id.is_some() {
            proof {
                lemma_first_having_upto_stable(ev, k as int + 1, es@.len() as int);
            }
            return Some(k);
        }
        k = k + 1;
    }
    None
}



pub open spec fn pairs_view(v: Seq<(String, String)>) -> Seq<(Seq<char>, Seq<char>)> {
    v.map_values(|p: (String, String)| (p.0@, p.1@))
}

/// Whether two optional strings are equal.
fn opt_string_eq(a: &Option<String>, b: &Option<String>) -> (res: bool)
    ensures
        res == (opt_string_view(*a) == opt_string_view(*b)),
{
    match (a, b) {
        (Some(x), Some(y)) => x.eq(y),
        (None, None) => true,
        _ => false,
    }
}

/// The nearest ancestor of element `j` that has an `id`.
fn find_nearest_id_ancestor(es: &Vec<ElementRecord>, j: usize) -> (res: Option<usize>)
    requires
        j < es@.len(),
    ensures
        match res {
            Some(k) => k < j && nearest_id_ancestor(elements_view(es@), j as int) == Some(k as int),
            None => nearest_id_ancestor(elements_view(es@), j as int) is None,
        },
{
    let ghost ev = elements_view(es@);
    let mut k: usize = j;
    let mut m: usize = es[j].depth;
    assert(ev[j as int].depth == m);
    while k > 0
        invariant
            k <= j < es@.len(),
            ev == elements_view(es@),
            forall|t: int| k <= t <= j ==> #[trigger] ev[t].depth >= m,
            exists|t: int| k <= t <= j && #[trigger] ev[t].depth == m,
            id_ancestor_from(ev, j as int, j - 1) == id_ancestor_from(ev, j as int, k - 1),
        decreases k,
    {
        let c = k - 1;
        assert(ev[c as int] == es@[c as int]@);
        let d = es[c].depth;
        proof {
            let t = choose|t: int| k <= t <= j && #[trigger] ev[t].depth == m;
            if is_descendant(ev, c as int, j as int) {
                assert(ev[t].depth > ev[c as int].depth);
            }
            if d < m {
                assert forall|t2: int| c < t2 <= j implies #[trigger] ev[t2].depth > ev[
                    c as int
                ].depth by {}
            }
        }
        if d < m && es[c].id.is_some() {
            return Some(c);
        }
        if d < m {
            m = d;
        }
        k = c;
    }
    None
}

proof fn lemma_id_children_before(es: Seq<ElementView>, i: int, n: int)
    requires
        n <= i + 1,
    ensures
        id_children_upto(es, i, n) == Seq::<Seq<char>>::empty(),
    decreases n,
{
    if n > 0 {
        lemma_id_children_before(es, i, n - 1);
    }
}

/// The ids of the `id`-children of element `i`, in document order.
fn find_id_children(es: &Vec<ElementRecord>, i: usize) -> (res: Vec<String>)
    requires
        i < es@.len(),
    ensures
        strings_view(res@) == id_children(elements_view(es@), i as int),
{
    let ghost ev = elements_view(es@);
    let mut res: Vec<String> = Vec::new();
    let n = es.len();
    let mut j: usize = i + 1;
    let mut within = true;
    proof {
        lemma_id_children_before(ev, i as int, j as int);
    }
    assert(ev[i as int] == es@[i as int]@);
    while j < es.len()
        invariant
            i < j <= es@.len(),
            ev == elements_view(es@),
            ev[i as int] == es@[i as int]@,
            within == (forall|k: int| i < k < j ==> #[trigger] ev[k].depth > ev[i as int].depth),
            strings_view(res@) == id_children_upto(ev, i as int, j as int),
        decreases es@.len() - j,
    {
        assert(ev[j as int] == es@[j as int]@);
        let desc = within && es[j].depth > es[i].depth;
        proof {
            if desc {
                assert forall|k: int| i < k <= j implies #[trigger] ev[k].depth > ev[
                    i as int
                ].depth by {}
            }
            if is_descendant(ev, i as int, j as int) {
                assert(ev[j as int].depth > ev[i as int].depth);
            }
        }
        assert(desc == is_descendant(ev, i as int, j as int));
        if desc {
            match &es[j].id {
                Some(idj) => {
                    if !opt_string_eq(&es[j].id, &es[i].id) {
                        match find_nearest_id_ancestor(es, j) {
                            Some(k) => {
                                assert(ev[k as int] == es@[k as int]@);
                                if opt_string_eq(&es[k].id, &es[i].id) {
                                    res.push(idj.clone());
                                    assert(strings_view(res@) =~= id_children_upto(
                                        ev,
                                        i as int,
                                        j as int,
                                    ).push(idj@));
                                }
                            },
                            None => {},
                        }
                    }
                },
                None => {},
            }
        }
        within = desc;
        j = j + 1;
    }
    res
}

proof fn lemma_children_none_extends(
    old: Seq<ElementView>,
    new: Seq<ElementView>,
    cids: Seq<Seq<char>>,
    n: int,
    fuel: nat,
)
    requires
        0 <= n <= cids.len(),
        diff_children(old, new, cids.take(n), fuel) is None,
    ensures
        diff_children(old, new, cids, fuel) is None,
    decreases cids.len() - n,
{
    if n < cids.len() {
        assert(cids.take(n + 1).drop_last() =~= cids.take(n));
        lemma_children_none_extends(old, new, cids, n + 1, fuel);
    } else {
        assert(cids.take(n) =~= cids);
    }
}

/// Appends the patch that replaces element `e` as a whole.
fn push_self_patch(e: &ElementRecord, patches: &mut Vec<Patch>)
    ensures
        patches_view(final(patches)@) == patches_view(old(patches)@) + self_patch(e@),
{
    match &e.id {
        Some(id) => {
            patches.push(Patch { id: id.clone(), html: e.html.clone() });
            assert(patches_view(patches@) =~= patches_view(old(patches)@) + self_patch(e@));
        },
        None => {
            assert(patches_view(patches@) =~= patches_view(old(patches)@) + self_patch(e@));
        },
    }
}

/// Appends to `patches` the patches for old element `oi` becoming new
/// element `ni`; `false` when the recursion would go deeper than `fuel`.
fn diff_element(
    old_els: &Vec<ElementRecord>,
    new_els: &Vec<ElementRecord>,
    oi: usize,
    ni: usize,
    fuel: usize,
    patches: &mut Vec<Patch>,
) -> (ok: bool)
    requires
        oi < old_els@.len(),
        ni < new_els@.len(),
    ensures
        ok == diff_el(elements_view(old_els@), elements_view(new_els@), oi as int, ni as int, fuel as nat)
            is Some,
        ok ==> patches_view(final(patches)@) == patches_view(old(patches)@) + diff_el(
            elements_view(old_els@),
            elements_view(new_els@),
            oi as int,
            ni as int,
            fuel as nat,
        ).unwrap(),
    decreases fuel,
{
    let ghost ov = elements_view(old_els@);
    let ghost nv = elements_view(new_els@);
    assert(ov[oi as int] == old_els@[oi as int]@);
    assert(nv[ni as int] == new_els@[ni as int]@);
    if fuel == 0 {
        return false;
    }
    if old_els[oi].html.eq(&new_els[ni].html) {
        assert(patches_view(patches@) =~= patches_view(old(patches)@) + seq![]);
        return true;
    }
    let cids = find_id_children(new_els, ni);
    let ghost cv = strings_view(cids@);
    let mut child_patches: Vec<Patch> = Vec::new();
    let mut pairs: Vec<(String, String)> = Vec::new();
    let mut k: usize = 0;
    assert(cv.take(0) =~= Seq::<Seq<char>>::empty());
    assert(patches_view(child_patches@) =~= Seq::<PatchView>::empty());
    assert(pairs_view(pairs@) =~= Seq::<(Seq<char>, Seq<char>)>::empty());
    while k < cids.len()
        invariant
            k <= cids@.len(),
            oi < old_els@.len(),
            ni < new_els@.len(),
            fuel > 0,
            ov[oi as int].html != nv[ni as int].html,
            ov == elements_view(old_els@),
            nv == elements_view(new_els@),
            cv == strings_view(cids@),
            cv == id_children(nv, ni as int),
            diff_children(ov, nv, cv.take(k as int), fuel as nat) == Some(
                (patches_view(child_patches@), pairs_view(pairs@)),
            ),
        decreases cids@.len() - k,
    {
        let ghost before_patches = child_patches@;
        let ghost before_pairs = pairs@;
        assert(cv.take(k + 1).drop_last() =~= cv.take(k as int));
        assert(cv.take(k + 1).last() == cv[k as int]);
        assert(cv[k as int] == cids@[k as int]@);
        if !is_plain_ident_exec(&cids[k]) {
            proof {
                assert(diff_children(ov, nv, cv.take(k + 1), fuel as nat) is None);
                lemma_children_none_extends(ov, nv, cv, k + 1, fuel as nat);
                assert(diff_el(ov, nv, oi as int, ni as int, fuel as nat) is None);
            }
            return false;
        }
        let oc = find_first_with_id(old_els, &cids[k]);
        let nc = find_first_with_id(new_els, &cids[k]);
        match (oc, nc) {
            (Some(oc), Some(nc)) => {
                let ok = diff_element(old_els, new_els, oc, nc, fuel - 1, &mut child_patches);
                if !ok {
                    proof {
                        assert(first_with_id(ov, cv[k as int]) == Some(oc as int));
                        assert(first_with_id(nv, cv[k as int]) == Some(nc as int));
                        assert(diff_children(ov, nv, cv.take(k + 1), fuel as nat) is None);
                        lemma_children_none_extends(ov, nv, cv, k + 1, fuel as nat);
                        assert(ov[oi as int].html != nv[ni as int].html);
                        assert(diff_el(ov, nv, oi as int, ni as int, fuel as nat) is None);
                    }
                    return false;
                }
                assert(ov[oc as int] == old_els@[oc as int]@);
                assert(nv[nc as int] == new_els@[nc as int]@);
                pairs.push((old_els[oc].html.clone(), new_els[nc].html.clone()));
                assert(pairs_view(pairs@) =~= pairs_view(before_pairs).push(
                    (ov[oc as int].html, nv[nc as int].html),
                ));
            },
            _ => {},
        }
        k = k + 1;
    }
    assert(cv.take(cids@.len() as int) =~= cv);
    if child_patches.len() == 0 && cids.len() == 0 {
        push_self_patch(&new_els[ni], patches);
        return true;
    }
    let mut simulated = old_els[oi].html.clone();
    let mut p: usize = 0;
    let ghost pv = pairs_view(pairs@);
    assert(pv.take(0) =~= Seq::<(Seq<char>, Seq<char>)>::empty());
    while p < pairs.len()
        invariant
            p <= pairs@.len(),
            oi < old_els@.len(),
            ov == elements_view(old_els@),
            pv == pairs_view(pairs@),
            simulated@ == replace_pairs(ov[oi as int].html, pv.take(p as int)),
        decreases pairs@.len() - p,
    {
        assert(pv.take(p + 1).drop_last() =~= pv.take(p as int));
        simulated = replace_first_exec(simulated.as_str(), pairs[p].0.as_str(), pairs[p].1.as_str());
        p = p + 1;
    }
    assert(pv.take(pairs@.len() as int) =~= pv);
    if simulated.eq(&new_els[ni].html) {
        let ghost before = patches@;
        let ghost cps = child_patches@;
        patches.append(&mut child_patches);
        assert(patches_view(patches@) =~= patches_view(before) + patches_view(cps));
    } else {
        push_self_patch(&new_els[ni], patches);
    }
    true
}

fn is_ident_start_exec(c: char) -> (res: bool)
    ensures
        res == is_ident_start(c),
{
    ('a' <= c && c <= 'z') || ('A' <= c && c <= 'Z') || c == '_' || c >= '\u{80}'
}

fn is_ident_char_exec(c: char) -> (res: bool)
    ensures
        res == is_ident_char(c),
{
    is_ident_start_exec(c) || ('0' <= c && c <= '9') || c == '-'
}

/// Whether `s` is a plain CSS identifier.
fn is_plain_ident_exec(s: &String) -> (res: bool)
    ensures
        res == is_plain_ident(s@),
{
    let cs = crate::text::chars_of(s.as_str());
    if cs.len() == 0 {
        return false;
    }
    let good_start = is_ident_start_exec(cs[0]) || (cs[0] == '-' && cs.len() > 1 && (
    is_ident_start_exec(cs[1]) || cs[1] == '-'));
    if !good_start {
        return false;
    }
    let mut i: usize = 0;
    while i < cs.len()
        invariant
            i <= cs@.len(),
            cs@ == s@,
            forall|k: int| 0 <= k < i ==> is_ident_char(#[trigger] cs@[k]),
        decreases cs@.len() - i,
    {
        if !is_ident_char_exec(cs[i]) {
            return false;
        }
        i = i + 1;
    }
    true
}

/// The patches that turn the elements `old` of a parsed fragment into the
/// elements `new` of another (see [`elements_diff`]), or `None` where that is
/// not defined.
pub fn diff_elements(old: &Vec<ElementRecord>, new: &Vec<ElementRecord>) -> (res: Option<Vec<Patch>>)
    ensures
        res is Some <==> elements_diff(elements_view(old@), elements_view(new@)) is Some,
        res matches Some(ps) ==> patches_view(ps@) == elements_diff(
            elements_view(old@),
            elements_view(new@),
        ).unwrap(),
{
    let old_root = find_first_having_id(old);
    let new_root = find_first_having_id(new);
    match (old_root, new_root) {
        (Some(oi), Some(ni)) => {
            let mut patches: Vec<Patch> = Vec::new();
            assert(patches_view(patches@) =~= Seq::<PatchView>::empty());
            let ok = diff_element(old, new, oi, ni, new.len(), &mut patches);
            if ok {
                assert(patches_view(patches@) =~= Seq::<PatchView>::empty() + elements_diff(
                    elements_view(old@),
                    elements_view(new@),
                ).unwrap());
                Some(patches)
            } else {
                None
            }
        },
        _ => {
            assert(patches_view(Seq::<Patch>::empty()) =~= Seq::<PatchView>::empty());
            Some(Vec::new())
        },
    }
}

/// The patches that turn the markup `old` into `new`, or `None` where the
/// computation is not defined (see [`diffable`]): an `id` that is not a plain
/// identifier would be looked up, or the lookups by `id` run in a cycle.
pub fn try_diff(old: &str, new: &str) -> (res: Option<Vec<Patch>>)
    ensures
        res is Some <==> diffable(old@, new@),
        res matches Some(ps) ==> patches_view(ps@) == diff_result(old@, new@).unwrap(),
{
    let a = old.to_owned();
    let b = new.to_owned();
    if a.eq(&b) {
        assert(patches_view(Seq::<Patch>::empty()) =~= Seq::<PatchView>::empty());
        return Some(Vec::new());
    }
    let old_els = parse_fragment_elements(old);
    let new_els = parse_fragment_elements(new);
    diff_elements(&old_els, &new_els)
}

/// The patch that replaces the first `id`-carrying element of `n` as a
/// whole (none when no element has an `id`).
pub open spec fn root_patch(n: Seq<ElementView>) -> Seq<PatchView> {
    match first_having_id(n) {
        Some(ni) => self_patch(n[ni]),
        None => seq![],
    }
}

/// The patches sent after an update: those of [`diff_result`] where it is
/// defined, else one patch replacing the new markup's root (its first
/// `id`-carrying element) as a whole.
pub fn update_patches(old: &str, new: &str) -> (res: Vec<Patch>)
    ensures
        diffable(old@, new@) ==> patches_view(res@) == diff_result(old@, new@).unwrap(),
        !diffable(old@, new@) ==> patches_view(res@) == root_patch(fragment_elements(new@)),
{
    match try_diff(old, new) {
        Some(ps) => ps,
        None => {
            let new_els = parse_fragment_elements(new);
            let mut patches: Vec<Patch> = Vec::new();
            assert(patches_view(patches@) =~= Seq::<PatchView>::empty());
            match find_first_having_id(&new_els) {
                Some(ni) => {
                    assert(elements_view(new_els@)[ni as int] == new_els@[ni as int]@);
                    push_self_patch(&new_els[ni], &mut patches);
                    assert(patches_view(patches@) =~= root_patch(fragment_elements(new@)));
                },
                None => {},
            }
            patches
        },
    }
}

/// Computes the patches needed to turn the markup `old` into `new`.
///
/// Patches are identified by element ids: the deepest changed elements that
/// have an `id` are sent with their new outer HTML; when a change lies outside
/// every `id`-carrying sub-element, the nearest `id`-carrying ancestor is sent
/// instead.
pub fn diff(old: &str, new: &str) -> (res: Vec<Patch>)
    requires
        diffable(old@, new@),
    ensures
        patches_view(res@) == diff_result(old@, new@).unwrap(),
{
    match try_diff(old, new) {
        Some(ps) => ps,
        None => Vec::new(),
    }
}

// ---------------------------------------------------------------------------
// Laws
// ---------------------------------------------------------------------------

/// Unchanged markup needs no patch.
pub proof fn lemma_diff_unchanged(html: Seq<char>)
    ensures
        diffable(html, html),
        diff_result(html, html) == Some(Seq::<PatchView>::empty()),
{
}

/// Without an `id`-carrying element on either side there is nothing to patch.
pub proof fn lemma_diff_without_ids(old_html: Seq<char>, new_html: Seq<char>)
    requires
        first_having_id(fragment_elements(old_html)) is None || first_having_id(
            fragment_elements(new_html),
        ) is None,
    ensures
        diffable(old_html, new_html),
        diff_result(old_html, new_html) == Some(Seq::<PatchView>::empty()),
{
}

/// `p` is the outer HTML of an element of `es`, under that element's `id`.
pub open spec fn patch_of_element(p: PatchView, es: Seq<ElementView>) -> bool {
    exists|j: int| 0 <= j < es.len() && es[j].id == Some(p.id) && es[j].html == p.html
}

/// Every patch is the new outer HTML of an element of `es`, under that
/// element's `id`.
pub open spec fn patches_from(ps: Seq<PatchView>, es: Seq<ElementView>) -> bool {
    forall|i: int| 0 <= i < ps.len() ==> patch_of_element(#[trigger] ps[i], es)
}

proof fn lemma_self_patch_from(es: Seq<ElementView>, ni: int)
    requires
        0 <= ni < es.len(),
    ensures
        patches_from(self_patch(es[ni]), es),
{
    let ps = self_patch(es[ni]);
    assert forall|i: int| 0 <= i < ps.len() implies patch_of_element(#[trigger] ps[i], es) by {
        assert(es[ni].id == Some(ps[i].id) && es[ni].html == ps[i].html);
    }
}

proof fn lemma_patches_from_concat(a: Seq<PatchView>, b: Seq<PatchView>, es: Seq<ElementView>)
    requires
        patches_from(a, es),
        patches_from(b, es),
    ensures
        patches_from(a + b, es),
{
    let c = a + b;
    assert forall|i: int| 0 <= i < c.len() implies patch_of_element(#[trigger] c[i], es) by {
        if i < a.len() {
            assert(c[i] == a[i]);
        } else {
            assert(c[i] == b[i - a.len()]);
        }
    }
}

proof fn lemma_diff_el_from(
    old: Seq<ElementView>,
    new: Seq<ElementView>,
    oi: int,
    ni: int,
    fuel: nat,
)
    requires
        0 <= ni < new.len(),
        diff_el(old, new, oi, ni, fuel) is Some,
    ensures
        patches_from(diff_el(old, new, oi, ni, fuel).unwrap(), new),
    decreases fuel, 1nat, 0nat,
{
    if old[oi].html != new[ni].html {
        let cids = id_children(new, ni);
        lemma_diff_children_from(old, new, cids, fuel);
        lemma_self_patch_from(new, ni);
    }
}

proof fn lemma_diff_children_from(
    old: Seq<ElementView>,
    new: Seq<ElementView>,
    cids: Seq<Seq<char>>,
    fuel: nat,
)
    ensures
        diff_children(old, new, cids, fuel) matches Some(r) ==> patches_from(r.0, new),
    decreases fuel, 0nat, cids.len(),
{
    if cids.len() > 0 {
        lemma_diff_children_from(old, new, cids.drop_last(), fuel);
        if let Some(prev) = diff_children(old, new, cids.drop_last(), fuel) {
            let cid = cids.last();
            match (first_with_id(old, cid), first_with_id(new, cid)) {
                (Some(oc), Some(nc)) => {
                    if fuel > 0 && 0 <= oc < old.len() && 0 <= nc < new.len() {
                        if diff_el(old, new, oc, nc, (fuel - 1) as nat) is Some {
                            lemma_diff_el_from(old, new, oc, nc, (fuel - 1) as nat);
                            lemma_patches_from_concat(
                                prev.0,
                                diff_el(old, new, oc, nc, (fuel - 1) as nat).unwrap(),
                                new,
                            );
                        }
                    }
                },
                _ => {},
            }
        }
    }
}

proof fn lemma_first_having_bounds(es: Seq<ElementView>, n: int)
    requires
        n <= es.len(),
    ensures
        first_having_id_upto(es, n) matches Some(k) ==> 0 <= k < n && es[k].id is Some,
    decreases n,
{
    if n > 0 {
        lemma_first_having_bounds(es, n - 1);
    }
}

/// Every patch carries the `id` and the new outer HTML of an element of the
/// new markup.
pub proof fn lemma_patches_come_from_new_markup(old_html: Seq<char>, new_html: Seq<char>)
    requires
        diffable(old_html, new_html),
    ensures
        patches_from(diff_result(old_html, new_html).unwrap(), fragment_elements(new_html)),
{
    let n = fragment_elements(new_html);
    if old_html != new_html {
        let o = fragment_elements(old_html);
        lemma_first_having_bounds(n, n.len() as int);
        match (first_having_id(o), first_having_id(n)) {
            (Some(oi), Some(ni)) => {
                lemma_diff_el_from(o, n, oi, ni, n.len());
            },
            _ => {},
        }
    }
}

proof fn lemma_id_ancestor_is(es: Seq<ElementView>, i: int, j: int, k: int)
    requires
        is_descendant(es, i, j),
        es[i].id is Some,
        forall|t: int| i < t < j && is_descendant(es, t, j) ==> (#[trigger] es[t].id) is None,
        i <= k < j,
    ensures
        id_ancestor_from(es, j, k) == Some(i),
    decreases k - i,
{
    if k > i {
        lemma_id_ancestor_is(es, i, j, k - 1);
    }
}

proof fn lemma_id_children_contain(es: Seq<ElementView>, i: int, j: int, n: int)
    requires
        is_id_child(es, i, j),
        j < n <= es.len(),
    ensures
        id_children_upto(es, i, n).contains(es[j].id.unwrap()),
    decreases n,
{
    if n - 1 == j {
        let prev = id_children_upto(es, i, n - 1);
        assert(id_children_upto(es, i, n) == prev.push(es[j].id.unwrap()));
        assert(id_children_upto(es, i, n)[prev.len() as int] == es[j].id.unwrap());
    } else {
        lemma_id_children_contain(es, i, j, n - 1);
        let prev = id_children_upto(es, i, n - 1);
        let k = choose|k: int| 0 <= k < prev.len() && prev[k] == es[j].id.unwrap();
        if is_id_child(es, i, n - 1) {
            assert(id_children_upto(es, i, n)[k] == es[j].id.unwrap());
        }
    }
}

/// An `id`-carrying descendant of an `id`-carrying element, with an `id` of
/// its own different from the element's and no `id`-carrying element
/// between them, is one of the element's `id`-children, however deep it is
/// nested below elements without an `id`.
pub proof fn lemma_nested_id_child(es: Seq<ElementView>, i: int, j: int)
    requires
        is_descendant(es, i, j),
        es[i].id is Some,
        es[j].id is Some,
        es[j].id != es[i].id,
        forall|t: int| i < t < j && is_descendant(es, t, j) ==> (#[trigger] es[t].id) is None,
    ensures
        id_children(es, i).contains(es[j].id.unwrap()),
{
    lemma_id_ancestor_is(es, i, j, j - 1);
    assert(nearest_id_ancestor(es, j) == Some(i));
    assert(is_id_child(es, i, j));
    lemma_id_children_contain(es, i, j, es.len() as int);
}

proof fn lemma_id_ancestor_found(es: Seq<ElementView>, j: int, s: int)
    ensures
        id_ancestor_from(es, j, s) matches Some(k) ==> {
            &&& k <= s
            &&& is_descendant(es, k, j)
            &&& es[k].id is Some
            &&& forall|t: int| k < t <= s ==> !(is_descendant(es, t, j) && (#[trigger] es[t].id) is Some)
        },
    decreases s + 1,
{
    if s >= 0 {
        lemma_id_ancestor_found(es, j, s - 1);
    }
}

proof fn lemma_id_children_from(es: Seq<ElementView>, i: int, n: int, c: Seq<char>)
    requires
        id_children_upto(es, i, n).contains(c),
    ensures
        exists|j: int| j < n && is_id_child(es, i, j) && #[trigger] es[j].id == Some(c),
    decreases n,
{
    if n > 0 {
        let prev = id_children_upto(es, i, n - 1);
        if is_id_child(es, i, n - 1) && es[n - 1].id == Some(c) {
        } else {
            if is_id_child(es, i, n - 1) {
                let cur = prev.push(es[n - 1].id.unwrap());
                let k = choose|k: int| 0 <= k < cur.len() && cur[k] == c;
                assert(k < prev.len());
                assert(prev[k] == c);
            }
            lemma_id_children_from(es, i, n - 1, c);
        }
    }
}

/// Every `id`-child of an element is an `id`-carrying descendant with an
/// `id` different from the element's, whose nearest `id`-carrying ancestor
/// (the element itself or one between them) carries the element's `id`.
pub proof fn lemma_id_children_are_nested(es: Seq<ElementView>, i: int, c: Seq<char>)
    requires
        id_children(es, i).contains(c),
    ensures
        exists|j: int, k: int|
            #![trigger es[j].id, es[k].id]
            is_descendant(es, i, j) && es[j].id == Some(c) && es[j].id != es[i].id && i <= k < j
                && (k == i || is_descendant(es, k, j)) && es[k].id is Some && es[k].id == es[i].id
                && forall|t: int| k < t < j && is_descendant(es, t, j) ==> (#[trigger] es[t].id) is None,
{
    lemma_id_children_from(es, i, es.len() as int, c);
    let j = choose|j: int| j < es.len() && is_id_child(es, i, j) && #[trigger] es[j].id == Some(c);
    lemma_id_ancestor_found(es, j, j - 1);
    let k = nearest_id_ancestor(es, j).unwrap();
    if k < i {
        assert(!(is_descendant(es, i, j) && es[i].id is Some));
    }
    assert forall|t: int| k < t < j && is_descendant(es, t, j) implies (#[trigger] es[t].id) is None by {
        assert(!(is_descendant(es, t, j) && es[t].id is Some));
    }
    assert(es[j].id == Some(c) && es[k].id == es[i].id);
}

} // verus!
