//! The request context a page is initialised from: the path parameters of the
//! matched route and the query-string values.

use vstd::prelude::*;

verus! {

/// The map that inserting `pairs` one after the other into an empty map
/// gives (a later pair with the same key wins).
pub open spec fn pairs_to_map(pairs: Seq<(Seq<char>, Seq<char>)>) -> Map<Seq<char>, Seq<char>>
    decreases pairs.len(),
{
    if pairs.len() == 0 {
        Map::empty()
    } else {
        pairs_to_map(pairs.drop_last()).insert(pairs.last().0, pairs.last().1)
    }
}

pub open spec fn string_pairs_view(v: Seq<(String, String)>) -> Seq<(Seq<char>, Seq<char>)> {
    v.map_values(|p: (String, String)| (p.0@, p.1@))
}

/// The key/value pairs of an `application/x-www-form-urlencoded` string as
/// `serde_urlencoded` decodes them, in order; `None` when it reports an error.
pub uninterp spec fn urlencoded_pairs(query: Seq<char>) -> Option<Seq<(Seq<char>, Seq<char>)>>;

/// Decodes a query string with `serde_urlencoded::from_str` into its
/// key/value pairs in order (deserializing into a map inserts the same pairs
/// in the same order). The contract only names the result.
#[verifier::external_body]
fn decode_query(query: &str) -> (res: Option<Vec<(String, String)>>)
    ensures
        match res {
            Some(v) => urlencoded_pairs(query@) == Some(string_pairs_view(v@)),
            None => urlencoded_pairs(query@) is None,
        },
{
    serde_urlencoded::from_str::<Vec<(String, String)>>(query).ok()
}

/// Request context handed to a page's `init`.
#[derive(Debug, Clone)]
pub struct PageContext {
    params: Vec<(String, String)>,
    query: Vec<(String, String)>,
}

/// The mathematical value of a [`PageContext`].
pub struct PageContextView {
    pub params: Map<Seq<char>, Seq<char>>,
    pub query: Map<Seq<char>, Seq<char>>,
}

impl View for PageContext {
    type V = PageContextView;

    closed spec fn view(&self) -> PageContextView {
        PageContextView {
            params: pairs_to_map(string_pairs_view(self.params@)),
            query: pairs_to_map(string_pairs_view(self.query@)),
        }
    }
}

/// A path parameter of a context, or the empty text when absent.
pub open spec fn param_or_empty_spec(ctx: PageContextView, key: Seq<char>) -> Seq<char> {
    if ctx.params.contains_key(key) {
        ctx.params[key]
    } else {
        Seq::<char>::empty()
    }
}

/// The query map of a context made from `raw_query`.
pub open spec fn query_map(raw_query: Option<Seq<char>>) -> Map<Seq<char>, Seq<char>> {
    match raw_query {
        Some(q) => match urlencoded_pairs(q) {
            Some(pairs) => pairs_to_map(pairs),
            None => Map::empty(),
        },
        None => Map::empty(),
    }
}

proof fn lemma_lookup_last(pairs: Seq<(Seq<char>, Seq<char>)>, key: Seq<char>, n: int)
    requires
        0 <= n <= pairs.len(),
        forall|k: int| n <= k < pairs.len() ==> #[trigger] pairs[k].0 != key,
    ensures
        pairs_to_map(pairs).contains_key(key) == pairs_to_map(pairs.take(n)).contains_key(key),
        pairs_to_map(pairs)[key] == pairs_to_map(pairs.take(n))[key],
    decreases pairs.len() - n,
{
    if n < pairs.len() {
        let p1 = pairs.take(n + 1);
        assert(p1.drop_last() =~= pairs.take(n));
        lemma_lookup_last(pairs, key, n + 1);
    } else {
        assert(pairs.take(n) =~= pairs);
    }
}

/// Looks `key` up in a list of pairs; the last pair with that key wins.
fn lookup<'a>(pairs: &'a Vec<(String, String)>, key: &str) -> (res: Option<&'a str>)
    ensures
        res is Some <==> pairs_to_map(string_pairs_view(pairs@)).contains_key(key@),
        res matches Some(v) ==> v@ == pairs_to_map(string_pairs_view(pairs@))[key@],
{
    let ghost pv = string_pairs_view(pairs@);
    let k = key.to_owned();
    let mut i: usize = pairs.len();
    while i > 0
        invariant
            i <= pairs@.len(),
            pv == string_pairs_view(pairs@),
            k@ == key@,
            forall|t: int| i <= t < pairs@.len() ==> #[trigger] pv[t].0 != key@,
        decreases i,
    {
        let j = i - 1;
        assert(pv[j as int] == (pairs@[j as int].0@, pairs@[j as int].1@));
        if pairs[j].0.eq(&k) {
            proof {
                lemma_lookup_last(pv, key@, i as int);
                assert(pv.take(i as int).drop_last() =~= pv.take(j as int));
                assert(pv.take(i as int).last() == pv[j as int]);
            }
            return Some(pairs[j].1.as_str());
        }
        i = j;
    }
    proof {
        lemma_lookup_last(pv, key@, 0);
        assert(pv.take(0) =~= Seq::<(Seq<char>, Seq<char>)>::empty());
    }
    None
}

impl PageContext {
    /// A context from the route's path parameters (in the order the router
    /// gives them) and the raw query string, if any. A query string that does
    /// not decode gives no query values.
    pub fn new(raw_params: Vec<(String, String)>, raw_query: Option<&str>) -> (res: Self)
        ensures
            res@.params == pairs_to_map(string_pairs_view(raw_params@)),
            res@.query == query_map(
                match raw_query {
                    Some(q) => Some(q@),
                    None => None,
                },
            ),
    {
        let query = match raw_query {
            Some(q) => match decode_query(q) {
                Some(pairs) => pairs,
                None => Vec::new(),
            },
            None => Vec::new(),
        };
        proof {
            assert(string_pairs_view(Seq::<(String, String)>::empty()) =~= Seq::<
                (Seq<char>, Seq<char>),
            >::empty());
        }
        PageContext { params: raw_params, query }
    }

    /// The empty context: no path parameters, no query values.
    pub fn empty() -> (res: Self)
        ensures
            res@.params == Map::<Seq<char>, Seq<char>>::empty(),
            res@.query == Map::<Seq<char>, Seq<char>>::empty(),
    {
        let res = PageContext { params: Vec::new(), query: Vec::new() };
        proof {
            assert(string_pairs_view(res.params@) =~= Seq::<(Seq<char>, Seq<char>)>::empty());
            assert(string_pairs_view(res.query@) =~= Seq::<(Seq<char>, Seq<char>)>::empty());
        }
        res
    }

    /// A path parameter, e.g. `{repo}` in `/repo/{repo}/tree/{*path}`.
    pub fn param(&self, key: &str) -> (res: Option<&str>)
        ensures
            res is Some <==> self@.params.contains_key(key@),
            res matches Some(v) ==> v@ == self@.params[key@],
    {
        lookup(&self.params, key)
    }

    /// A path parameter, or `""` if absent (handy for optional wildcards).
    pub fn param_or_empty(&self, key: &str) -> (res: &str)
        ensures
            res@ == (if self@.params.contains_key(key@) {
                self@.params[key@]
            } else {
                Seq::<char>::empty()
            }),
    {
        match self.param(key) {
            Some(v) => v,
            None => {
                proof {
                    reveal_strlit("");
                }
                ""
            },
        }
    }

    /// A query-string value, e.g. `?q=foo`.
    pub fn query(&self, key: &str) -> (res: Option<&str>)
        ensures
            res is Some <==> self@.query.contains_key(key@),
            res matches Some(v) ==> v@ == self@.query[key@],
    {
        lookup(&self.query, key)
    }
}

impl Default for PageContext {
    fn default() -> (res: Self)
        ensures
            res@.params == Map::<Seq<char>, Seq<char>>::empty(),
            res@.query == Map::<Seq<char>, Seq<char>>::empty(),
    {
        PageContext::empty()
    }
}

} // verus!
