//! Lexicographic order on character sequences (by code point) and a stable
//! sort by key.

use vstd::prelude::*;

verus! {

/// `a` comes strictly before `b` in lexicographic order.
pub open spec fn seq_lt(a: Seq<char>, b: Seq<char>) -> bool
    decreases a.len(),
{
    if b.len() == 0 {
        false
    } else if a.len() == 0 {
        true
    } else if a[0] < b[0] {
        true
    } else if a[0] > b[0] {
        false
    } else {
        seq_lt(a.drop_first(), b.drop_first())
    }
}

/// No sequence comes strictly before itself.
pub proof fn lemma_seq_lt_irreflexive(a: Seq<char>)
    ensures
        !seq_lt(a, a),
    decreases a.len(),
{
    if a.len() > 0 {
        lemma_seq_lt_irreflexive(a.drop_first());
    }
}

/// Any two different sequences are ordered one way, and never both ways.
pub proof fn lemma_seq_lt_total(a: Seq<char>, b: Seq<char>)
    ensures
        a == b || seq_lt(a, b) || seq_lt(b, a),
        !(seq_lt(a, b) && seq_lt(b, a)),
    decreases a.len(),
{
    if a.len() > 0 && b.len() > 0 && a[0] == b[0] {
        lemma_seq_lt_total(a.drop_first(), b.drop_first());
        if a.drop_first() == b.drop_first() {
            assert(a =~= seq![a[0]] + a.drop_first());
            assert(b =~= seq![b[0]] + b.drop_first());
        }
    } else if a.len() == 0 && b.len() == 0 {
        assert(a =~= b);
    }
}

/// The lexicographic order is transitive.
pub proof fn lemma_seq_lt_transitive(a: Seq<char>, b: Seq<char>, c: Seq<char>)
    requires
        seq_lt(a, b),
        seq_lt(b, c),
    ensures
        seq_lt(a, c),
    decreases a.len(),
{
    if a.len() > 0 && b.len() > 0 && c.len() > 0 && a[0] == b[0] && b[0] == c[0] {
        lemma_seq_lt_transitive(a.drop_first(), b.drop_first(), c.drop_first());
    }
}

/// A sort key: keys with `first` set come before the others; within each
/// group, keys are in lexicographic order of `codes`.
pub struct SortKey {
    pub first: bool,
    pub codes: Vec<char>,
}

/// A sort key as a mathematical value.
pub struct SortKeyView {
    pub first: bool,
    pub codes: Seq<char>,
}

impl View for SortKey {
    type V = SortKeyView;

    open spec fn view(&self) -> SortKeyView {
        SortKeyView { first: self.first, codes: self.codes@ }
    }
}

/// The keys as mathematical values.
pub open spec fn keys_view(ks: Seq<SortKey>) -> Seq<SortKeyView> {
    ks.map_values(|k: SortKey| k@)
}

/// `a` sorts strictly before `b`.
pub open spec fn key_lt(a: SortKeyView, b: SortKeyView) -> bool {
    (a.first && !b.first) || (a.first == b.first && seq_lt(a.codes, b.codes))
}

/// The key order is transitive.
pub proof fn lemma_key_lt_transitive(a: SortKeyView, b: SortKeyView, c: SortKeyView)
    requires
        key_lt(a, b),
        key_lt(b, c),
    ensures
        key_lt(a, c),
{
    if a.first == b.first && b.first == c.first {
        lemma_seq_lt_transitive(a.codes, b.codes, c.codes);
    }
}

/// No two keys each sort before the other.
pub proof fn lemma_key_lt_asymmetric(a: SortKeyView, b: SortKeyView)
    ensures
        !(key_lt(a, b) && key_lt(b, a)),
{
    lemma_seq_lt_total(a.codes, b.codes);
}

/// Whether `a` comes strictly before `b`.
pub fn seq_lt_exec(a: &Vec<char>, b: &Vec<char>) -> (res: bool)
    ensures
        res == seq_lt(a@, b@),
{
    let mut i: usize = 0;
    assert(a@.skip(0) =~= a@);
    assert(b@.skip(0) =~= b@);
    while i < a.len() && i < b.len() && a[i] == b[i]
        invariant
            i <= a@.len(),
            i <= b@.len(),
            a@.take(i as int) == b@.take(i as int),
            seq_lt(a@, b@) == seq_lt(a@.skip(i as int), b@.skip(i as int)),
        decreases a@.len() - i,
    {
        assert(a@.skip(i as int).drop_first() =~= a@.skip(i + 1));
        assert(b@.skip(i as int).drop_first() =~= b@.skip(i + 1));
        assert(a@.take(i + 1) =~= a@.take(i as int).push(a@[i as int]));
        assert(b@.take(i + 1) =~= b@.take(i as int).push(b@[i as int]));
        i = i + 1;
    }
    if i == b.len() {
        false
    } else if i == a.len() {
        true
    } else {
        a[i] < b[i]
    }
}

/// Whether key `a` sorts strictly before key `b`.
pub fn key_lt_exec(a: &SortKey, b: &SortKey) -> (res: bool)
    ensures
        res == key_lt(a@, b@),
{
    (a.first && !b.first) || (a.first == b.first && seq_lt_exec(&a.codes, &b.codes))
}

/// `order` lists the positions `0..n` each once.
pub open spec fn is_permutation(order: Seq<usize>, n: nat) -> bool {
    &&& order.len() == n
    &&& order.no_duplicates()
    &&& forall|p: int| 0 <= p < order.len() ==> #[trigger] order[p] < n
}

/// `order` puts the keys in non-decreasing order, and keeps equal keys in
/// the order in which they were given.
pub open spec fn is_stable_sorted(order: Seq<usize>, keys: Seq<SortKeyView>) -> bool {
    &&& forall|p: int, q: int|
        0 <= p < q < order.len() ==> !key_lt(keys[#[trigger] order[q] as int], keys[#[trigger] order[p] as int])
    &&& forall|p: int, q: int|
        0 <= p < q < order.len() && !key_lt(keys[#[trigger] order[p] as int], keys[#[trigger] order[q] as int])
            ==> order[p] < order[q]
}

/// The positions of `keys` in the order of a stable sort by key.
pub fn stable_sort_order(keys: &Vec<SortKey>) -> (order: Vec<usize>)
    ensures
        is_permutation(order@, keys@.len()),
        is_stable_sorted(order@, keys_view(keys@)),
{
    let ghost kv = keys_view(keys@);
    let mut order: Vec<usize> = Vec::new();
    let mut i: usize = 0;
    while i < keys.len()
        invariant
            i <= keys@.len(),
            kv == keys_view(keys@),
            is_permutation(order@, i as nat),
            is_stable_sorted(order@, kv),
        decreases keys@.len() - i,
    {
        let mut pos: usize = 0;
        while pos < order.len() && !key_lt_exec(&keys[i], &keys[order[pos]])
            invariant
                i < keys@.len(),
                pos <= order@.len(),
                kv == keys_view(keys@),
                is_permutation(order@, i as nat),
                forall|p: int| 0 <= p < pos ==> !key_lt(kv[i as int], kv[#[trigger] order@[p] as int]),
            decreases order@.len() - pos,
        {
            pos = pos + 1;
        }
        let ghost old_order = order@;
        proof {
            if pos < old_order.len() {
                assert(key_lt(kv[i as int], kv[old_order[pos as int] as int]));
                assert forall|p: int| pos <= p < old_order.len() implies key_lt(
                    kv[i as int],
                    kv[#[trigger] old_order[p] as int],
                ) by {
                    if p > pos {
                        lemma_key_lt_asymmetric(
                            kv[old_order[pos as int] as int],
                            kv[old_order[p] as int],
                        );
                        lemma_seq_lt_total(
                            kv[old_order[pos as int] as int].codes,
                            kv[old_order[p] as int].codes,
                        );
                        if key_lt(kv[old_order[pos as int] as int], kv[old_order[p] as int]) {
                            lemma_key_lt_transitive(
                                kv[i as int],
                                kv[old_order[pos as int] as int],
                                kv[old_order[p] as int],
                            );
                        } else {
                            assert(kv[old_order[pos as int] as int].first
                                == kv[old_order[p] as int].first);
                            assert(kv[old_order[pos as int] as int].codes
                                == kv[old_order[p] as int].codes);
                        }
                    }
                }
            }
        }
        order.insert(pos, i);
        proof {
            let o = order@;
            assert(o == old_order.insert(pos as int, i));
            assert forall|p: int| 0 <= p < o.len() implies #[trigger] o[p] < i + 1 by {
                if p < pos {
                    assert(o[p] == old_order[p]);
                } else if p > pos {
                    assert(o[p] == old_order[p - 1]);
                }
            }
            assert forall|p: int, q: int| 0 <= p < o.len() && 0 <= q < o.len() && p != q implies o[p]
                != o[q] by {
                if p != pos as int && q != pos as int {
                    let pp = if p < pos { p } else { p - 1 };
                    let qq = if q < pos { q } else { q - 1 };
                    assert(o[p] == old_order[pp]);
                    assert(o[q] == old_order[qq]);
                } else if p == pos as int {
                    let qq = if q < pos { q } else { q - 1 };
                    assert(o[q] == old_order[qq]);
                    assert(old_order[qq] < i);
                } else {
                    let pp = if p < pos { p } else { p - 1 };
                    assert(o[p] == old_order[pp]);
                    assert(old_order[pp] < i);
                }
            }
            assert forall|p: int, q: int| 0 <= p < q < o.len() implies !key_lt(
                kv[#[trigger] o[q] as int],
                kv[#[trigger] o[p] as int],
            ) by {
                if q < pos {
                    assert(o[p] == old_order[p] && o[q] == old_order[q]);
                } else if q == pos as int {
                    assert(o[p] == old_order[p]);
                } else if p == pos as int {
                    assert(o[q] == old_order[q - 1]);
                    lemma_key_lt_asymmetric(kv[i as int], kv[old_order[q - 1] as int]);
                } else if p < pos {
                    assert(o[p] == old_order[p] && o[q] == old_order[q - 1]);
                } else {
                    assert(o[p] == old_order[p - 1] && o[q] == old_order[q - 1]);
                }
            }
            assert forall|p: int, q: int|
                0 <= p < q < o.len() && !key_lt(
                    kv[#[trigger] o[p] as int],
                    kv[#[trigger] o[q] as int],
                ) implies o[p] < o[q] by {
                if q < pos {
                    assert(o[p] == old_order[p] && o[q] == old_order[q]);
                } else if q == pos as int {
                    assert(o[p] == old_order[p]);
                    assert(old_order[p] < i);
                } else if p == pos as int {
                    assert(o[q] == old_order[q - 1]);
                    assert(key_lt(kv[i as int], kv[old_order[q - 1] as int]));
                } else if p < pos {
                    assert(o[p] == old_order[p] && o[q] == old_order[q - 1]);
                } else {
                    assert(o[p] == old_order[p - 1] && o[q] == old_order[q - 1]);
                }
            }
        }
        i = i + 1;
    }
    order
}

} // verus!
