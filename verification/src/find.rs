use vstd::prelude::*;

verus! {

/// The views of a sequence of records.
pub open spec fn seq_view<T: View>(s: Seq<T>) -> Seq<T::V> {
    s.map_values(|x: T| x@)
}

/// Indexing a sequence of views is viewing the indexed record.
pub broadcast proof fn lemma_seq_view_index<T: View>(s: Seq<T>, i: int)
    requires
        0 <= i < s.len(),
    ensures
        #[trigger] seq_view(s)[i] == s[i]@,
{
}

/// Taking views preserves the length.
pub broadcast proof fn lemma_seq_view_len<T: View>(s: Seq<T>)
    ensures
        #[trigger] seq_view(s).len() == s.len(),
{
}

/// The first element of `s` satisfying `pred`, if any. Point lookups in the
/// storage engine are specified as instances of this function.
pub open spec fn find_first<T>(s: Seq<T>, pred: spec_fn(T) -> bool) -> Option<T>
    decreases s.len(),
{
    if s.len() == 0 {
        None
    } else if pred(s[0]) {
        Some(s[0])
    } else {
        find_first(s.drop_first(), pred)
    }
}

/// When nothing in `s` satisfies `pred`, the search misses.
pub proof fn lemma_find_first_none<T>(s: Seq<T>, pred: spec_fn(T) -> bool)
    requires
        forall|i: int| 0 <= i < s.len() ==> !pred(#[trigger] s[i]),
    ensures
        find_first(s, pred) is None,
    decreases s.len(),
{
    if s.len() > 0 {
        lemma_find_first_none(s.drop_first(), pred);
    }
}

/// When `s[i]` satisfies `pred` and nothing before it does, the search
/// returns exactly `s[i]`.
pub proof fn lemma_find_first_at<T>(s: Seq<T>, pred: spec_fn(T) -> bool, i: int)
    requires
        0 <= i < s.len(),
        pred(s[i]),
        forall|j: int| 0 <= j < i ==> !pred(#[trigger] s[j]),
    ensures
        find_first(s, pred) == Some(s[i]),
    decreases i,
{
    if i > 0 {
        lemma_find_first_at(s.drop_first(), pred, i - 1);
    }
}

/// Filtering keeps every property that held of each element.
pub proof fn lemma_filter_all<T>(s: Seq<T>, p: spec_fn(T) -> bool, pred: spec_fn(T) -> bool)
    requires
        forall|i: int| 0 <= i < s.len() ==> p(#[trigger] s[i]),
    ensures
        forall|i: int| 0 <= i < s.filter(pred).len() ==> p(#[trigger] s.filter(pred)[i]),
{
    let f = s.filter(pred);
    assert forall|i: int| 0 <= i < f.len() implies p(f[i]) by {
        assert(f.contains(f[i]));
        s.lemma_filter_contains_rev(pred, f[i]);
        let j = choose|j: int| 0 <= j < s.len() && s[j] == f[i];
        assert(p(s[j]));
    }
}

/// Filtering keeps every relation that held of each ordered pair of
/// elements.
pub proof fn lemma_filter_pairs<T>(s: Seq<T>, rel: spec_fn(T, T) -> bool, pred: spec_fn(T) -> bool)
    requires
        forall|i: int, j: int| 0 <= i < j < s.len() ==> rel(#[trigger] s[i], #[trigger] s[j]),
    ensures
        forall|i: int, j: int|
            0 <= i < j < s.filter(pred).len() ==> rel(
                #[trigger] s.filter(pred)[i],
                #[trigger] s.filter(pred)[j],
            ),
    decreases s.len(),
{
    reveal(Seq::filter);
    if s.len() > 0 {
        let dl = s.drop_last();
        assert(forall|i: int, j: int|
            0 <= i < j < dl.len() ==> rel(#[trigger] dl[i], #[trigger] dl[j]));
        lemma_filter_pairs(dl, rel, pred);
        if pred(s.last()) {
            let f = dl.filter(pred);
            assert forall|i: int| 0 <= i < f.len() implies rel(f[i], s.last()) by {
                assert(f.contains(f[i]));
                dl.lemma_filter_contains_rev(pred, f[i]);
                let j = choose|j: int| 0 <= j < dl.len() && dl[j] == f[i];
                assert(rel(s[j], s[s.len() - 1]));
            }
        }
    }
}

/// When exactly one element of `s` satisfies `pred`, the filter keeps
/// exactly that element.
pub proof fn lemma_filter_single<T>(s: Seq<T>, pred: spec_fn(T) -> bool, i: int)
    requires
        0 <= i < s.len(),
        pred(s[i]),
        forall|j: int| 0 <= j < s.len() && j != i ==> !pred(#[trigger] s[j]),
    ensures
        s.filter(pred) == seq![s[i]],
    decreases s.len(),
{
    reveal(Seq::filter);
    let dl = s.drop_last();
    if i == s.len() - 1 {
        dl.lemma_all_neg_filter_empty(pred);
        assert(s.filter(pred) =~= seq![s[i]]);
    } else {
        lemma_filter_single(dl, pred, i);
    }
}

/// An ordering key: a major component and a tie-breaker.
pub open spec fn key_lt(a: (int, int), b: (int, int)) -> bool {
    a.0 < b.0 || (a.0 == b.0 && a.1 < b.1)
}

/// `s` is strictly ascending under `key`.
pub open spec fn sorted_by<T>(s: Seq<T>, key: spec_fn(T) -> (int, int)) -> bool {
    forall|i: int, j: int| 0 <= i < j < s.len() ==> key_lt(key(#[trigger] s[i]), key(#[trigger] s[j]))
}

/// `s` is strictly descending under `key`.
pub open spec fn sorted_desc_by<T>(s: Seq<T>, key: spec_fn(T) -> (int, int)) -> bool {
    forall|i: int, j: int| 0 <= i < j < s.len() ==> key_lt(key(#[trigger] s[j]), key(#[trigger] s[i]))
}

/// Filtering keeps a strictly ascending sequence strictly ascending.
pub proof fn lemma_filter_sorted<T>(s: Seq<T>, key: spec_fn(T) -> (int, int), pred: spec_fn(T) -> bool)
    requires
        sorted_by(s, key),
    ensures
        sorted_by(s.filter(pred), key),
    decreases s.len(),
{
    reveal(Seq::filter);
    if s.len() > 0 {
        let dl = s.drop_last();
        assert(sorted_by(dl, key)) by {
            assert(forall|i: int| 0 <= i < dl.len() ==> dl[i] == s[i]);
        }
        lemma_filter_sorted(dl, key, pred);
        if pred(s.last()) {
            let f = dl.filter(pred);
            assert forall|i: int| 0 <= i < f.len() implies key_lt(key(f[i]), key(s.last())) by {
                assert(f.contains(f[i]));
                dl.lemma_filter_contains_rev(pred, f[i]);
                let j = choose|j: int| 0 <= j < dl.len() && dl[j] == f[i];
                assert(key_lt(key(s[j]), key(s[s.len() - 1])));
            }
        }
    }
}

/// Inserting an element between its neighbours keeps the sequence strictly
/// ascending.
pub proof fn lemma_insert_sorted<T>(s: Seq<T>, key: spec_fn(T) -> (int, int), x: T, i: int)
    requires
        sorted_by(s, key),
        0 <= i <= s.len(),
        forall|j: int| 0 <= j < i ==> key_lt(key(#[trigger] s[j]), key(x)),
        forall|j: int| i <= j < s.len() ==> key_lt(key(x), key(#[trigger] s[j])),
    ensures
        sorted_by(s.insert(i, x), key),
{
    let t = s.insert(i, x);
    assert forall|p: int, q: int| 0 <= p < q < t.len() implies key_lt(key(t[p]), key(t[q])) by {
        if p < i && q < i {
            assert(t[p] == s[p] && t[q] == s[q]);
        } else if p < i && q == i {
            assert(t[p] == s[p] && t[q] == x);
        } else if p < i && q > i {
            assert(t[p] == s[p] && t[q] == s[q - 1]);
        } else if p == i {
            assert(t[p] == x && t[q] == s[q - 1]);
        } else {
            assert(t[p] == s[p - 1] && t[q] == s[q - 1]);
        }
    }
}

/// Where a new element with key `k` belongs in `s`: the index of the first
/// element whose key exceeds `k`.
pub open spec fn insertion_point<T>(s: Seq<T>, key: spec_fn(T) -> (int, int), k: (int, int)) -> int
    decreases s.len(),
{
    if s.len() == 0 {
        0
    } else if key_lt(k, key(s[0])) {
        0
    } else {
        1 + insertion_point(s.drop_first(), key, k)
    }
}

/// The insertion point is in range; everything before it has a key at most
/// `k`, and the element at it (if any) has a key beyond `k`.
pub proof fn lemma_insertion_point<T>(s: Seq<T>, key: spec_fn(T) -> (int, int), k: (int, int))
    ensures
        0 <= insertion_point(s, key, k) <= s.len(),
        forall|j: int| 0 <= j < insertion_point(s, key, k) ==> !key_lt(k, key(#[trigger] s[j])),
        insertion_point(s, key, k) < s.len() ==> key_lt(k, key(s[insertion_point(s, key, k)])),
    decreases s.len(),
{
    if s.len() > 0 && !key_lt(k, key(s[0])) {
        lemma_insertion_point(s.drop_first(), key, k);
        assert(forall|j: int| 0 < j < s.len() ==> #[trigger] s[j] == s.drop_first()[j - 1]);
    }
}

/// The reverse of a strictly ascending sequence is strictly descending.
pub proof fn lemma_reverse_sorted<T>(s: Seq<T>, key: spec_fn(T) -> (int, int))
    requires
        sorted_by(s, key),
    ensures
        sorted_desc_by(s.reverse(), key),
{
    let r = s.reverse();
    assert forall|i: int, j: int| 0 <= i < j < r.len() implies key_lt(key(r[j]), key(r[i])) by {
        assert(r[i] == s[s.len() - 1 - i] && r[j] == s[s.len() - 1 - j]);
    }
}

} // verus!
