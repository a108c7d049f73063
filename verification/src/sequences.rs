//! Finding the first element of a sequence that has some property.

use vstd::prelude::*;

verus! {

/// The index of the first element of `s` that satisfies `pred`.
pub open spec fn first_index<A>(s: Seq<A>, pred: spec_fn(A) -> bool) -> Option<int>
    decreases s.len(),
{
    if s.len() == 0 {
        None
    } else {
        match first_index(s.drop_last(), pred) {
            Some(i) => Some(i),
            None => if pred(s.last()) {
                Some(s.len() - 1)
            } else {
                None
            },
        }
    }
}

/// Whether `i` is the index of the first element of `s` that satisfies `pred`.
pub open spec fn is_first<A>(s: Seq<A>, pred: spec_fn(A) -> bool, i: int) -> bool {
    &&& 0 <= i < s.len()
    &&& pred(s[i])
    &&& forall|j: int| 0 <= j < i ==> !pred(#[trigger] s[j])
}

/// Whether no element of `s` satisfies `pred`.
pub open spec fn none_satisfy<A>(s: Seq<A>, pred: spec_fn(A) -> bool) -> bool {
    forall|j: int| 0 <= j < s.len() ==> !pred(#[trigger] s[j])
}

/// `first_index` finds the first element that satisfies the predicate, and
/// finds none only where there is none.
pub proof fn lemma_first_index<A>(s: Seq<A>, pred: spec_fn(A) -> bool)
    ensures
        match first_index(s, pred) {
            Some(i) => is_first(s, pred, i),
            None => none_satisfy(s, pred),
        },
    decreases s.len(),
{
    if s.len() > 0 {
        let front = s.drop_last();
        lemma_first_index(front, pred);
        assert(forall|j: int| 0 <= j < front.len() ==> front[j] == s[j]);
    }
}

/// An index that is the first to satisfy the predicate is what `first_index`
/// returns.
pub proof fn lemma_first_index_is<A>(s: Seq<A>, pred: spec_fn(A) -> bool, i: int)
    requires
        is_first(s, pred, i),
    ensures
        first_index(s, pred) == Some(i),
{
    lemma_first_index(s, pred);
}

/// Where no element satisfies the predicate, `first_index` returns `None`.
pub proof fn lemma_first_index_none<A>(s: Seq<A>, pred: spec_fn(A) -> bool)
    requires
        none_satisfy(s, pred),
    ensures
        first_index(s, pred) is None,
{
    lemma_first_index(s, pred);
}

/// What `first_index` returns once one more element is appended.
pub proof fn lemma_first_index_push<A>(s: Seq<A>, pred: spec_fn(A) -> bool, x: A)
    ensures
        first_index(s.push(x), pred) == (match first_index(s, pred) {
            Some(i) => Some(i),
            None => if pred(x) {
                Some(s.len() as int)
            } else {
                None
            },
        }),
{
    assert(s.push(x).drop_last() =~= s);
}

/// Whether every element of `s` satisfies `pred`.
pub open spec fn all_satisfy<A>(s: Seq<A>, pred: spec_fn(A) -> bool) -> bool {
    forall|j: int| 0 <= j < s.len() ==> pred(#[trigger] s[j])
}

/// What holds of every element of a sequence holds of every element that a
/// filter lets through.
pub proof fn lemma_filter_preserves<A>(
    s: Seq<A>,
    pred: spec_fn(A) -> bool,
    held: spec_fn(A) -> bool,
)
    requires
        all_satisfy(s, held),
    ensures
        all_satisfy(s.filter(pred), held),
        all_satisfy(s.filter(pred), pred),
{
    let kept = s.filter(pred);
    assert forall|j: int| 0 <= j < kept.len() implies held(#[trigger] kept[j]) && pred(kept[j]) by {
        assert(kept.contains(kept[j]));
        s.lemma_filter_contains_rev(pred, kept[j]);
        let k = choose|k: int| 0 <= k < s.len() && s[k] == kept[j];
        assert(held(s[k]));
    }
}

/// A filter lets a sequence through unchanged where every element satisfies
/// its predicate.
pub proof fn lemma_filter_all<A>(s: Seq<A>, pred: spec_fn(A) -> bool)
    requires
        all_satisfy(s, pred),
    ensures
        s.filter(pred) == s,
    decreases s.len(),
{
    if s.len() == 0 {
        s.lemma_filter_len(pred);
        assert(s.filter(pred) =~= s);
    } else {
        let front = s.drop_last();
        assert forall|j: int| 0 <= j < front.len() implies pred(#[trigger] front[j]) by {
            assert(front[j] == s[j]);
        }
        lemma_filter_all(front, pred);
        front.lemma_filter_push(s.last(), pred);
        assert(front.push(s.last()) =~= s);
    }
}

/// A filter lets nothing through where no element satisfies its predicate.
pub proof fn lemma_filter_none<A>(s: Seq<A>, pred: spec_fn(A) -> bool)
    requires
        none_satisfy(s, pred),
    ensures
        s.filter(pred) == Seq::<A>::empty(),
{
    s.lemma_all_neg_filter_empty(pred);
    assert(s.filter(pred) =~= Seq::<A>::empty());
}

} // verus!
