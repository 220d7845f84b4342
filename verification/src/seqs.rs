//! Facts about sequences and the models of vectors that the rest of the crate
//! leans on.

use vstd::prelude::*;

verus! {

/// Pushing onto a vector pushes the element's model onto the vector's model.
pub proof fn lemma_deep_view_push<T: DeepView>(before: Vec<T>, after: Vec<T>, last: T)
    requires
        after@ == before@.push(last),
    ensures
        after.deep_view() == before.deep_view().push(last.deep_view()),
{
    assert(after.deep_view() =~= before.deep_view().push(last.deep_view())) by {
        assert forall|j: int| 0 <= j < after@.len() implies after.deep_view()[j]
            == before.deep_view().push(last.deep_view())[j] by {
            if j < before@.len() {
                assert(after@[j] == before@[j]);
            } else {
                assert(after@[j] == last);
            }
        }
    }
}

/// Cutting a vector short cuts its model short by as much.
pub proof fn lemma_deep_view_take<T: DeepView>(before: Vec<T>, after: Vec<T>, n: int)
    requires
        0 <= n <= before@.len(),
        after@ == before@.take(n),
    ensures
        after.deep_view() == before.deep_view().take(n),
{
    assert(after.deep_view() =~= before.deep_view().take(n)) by {
        assert forall|j: int| 0 <= j < n implies after.deep_view()[j] == before.deep_view().take(
            n,
        )[j] by {
            assert(after@[j] == before@[j]);
        }
    }
}

/// Joining two vectors joins their models.
pub proof fn lemma_deep_view_add<T: DeepView>(front: Vec<T>, back: Vec<T>, joined: Vec<T>)
    requires
        joined@ == front@ + back@,
    ensures
        joined.deep_view() == front.deep_view() + back.deep_view(),
{
    assert(joined.deep_view() =~= front.deep_view() + back.deep_view()) by {
        assert forall|j: int| 0 <= j < joined@.len() implies joined.deep_view()[j] == (
        front.deep_view() + back.deep_view())[j] by {
            if j < front@.len() {
                assert(joined@[j] == front@[j]);
            } else {
                assert(joined@[j] == back@[j - front@.len()]);
            }
        }
    }
}

/// A sequence that holds the same elements as another, each as often, is as
/// long, holds nothing the other lacks, and repeats nothing unless the other
/// does.
pub proof fn lemma_rearranged<T>(before: Seq<T>, after: Seq<T>)
    requires
        after.to_multiset() == before.to_multiset(),
    ensures
        after.len() == before.len(),
        forall|j: int| 0 <= j < after.len() ==> before.contains(#[trigger] after[j]),
        before.no_duplicates() ==> after.no_duplicates(),
{
    vstd::seq_lib::to_multiset_len(before);
    vstd::seq_lib::to_multiset_len(after);
    assert forall|j: int| 0 <= j < after.len() implies before.contains(#[trigger] after[j]) by {
        assert(after.contains(after[j]));
        vstd::seq_lib::to_multiset_contains(after, after[j]);
        vstd::seq_lib::to_multiset_contains(before, after[j]);
    }
    if before.no_duplicates() {
        before.lemma_multiset_has_no_duplicates();
        after.lemma_multiset_has_no_duplicates_conv();
    }
}

/// Filtering by a test that every element passes changes nothing.
pub proof fn lemma_filter_all<T>(s: Seq<T>, pred: spec_fn(T) -> bool)
    requires
        forall|i: int| 0 <= i < s.len() ==> pred(#[trigger] s[i]),
    ensures
        s.filter(pred) == s,
    decreases s.len(),
{
    reveal(Seq::filter);
    if s.len() > 0 {
        lemma_filter_all(s.drop_last(), pred);
        assert(s.drop_last().push(s.last()) =~= s);
    } else {
        assert(s.filter(pred) =~= s);
    }
}

/// Filtering by a test that no element passes leaves nothing.
pub proof fn lemma_filter_none<T>(s: Seq<T>, pred: spec_fn(T) -> bool)
    requires
        forall|i: int| 0 <= i < s.len() ==> !pred(#[trigger] s[i]),
    ensures
        s.filter(pred).len() == 0,
    decreases s.len(),
{
    reveal(Seq::filter);
    if s.len() > 0 {
        lemma_filter_none(s.drop_last(), pred);
    }
}

/// Where the elements of a filtered sequence come from: the places, in
/// rising order, of all elements that pass the test.
pub proof fn lemma_filter_origin<T>(s: Seq<T>, pred: spec_fn(T) -> bool) -> (origin: Seq<int>)
    ensures
        origin.len() == s.filter(pred).len(),
        forall|j: int|
            0 <= j < origin.len() ==> 0 <= (#[trigger] origin[j]) < s.len() && s[origin[j]]
                == s.filter(pred)[j],
        forall|j: int, k: int| 0 <= j < k < origin.len() ==> origin[j] < origin[k],
        forall|i: int|
            0 <= i < s.len() && pred(#[trigger] s[i]) ==> exists|j: int|
                0 <= j < origin.len() && origin[j] == i,
    decreases s.len(),
{
    reveal(Seq::filter);
    if s.len() == 0 {
        Seq::empty()
    } else {
        let shorter = s.drop_last();
        let before = lemma_filter_origin(shorter, pred);
        let last = s.len() - 1;
        if pred(s.last()) {
            let origin = before.push(last);
            assert forall|i: int| 0 <= i < s.len() && pred(#[trigger] s[i]) implies exists|j: int|
                0 <= j < origin.len() && origin[j] == i by {
                if i < last {
                    assert(pred(shorter[i]));
                    let j = choose|j: int| 0 <= j < before.len() && before[j] == i;
                    assert(origin[j] == i);
                } else {
                    assert(origin[before.len() as int] == i);
                }
            }
            origin
        } else {
            assert forall|i: int| 0 <= i < s.len() && pred(#[trigger] s[i]) implies exists|j: int|
                0 <= j < before.len() && before[j] == i by {
                assert(pred(shorter[i]));
            }
            before
        }
    }
}

} // verus!
