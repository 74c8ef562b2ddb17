//! Facts about what a filter keeps of a sequence.

use vstd::prelude::*;

verus! {

/// `places` tells where in `sup` the elements of `sub` stand: one place for
/// each, in rising order.
pub open spec fn stands_at<T>(sub: Seq<T>, sup: Seq<T>, places: Seq<int>) -> bool {
    &&& places.len() == sub.len()
    &&& forall|i: int|
        0 <= i < sub.len() ==> 0 <= #[trigger] places[i] < sup.len() && sup[places[i]] == sub[i]
    &&& forall|i: int, j: int| 0 <= i < j < sub.len() ==> places[i] < places[j]
}

/// `sub` is what is left of `sup` when some of its elements are struck out:
/// the elements of `sub` all stand in `sup`, in the same order.
pub open spec fn is_subsequence<T>(sub: Seq<T>, sup: Seq<T>) -> bool {
    exists|places: Seq<int>| stands_at(sub, sup, places)
}

/// A filter that every element passes keeps the sequence as it is.
pub proof fn lemma_filter_keeps_all<T>(s: Seq<T>, keep: spec_fn(T) -> bool)
    requires
        forall|i: int| 0 <= i < s.len() ==> keep(#[trigger] s[i]),
    ensures
        s.filter(keep) == s,
    decreases s.len(),
{
    reveal(Seq::filter);
    if s.len() > 0 {
        let front = s.drop_last();
        assert forall|i: int| 0 <= i < front.len() implies keep(#[trigger] front[i]) by {
            assert(front[i] == s[i]);
        }
        lemma_filter_keeps_all(front, keep);
    }
}

/// Of two filters, where the second passes whatever the first passes, the
/// first keeps a subsequence of what the second keeps.
pub proof fn lemma_filter_subsequence<T>(
    s: Seq<T>,
    narrow: spec_fn(T) -> bool,
    wide: spec_fn(T) -> bool,
)
    requires
        forall|i: int| 0 <= i < s.len() && narrow(#[trigger] s[i]) ==> wide(s[i]),
    ensures
        is_subsequence(s.filter(narrow), s.filter(wide)),
    decreases s.len(),
{
    reveal(Seq::filter);
    if s.len() == 0 {
        assert(stands_at(s.filter(narrow), s.filter(wide), Seq::<int>::empty()));
    } else {
        let front = s.drop_last();
        assert forall|i: int| 0 <= i < front.len() && narrow(#[trigger] front[i]) implies wide(
            front[i],
        ) by {
            assert(front[i] == s[i]);
        }
        lemma_filter_subsequence(front, narrow, wide);
        let sub = front.filter(narrow);
        let sup = front.filter(wide);
        let places = choose|places: Seq<int>| stands_at(sub, sup, places);
        if narrow(s.last()) {
            assert(stands_at(
                sub.push(s.last()),
                sup.push(s.last()),
                places.push(sup.len() as int),
            ));
        } else {
            assert(stands_at(sub, s.filter(wide), places));
        }
    }
}

} // verus!
