//! Shared facts about filtering sequences of command strings, used by the
//! history transform and the results search.

use vstd::prelude::*;

verus! {

/// One filtering step: extending a prefix by one element appends that
/// element to the filtered prefix exactly when it satisfies the predicate.
pub(crate) proof fn lemma_filter_take_step(
    s: Seq<Seq<char>>,
    pred: spec_fn(Seq<char>) -> bool,
    i: int,
)
    requires
        0 <= i < s.len(),
    ensures
        pred(s[i]) ==> s.take(i + 1).filter(pred) == s.take(i).filter(pred).push(s[i]),
        !pred(s[i]) ==> s.take(i + 1).filter(pred) == s.take(i).filter(pred),
{
    assert(s.take(i + 1) =~= s.take(i) + seq![s[i]]);
    Seq::filter_distributes_over_add(s.take(i), seq![s[i]], pred);
    reveal_with_fuel(Seq::<_>::filter, 2);
    assert(seq![s[i]].drop_last() =~= Seq::<Seq<char>>::empty());
    if pred(s[i]) {
        assert(s.take(i).filter(pred) + seq![s[i]] =~= s.take(i).filter(pred).push(s[i]));
    } else {
        assert(s.take(i).filter(pred) + seq![s[i]].filter(pred) =~= s.take(i).filter(pred));
    }
}

/// Filtering keeps a sequence unchanged when every element satisfies the
/// predicate.
pub(crate) proof fn lemma_filter_identity(s: Seq<Seq<char>>, pred: spec_fn(Seq<char>) -> bool)
    requires
        forall|i: int| 0 <= i < s.len() ==> pred(s[i]),
    ensures
        s.filter(pred) == s,
    decreases s.len(),
{
    reveal_with_fuel(Seq::<_>::filter, 1);
    if s.len() == 0 {
        assert(s.filter(pred) =~= s);
    } else {
        lemma_filter_identity(s.drop_last(), pred);
        assert(s.filter(pred) =~= s);
    }
}

} // verus!
