use vstd::prelude::*;

verus! {

/// Filtering a sequence none of whose elements pass gives the empty sequence.
pub proof fn lemma_filter_none<T>(s: Seq<T>, pred: spec_fn(T) -> bool)
    requires
        forall|i: int| 0 <= i < s.len() ==> !pred(#[trigger] s[i]),
    ensures
        s.filter(pred) =~= Seq::<T>::empty(),
    decreases s.len(),
{
    reveal(Seq::filter);
    if s.len() > 0 {
        lemma_filter_none(s.drop_last(), pred);
        assert(!pred(s[s.len() - 1]));
    }
}

/// Filtering a sequence with an element inserted at `p`, and filtering it without.
pub proof fn lemma_filter_insert<T>(s: Seq<T>, p: int, x: T, pred: spec_fn(T) -> bool)
    requires
        0 <= p <= s.len(),
    ensures
        s.insert(p, x).filter(pred) == s.take(p).filter(pred) + (if pred(x) {
            seq![x]
        } else {
            Seq::empty()
        }) + s.skip(p).filter(pred),
        s.filter(pred) == s.take(p).filter(pred) + s.skip(p).filter(pred),
{
    assert(s.insert(p, x) =~= s.take(p) + (seq![x] + s.skip(p)));
    assert(s =~= s.take(p) + s.skip(p));
    Seq::filter_distributes_over_add(s.take(p), seq![x] + s.skip(p), pred);
    Seq::filter_distributes_over_add(s.take(p), s.skip(p), pred);
    s.skip(p).lemma_filter_prepend(x, pred);
    let head = if pred(x) {
        seq![x]
    } else {
        Seq::<T>::empty()
    };
    assert(s.take(p).filter(pred) + (head + s.skip(p).filter(pred)) =~= s.take(p).filter(pred)
        + head + s.skip(p).filter(pred));
}

} // verus!
