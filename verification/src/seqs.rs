//! Facts about sequences that the loops of this crate lean on.
use vstd::prelude::*;

verus! {

/// One more element seen by a filtering loop.
pub proof fn filter_step<A>(s: Seq<A>, p: spec_fn(A) -> bool, i: int)
    requires
        0 <= i < s.len(),
    ensures
        s.take(i + 1).filter(p) == (if p(s[i]) {
            s.take(i).filter(p).push(s[i])
        } else {
            s.take(i).filter(p)
        }),
{
    assert(s.take(i + 1) == s.take(i).push(s[i]));
    s.take(i).lemma_filter_push(s[i], p);
}

/// Nothing has been seen before a filtering loop starts.
pub proof fn filter_none<A>(s: Seq<A>, p: spec_fn(A) -> bool)
    ensures
        s.take(0).filter(p) == Seq::<A>::empty(),
{
    reveal(Seq::filter);
}

/// What a filter keeps is what the predicate holds of.
pub proof fn filter_members<A>(s: Seq<A>, p: spec_fn(A) -> bool)
    ensures
        forall|x: A| #[trigger] s.filter(p).contains(x) <==> s.contains(x) && p(x),
    decreases s.len(),
{
    reveal(Seq::filter);
    if s.len() > 0 {
        let rest = s.drop_last();
        filter_members(rest, p);
        assert(s == rest.push(s.last()));
        assert forall|x: A| #[trigger] s.filter(p).contains(x) <==> s.contains(x) && p(x) by {
            if s.contains(x) && p(x) {
                if x == s.last() {
                    assert(s.filter(p)[s.filter(p).len() - 1] == x);
                } else {
                    let j = choose|j: int| 0 <= j < s.len() && s[j] == x;
                    assert(rest[j] == x);
                    assert(rest.filter(p).contains(x));
                    let k = choose|k: int| 0 <= k < rest.filter(p).len() && rest.filter(p)[k] == x;
                    assert(s.filter(p)[k] == x);
                }
            }
            if s.filter(p).contains(x) {
                let k = choose|k: int| 0 <= k < s.filter(p).len() && s.filter(p)[k] == x;
                if k < rest.filter(p).len() {
                    assert(rest.filter(p)[k] == x);
                    assert(rest.filter(p).contains(x));
                    let j = choose|j: int| 0 <= j < rest.len() && rest[j] == x;
                    assert(s[j] == x);
                } else {
                    assert(s[s.len() - 1] == x);
                }
            }
        }
    }
}

} // verus!
