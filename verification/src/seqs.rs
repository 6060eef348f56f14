//! Sequence filtering stated the way the loops that implement it run: one
//! element at a time from the front.

use vstd::prelude::*;

verus! {

/// The elements of `s` that satisfy `keep`, in order.
pub open spec fn retained<A>(s: Seq<A>, keep: spec_fn(A) -> bool) -> Seq<A>
    decreases s.len(),
{
    if s.len() == 0 {
        seq![]
    } else if keep(s.last()) {
        retained(s.drop_last(), keep).push(s.last())
    } else {
        retained(s.drop_last(), keep)
    }
}

/// One more element of `s` considered: how `retained` grows along a loop.
pub proof fn lemma_retained_step<A>(s: Seq<A>, keep: spec_fn(A) -> bool, i: int)
    requires
        0 <= i < s.len(),
    ensures
        retained(s.take(i + 1), keep) == if keep(s[i]) {
            retained(s.take(i), keep).push(s[i])
        } else {
            retained(s.take(i), keep)
        },
{
    assert(s.take(i + 1).drop_last() =~= s.take(i));
    assert(s.take(i + 1).last() == s[i]);
}

/// `retained` over the whole sequence is `retained` over its full prefix.
pub proof fn lemma_take_all<A>(s: Seq<A>)
    ensures
        s.take(s.len() as int) == s,
{
    assert(s.take(s.len() as int) =~= s);
}

/// Nothing is retained from the empty prefix.
pub proof fn lemma_take_none<A>(s: Seq<A>, keep: spec_fn(A) -> bool)
    ensures
        retained(s.take(0), keep) == Seq::<A>::empty(),
{
    assert(s.take(0) =~= Seq::<A>::empty());
    assert(retained(s.take(0), keep) =~= Seq::<A>::empty());
}

/// Every retained element satisfies `keep` and was in `s`.
pub proof fn lemma_retained_members<A>(s: Seq<A>, keep: spec_fn(A) -> bool)
    ensures
        forall|i: int| 0 <= i < retained(s, keep).len() ==> keep(#[trigger] retained(s, keep)[i]),
        forall|i: int| 0 <= i < retained(s, keep).len() ==> s.contains(#[trigger] retained(s, keep)[i]),
        retained(s, keep).len() <= s.len(),
    decreases s.len(),
{
    if s.len() > 0 {
        let t = s.drop_last();
        lemma_retained_members(t, keep);
        let r = retained(s, keep);
        assert forall|i: int| 0 <= i < r.len() implies s.contains(#[trigger] r[i]) by {
            if keep(s.last()) && i == r.len() - 1 {
                assert(s[s.len() - 1] == r[i]);
            } else {
                assert(retained(t, keep)[i] == r[i]);
                let j = choose|j: int| 0 <= j < t.len() && t[j] == r[i];
                assert(s[j] == r[i]);
            }
        }
    }
}


/// Every element of `s` that satisfies `keep` is retained.
pub proof fn lemma_retained_keeps<A>(s: Seq<A>, keep: spec_fn(A) -> bool)
    ensures
        forall|i: int| 0 <= i < s.len() && keep(#[trigger] s[i]) ==> retained(s, keep).contains(s[i]),
    decreases s.len(),
{
    if s.len() > 0 {
        let t = s.drop_last();
        lemma_retained_keeps(t, keep);
        let r = retained(s, keep);
        assert forall|i: int| 0 <= i < s.len() && keep(#[trigger] s[i]) implies r.contains(s[i]) by {
            if i == s.len() - 1 {
                assert(r[r.len() - 1] == s[i]);
            } else {
                assert(t[i] == s[i]);
                let rt = retained(t, keep);
                assert(rt.contains(t[i]));
                let j = choose|j: int| 0 <= j < rt.len() && rt[j] == t[i];
                if keep(s.last()) {
                    assert(r == rt.push(s.last()));
                    assert(r[j] == rt[j]);
                } else {
                    assert(r == rt);
                }
            }
        }
    }
}

} // verus!
