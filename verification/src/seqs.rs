//! Sequence helpers shared by the protocol and pool logic: a recursive
//! filter written to line up with the accumulating loops that implement it.

use vstd::prelude::*;

verus! {

/// The subsequence of `s` whose elements satisfy `p`, in order.
pub open spec fn filtered<A>(s: Seq<A>, p: spec_fn(A) -> bool) -> Seq<A>
    decreases s.len(),
{
    if s.len() == 0 {
        Seq::empty()
    } else if p(s.last()) {
        filtered(s.drop_last(), p).push(s.last())
    } else {
        filtered(s.drop_last(), p)
    }
}

/// Stepping a filter one element forward, as an accumulating loop does.
pub proof fn lemma_filtered_step<A>(s: Seq<A>, p: spec_fn(A) -> bool, i: int)
    requires
        0 <= i < s.len(),
    ensures
        filtered(s.take(i + 1), p) == if p(s[i]) {
            filtered(s.take(i), p).push(s[i])
        } else {
            filtered(s.take(i), p)
        },
{
    assert(s.take(i + 1).drop_last() =~= s.take(i));
    assert(s.take(i + 1).last() == s[i]);
}

/// Filtering distributes over concatenation.
pub proof fn lemma_filtered_concat<A>(a: Seq<A>, b: Seq<A>, p: spec_fn(A) -> bool)
    ensures
        filtered(a + b, p) == filtered(a, p) + filtered(b, p),
    decreases b.len(),
{
    if b.len() == 0 {
        assert(a + b =~= a);
        assert(filtered(a, p) + filtered(b, p) =~= filtered(a, p));
    } else {
        lemma_filtered_concat(a, b.drop_last(), p);
        assert((a + b).drop_last() =~= a + b.drop_last());
        assert((a + b).last() == b.last());
        if p(b.last()) {
            assert(filtered(a, p) + filtered(b, p) =~= (filtered(a, p) + filtered(
                b.drop_last(),
                p,
            )).push(b.last()));
        }
    }
}

/// Every element of the filtered sequence satisfies `p` and occurs in `s`;
/// every element of `s` satisfying `p` occurs in the filtered sequence.
pub proof fn lemma_filtered_props<A>(s: Seq<A>, p: spec_fn(A) -> bool)
    ensures
        filtered(s, p).len() <= s.len(),
        forall|i: int|
            0 <= i < filtered(s, p).len() ==> p(#[trigger] filtered(s, p)[i]) && s.contains(
                filtered(s, p)[i],
            ),
        forall|i: int| 0 <= i < s.len() && p(#[trigger] s[i]) ==> filtered(s, p).contains(s[i]),
    decreases s.len(),
{
    if s.len() > 0 {
        lemma_filtered_props(s.drop_last(), p);
        let f = filtered(s, p);
        let fd = filtered(s.drop_last(), p);
        assert forall|i: int|
            0 <= i < f.len() implies p(#[trigger] f[i]) && s.contains(f[i]) by {
            if p(s.last()) && i == f.len() - 1 {
                assert(s[s.len() - 1] == s.last());
            } else {
                assert(f[i] == fd[i]);
                let j = choose|j: int| 0 <= j < s.drop_last().len() && s.drop_last()[j] == fd[i];
                assert(s[j] == fd[i]);
            }
        }
        assert forall|i: int|
            0 <= i < s.len() && p(#[trigger] s[i]) implies f.contains(s[i]) by {
            if i == s.len() - 1 {
                assert(f[f.len() - 1] == s[i]);
            } else {
                assert(s.drop_last()[i] == s[i]);
                let j = choose|j: int| 0 <= j < fd.len() && fd[j] == s[i];
                if p(s.last()) {
                    assert(f[j] == fd[j]);
                } else {
                    assert(f == fd);
                }
            }
        }
    }
}

} // verus!
