//! Facts about filtering sequences that the loops of the library rely on.

use vstd::prelude::*;

verus! {

/// Filtering one element more of a prefix.
pub proof fn lemma_filter_step<A>(s: Seq<A>, p: spec_fn(A) -> bool, i: int)
    requires
        0 <= i < s.len(),
    ensures
        s.take(i + 1).filter(p) == (if p(s[i]) {
            s.take(i).filter(p).push(s[i])
        } else {
            s.take(i).filter(p)
        }),
{
    reveal(Seq::filter);
    let t = s.take(i + 1);
    assert(t.drop_last() =~= s.take(i));
    assert(t.last() == s[i]);
}

/// Filtering a prefix gives a prefix of the filtered whole.
pub proof fn lemma_filter_prefix<A>(s: Seq<A>, p: spec_fn(A) -> bool, j: int)
    requires
        0 <= j <= s.len(),
    ensures
        s.take(j).filter(p).len() <= s.filter(p).len(),
        forall|t: int| 0 <= t < s.take(j).filter(p).len() ==> s.take(j).filter(p)[t] == #[trigger] s.filter(p)[t],
    decreases s.len(),
{
    reveal(Seq::filter);
    if j == s.len() {
        assert(s.take(j) =~= s);
    } else {
        lemma_filter_prefix(s.drop_last(), p, j);
        assert(s.drop_last().take(j) =~= s.take(j));
        assert(s.filter(p) == (if p(s.last()) {
            s.drop_last().filter(p).push(s.last())
        } else {
            s.drop_last().filter(p)
        }));
    }
}

} // verus!
