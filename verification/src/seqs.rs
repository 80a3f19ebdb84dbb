//! Indices, and facts about sequences that loops over them rest on.

use vstd::prelude::*;

verus! {

/// Indices as integers.
pub open spec fn positions(v: Seq<usize>) -> Seq<int> {
    v.map_values(|i: usize| i as int)
}

/// Filtering one element more.
pub proof fn lemma_filter_next<A>(s: Seq<A>, keep: spec_fn(A) -> bool, k: int)
    requires
        0 <= k < s.len(),
    ensures
        s.take(k + 1).filter(keep) == if keep(s[k]) {
            s.take(k).filter(keep).push(s[k])
        } else {
            s.take(k).filter(keep)
        },
{
    reveal(Seq::filter);
    assert(s.take(k + 1).drop_last() =~= s.take(k));
}

pub proof fn lemma_filter_none<A>(s: Seq<A>, keep: spec_fn(A) -> bool)
    ensures
        s.take(0).filter(keep) == Seq::<A>::empty(),
        s.take(s.len() as int) == s,
{
    reveal(Seq::filter);
    assert(s.take(0) =~= Seq::<A>::empty());
    assert(s.take(s.len() as int) =~= s);
}

/// What is left after filtering was there before and is kept.
pub proof fn lemma_filter_member<A>(s: Seq<A>, keep: spec_fn(A) -> bool, k: int) -> (i: int)
    requires
        0 <= k < s.filter(keep).len(),
    ensures
        0 <= i < s.len(),
        s[i] == s.filter(keep)[k],
        keep(s[i]),
    decreases s.len(),
{
    reveal(Seq::filter);
    let shorter = s.drop_last().filter(keep);
    if k < shorter.len() {
        lemma_filter_member(s.drop_last(), keep, k)
    } else {
        s.len() - 1
    }
}

/// What is kept is there after filtering.
pub proof fn lemma_filter_keeps<A>(s: Seq<A>, keep: spec_fn(A) -> bool, i: int) -> (k: int)
    requires
        0 <= i < s.len(),
        keep(s[i]),
    ensures
        0 <= k < s.filter(keep).len(),
        s.filter(keep)[k] == s[i],
    decreases s.len(),
{
    reveal(Seq::filter);
    if i < s.len() - 1 {
        lemma_filter_keeps(s.drop_last(), keep, i)
    } else {
        s.filter(keep).len() - 1
    }
}

/// Where one element alone is kept, filtering leaves that.
pub proof fn lemma_filter_single<A>(s: Seq<A>, keep: spec_fn(A) -> bool, i: int)
    requires
        0 <= i < s.len(),
        keep(s[i]),
        forall|j: int| 0 <= j < s.len() && j != i ==> !keep(#[trigger] s[j]),
    ensures
        s.filter(keep) == seq![s[i]],
    decreases s.len(),
{
    reveal(Seq::filter);
    let init = s.drop_last();
    if i < s.len() - 1 {
        assert forall|j: int| 0 <= j < init.len() && j != i implies !keep(#[trigger] init[j]) by {
            assert(!keep(s[j]));
        }
        lemma_filter_single(init, keep, i);
        assert(!keep(s[s.len() - 1]));
    } else {
        assert forall|j: int| 0 <= j < init.len() implies !keep(#[trigger] init[j]) by {
            assert(!keep(s[j]));
        }
        lemma_filter_nothing(init, keep);
        assert(s.filter(keep) =~= seq![s[i]]);
    }
}

/// Where nothing is kept, filtering leaves nothing.
pub proof fn lemma_filter_nothing<A>(s: Seq<A>, keep: spec_fn(A) -> bool)
    requires
        forall|j: int| 0 <= j < s.len() ==> !keep(#[trigger] s[j]),
    ensures
        s.filter(keep).len() == 0,
    decreases s.len(),
{
    reveal(Seq::filter);
    if s.len() > 0 {
        assert forall|j: int| 0 <= j < s.drop_last().len() implies !keep(
            #[trigger] s.drop_last()[j],
        ) by {
            assert(!keep(s[j]));
        }
        lemma_filter_nothing(s.drop_last(), keep);
        assert(!keep(s[s.len() - 1]));
    }
}

/// Two places that are kept leave two elements.
pub proof fn lemma_filter_two<A>(s: Seq<A>, keep: spec_fn(A) -> bool, i: int, j: int)
    requires
        0 <= i < j < s.len(),
        keep(s[i]),
        keep(s[j]),
    ensures
        s.filter(keep).len() >= 2,
    decreases s.len(),
{
    reveal(Seq::filter);
    if j < s.len() - 1 {
        lemma_filter_two(s.drop_last(), keep, i, j);
    } else {
        let k = lemma_filter_keeps(s.drop_last(), keep, i);
    }
}

/// Filtering keeps the order: what is kept of the first `n` elements is the
/// beginning of what is kept of all.
pub proof fn lemma_filter_begins<A>(s: Seq<A>, keep: spec_fn(A) -> bool, n: int)
    requires
        0 <= n <= s.len(),
    ensures
        s.take(n).filter(keep).is_prefix_of(s.filter(keep)),
    decreases s.len() - n,
{
    if n == s.len() {
        assert(s.take(n) =~= s);
    } else {
        lemma_filter_begins(s, keep, n + 1);
        lemma_filter_next(s, keep, n);
        let a = s.take(n).filter(keep);
        let b = s.take(n + 1).filter(keep);
        let c = s.filter(keep);
        assert(b == c.subrange(0, b.len() as int));
        assert(a =~= b.subrange(0, a.len() as int));
        assert(c.subrange(0, a.len() as int) =~= b.subrange(0, a.len() as int));
    }
}

} // verus!
