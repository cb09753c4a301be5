//! Stable sorting by a total preorder.

use vstd::prelude::*;

verus! {

/// A type whose values are ordered by a total preorder.
pub trait Ranked: Sized {
    /// `self` may stand before `other`.
    spec fn ranks_before(&self, other: &Self) -> bool;

    proof fn rank_total(a: &Self, b: &Self)
        ensures
            a.ranks_before(b) || b.ranks_before(a),
    ;

    proof fn rank_transitive(a: &Self, b: &Self, c: &Self)
        requires
            a.ranks_before(b),
            b.ranks_before(c),
        ensures
            a.ranks_before(c),
    ;

    fn may_precede(&self, other: &Self) -> (r: bool)
        ensures
            r == self.ranks_before(other),
    ;
}

/// `x` placed behind the last element of `s` that may stand before it.
pub open spec fn inserted<T: Ranked>(s: Seq<T>, x: T) -> Seq<T>
    decreases s.len(),
{
    if s.len() == 0 || s.last().ranks_before(&x) {
        s.push(x)
    } else {
        inserted(s.drop_last(), x).push(s.last())
    }
}

/// The elements of `s` in rank order, those of one rank in the order of `s`.
pub open spec fn sorted<T: Ranked>(s: Seq<T>) -> Seq<T>
    decreases s.len(),
{
    if s.len() == 0 {
        s
    } else {
        inserted(sorted(s.drop_last()), s.last())
    }
}

/// Every element may stand before each later one.
pub open spec fn in_order<T: Ranked>(s: Seq<T>) -> bool {
    forall|i: int, j: int|
        #![trigger s[i], s[j]]
        0 <= i < j < s.len() ==> s[i].ranks_before(&s[j])
}

/// Two elements of the same rank.
pub open spec fn same_rank<T: Ranked>(a: T, b: T) -> bool {
    a.ranks_before(&b) && b.ranks_before(&a)
}

proof fn inserted_contents<T: Ranked>(s: Seq<T>, x: T)
    ensures
        inserted(s, x).to_multiset() == s.to_multiset().insert(x),
        inserted(s, x).len() == s.len() + 1,
        forall|i: int| 0 <= i < inserted(s, x).len() ==> inserted(s, x)[i] == x || s.contains(inserted(s, x)[i]),
    decreases s.len(),
{
    broadcast use vstd::seq_lib::group_to_multiset_ensures;

    if s.len() == 0 || s.last().ranks_before(&x) {
        assert forall|i: int| 0 <= i < s.push(x).len() implies s.push(x)[i] == x || s.contains(s.push(x)[i]) by {
            if i < s.len() {
                assert(s[i] == s.push(x)[i]);
            }
        }
    } else {
        inserted_contents(s.drop_last(), x);
        let rest = inserted(s.drop_last(), x);
        assert(s =~= s.drop_last().push(s.last()));
        assert(rest.push(s.last()).to_multiset() =~= s.to_multiset().insert(x));
        assert forall|i: int| 0 <= i < rest.push(s.last()).len() implies rest.push(s.last())[i] == x || s.contains(
            rest.push(s.last())[i],
        ) by {
            if i < rest.len() {
                assert(rest[i] == rest.push(s.last())[i]);
                if rest[i] != x {
                    let k = choose|k: int| 0 <= k < s.drop_last().len() && s.drop_last()[k] == rest[i];
                    assert(s[k] == rest[i]);
                }
            } else {
                assert(s[s.len() - 1] == s.last());
            }
        }
    }
}

proof fn inserted_in_order<T: Ranked>(s: Seq<T>, x: T)
    requires
        in_order(s),
    ensures
        in_order(inserted(s, x)),
    decreases s.len(),
{
    if s.len() == 0 {
    } else if s.last().ranks_before(&x) {
        let r = s.push(x);
        assert forall|i: int, j: int| #![trigger r[i], r[j]] 0 <= i < j < r.len() implies r[i].ranks_before(&r[j]) by {
            if j == s.len() && i < s.len() - 1 {
                assert(s[i].ranks_before(&s[s.len() - 1]));
                T::rank_transitive(&s[i], &s[s.len() - 1], &x);
            }
        }
    } else {
        let short = s.drop_last();
        assert(in_order(short)) by {
            assert forall|i: int, j: int| #![trigger short[i], short[j]] 0 <= i < j < short.len() implies short[i].ranks_before(
                &short[j],
            ) by {
                assert(s[i].ranks_before(&s[j]));
            }
        }
        inserted_in_order(short, x);
        inserted_contents(short, x);
        T::rank_total(&s.last(), &x);
        let rest = inserted(short, x);
        let r = rest.push(s.last());
        assert forall|i: int, j: int| #![trigger r[i], r[j]] 0 <= i < j < r.len() implies r[i].ranks_before(&r[j]) by {
            if j < rest.len() {
                assert(rest[i].ranks_before(&rest[j]));
            } else {
                assert(r[i] == rest[i]);
                if rest[i] != x {
                    let k = choose|k: int| 0 <= k < short.len() && short[k] == rest[i];
                    assert(s[k].ranks_before(&s[s.len() - 1]));
                }
            }
        }
    }
}

/// Sorting orders the elements and neither loses nor invents one.
pub proof fn sorted_is_ordered_permutation<T: Ranked>(s: Seq<T>)
    ensures
        in_order(sorted(s)),
        sorted(s).to_multiset() == s.to_multiset(),
        sorted(s).len() == s.len(),
    decreases s.len(),
{
    broadcast use vstd::seq_lib::group_to_multiset_ensures;

    if s.len() > 0 {
        sorted_is_ordered_permutation(s.drop_last());
        inserted_in_order(sorted(s.drop_last()), s.last());
        inserted_contents(sorted(s.drop_last()), s.last());
        assert(s =~= s.drop_last().push(s.last()));
    }
}

proof fn inserted_keeps_ties<T: Ranked>(s: Seq<T>, x: T, y: T)
    requires
        in_order(s),
    ensures
        inserted(s, x).filter(|e: T| same_rank(e, y)) == s.push(x).filter(|e: T| same_rank(e, y)),
    decreases s.len(),
{
    let tie = |e: T| same_rank(e, y);
    if s.len() == 0 || s.last().ranks_before(&x) {
    } else {
        let short = s.drop_last();
        let last = s.last();
        assert(in_order(short)) by {
            assert forall|i: int, j: int| #![trigger short[i], short[j]] 0 <= i < j < short.len() implies short[i].ranks_before(
                &short[j],
            ) by {
                assert(s[i].ranks_before(&s[j]));
            }
        }
        inserted_keeps_ties(short, x, y);
        assert(s =~= short.push(last));
        inserted(short, x).lemma_filter_push(last, tie);
        short.lemma_filter_push(x, tie);
        short.lemma_filter_push(last, tie);
        s.lemma_filter_push(x, tie);
        if tie(x) && tie(last) {
            T::rank_transitive(&last, &y, &x);
        }
    }
}

/// Sorting is stable: the elements of one rank keep their order.
pub proof fn sorted_is_stable<T: Ranked>(s: Seq<T>, y: T)
    ensures
        sorted(s).filter(|e: T| same_rank(e, y)) == s.filter(|e: T| same_rank(e, y)),
    decreases s.len(),
{
    let tie = |e: T| same_rank(e, y);
    if s.len() > 0 {
        let short = s.drop_last();
        sorted_is_stable(short, y);
        sorted_is_ordered_permutation(short);
        inserted_keeps_ties(sorted(short), s.last(), y);
        sorted(short).lemma_filter_push(s.last(), tie);
        short.lemma_filter_push(s.last(), tie);
        assert(s =~= short.push(s.last()));
    }
}

/// The elements of `v` in rank order, those of one rank in the order of `v`.
pub fn sort<T: Ranked>(v: Vec<T>) -> (r: Vec<T>)
    ensures
        r@ == sorted(v@),
{
    let mut out: Vec<T> = Vec::new();
    let ghost all = v@;
    for x in it: v
        invariant
            it.seq() == all,
            out@ == sorted(all.take(it.index() as int)),
    {
        let ghost done = out@;
        let ghost next = all.take(it.index() as int + 1);
        assert(next.drop_last() =~= all.take(it.index() as int));
        assert(next.last() == x);
        let mut k: usize = out.len();
        assert(done.take(k as int) =~= done);
        assert(done.skip(k as int) =~= Seq::<T>::empty());
        assert(inserted(done, x) =~= inserted(done.take(k as int), x) + done.skip(k as int));
        while k > 0 && !out[k - 1].may_precede(&x)
            invariant
                out@ == done,
                k <= done.len(),
                inserted(done, x) == inserted(done.take(k as int), x) + done.skip(k as int),
            decreases k,
        {
            let ghost shorter = done.take(k - 1);
            assert(done.take(k as int).drop_last() =~= shorter);
            assert(inserted(shorter, x).push(done[k - 1]) + done.skip(k as int) =~= inserted(shorter, x) + done.skip(
                k - 1,
            ));
            k = k - 1;
        }
        out.insert(k, x);
        assert(out@ =~= done.take(k as int).push(x) + done.skip(k as int));
    }
    assert(all.take(all.len() as int) =~= all);
    out
}

} // verus!
