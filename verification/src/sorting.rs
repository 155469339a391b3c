//! Stable sorting, through the standard library.
use core::cmp::Ordering;
use vstd::prelude::*;

verus! {

/// Values with a rank. The ranks are totally ordered; different values may share one.
pub trait Ranked: Sized {
    /// Whether this value's rank is below the other's.
    spec fn ranks_below(&self, other: &Self) -> bool;

    proof fn rank_is_irreflexive(a: &Self)
        ensures
            !a.ranks_below(a),
    ;

    proof fn rank_is_transitive(a: &Self, b: &Self, c: &Self)
        ensures
            a.ranks_below(b) && b.ranks_below(c) ==> a.ranks_below(c),
    ;

    proof fn rank_ties_are_transitive(a: &Self, b: &Self, c: &Self)
        ensures
            !a.ranks_below(b) && !b.ranks_below(a) && !b.ranks_below(c) && !c.ranks_below(b)
                ==> !a.ranks_below(c) && !c.ranks_below(a),
    ;

    /// How two ranks compare.
    fn compare_rank(&self, other: &Self) -> (r: Ordering)
        ensures
            r == (if self.ranks_below(other) {
                Ordering::Less
            } else if other.ranks_below(self) {
                Ordering::Greater
            } else {
                Ordering::Equal
            }),
    ;
}

/// Whether neither value's rank is below the other's.
pub open spec fn same_rank<T: Ranked>(a: &T, b: &T) -> bool {
    !a.ranks_below(b) && !b.ranks_below(a)
}

/// Whether no value stands behind one of a higher rank.
pub open spec fn is_ranked<T: Ranked>(s: Seq<T>) -> bool {
    forall|i: int, j: int|
        #![trigger s[i], s[j]]
        0 <= i < j < s.len() ==> !s[j].ranks_below(&s[i])
}

/// The values of `s` that share the rank of `x`, in their order.
pub open spec fn of_rank<T: Ranked>(s: Seq<T>, x: T) -> Seq<T> {
    s.filter(|y: T| same_rank(&x, &y))
}

/// Whether `r` is `s` sorted by rank, values of one rank in their old order.
pub open spec fn stably_sorted<T: Ranked>(s: Seq<T>, r: Seq<T>) -> bool {
    &&& r.to_multiset() == s.to_multiset()
    &&& is_ranked(r)
    &&& forall|x: T| #[trigger] of_rank(r, x) == of_rank(s, x)
}

/// `slice::sort_by`: sorts in place, keeps every element, and does not reorder elements that
/// compare as equal.
#[verifier::external_body]
pub(crate) fn stable_sort<T: Ranked>(items: &mut Vec<T>)
    ensures
        stably_sorted(old(items)@, final(items)@),
{
    items.sort_by(|a, b| a.compare_rank(b));
}

/// The last value of its rank is the last one that a filter by its rank keeps.
proof fn last_of_its_rank<T: Ranked>(s: Seq<T>, x: T)
    requires
        s.len() > 0,
    ensures
        of_rank(s, x) == if same_rank(&x, &s.last()) {
            of_rank(s.drop_last(), x).push(s.last())
        } else {
            of_rank(s.drop_last(), x)
        },
{
    reveal(Seq::filter);
}

/// A rank that a filter keeps is held by some value.
proof fn rank_is_taken<T: Ranked>(s: Seq<T>, x: T) -> (k: int)
    requires
        of_rank(s, x).len() > 0,
    ensures
        0 <= k < s.len(),
        same_rank(&x, &s[k]),
    decreases s.len(),
{
    reveal(Seq::filter);
    if same_rank(&x, &s.last()) {
        s.len() - 1
    } else {
        last_of_its_rank(s, x);
        rank_is_taken(s.drop_last(), x)
    }
}

/// The last of a list in order ranks at or above every rank that the list holds.
proof fn last_is_highest<T: Ranked>(s: Seq<T>, x: T)
    requires
        s.len() > 0,
        is_ranked(s),
        of_rank(s, x).len() > 0,
    ensures
        !s.last().ranks_below(&x),
{
    let k = rank_is_taken(s, x);
    let last = s.last();
    if last.ranks_below(&x) {
        if k < s.len() - 1 {
            assert(!s[s.len() - 1].ranks_below(&s[k]));
        } else {
            T::rank_is_irreflexive(&last);
        }
        T::rank_is_transitive(&s[k], &last, &x);
        T::rank_ties_are_transitive(&last, &s[k], &x);
    }
}

proof fn ranked_lists_agree<T: Ranked>(a: Seq<T>, b: Seq<T>)
    requires
        is_ranked(a),
        is_ranked(b),
        forall|x: T| #[trigger] of_rank(a, x) == of_rank(b, x),
    ensures
        a == b,
    decreases a.len(),
{
    if a.len() == 0 || b.len() == 0 {
        reveal(Seq::filter);
        if a.len() > 0 {
            T::rank_is_irreflexive(&a.last());
            last_of_its_rank(a, a.last());
            assert(of_rank(a, a.last()) == of_rank(b, a.last()));
        }
        if b.len() > 0 {
            T::rank_is_irreflexive(&b.last());
            last_of_its_rank(b, b.last());
            assert(of_rank(a, b.last()) == of_rank(b, b.last()));
        }
        assert(a =~= b);
    } else {
        let u = a.last();
        let v = b.last();
        T::rank_is_irreflexive(&u);
        T::rank_is_irreflexive(&v);
        last_of_its_rank(a, u);
        last_of_its_rank(b, v);
        assert(of_rank(a, u) == of_rank(b, u) && of_rank(a, v) == of_rank(b, v));
        last_is_highest(b, u);
        last_is_highest(a, v);
        last_of_its_rank(b, u);
        assert(of_rank(a, u).last() == u && of_rank(b, u).last() == v);
        let c = a.drop_last();
        let d = b.drop_last();
        assert forall|x: T| #[trigger] of_rank(c, x) == of_rank(d, x) by {
            last_of_its_rank(a, x);
            last_of_its_rank(b, x);
            assert(of_rank(a, x) == of_rank(b, x));
            if same_rank(&x, &u) {
                assert(of_rank(c, x) =~= of_rank(a, x).drop_last());
                assert(of_rank(d, x) =~= of_rank(b, x).drop_last());
            }
        }
        ranked_lists_agree(c, d);
        assert(a =~= c.push(u));
        assert(b =~= d.push(v));
    }
}

/// A list has one stable sort.
pub proof fn stable_sorts_are_unique<T: Ranked>(s: Seq<T>, a: Seq<T>, b: Seq<T>)
    requires
        stably_sorted(s, a),
        stably_sorted(s, b),
    ensures
        a == b,
{
    assert forall|x: T| #[trigger] of_rank(a, x) == of_rank(b, x) by {
        assert(of_rank(b, x) == of_rank(s, x));
    }
    ranked_lists_agree(a, b);
}

} // verus!
