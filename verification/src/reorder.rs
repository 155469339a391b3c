//! Putting numbered items back into order.
use std::collections::BTreeMap;
use vstd::prelude::*;

verus! {

broadcast use vstd::std_specs::btree::group_btree_axioms;

/// The items from `next` on, as far as they have come without a gap.
pub open spec fn run_from<T>(waiting: Map<u64, T>, next: int) -> Seq<T>
    decreases u64::MAX - next,
{
    if 0 <= next < u64::MAX && waiting.dom().contains(next as u64) {
        seq![waiting[next as u64]] + run_from(waiting, next + 1)
    } else {
        Seq::empty()
    }
}

/// The items that wait for one with a lower number.
pub struct BufferValue<T> {
    pub next: u64,
    pub waiting: Map<u64, T>,
}

/// A buffer that nothing has come to.
pub open spec fn empty_buffer<T>() -> BufferValue<T> {
    BufferValue { next: 0, waiting: Map::empty() }
}

impl<T> BufferValue<T> {
    /// Whether every number has a successor.
    pub open spec fn wf(self) -> bool {
        forall|k: u64| #[trigger] self.waiting.dom().contains(k) ==> k < u64::MAX
    }

    /// What comes out when an item arrives.
    pub open spec fn released(self, index: u64, item: T) -> Seq<T> {
        run_from(self.waiting.insert(index, item), self.next as int)
    }

    /// The buffer after an item arrived.
    pub open spec fn arrived(self, index: u64, item: T) -> BufferValue<T> {
        let next = (self.next + self.released(index, item).len()) as u64;
        let all = self.waiting.insert(index, item);
        BufferValue {
            next,
            waiting: all.remove_keys(Set::new(|k: u64| self.next <= k < next)),
        }
    }
}

/// Hands items out in the order of their numbers, in whatever order they come.
pub struct ReorderBuffer<T> {
    pub next: u64,
    pub waiting: BTreeMap<u64, T>,
}

impl<T> View for ReorderBuffer<T> {
    type V = BufferValue<T>;

    open spec fn view(&self) -> BufferValue<T> {
        BufferValue { next: self.next, waiting: self.waiting@ }
    }
}

/// A run ends at the latest in front of the largest number.
proof fn run_is_bounded<T>(waiting: Map<u64, T>, next: int)
    requires
        0 <= next <= u64::MAX,
    ensures
        next + run_from(waiting, next).len() <= u64::MAX,
    decreases u64::MAX - next,
{
    if next < u64::MAX && waiting.dom().contains(next as u64) {
        run_is_bounded(waiting, next + 1);
    }
}

/// What lies in front of a run has no part in it.
proof fn run_ignores_the_past<T>(a: Map<u64, T>, b: Map<u64, T>, next: int)
    requires
        0 <= next,
        forall|k: u64|
            k >= next ==> (#[trigger] a.dom().contains(k) <==> b.dom().contains(k)) && (
            a.dom().contains(k) ==> a[k] == b[k]),
    ensures
        run_from(a, next) == run_from(b, next),
    decreases u64::MAX - next,
{
    if next < u64::MAX && a.dom().contains(next as u64) {
        run_ignores_the_past(a, b, next + 1);
    }
}

impl<T> ReorderBuffer<T> {
    pub fn new() -> (r: Self)
        ensures
            r@ == empty_buffer::<T>(),
    {
        let r = ReorderBuffer { next: 0, waiting: BTreeMap::new() };
        assert(r@.waiting =~= Map::empty());
        r
    }

    /// Takes an item, and hands out all that can follow what was handed out before.
    pub fn arrive(&mut self, index: u64, item: T) -> (r: Vec<T>)
        requires
            old(self)@.wf(),
            index < u64::MAX,
        ensures
            r@ == old(self)@.released(index, item),
            final(self)@ == old(self)@.arrived(index, item),
            final(self)@.wf(),
    {
        let ghost first = self@.next;
        let ghost all = self@.waiting.insert(index, item);
        self.waiting.insert(index, item);
        let mut out: Vec<T> = Vec::new();
        proof {
            run_is_bounded(all, first as int);
            assert(self.waiting@ =~= all.remove_keys(Set::new(|k: u64| first <= k < first)));
            assert(out@ + run_from(self.waiting@, first as int) =~= run_from(all, first as int));
        }
        loop
            invariant
                first == old(self)@.next,
                all == old(self)@.waiting.insert(index, item),
                old(self)@.wf(),
                index < u64::MAX,
                first <= self.next,
                self.next == first + out@.len(),
                self.waiting@ == all.remove_keys(Set::new(|k: u64| first <= k < self.next)),
                out@ + run_from(self.waiting@, self.next as int) == run_from(all, first as int),
            ensures
                !self.waiting@.dom().contains(self.next),
            decreases u64::MAX - self.next,
        {
            let ghost before = self.waiting@;
            let ghost handed = out@;
            let next: u64 = self.next;
            match self.waiting.remove(&next) {
                Some(item) => {
                    proof {
                        assert(before.dom().contains(next));
                        assert(all.dom().contains(next));
                        assert(next < u64::MAX);
                    }
                    out.push(item);
                    self.next = next + 1;
                    proof {
                        assert(self.waiting@ =~= all.remove_keys(
                            Set::new(|k: u64| first <= k < self.next),
                        ));
                        run_ignores_the_past(before, self.waiting@, next + 1);
                        assert(out@ + run_from(self.waiting@, next + 1) =~= handed + (seq![item]
                            + run_from(before, next + 1)));
                    }
                },
                None => {
                    assert(self.waiting@ =~= before);
                    break;
                },
            }
        }
        assert(out@ + run_from(self.waiting@, self.next as int) =~= out@);
        out
    }
}

/// An item that arrives in its turn comes out at once, and alone.
pub proof fn arrival_in_turn<T>(b: BufferValue<T>, item: T)
    requires
        b.waiting == Map::<u64, T>::empty(),
        b.next < u64::MAX,
    ensures
        b.released(b.next, item) == seq![item],
        b.arrived(b.next, item) == (BufferValue::<T> {
            next: (b.next + 1) as u64,
            waiting: Map::empty(),
        }),
{
    let all = b.waiting.insert(b.next, item);
    assert(run_from(all, b.next + 1) =~= Seq::empty());
    assert(b.released(b.next, item) =~= seq![item]);
    assert(b.arrived(b.next, item).waiting =~= Map::empty());
}

/// The buffer after the first `count` arrivals of `order`, where item `k` is `items[k]`.
pub open spec fn after_arrivals<T>(items: Seq<T>, order: Seq<u64>, count: nat) -> BufferValue<T>
    decreases count,
{
    if count == 0 {
        empty_buffer()
    } else {
        after_arrivals(items, order, (count - 1) as nat).arrived(
            order[count - 1],
            items[order[count - 1] as int],
        )
    }
}

/// All that came out during the first `count` arrivals.
pub open spec fn handed_out<T>(items: Seq<T>, order: Seq<u64>, count: nat) -> Seq<T>
    decreases count,
{
    if count == 0 {
        Seq::empty()
    } else {
        handed_out(items, order, (count - 1) as nat) + after_arrivals(
            items,
            order,
            (count - 1) as nat,
        ).released(order[count - 1], items[order[count - 1] as int])
    }
}

/// Whether each of the numbers below `n` comes exactly once.
pub open spec fn is_arrival_order(order: Seq<u64>, n: nat) -> bool {
    &&& order.len() == n
    &&& forall|i: int| 0 <= i < n ==> #[trigger] order[i] < n
    &&& forall|i: int, j: int| 0 <= i < j < n ==> order[i] != order[j]
    &&& forall|k: u64| k < n ==> #[trigger] order.contains(k)
}

/// A run over items that wait under their own numbers is a part of the items.
proof fn run_is_a_part<T>(items: Seq<T>, waiting: Map<u64, T>, next: int)
    requires
        0 <= next <= items.len() < u64::MAX,
        forall|k: u64| #[trigger] waiting.dom().contains(k) && next <= k ==> k < items.len()
            && waiting[k] == items[k as int],
    ensures
        ({
            let end = next + run_from(waiting, next).len();
            &&& end <= items.len()
            &&& run_from(waiting, next) == items.subrange(next, end)
            &&& !waiting.dom().contains(end as u64)
            &&& forall|k: u64| next <= k < end ==> #[trigger] waiting.dom().contains(k)
        }),
    decreases items.len() - next,
{
    let run = run_from(waiting, next);
    if waiting.dom().contains(next as u64) {
        run_is_a_part(items, waiting, next + 1);
        let end = next + run.len();
        assert(run =~= items.subrange(next, end));
    } else {
        assert(run =~= items.subrange(next, next));
    }
}

/// What has come out and what still waits, after some of the arrivals.
proof fn arrivals_are_sorted<T>(items: Seq<T>, order: Seq<u64>, count: nat)
    requires
        is_arrival_order(order, items.len()),
        items.len() < u64::MAX,
        count <= items.len(),
    ensures
        ({
            let b = after_arrivals(items, order, count);
            let come = order.take(count as int);
            &&& b.next <= items.len()
            &&& handed_out(items, order, count) == items.take(b.next as int)
            &&& !come.contains(b.next)
            &&& forall|k: u64| k < b.next ==> #[trigger] come.contains(k)
            &&& forall|k: u64| #[trigger]
                b.waiting.dom().contains(k) <==> b.next <= k && come.contains(k)
            &&& forall|k: u64| #[trigger]
                b.waiting.dom().contains(k) ==> k < items.len() && b.waiting[k] == items[k as int]
        }),
    decreases count,
{
    let come = order.take(count as int);
    if count == 0 {
        assert(handed_out(items, order, 0) =~= items.take(0));
    } else {
        let before = (count - 1) as nat;
        arrivals_are_sorted(items, order, before);
        let b = after_arrivals(items, order, before);
        let earlier = order.take(before as int);
        let index = order[before as int];
        let item = items[index as int];
        let all = b.waiting.insert(index, item);
        assert(come =~= earlier.push(index));
        assert forall|k: u64| #[trigger] come.contains(k) <==> earlier.contains(k) || k == index by {
            if earlier.contains(k) {
                let i = choose|i: int| 0 <= i < earlier.len() && earlier[i] == k;
                assert(come[i] == k);
            }
            if k == index {
                assert(come[before as int] == k);
            }
        }
        run_is_a_part(items, all, b.next as int);
        let after = after_arrivals(items, order, count);
        let end = b.next + run_from(all, b.next as int).len();
        assert(after.next == end);
        assert(handed_out(items, order, count) =~= items.take(end));
        assert(!come.contains(after.next)) by {
            if come.contains(after.next) && after.next > b.next {
                assert(!all.dom().contains(after.next));
            }
            if come.contains(after.next) && after.next == b.next {
                assert(index == b.next);
                assert(all.dom().contains(b.next));
            }
        }
        assert forall|k: u64| k < after.next implies #[trigger] come.contains(k) by {
            if k >= b.next {
                assert(all.dom().contains(k));
            } else {
                assert(earlier.contains(k));
            }
        }
        assert forall|k: u64| #[trigger] after.waiting.dom().contains(k) <==> after.next <= k
            && come.contains(k) by {
            assert(earlier.contains(k) && k >= b.next <==> b.waiting.dom().contains(k));
            if k == index && k < b.next {
                assert(earlier.contains(k));
                let i = choose|i: int| 0 <= i < earlier.len() && earlier[i] == k;
                assert(order[i] == order[before as int]);
            }
        }
    }
}

/// In whatever order numbered items arrive, they come out in the order of their numbers, each
/// once, and in the end nothing is left waiting.
pub proof fn arrival_order_does_not_matter<T>(items: Seq<T>, order: Seq<u64>)
    requires
        is_arrival_order(order, items.len()),
        items.len() < u64::MAX,
    ensures
        handed_out(items, order, items.len()) == items,
        after_arrivals(items, order, items.len()).waiting == Map::<u64, T>::empty(),
{
    let n = items.len();
    arrivals_are_sorted(items, order, n);
    let b = after_arrivals(items, order, n);
    assert(order.take(n as int) =~= order);
    if b.next < n {
        assert(order.contains(b.next));
    }
    assert(items.take(n as int) =~= items);
    assert forall|k: u64| !#[trigger] b.waiting.dom().contains(k) by {
        if order.contains(k) {
            let i = choose|i: int| 0 <= i < order.len() && order[i] == k;
            assert(order[i] < n);
        }
    }
    assert(b.waiting =~= Map::empty());
}

} // verus!
