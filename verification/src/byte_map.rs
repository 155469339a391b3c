//! Maps keyed by byte strings, kept in byte order.
use crate::bytes::{lex_lt, lex_lt_is_total, lex_lt_is_transitive, order_bytes, to_bytes, Order};
use vstd::prelude::*;

verus! {

/// A map from byte strings to values whose entries stand in byte order of their keys.
#[derive(Debug, PartialEq, Eq)]
pub struct ByteMap<V> {
    entries: Vec<(Vec<u8>, V)>,
}

/// Whether every key comes before those behind it.
pub open spec fn keys_ascend<V>(entries: Seq<(Vec<u8>, V)>) -> bool {
    forall|i: int, j: int|
        0 <= i < j < entries.len() ==> lex_lt(
            (#[trigger] entries[i]).0@,
            (#[trigger] entries[j]).0@,
        )
}

impl<V> ByteMap<V> {
    /// The entries in their order.
    pub closed spec fn items(self) -> Seq<(Vec<u8>, V)> {
        self.entries@
    }

    #[verifier::type_invariant]
    pub open spec fn wf(self) -> bool {
        keys_ascend(self.items())
    }

    /// Whether an entry carries the key.
    pub open spec fn has(self, key: Seq<u8>) -> bool {
        exists|i: int| 0 <= i < self.items().len() && (#[trigger] self.items()[i]).0@ == key
    }

    /// The place of a key that is present.
    pub open spec fn place(self, key: Seq<u8>) -> int {
        choose|i: int| 0 <= i < self.items().len() && (#[trigger] self.items()[i]).0@ == key
    }

    /// What a key is mapped to.
    pub open spec fn at(self, key: Seq<u8>) -> V {
        self.items()[self.place(key)].1
    }

    /// The keys and what they are mapped to.
    pub open spec fn contents(self) -> Map<Seq<u8>, V> {
        Map::new(|key: Seq<u8>| self.has(key), |key: Seq<u8>| self.at(key))
    }

    /// A key has one place.
    pub proof fn place_is_unique(self, i: int)
        requires
            self.wf(),
            0 <= i < self.items().len(),
        ensures
            self.has(self.items()[i].0@),
            self.place(self.items()[i].0@) == i,
            self.at(self.items()[i].0@) == self.items()[i].1,
    {
        let key = self.items()[i].0@;
        let p = self.place(key);
        assert(self.has(key));
        lex_lt_is_total(key, key);
        if p < i {
            assert(lex_lt(self.items()[p].0@, self.items()[i].0@));
        } else if i < p {
            assert(lex_lt(self.items()[i].0@, self.items()[p].0@));
        }
    }

    pub fn new() -> (r: ByteMap<V>)
        ensures
            r.wf(),
            r.items().len() == 0,
            r.contents() == Map::<Seq<u8>, V>::empty(),
    {
        let r = ByteMap { entries: Vec::new() };
        assert(r.contents() =~= Map::<Seq<u8>, V>::empty());
        r
    }

    /// The map whose entries are given in order.
    pub fn from_entries(entries: Vec<(Vec<u8>, V)>) -> (r: ByteMap<V>)
        requires
            keys_ascend(entries@),
        ensures
            r.wf(),
            r.items() == entries@,
    {
        ByteMap { entries }
    }

    /// The entries in their order.
    pub fn entries(&self) -> (r: &Vec<(Vec<u8>, V)>)
        ensures
            r@ == self.items(),
            self.wf(),
    {
        proof {
            use_type_invariant(self);
        }
        &self.entries
    }

    /// Where a key stands, or where it would have to stand.
    pub fn find(&self, key: &[u8]) -> (r: Result<usize, usize>)
        ensures
            match r {
                Ok(i) => i < self.items().len() && self.items()[i as int].0@ == key@ && self.has(
                    key@,
                ),
                Err(i) => {
                    &&& i <= self.items().len()
                    &&& !self.has(key@)
                    &&& forall|k: int| 0 <= k < i ==> lex_lt((#[trigger] self.items()[k]).0@, key@)
                    &&& forall|k: int|
                        i <= k < self.items().len() ==> lex_lt(
                            key@,
                            (#[trigger] self.items()[k]).0@,
                        )
                },
            },
    {
        proof {
            use_type_invariant(self);
        }
        let mut low: usize = 0;
        let mut high: usize = self.entries.len();
        while low < high
            invariant
                self.wf(),
                low <= high <= self.items().len(),
                forall|k: int| 0 <= k < low ==> lex_lt((#[trigger] self.items()[k]).0@, key@),
                forall|k: int|
                    high <= k < self.items().len() ==> lex_lt(
                        key@,
                        (#[trigger] self.items()[k]).0@,
                    ),
            decreases high - low,
        {
            let mid: usize = low + (high - low) / 2;
            let order = order_bytes(self.entries[mid].0.as_slice(), key);
            match order {
                Order::Same => {
                    return Ok(mid);
                },
                Order::Before => {
                    proof {
                        let m = self.items()[mid as int].0@;
                        assert forall|k: int| 0 <= k < mid + 1 implies lex_lt(
                            (#[trigger] self.items()[k]).0@,
                            key@,
                        ) by {
                            if k < mid {
                                lex_lt_is_transitive(self.items()[k].0@, m, key@);
                            }
                        }
                    }
                    low = mid + 1;
                },
                Order::After => {
                    proof {
                        let m = self.items()[mid as int].0@;
                        lex_lt_is_total(m, key@);
                        assert forall|k: int| mid <= k < self.items().len() implies lex_lt(
                            key@,
                            (#[trigger] self.items()[k]).0@,
                        ) by {
                            if k > mid {
                                lex_lt_is_transitive(key@, m, self.items()[k].0@);
                            }
                        }
                    }
                    high = mid;
                },
            }
        }
        proof {
            if self.has(key@) {
                let p = self.place(key@);
                lex_lt_is_total(key@, key@);
            }
        }
        Err(low)
    }

    pub fn contains_key(&self, key: &[u8]) -> (r: bool)
        ensures
            r == self.has(key@),
    {
        proof {
            use_type_invariant(self);
        }
        match self.find(key) {
            Ok(_) => true,
            Err(_) => false,
        }
    }

    pub fn get(&self, key: &[u8]) -> (r: Option<&V>)
        ensures
            match r {
                Some(v) => self.has(key@) && *v == self.at(key@),
                None => !self.has(key@),
            },
    {
        proof {
            use_type_invariant(self);
        }
        match self.find(key) {
            Ok(i) => {
                proof {
                    self.place_is_unique(i as int);
                }
                Some(&self.entries[i].1)
            },
            Err(_) => None,
        }
    }

    /// Maps a key to a value; hands back the value that the key was mapped to before.
    pub fn insert(&mut self, key: Vec<u8>, value: V) -> (r: Option<V>)
        ensures
            final(self).wf(),
            final(self).contents() == old(self).contents().insert(key@, value),
            match r {
                Some(v) => old(self).has(key@) && v == old(self).at(key@),
                None => !old(self).has(key@),
            },
    {
        proof {
            use_type_invariant(&*self);
        }
        let ghost before = *self;
        let ghost e = before.items();
        let ghost k0 = key@;
        let found: Result<usize, usize> = self.find(key.as_slice());
        let mut entries: Vec<(Vec<u8>, V)> = Vec::new();
        std::mem::swap(&mut entries, &mut self.entries);
        match found {
            Ok(i) => {
                proof {
                    before.place_is_unique(i as int);
                }
                let (_, previous) = entries.remove(i);
                entries.insert(i, (key, value));
                proof {
                    assert(entries@ =~= e.update(i as int, (key, value)));
                    assert forall|a: int, b: int| 0 <= a < b < entries@.len() implies lex_lt(
                        (#[trigger] entries@[a]).0@,
                        (#[trigger] entries@[b]).0@,
                    ) by {
                        assert(lex_lt(e[a].0@, e[b].0@));
                    }
                }
                self.entries = entries;
                proof {
                    replaced_contents(before, *self, i as int, k0, value);
                }
                Some(previous)
            },
            Err(i) => {
                entries.insert(i, (key, value));
                proof {
                    assert(entries@ == e.insert(i as int, (key, value)));
                    assert forall|a: int, b: int| 0 <= a < b < entries@.len() implies lex_lt(
                        (#[trigger] entries@[a]).0@,
                        (#[trigger] entries@[b]).0@,
                    ) by {
                        let ea = if a < i { a } else { a - 1 };
                        let eb = if b < i { b } else { b - 1 };
                        if a == i {
                            assert(lex_lt(k0, e[eb].0@));
                        } else if b == i {
                            assert(lex_lt(e[ea].0@, k0));
                        } else {
                            assert(lex_lt(e[ea].0@, e[eb].0@));
                        }
                    }
                }
                self.entries = entries;
                proof {
                    inserted_contents(before, *self, i as int, k0, value);
                }
                None
            },
        }
    }
}

impl<V: Clone> Clone for ByteMap<V> {
    fn clone(&self) -> (r: Self)
        ensures
            r.items().len() == self.items().len(),
            forall|i: int|
                0 <= i < self.items().len() ==> (#[trigger] r.items()[i]).0@ == self.items()[i].0@
                    && cloned::<V>(self.items()[i].1, r.items()[i].1),
    {
        proof {
            use_type_invariant(self);
        }
        let mut entries: Vec<(Vec<u8>, V)> = Vec::new();
        let mut i: usize = 0;
        while i < self.entries.len()
            invariant
                i <= self.items().len(),
                entries@.len() == i,
                forall|k: int|
                    0 <= k < i ==> (#[trigger] entries@[k]).0@ == self.items()[k].0@ && cloned::<V>(
                        self.items()[k].1,
                        entries@[k].1,
                    ),
            decreases self.items().len() - i,
        {
            entries.push((to_bytes(self.entries[i].0.as_slice()), self.entries[i].1.clone()));
            i = i + 1;
        }
        assert forall|a: int, b: int| 0 <= a < b < entries@.len() implies lex_lt(
            (#[trigger] entries@[a]).0@,
            (#[trigger] entries@[b]).0@,
        ) by {
            assert(lex_lt(self.items()[a].0@, self.items()[b].0@));
        }
        ByteMap { entries }
    }
}

proof fn replaced_contents<V>(
    before: ByteMap<V>,
    after: ByteMap<V>,
    i: int,
    key: Seq<u8>,
    value: V,
)
    requires
        before.wf(),
        after.wf(),
        0 <= i < before.items().len(),
        before.items()[i].0@ == key,
        after.items().len() == before.items().len(),
        after.items()[i].0@ == key,
        after.items()[i].1 == value,
        forall|k: int|
            0 <= k < before.items().len() && k != i ==> #[trigger] after.items()[k]
                == before.items()[k],
    ensures
        after.contents() == before.contents().insert(key, value),
{
    assert forall|x: Seq<u8>| #[trigger] after.has(x) <==> before.has(x) by {
        if after.has(x) {
            let p = after.place(x);
            assert(before.items()[p].0@ == x);
        }
        if before.has(x) {
            let p = before.place(x);
            assert(after.items()[p].0@ == x);
        }
    }
    assert(before.has(key));
    assert forall|x: Seq<u8>| after.has(x) implies #[trigger] after.at(x) == before.contents().insert(
        key,
        value,
    )[x] by {
        let p = after.place(x);
        after.place_is_unique(p);
        after.place_is_unique(i);
        if x != key {
            before.place_is_unique(p);
        }
    }
    assert(after.contents() =~= before.contents().insert(key, value));
}

proof fn inserted_contents<V>(
    before: ByteMap<V>,
    after: ByteMap<V>,
    i: int,
    key: Seq<u8>,
    value: V,
)
    requires
        before.wf(),
        after.wf(),
        !before.has(key),
        0 <= i <= before.items().len(),
        after.items().len() == before.items().len() + 1,
        after.items()[i].0@ == key,
        after.items()[i].1 == value,
        forall|k: int| 0 <= k < i ==> #[trigger] after.items()[k] == before.items()[k],
        forall|k: int|
            i < k < after.items().len() ==> #[trigger] after.items()[k] == before.items()[k - 1],
    ensures
        after.contents() == before.contents().insert(key, value),
{
    assert(after.has(key));
    assert forall|x: Seq<u8>| #[trigger] after.has(x) <==> before.has(x) || x == key by {
        if after.has(x) && x != key {
            let p = after.place(x);
            let q = if p < i { p } else { p - 1 };
            assert(before.items()[q].0@ == x);
        }
        if before.has(x) {
            let p = before.place(x);
            let q = if p < i { p } else { p + 1 };
            assert(after.items()[q].0@ == x);
        }
    }
    assert forall|x: Seq<u8>| after.has(x) implies #[trigger] after.at(x) == before.contents().insert(
        key,
        value,
    )[x] by {
        let p = after.place(x);
        after.place_is_unique(p);
        after.place_is_unique(i);
        if x != key {
            let q = if p < i { p } else { p - 1 };
            before.place_is_unique(q);
        }
    }
    assert(after.contents() =~= before.contents().insert(key, value));
}

} // verus!
