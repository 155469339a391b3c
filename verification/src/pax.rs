//! Sets of extended-header records, kept in the byte order of their keys.
use crate::byte_map::ByteMap;
use crate::bytes::{lex_lt, same_bytes, to_bytes};
use crate::text::{ascends, byte_order_is_unique, text};
use vstd::prelude::*;

verus! {

/// The keys and values of a record set.
pub open spec fn pax_map(m: ByteMap<Vec<u8>>) -> Map<Seq<u8>, Seq<u8>> {
    Map::new(|key: Seq<u8>| m.has(key), |key: Seq<u8>| m.at(key)@)
}

/// The keys of a record set in their order.
pub open spec fn pax_keys(m: ByteMap<Vec<u8>>) -> Seq<Seq<u8>> {
    m.items().map_values(|e: (Vec<u8>, Vec<u8>)| e.0@)
}

/// The keys stand in byte order and are those of the map.
pub proof fn pax_keys_are_ordered(m: ByteMap<Vec<u8>>)
    requires
        m.wf(),
    ensures
        ascends(pax_keys(m)),
        pax_keys(m).to_set() == pax_map(m).dom(),
{
    let keys = pax_keys(m);
    assert forall|i: int, j: int| 0 <= i < j < keys.len() implies lex_lt(
        #[trigger] keys[i],
        #[trigger] keys[j],
    ) by {
        assert(lex_lt(m.items()[i].0@, m.items()[j].0@));
    }
    assert forall|key: Seq<u8>| keys.to_set().contains(key) <==> m.has(key) by {
        if keys.to_set().contains(key) {
            let i = choose|i: int| 0 <= i < keys.len() && keys[i] == key;
            assert(m.items()[i].0@ == key);
        }
        if m.has(key) {
            let i = m.place(key);
            assert(keys[i] == key);
            assert(keys.contains(key));
        }
    }
    assert(keys.to_set() =~= pax_map(m).dom());
}

/// Two record sets with the same entries hold the same records, and the other way round.
pub proof fn pax_maps_are_entries(a: ByteMap<Vec<u8>>, b: ByteMap<Vec<u8>>)
    requires
        a.wf(),
        b.wf(),
    ensures
        pax_map(a) == pax_map(b) <==> (a.items().len() == b.items().len() && (forall|i: int|
            0 <= i < a.items().len() ==> (#[trigger] a.items()[i]).0@ == b.items()[i].0@
                && a.items()[i].1@ == b.items()[i].1@)),
{
    pax_keys_are_ordered(a);
    pax_keys_are_ordered(b);
    if pax_map(a) == pax_map(b) {
        byte_order_is_unique(pax_keys(a), pax_keys(b));
        assert(pax_keys(a).len() == pax_keys(b).len());
        assert forall|i: int| 0 <= i < a.items().len() implies (#[trigger] a.items()[i]).0@
            == b.items()[i].0@ && a.items()[i].1@ == b.items()[i].1@ by {
            assert(pax_keys(a)[i] == pax_keys(b)[i]);
            a.place_is_unique(i);
            b.place_is_unique(i);
            let key = a.items()[i].0@;
            assert(pax_map(a)[key] == pax_map(b)[key]);
        }
    }
    if a.items().len() == b.items().len() && (forall|i: int|
        0 <= i < a.items().len() ==> (#[trigger] a.items()[i]).0@ == b.items()[i].0@
            && a.items()[i].1@ == b.items()[i].1@) {
        assert(pax_keys(a) =~= pax_keys(b));
        assert forall|key: Seq<u8>| pax_map(a).dom().contains(key) implies pax_map(a)[key]
            == pax_map(b)[key] by {
            let i = a.place(key);
            a.place_is_unique(i);
            b.place_is_unique(i);
        }
        assert(pax_map(a) =~= pax_map(b));
    }
}

/// An empty record set.
pub fn pax_empty() -> (r: ByteMap<Vec<u8>>)
    ensures
        r.wf(),
        pax_map(r) == Map::<Seq<u8>, Seq<u8>>::empty(),
{
    let r: ByteMap<Vec<u8>> = ByteMap::new();
    assert forall|key: Seq<u8>| !r.has(key) by {
        assert(!r.contents().dom().contains(key));
    }
    assert(pax_map(r) =~= Map::<Seq<u8>, Seq<u8>>::empty());
    r
}

/// Puts a record into a set; says whether one with the key was there before.
pub fn pax_insert(m: &mut ByteMap<Vec<u8>>, key: Vec<u8>, value: Vec<u8>) -> (r: bool)
    requires
        old(m).wf(),
    ensures
        final(m).wf(),
        pax_map(*final(m)) == pax_map(*old(m)).insert(key@, value@),
        r == pax_map(*old(m)).dom().contains(key@),
{
    let ghost before = *m;
    let ghost k = key@;
    let ghost v = value;
    let previous = m.insert(key, value);
    proof {
        let after = *m;
        assert forall|x: Seq<u8>| #[trigger] after.has(x) <==> before.has(x) || x == k by {
            assert(after.contents().dom().contains(x) <==> before.contents().insert(
                k,
                v,
            ).dom().contains(x));
        }
        assert forall|x: Seq<u8>| after.has(x) implies #[trigger] after.at(x)
            == before.contents().insert(k, v)[x] by {
            assert(after.contents()[x] == after.at(x));
        }
        assert(pax_map(after) =~= pax_map(before).insert(k, v@));
    }
    previous.is_some()
}

/// Puts a record with a literal key into a set.
pub fn pax_put(m: &mut ByteMap<Vec<u8>>, key: &str, value: Vec<u8>) -> (r: bool)
    requires
        old(m).wf(),
    ensures
        final(m).wf(),
        pax_map(*final(m)) == pax_map(*old(m)).insert(text(key), value@),
        r == pax_map(*old(m)).dom().contains(text(key)),
{
    pax_insert(m, to_bytes(key.as_bytes()), value)
}

/// The value of a literal key.
pub fn pax_get<'a>(m: &'a ByteMap<Vec<u8>>, key: &str) -> (r: Option<&'a Vec<u8>>)
    requires
        m.wf(),
    ensures
        match r {
            Some(v) => pax_map(*m).dom().contains(text(key)) && v@ == pax_map(*m)[text(key)],
            None => !pax_map(*m).dom().contains(text(key)),
        },
{
    m.get(key.as_bytes())
}

/// A copy of a record set.
pub fn pax_duplicate(m: &ByteMap<Vec<u8>>) -> (r: ByteMap<Vec<u8>>)
    requires
        m.wf(),
    ensures
        r.wf(),
        pax_map(r) == pax_map(*m),
{
    let mut entries: Vec<(Vec<u8>, Vec<u8>)> = Vec::new();
    let mut i: usize = 0;
    while i < m.entries().len()
        invariant
            i <= m.items().len(),
            entries@.len() == i,
            forall|k: int|
                0 <= k < i ==> (#[trigger] entries@[k]).0@ == m.items()[k].0@ && entries@[k].1@
                    == m.items()[k].1@,
        decreases m.items().len() - i,
    {
        entries.push(
            (to_bytes(m.entries()[i].0.as_slice()), to_bytes(m.entries()[i].1.as_slice())),
        );
        i = i + 1;
    }
    proof {
        assert forall|a: int, b: int| 0 <= a < b < entries@.len() implies lex_lt(
            (#[trigger] entries@[a]).0@,
            (#[trigger] entries@[b]).0@,
        ) by {
            assert(lex_lt(m.items()[a].0@, m.items()[b].0@));
        }
    }
    let r: ByteMap<Vec<u8>> = ByteMap::from_entries(entries);
    proof {
        pax_maps_are_entries(r, *m);
    }
    r
}

/// Whether two record sets hold the same records.
pub fn pax_same(a: &ByteMap<Vec<u8>>, b: &ByteMap<Vec<u8>>) -> (r: bool)
    requires
        a.wf(),
        b.wf(),
    ensures
        r == (pax_map(*a) == pax_map(*b)),
{
    proof {
        pax_maps_are_entries(*a, *b);
    }
    if a.entries().len() != b.entries().len() {
        return false;
    }
    let mut i: usize = 0;
    while i < a.entries().len()
        invariant
            i <= a.items().len(),
            a.items().len() == b.items().len(),
            pax_map(*a) == pax_map(*b) <==> (forall|i: int|
                0 <= i < a.items().len() ==> (#[trigger] a.items()[i]).0@ == b.items()[i].0@
                    && a.items()[i].1@ == b.items()[i].1@),
            forall|k: int|
                0 <= k < i ==> (#[trigger] a.items()[k]).0@ == b.items()[k].0@
                    && a.items()[k].1@ == b.items()[k].1@,
        decreases a.items().len() - i,
    {
        if !same_bytes(a.entries()[i].0.as_slice(), b.entries()[i].0.as_slice()) || !same_bytes(
            a.entries()[i].1.as_slice(),
            b.entries()[i].1.as_slice(),
        ) {
            return false;
        }
        i = i + 1;
    }
    true
}

} // verus!
