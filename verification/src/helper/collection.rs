//! Lookups over slices and over tables of key/count entries.
//!
//! The classifier keeps its rank-multiplicity table as a slice of entries,
//! so the selections it needs — a key by its count, the key whose count is
//! extreme — are small scans with exact contracts.

use vstd::prelude::*;

verus! {

/// Returns the element at `index`, or `None` past the end.
pub fn slice_get_by_index<T>(items: &[T], index: usize) -> (r: Option<&T>)
    ensures
        match r {
            Some(x) => index < items@.len() && *x == items@[index as int],
            None => index >= items@.len(),
        },
{
    broadcast use vstd::slice::axiom_slice_get_usize;

    items.get(index)
}

/// The key of the first entry carrying the value, scanning left to right.
pub open spec fn spec_first_key_with_value<K>(entries: Seq<(K, u8)>, v: u8) -> Option<K>
    decreases entries.len(),
{
    if entries.len() == 0 {
        None
    } else if entries.first().1 == v {
        Some(entries.first().0)
    } else {
        spec_first_key_with_value(entries.drop_first(), v)
    }
}

/// A scan that has passed `i` entries without a match continues on the rest.
proof fn lemma_first_key_skip<K>(entries: Seq<(K, u8)>, v: u8, i: int)
    requires
        0 <= i <= entries.len(),
        forall|j: int| 0 <= j < i ==> (#[trigger] entries[j]).1 != v,
    ensures
        spec_first_key_with_value(entries, v) == spec_first_key_with_value(
            entries.skip(i),
            v,
        ),
    decreases i,
{
    if i > 0 {
        lemma_first_key_skip(entries, v, i - 1);
        let rest = entries.skip(i - 1);
        assert(rest.len() == entries.len() - i + 1);
        assert(rest.first() == entries[i - 1]);
        assert(rest.first().1 != v);
        assert(rest.drop_first() =~= entries.skip(i));
        assert(spec_first_key_with_value(rest, v) == spec_first_key_with_value(
            rest.drop_first(),
            v,
        ));
    } else {
        assert(entries.skip(0) =~= entries);
    }
}

/// Returns the key of the first entry whose value is `value_seek`, if any.
pub fn hashmap_get_key_by_value<K: Copy>(map: &[(K, u8)], value_seek: u8) -> (r: Option<K>)
    ensures
        r == spec_first_key_with_value(map@, value_seek),
{
    let ghost entries = map@;
    let mut i: usize = 0;
    while i < map.len()
        invariant
            0 <= i <= entries.len(),
            map@ == entries,
            forall|j: int| 0 <= j < i ==> (#[trigger] entries[j]).1 != value_seek,
        decreases entries.len() - i,
    {
        if map[i].1 == value_seek {
            proof {
                lemma_first_key_skip(entries, value_seek, i as int);
                assert(entries.skip(i as int).first() == entries[i as int]);
            }
            return Some(map[i].0);
        }
        i = i + 1;
    }
    proof {
        lemma_first_key_skip(entries, value_seek, entries.len() as int);
        assert(entries.skip(entries.len() as int).len() == 0);
    }
    None
}

/// The entry a left-to-right scan keeping ties on the right settles on: the
/// last entry whose value is maximal.
pub open spec fn spec_max_entry<K>(entries: Seq<(K, u8)>) -> (K, u8)
    recommends
        entries.len() > 0,
    decreases entries.len(),
{
    if entries.len() <= 1 {
        entries[0]
    } else {
        let prev = spec_max_entry(entries.drop_last());
        if entries.last().1 >= prev.1 {
            entries.last()
        } else {
            prev
        }
    }
}

/// The entry a left-to-right scan keeping ties on the left settles on: the
/// first entry whose value is minimal.
pub open spec fn spec_min_entry<K>(entries: Seq<(K, u8)>) -> (K, u8)
    recommends
        entries.len() > 0,
    decreases entries.len(),
{
    if entries.len() <= 1 {
        entries[0]
    } else {
        let prev = spec_min_entry(entries.drop_last());
        if entries.last().1 < prev.1 {
            entries.last()
        } else {
            prev
        }
    }
}

/// Returns the key of the last entry with the maximal value.
pub fn hashmap_key_max_by_value<K: Copy>(map: &[(K, u8)]) -> (r: K)
    requires
        map@.len() > 0,
    ensures
        r == spec_max_entry(map@).0,
{
    let mut best = map[0];
    let mut i: usize = 1;
    while i < map.len()
        invariant
            1 <= i <= map@.len(),
            best == spec_max_entry(map@.take(i as int)),
        decreases map@.len() - i,
    {
        proof {
            assert(map@.take(i + 1).drop_last() =~= map@.take(i as int));
            assert(map@.take(i + 1).last() == map@[i as int]);
        }
        if map[i].1 >= best.1 {
            best = map[i];
        }
        i = i + 1;
    }
    proof {
        assert(map@.take(map@.len() as int) =~= map@);
    }
    best.0
}

/// Returns the key of the first entry with the minimal value.
pub fn hashmap_key_min_by_value<K: Copy>(map: &[(K, u8)]) -> (r: K)
    requires
        map@.len() > 0,
    ensures
        r == spec_min_entry(map@).0,
{
    let mut best = map[0];
    let mut i: usize = 1;
    while i < map.len()
        invariant
            1 <= i <= map@.len(),
            best == spec_min_entry(map@.take(i as int)),
        decreases map@.len() - i,
    {
        proof {
            assert(map@.take(i + 1).drop_last() =~= map@.take(i as int));
            assert(map@.take(i + 1).last() == map@[i as int]);
        }
        if map[i].1 < best.1 {
            best = map[i];
        }
        i = i + 1;
    }
    proof {
        assert(map@.take(map@.len() as int) =~= map@);
    }
    best.0
}

} // verus!
