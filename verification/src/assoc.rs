//! Association lists keyed by strings: the library's stand-in for a hash
//! table wherever contracts must speak of the mapping. Keys are unique
//! and keep first-insertion order; the mathematical value is a map from
//! character sequences to the stored values.

use vstd::prelude::*;

verus! {

/// The map an association list denotes: later pairs win.
pub open spec fn assoc_view<V>(entries: Seq<(String, V)>) -> Map<Seq<char>, V>
    decreases entries.len(),
{
    if entries.len() == 0 {
        Map::empty()
    } else {
        assoc_view(entries.drop_last()).insert(entries.last().0@, entries.last().1)
    }
}

/// Whether no two pairs share a key.
pub open spec fn assoc_keys_unique<V>(entries: Seq<(String, V)>) -> bool {
    forall|i: int, j: int|
        0 <= i < j < entries.len() ==> (#[trigger] entries[i]).0@ != (#[trigger] entries[j]).0@
}

/// A key present in the list is in the map, bound to that pair's value.
pub proof fn lemma_assoc_lookup<V>(entries: Seq<(String, V)>, idx: int)
    requires
        assoc_keys_unique(entries),
        0 <= idx < entries.len(),
    ensures
        assoc_view(entries).contains_key(entries[idx].0@),
        assoc_view(entries)[entries[idx].0@] == entries[idx].1,
    decreases entries.len(),
{
    if idx < entries.len() - 1 {
        lemma_assoc_lookup(entries.drop_last(), idx);
        assert(entries.drop_last()[idx] == entries[idx]);
    }
}

/// A key no pair holds is not in the map.
pub proof fn lemma_assoc_absent<V>(entries: Seq<(String, V)>, key: Seq<char>)
    requires
        forall|i: int| 0 <= i < entries.len() ==> (#[trigger] entries[i]).0@ != key,
    ensures
        !assoc_view(entries).contains_key(key),
    decreases entries.len(),
{
    if entries.len() > 0 {
        assert(forall|i: int|
            0 <= i < entries.drop_last().len() ==> (#[trigger] entries.drop_last()[i]) == entries[i]);
        lemma_assoc_absent(entries.drop_last(), key);
    }
}

/// Replacing the pair at `idx` with one carrying the same key updates the
/// map at that key alone, and keeps the keys unique.
pub proof fn lemma_assoc_update<V>(entries: Seq<(String, V)>, idx: int, pair: (String, V))
    requires
        assoc_keys_unique(entries),
        0 <= idx < entries.len(),
        pair.0@ == entries[idx].0@,
    ensures
        assoc_view(entries.update(idx, pair)) == assoc_view(entries).insert(pair.0@, pair.1),
        assoc_keys_unique(entries.update(idx, pair)),
    decreases entries.len(),
{
    let upd = entries.update(idx, pair);
    assert(forall|i: int| 0 <= i < entries.len() && i != idx ==> upd[i] == entries[i]);
    if idx == entries.len() - 1 {
        assert(upd.drop_last() =~= entries.drop_last());
        assert(assoc_view(upd) == assoc_view(entries.drop_last()).insert(pair.0@, pair.1));
        assert(assoc_view(entries.drop_last()).insert(pair.0@, pair.1) =~= assoc_view(
            entries,
        ).insert(pair.0@, pair.1));
    } else {
        assert(upd.drop_last() =~= entries.drop_last().update(idx, pair));
        lemma_assoc_update(entries.drop_last(), idx, pair);
        assert(upd.last() == entries.last());
        // Two inserts with distinct keys commute.
        assert(assoc_view(entries.drop_last()).insert(pair.0@, pair.1).insert(
            entries.last().0@,
            entries.last().1,
        ) =~= assoc_view(entries.drop_last()).insert(entries.last().0@, entries.last().1).insert(
            pair.0@,
            pair.1,
        ));
    }
}

/// Appending a pair with a fresh key inserts it into the map, and keeps
/// the keys unique.
pub proof fn lemma_assoc_push<V>(entries: Seq<(String, V)>, pair: (String, V))
    requires
        assoc_keys_unique(entries),
        forall|i: int| 0 <= i < entries.len() ==> (#[trigger] entries[i]).0@ != pair.0@,
    ensures
        assoc_view(entries.push(pair)) == assoc_view(entries).insert(pair.0@, pair.1),
        assoc_keys_unique(entries.push(pair)),
{
    assert(entries.push(pair).drop_last() =~= entries);
}

} // verus!
