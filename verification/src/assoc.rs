//! Lists of keyed entries read as maps.
//!
//! The small tables of this crate are vectors of (key, value) pairs with
//! text keys. Such a list is read as a map in which, of two entries with the
//! same key, the first counts.

use vstd::prelude::*;

verus! {

/// The value of the first entry of `entries` whose key is `key`.
pub open spec fn first_match<V>(entries: Seq<(Seq<char>, V)>, key: Seq<char>) -> Option<V>
    decreases entries.len(),
{
    if entries.len() == 0 {
        None
    } else if entries[0].0 == key {
        Some(entries[0].1)
    } else {
        first_match(entries.drop_first(), key)
    }
}

/// The map a list of entries stands for.
pub open spec fn as_map<V>(entries: Seq<(Seq<char>, V)>) -> Map<Seq<char>, V> {
    Map::new(
        |k: Seq<char>| first_match(entries, k) is Some,
        |k: Seq<char>| first_match(entries, k)->0,
    )
}

/// No two entries have the same key.
pub open spec fn distinct_keys<V>(entries: Seq<(Seq<char>, V)>) -> bool {
    forall|i: int, j: int| 0 <= i < j < entries.len() ==> entries[i].0 != entries[j].0
}

/// Entries before the first match do not count.
pub proof fn lemma_first_match_skip<V>(entries: Seq<(Seq<char>, V)>, key: Seq<char>, i: int)
    requires
        0 <= i <= entries.len(),
        forall|j: int| 0 <= j < i ==> entries[j].0 != key,
    ensures
        first_match(entries, key) == first_match(entries.skip(i), key),
    decreases i,
{
    if i == 0 {
        assert(entries.skip(0) =~= entries);
    } else {
        lemma_first_match_skip(entries, key, i - 1);
        assert(entries.skip(i - 1).drop_first() =~= entries.skip(i));
    }
}

/// A key that no entry has is not found.
pub proof fn lemma_first_match_none<V>(entries: Seq<(Seq<char>, V)>, key: Seq<char>)
    requires
        forall|j: int| 0 <= j < entries.len() ==> entries[j].0 != key,
    ensures
        first_match(entries, key) is None,
    decreases entries.len(),
{
    if entries.len() > 0 {
        assert forall|j: int| 0 <= j < entries.drop_first().len() implies entries.drop_first()[j].0
            != key by {
            assert(entries.drop_first()[j] == entries[j + 1]);
        }
        lemma_first_match_none(entries.drop_first(), key);
    }
}

/// The entry at `i` is the first with its key: it is what a lookup finds.
pub proof fn lemma_first_match_at<V>(entries: Seq<(Seq<char>, V)>, key: Seq<char>, i: int)
    requires
        0 <= i < entries.len(),
        entries[i].0 == key,
        forall|j: int| 0 <= j < i ==> entries[j].0 != key,
    ensures
        first_match(entries, key) == Some(entries[i].1),
{
    lemma_first_match_skip(entries, key, i);
}

/// Replacing the value of the first entry with key `key` changes what is
/// found under `key` and nothing else.
pub proof fn lemma_first_match_update<V>(
    entries: Seq<(Seq<char>, V)>,
    i: int,
    key: Seq<char>,
    value: V,
    q: Seq<char>,
)
    requires
        0 <= i < entries.len(),
        entries[i].0 == key,
        forall|j: int| 0 <= j < i ==> entries[j].0 != key,
    ensures
        first_match(entries.update(i, (key, value)), q) == if q == key {
            Some(value)
        } else {
            first_match(entries, q)
        },
    decreases i,
{
    let updated = entries.update(i, (key, value));
    if i == 0 {
        assert(updated.drop_first() =~= entries.drop_first());
    } else {
        assert(updated.drop_first() =~= entries.drop_first().update(i - 1, (key, value)));
        assert forall|j: int| 0 <= j < i - 1 implies entries.drop_first()[j].0 != key by {
            assert(entries.drop_first()[j] == entries[j + 1]);
        }
        lemma_first_match_update(entries.drop_first(), i - 1, key, value, q);
    }
}

/// Adding an entry with a key that no entry has changes what is found under
/// that key and nothing else.
pub proof fn lemma_first_match_push<V>(
    entries: Seq<(Seq<char>, V)>,
    key: Seq<char>,
    value: V,
    q: Seq<char>,
)
    requires
        first_match(entries, key) is None,
    ensures
        first_match(entries.push((key, value)), q) == if q == key {
            Some(value)
        } else {
            first_match(entries, q)
        },
    decreases entries.len(),
{
    let pushed = entries.push((key, value));
    if entries.len() == 0 {
        assert(pushed.drop_first() =~= Seq::empty());
    } else {
        assert(pushed.drop_first() =~= entries.drop_first().push((key, value)));
        lemma_first_match_push(entries.drop_first(), key, value, q);
    }
}

} // verus!
