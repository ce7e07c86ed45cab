//! What holds of a cache over several calls.

use crate::cache::{CacheModel, FLUSH_EVERY};
use crate::store::{ron_mapping, StoreError};
use std::path::PathBuf;
use vstd::prelude::*;

verus! {

/// A document that was written from a cache reads back as the entries of
/// that cache: taking it in leaves the cache as it is, and a cache created
/// from it holds the same entries. This holds of every mapping, the empty
/// one included, and of every text as key or value.
pub proof fn lemma_dump_then_pump(cache: CacheModel, text: Seq<char>, path: PathBuf)
    requires
        cache.written_as(Ok(text)),
    ensures
        cache.after_pump(text) == cache,
        ron_mapping(text) is Some,
        CacheModel::fresh(path, ron_mapping(text)->0).entries == cache.entries,
{
}

/// Writing is stable: two caches with equal entries, each with a miss
/// recorded, write the same document, or both write none for the same
/// reason. So does one cache that writes twice.
pub proof fn lemma_equal_entries_same_document(
    one: CacheModel,
    other: CacheModel,
    first: Result<Seq<char>, StoreError>,
    second: Result<Seq<char>, StoreError>,
)
    requires
        one.entries == other.entries,
        one.written_as(first),
        other.written_as(second),
    ensures
        one.writes() && other.writes() ==> one.written() == other.written(),
        first matches Ok(text) ==> second == Ok::<Seq<char>, StoreError>(text),
        first matches Err(e) ==> second is Err && (e is Unwritable <==> second->Err_0
            is Unwritable) && (e is Unfaithful <==> second->Err_0 is Unfaithful),
{
}

/// Lookups leave the entries as they are, and each is counted once, as a
/// hit or as a miss.
pub proof fn lemma_gets_keep_entries(cache: CacheModel, keys: Seq<Seq<char>>)
    ensures
        cache.after_gets(keys).entries == cache.entries,
        cache.after_gets(keys).accesses == cache.accesses,
        cache.after_gets(keys).hits + cache.after_gets(keys).misses == cache.hits + cache.misses
            + keys.len(),
        cache.after_gets(keys).hit_log.len() + cache.after_gets(keys).miss_log.len()
            == cache.hit_log.len() + cache.miss_log.len() + keys.len(),
    decreases keys.len(),
{
    if keys.len() > 0 {
        lemma_gets_keep_entries(cache, keys.drop_last());
    }
}

/// Lookups of keys that the cache does not hold are all misses: each key
/// is counted and logged as one, in order, and no hit is counted. So after
/// one lookup for each of `K` keys on a cache without entries, the misses
/// are `K` more and the hits as before.
pub proof fn lemma_absent_keys_all_miss(cache: CacheModel, keys: Seq<Seq<char>>)
    requires
        forall|i: int| 0 <= i < keys.len() ==> !cache.entries.contains_key(#[trigger] keys[i]),
    ensures
        cache.after_gets(keys).misses == cache.misses + keys.len(),
        cache.after_gets(keys).hits == cache.hits,
        cache.after_gets(keys).miss_log == cache.miss_log + keys,
        cache.after_gets(keys).hit_log == cache.hit_log,
    decreases keys.len(),
{
    if keys.len() == 0 {
        assert(cache.miss_log + keys =~= cache.miss_log);
    } else {
        let front = keys.drop_last();
        assert forall|i: int| 0 <= i < front.len() implies !cache.entries.contains_key(
            #[trigger] front[i],
        ) by {
            assert(front[i] == keys[i]);
        }
        lemma_absent_keys_all_miss(cache, front);
        lemma_gets_keep_entries(cache, front);
        assert(keys.last() == keys[keys.len() - 1]);
        assert((cache.miss_log + front).push(keys.last()) =~= cache.miss_log + keys);
    }
}

/// A key that is looked up, put into the cache, and looked up again gives
/// exactly one miss and one hit, where the cache did not hold it before.
/// (Two lookups with nothing put in between are two misses: a lookup never
/// changes the entries.)
pub proof fn lemma_miss_then_hit(cache: CacheModel, key: Seq<char>, value: Seq<char>)
    requires
        !cache.entries.contains_key(key),
    ensures
        ({
            let after = cache.after_get(key).after_add(key, value).after_get(key);
            &&& after.misses == cache.misses + 1
            &&& after.hits == cache.hits + 1
            &&& after.lookup(key) == Some(value)
        }),
        cache.after_get(key).after_get(key).misses == cache.misses + 2,
        cache.after_get(key).after_get(key).hits == cache.hits,
{
}

/// Whether `states` are the states of a cache before and after each of a
/// run of insertions, of `values[i]` under `keys[i]` in order.
pub open spec fn insertions(
    states: Seq<CacheModel>,
    keys: Seq<Seq<char>>,
    values: Seq<Seq<char>>,
) -> bool {
    &&& states.len() == keys.len() + 1
    &&& values.len() == keys.len()
    &&& forall|i: int|
        0 <= i < keys.len() ==> states[i].added(#[trigger] keys[i], values[i], states[i + 1])
}

/// During a run of insertions each one is counted, the misses stay, and
/// every key put in so far is held.
pub proof fn lemma_insertions(
    states: Seq<CacheModel>,
    keys: Seq<Seq<char>>,
    values: Seq<Seq<char>>,
    n: int,
)
    requires
        insertions(states, keys, values),
        0 <= n <= keys.len(),
    ensures
        states[n].accesses == states[0].accesses + n,
        states[n].misses == states[0].misses,
        forall|i: int| 0 <= i < n ==> states[n].entries.contains_key(#[trigger] keys[i]),
    decreases n,
{
    if n > 0 {
        lemma_insertions(states, keys, values, n - 1);
        assert(states[n - 1].added(keys[n - 1], values[n - 1], states[n]));
    }
}

/// After exactly a hundred insertions into a cache that had counted none,
/// and had missed at least one lookup, the outcome of a document waits to
/// be taken that nobody asked for: the document of the entries, which holds
/// exactly them, all hundred keys among them, or, where the entries have no
/// document, the error that says why. (A cache that has missed no lookup
/// writes no document at all.)
pub proof fn lemma_hundredth_insertion_flushes(
    states: Seq<CacheModel>,
    keys: Seq<Seq<char>>,
    values: Seq<Seq<char>>,
)
    requires
        insertions(states, keys, values),
        keys.len() == FLUSH_EVERY,
        states[0].accesses == 0,
        states[0].misses > 0,
    ensures
        states.last().pending matches Some(outcome) && states.last().written_as(outcome),
        forall|i: int|
            0 <= i < keys.len() ==> states.last().entries.contains_key(#[trigger] keys[i]),
{
    let n = keys.len() as int;
    lemma_insertions(states, keys, values, n);
    assert(states[n - 1].added(keys[n - 1], values[n - 1], states[n]));
    assert(states.last() == states[n]);
    assert(states[n].flush_due());
}

} // verus!
