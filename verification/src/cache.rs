//! A key/value cache that counts its hits and misses, logs the keys of both,
//! and prepares its own persisted document after every hundredth insertion.
//!
//! This one cache stands for every form in which the archive caches: pages
//! keyed by their address, parsed pages, and translations keyed by their
//! source text are all text under text. There is no second cache with other
//! key or value types, no separate statistics for it, and no trait to put
//! another store behind it.

use crate::mapping::Mapping;
use crate::store::{document_of, load, refusal_of, ron_mapping, save, StoreError};
use crate::text::texts;
use std::path::PathBuf;
use vstd::hash_map::StringHashMap;
use vstd::prelude::*;

verus! {

/// `std::path::PathBuf`: the cache carries the path of its file, and never
/// looks into it.
#[verifier::external_type_specification]
#[verifier::external_body]
pub struct ExPathBuf(PathBuf);

/// `PathBuf::new` gives an empty path. Nothing is claimed of it.
pub assume_specification[ PathBuf::new ]() -> (path: PathBuf)
;

/// `PathBuf::clone` gives an equal path.
pub assume_specification[ <PathBuf as Clone>::clone ](path: &PathBuf) -> (r: PathBuf)
    ensures
        r == *path,
;

/// How many insertions lie between two documents that the cache prepares by
/// itself.
pub const FLUSH_EVERY: u64 = 100;

/// A snapshot of the counters of a cache.
#[derive(Debug, Clone, PartialEq, Eq)]
pub struct CacheStats {
    pub cache_hits: u64,
    pub cache_misses: u64,
    pub cache_size: usize,
}

/// What a cache is, to its callers.
pub struct CacheModel {
    /// The entries.
    pub entries: Map<Seq<char>, Seq<char>>,
    /// How many lookups found their key.
    pub hits: nat,
    /// How many lookups did not.
    pub misses: nat,
    /// How many insertions were made.
    pub accesses: nat,
    /// The keys that were found, in the order of the lookups.
    pub hit_log: Seq<Seq<char>>,
    /// The keys that were not found, in the order of the lookups.
    pub miss_log: Seq<Seq<char>>,
    /// The outcome of the last document that the cache prepared by itself
    /// and that nobody has taken yet.
    pub pending: Option<Result<Seq<char>, StoreError>>,
    /// Where the cache is persisted.
    pub path: PathBuf,
}

impl CacheModel {
    /// A cache that has seen no call yet.
    pub open spec fn fresh(path: PathBuf, entries: Map<Seq<char>, Seq<char>>) -> CacheModel {
        CacheModel {
            entries,
            hits: 0,
            misses: 0,
            accesses: 0,
            hit_log: Seq::empty(),
            miss_log: Seq::empty(),
            pending: None,
            path,
        }
    }

    /// What a lookup of `key` answers.
    pub open spec fn lookup(self, key: Seq<char>) -> Option<Seq<char>> {
        if self.entries.contains_key(key) {
            Some(self.entries[key])
        } else {
            None
        }
    }

    /// The cache after one more hit was counted.
    pub open spec fn after_hit(self) -> CacheModel {
        CacheModel { hits: self.hits + 1, ..self }
    }

    /// The cache after one more miss was counted.
    pub open spec fn after_miss(self) -> CacheModel {
        CacheModel { misses: self.misses + 1, ..self }
    }

    /// The cache after a lookup of `key` was counted and logged: as a hit
    /// where `found`, and else as a miss.
    pub open spec fn after_record(self, key: Seq<char>, found: bool) -> CacheModel {
        if found {
            CacheModel { hit_log: self.hit_log.push(key), ..self.after_hit() }
        } else {
            CacheModel { miss_log: self.miss_log.push(key), ..self.after_miss() }
        }
    }

    /// The cache after a lookup of `key`: the entries are as before, and the
    /// lookup is counted and logged as a hit or as a miss.
    pub open spec fn after_get(self, key: Seq<char>) -> CacheModel {
        self.after_record(key, self.entries.contains_key(key))
    }

    /// The cache after a run of lookups, one for each key of `keys` in order.
    pub open spec fn after_gets(self, keys: Seq<Seq<char>>) -> CacheModel
        decreases keys.len(),
    {
        if keys.len() == 0 {
            self
        } else {
            self.after_gets(keys.drop_last()).after_get(keys.last())
        }
    }

    /// The cache after `value` was put under `key`, before it prepares any
    /// document.
    pub open spec fn after_add(self, key: Seq<char>, value: Seq<char>) -> CacheModel {
        CacheModel {
            entries: self.entries.insert(key, value),
            accesses: self.accesses + 1,
            ..self
        }
    }

    /// Whether a document is written from this state: a cache that has seen
    /// no miss writes none.
    pub open spec fn writes(self) -> bool {
        self.misses > 0
    }

    /// Whether the insertion that led to this state makes the cache prepare
    /// a document by itself.
    pub open spec fn flush_due(self) -> bool {
        self.accesses % (FLUSH_EVERY as nat) == 0 && self.writes()
    }

    /// The document that is written from this state: none where no lookup
    /// has missed, and else the document of the entries, where there is
    /// one.
    pub open spec fn written(self) -> Option<Seq<char>> {
        if self.writes() {
            document_of(self.entries)
        } else {
            None
        }
    }

    /// Whether `outcome` is the outcome of writing the entries: the
    /// document of the entries, which holds exactly them, or, where they
    /// have no document, the error that says why.
    pub open spec fn written_as(self, outcome: Result<Seq<char>, StoreError>) -> bool {
        match outcome {
            Ok(text) => document_of(self.entries) == Some(text),
            Err(e) => document_of(self.entries) is None && refusal_of(self.entries, e),
        }
    }

    /// The cache with the entries of the persisted document `text` in place
    /// of its own; unchanged where `text` does not parse.
    pub open spec fn after_pump(self, text: Seq<char>) -> CacheModel {
        match ron_mapping(text) {
            Some(entries) => CacheModel { entries, ..self },
            None => self,
        }
    }

    /// Whether the two are equal, but for the document that waits to be
    /// taken.
    pub open spec fn agrees(self, other: CacheModel) -> bool {
        self == (CacheModel { pending: self.pending, ..other })
    }

    /// Whether `after` is a possible state after `value` was put under
    /// `key`: the entry is there and the insertion is counted; where a
    /// document is due, its outcome waits to be taken, and else what waited
    /// before still does.
    pub open spec fn added(self, key: Seq<char>, value: Seq<char>, after: CacheModel) -> bool {
        &&& after.agrees(self.after_add(key, value))
        &&& if after.flush_due() {
            after.pending matches Some(outcome) && after.written_as(outcome)
        } else {
            after.pending == self.pending
        }
    }

    /// The cache without entries; the counters and logs stay.
    pub open spec fn after_clear(self) -> CacheModel {
        CacheModel { entries: Map::empty(), ..self }
    }
}

/// The keys of the events of `events` that have one, in order.
pub open spec fn keyed(events: Seq<Option<String>>) -> Seq<Seq<char>>
    decreases events.len(),
{
    if events.len() == 0 {
        Seq::empty()
    } else {
        match events.last() {
            Some(key) => keyed(events.drop_last()).push(key@),
            None => keyed(events.drop_last()),
        }
    }
}

/// Copies of the keys of the events of `events` that have one, in order.
pub fn keys_of(events: &Vec<Option<String>>) -> (keys: Vec<String>)
    ensures
        texts(keys@) == keyed(events@),
{
    let mut keys: Vec<String> = Vec::new();
    let mut i: usize = 0;
    while i < events.len()
        invariant
            i <= events.len(),
            texts(keys@) == keyed(events@.take(i as int)),
        decreases events.len() - i,
    {
        proof {
            let next = events@.take(i + 1);
            assert(next.drop_last() =~= events@.take(i as int));
            assert(next.last() == events@[i as int]);
        }
        let ghost before = texts(keys@);
        match &events[i] {
            Some(key) => {
                keys.push(key.clone());
                assert(texts(keys@) =~= before.push(key@));
            },
            None => {},
        }
        i += 1;
    }
    assert(events@.take(events.len() as int) =~= events@);
    keys
}

/// No more events have a key than there are events.
pub proof fn lemma_keyed_len(events: Seq<Option<String>>)
    ensures
        keyed(events).len() <= events.len(),
    decreases events.len(),
{
    if events.len() > 0 {
        lemma_keyed_len(events.drop_last());
    }
}

/// Puts every key of `keys` into `noted`.
fn note_keys(noted: &mut StringHashMap<bool>, keys: &Vec<String>)
    ensures
        forall|k: Seq<char>| #[trigger]
            final(noted)@.contains_key(k) <==> old(noted)@.contains_key(k) || texts(
                keys@,
            ).contains(k),
{
    let mut i: usize = 0;
    while i < keys.len()
        invariant
            i <= keys.len(),
            forall|k: Seq<char>|
                noted@.contains_key(k) <==> old(noted)@.contains_key(k) || texts(keys@).take(
                    i as int,
                ).contains(k),
        decreases keys.len() - i,
    {
        let ghost seen = texts(keys@).take(i as int);
        let ghost before = noted@;
        noted.insert(keys[i].clone(), true);
        proof {
            let more = texts(keys@).take(i + 1);
            assert(more =~= seen.push(keys@[i as int]@));
            assert forall|k: Seq<char>|
                noted@.contains_key(k) <==> old(noted)@.contains_key(k) || more.contains(k) by {
                if more.contains(k) {
                    let j = choose|j: int| 0 <= j < more.len() && more[j] == k;
                    if j < i {
                        assert(seen[j] == k);
                    }
                }
                if seen.contains(k) {
                    let j = choose|j: int| 0 <= j < seen.len() && seen[j] == k;
                    assert(more[j] == k);
                }
                assert(more[i as int] == keys@[i as int]@);
            }
        }
        i += 1;
    }
    assert(texts(keys@).take(keys.len() as int) =~= texts(keys@));
}

/// A key/value cache with statistics. Safe to share between threads behind a
/// lock.
///
/// Every hit and every miss that is counted is one event in a log, with its
/// key where a lookup counted it; the counters are the lengths of the two
/// logs, and so never run over.
pub struct Cache {
    cache: Mapping,
    misses: Vec<Option<String>>,
    hits: Vec<Option<String>>,
    accesses: u64,
    path_to_cache: PathBuf,
    pending: Option<Result<String, StoreError>>,
}

impl View for Cache {
    type V = CacheModel;

    closed spec fn view(&self) -> CacheModel {
        CacheModel {
            entries: self.cache@,
            hits: self.hits@.len(),
            misses: self.misses@.len(),
            accesses: self.accesses as nat,
            hit_log: keyed(self.hits@),
            miss_log: keyed(self.misses@),
            pending: match self.pending {
                None => None,
                Some(Ok(text)) => Some(Ok(text@)),
                Some(Err(e)) => Some(Err(e)),
            },
            path: self.path_to_cache,
        }
    }
}

impl Cache {
    /// The invariant of the cache.
    pub closed spec fn wf(&self) -> bool {
        self.cache.wf()
    }

    /// Neither log is longer than its counter: every logged key was
    /// counted, and a hit or miss that was counted alone has no key.
    pub proof fn lemma_logs_within_counters(&self)
        ensures
            self@.hit_log.len() <= self@.hits,
            self@.miss_log.len() <= self@.misses,
    {
        lemma_keyed_len(self.hits@);
        lemma_keyed_len(self.misses@);
    }

    /// Creates a cache that is persisted at `path_to_cache`, from what was
    /// read there: `None` where no file exists, which gives an empty cache,
    /// and else the file's text, which must parse.
    pub fn new_with_path(path_to_cache: PathBuf, persisted: Option<&str>) -> (r: Result<
        Self,
        StoreError,
    >)
        ensures
            match persisted {
                None => r matches Ok(c) && c.wf() && c@ == CacheModel::fresh(
                    path_to_cache,
                    Map::empty(),
                ),
                Some(text) => match ron_mapping(text@) {
                    Some(entries) => r matches Ok(c) && c.wf() && c@ == CacheModel::fresh(
                        path_to_cache,
                        entries,
                    ),
                    None => r matches Err(e) && e is Corrupt,
                },
            },
    {
        match load(persisted) {
            Ok(cache) => {
                let c = Cache {
                    cache,
                    misses: Vec::new(),
                    hits: Vec::new(),
                    accesses: 0,
                    path_to_cache,
                    pending: None,
                };
                assert(c@.hit_log =~= Seq::empty());
                assert(c@.miss_log =~= Seq::empty());
                Ok(c)
            },
            Err(e) => Err(e),
        }
    }

    /// Puts `value` under `key`, in place of what stood there, and counts the
    /// insertion. Every hundredth insertion makes the cache prepare its
    /// persisted document, as `dump` does; the outcome waits to be taken
    /// with `take_flush`.
    pub fn add(&mut self, key: String, value: String)
        requires
            old(self).wf(),
            old(self)@.accesses < u64::MAX,
        ensures
            final(self).wf(),
            old(self)@.added(key@, value@, final(self)@),
    {
        self.cache.insert(key, value);
        self.accesses += 1;
        if self.accesses % FLUSH_EVERY == 0 {
            match self.dump() {
                Ok(None) => {},
                Ok(Some(text)) => {
                    self.pending = Some(Ok(text));
                },
                Err(e) => {
                    self.pending = Some(Err(e));
                },
            }
        }
    }

    /// Looks `key` up: `lookup`, and then `record` of what it found. A hit
    /// is counted and logged and gives a copy of the value; a miss is
    /// counted and logged and gives nothing. The entries stay as they are.
    pub fn get(&mut self, key: &String) -> (r: Option<String>)
        requires
            old(self).wf(),
        ensures
            final(self).wf(),
            final(self)@ == old(self)@.after_get(key@),
            match r {
                Some(value) => old(self)@.lookup(key@) == Some(value@),
                None => old(self)@.lookup(key@) is None,
            },
    {
        let found = self.lookup(key);
        self.record(key, found.is_some());
        found
    }

    /// A copy of the value under `key`, if the cache holds the key. Nothing
    /// is counted and nothing changes, so many may look up at one time;
    /// `record` counts the lookup afterwards.
    pub fn lookup(&self, key: &String) -> (r: Option<String>)
        requires
            self.wf(),
        ensures
            match r {
                Some(value) => self@.lookup(key@) == Some(value@),
                None => self@.lookup(key@) is None,
            },
    {
        match self.cache.get(key.as_str()) {
            Some(value) => Some(value.clone()),
            None => None,
        }
    }

    /// Counts and logs a lookup of `key`: as a hit where it found the key,
    /// and else as a miss.
    pub fn record(&mut self, key: &String, found: bool)
        requires
            old(self).wf(),
        ensures
            final(self).wf(),
            final(self)@ == old(self)@.after_record(key@, found),
    {
        if found {
            self.hits.push(Some(key.clone()));
            assert(self.hits@.drop_last() =~= old(self).hits@);
        } else {
            self.misses.push(Some(key.clone()));
            assert(self.misses@.drop_last() =~= old(self).misses@);
        }
    }

    /// Counts one more hit.
    pub fn hit(&mut self)
        requires
            old(self).wf(),
        ensures
            final(self).wf(),
            final(self)@ == old(self)@.after_hit(),
    {
        self.hits.push(None);
        assert(self.hits@.drop_last() =~= old(self).hits@);
    }

    /// Counts one more miss.
    pub fn miss(&mut self)
        requires
            old(self).wf(),
        ensures
            final(self).wf(),
            final(self)@ == old(self)@.after_miss(),
    {
        self.misses.push(None);
        assert(self.misses@.drop_last() =~= old(self).misses@);
    }

    /// Takes the entries that are persisted in place of the cache's own:
    /// those of the document `persisted`, or none where `persisted` is
    /// `None`, which stands for a file that does not exist. A document that
    /// does not parse is an error and leaves the cache as it is. The
    /// counters and the logs stay in every case.
    pub fn pump(&mut self, persisted: Option<&str>) -> (r: Result<(), StoreError>)
        requires
            old(self).wf(),
        ensures
            final(self).wf(),
            match persisted {
                None => r is Ok && final(self)@ == old(self)@.after_clear(),
                Some(text) => final(self)@ == old(self)@.after_pump(text@) && match r {
                    Ok(_) => ron_mapping(text@) is Some,
                    Err(e) => ron_mapping(text@) is None && e is Corrupt,
                },
            },
    {
        match load(persisted) {
            Ok(cache) => {
                self.cache = cache;
                Ok(())
            },
            Err(e) => Err(e),
        }
    }

    /// The document to persist: none where no lookup has missed so far, and
    /// else the document of the entries, which holds exactly them and is
    /// the same for equal entries, or, where they have no document, the
    /// error that says why.
    pub fn dump(&self) -> (r: Result<Option<String>, StoreError>)
        requires
            self.wf(),
        ensures
            match r {
                Ok(None) => !self@.writes(),
                Ok(Some(text)) => self@.writes() && self@.written_as(Ok(text@)),
                Err(e) => self@.writes() && self@.written_as(Err(e)),
            },
    {
        if self.misses.len() == 0 {
            return Ok(None);
        }
        match save(&self.cache) {
            Ok(text) => Ok(Some(text)),
            Err(e) => Err(e),
        }
    }

    /// Takes the outcome of the last document that the cache prepared by
    /// itself, if nobody has taken it yet.
    pub fn take_flush(&mut self) -> (r: Option<Result<String, StoreError>>)
        requires
            old(self).wf(),
        ensures
            final(self).wf(),
            final(self)@ == (CacheModel { pending: None, ..old(self)@ }),
            match r {
                None => old(self)@.pending is None,
                Some(Ok(text)) => old(self)@.pending == Some(
                    Ok::<Seq<char>, StoreError>(text@),
                ),
                Some(Err(e)) => old(self)@.pending == Some(Err::<Seq<char>, StoreError>(e)),
            },
    {
        self.pending.take()
    }

    /// The counters, with the number of entries as it is now.
    pub fn get_stats(&self) -> (stats: CacheStats)
        requires
            self.wf(),
        ensures
            stats.cache_hits == self@.hits,
            stats.cache_misses == self@.misses,
            self@.hit_log.len() <= self@.hits,
            self@.miss_log.len() <= self@.misses,
            self@.entries.dom().finite(),
            stats.cache_size == self@.entries.len(),
    {
        proof {
            self.lemma_logs_within_counters();
        }
        CacheStats {
            cache_hits: self.hits.len() as u64,
            cache_misses: self.misses.len() as u64,
            cache_size: self.cache.len(),
        }
    }

    /// The keys that lookups missed, one for each miss, in order.
    pub fn get_misses(&self) -> (keys: Vec<String>)
        ensures
            texts(keys@) == self@.miss_log,
            keys@.len() == self@.miss_log.len(),
            self@.miss_log.len() <= self@.misses,
            forall|i: int| 0 <= i < keys@.len() ==> (#[trigger] keys@[i])@ == self@.miss_log[i],
    {
        proof {
            lemma_keyed_len(self.misses@);
        }
        let keys = keys_of(&self.misses);
        assert(texts(keys@).len() == keys@.len());
        assert forall|i: int| 0 <= i < keys@.len() implies (#[trigger] keys@[i])@
            == self@.miss_log[i] by {
            assert(texts(keys@)[i] == keys@[i]@);
        }
        keys
    }

    /// The keys that lookups found, one for each hit, in order.
    pub fn get_hits(&self) -> (keys: Vec<String>)
        ensures
            texts(keys@) == self@.hit_log,
            keys@.len() == self@.hit_log.len(),
            self@.hit_log.len() <= self@.hits,
            forall|i: int| 0 <= i < keys@.len() ==> (#[trigger] keys@[i])@ == self@.hit_log[i],
    {
        proof {
            lemma_keyed_len(self.hits@);
        }
        let keys = keys_of(&self.hits);
        assert(texts(keys@).len() == keys@.len());
        assert forall|i: int| 0 <= i < keys@.len() implies (#[trigger] keys@[i])@
            == self@.hit_log[i] by {
            assert(texts(keys@)[i] == keys@[i]@);
        }
        keys
    }

    /// How many insertions were made.
    pub fn get_accesses(&self) -> (n: u64)
        ensures
            n == self@.accesses,
    {
        self.accesses
    }

    /// Where the cache is persisted.
    pub fn get_path_to_cache(&self) -> (path: PathBuf)
        ensures
            path == self@.path,
    {
        self.path_to_cache.clone()
    }

    /// The keys of the entries as they are now, each once.
    pub fn keys(&self) -> (keys: Vec<String>)
        requires
            self.wf(),
        ensures
            self@.entries.dom().finite(),
            keys@.len() == self@.entries.len(),
            texts(keys@).no_duplicates(),
            forall|k: Seq<char>| texts(keys@).contains(k) <==> self@.entries.contains_key(k),
    {
        let keys = self.cache.keys();
        proof {
            self.cache.lemma_key_order();
            assert(texts(keys@) =~= self.cache.key_order());
        }
        keys
    }

    /// The keys of the entries that no lookup has found or missed so far,
    /// each once: where the bookkeeping of a run is sound, every key that
    /// the run put in is among the logged ones, and this list is empty.
    pub fn unaccounted_keys(&self) -> (keys: Vec<String>)
        requires
            self.wf(),
        ensures
            texts(keys@).no_duplicates(),
            forall|k: Seq<char>|
                texts(keys@).contains(k) <==> self@.entries.contains_key(k)
                    && !self@.hit_log.contains(k) && !self@.miss_log.contains(k),
    {
        let hits = self.get_hits();
        let misses = self.get_misses();
        let mut logged: StringHashMap<bool> = StringHashMap::new();
        note_keys(&mut logged, &hits);
        let ghost with_hits = logged@;
        note_keys(&mut logged, &misses);
        assert forall|k: Seq<char>|
            logged@.contains_key(k) <==> self@.hit_log.contains(k) || self@.miss_log.contains(
                k,
            ) by {
            assert(texts(hits@) == self@.hit_log && texts(misses@) == self@.miss_log);
            assert(!Map::<Seq<char>, bool>::empty().contains_key(k));
            assert(with_hits.contains_key(k) <==> texts(hits@).contains(k));
            assert(logged@.contains_key(k) <==> with_hits.contains_key(k) || texts(
                misses@,
            ).contains(k));
        }
        let all = self.keys();
        let mut keys: Vec<String> = Vec::new();
        let mut i: usize = 0;
        while i < all.len()
            invariant
                i <= all.len(),
                texts(all@).no_duplicates(),
                forall|k: Seq<char>|
                    logged@.contains_key(k) <==> self@.hit_log.contains(k)
                        || self@.miss_log.contains(k),
                forall|k: Seq<char>| texts(all@).contains(k) <==> self@.entries.contains_key(k),
                texts(keys@).no_duplicates(),
                forall|k: Seq<char>|
                    texts(keys@).contains(k) <==> texts(all@).take(i as int).contains(k)
                        && !logged@.contains_key(k),
            decreases all.len() - i,
        {
            let ghost seen = texts(all@).take(i as int);
            let ghost kept = texts(keys@);
            let ghost key = all@[i as int]@;
            proof {
                assert(texts(all@)[i as int] == key);
                assert(!seen.contains(key)) by {
                    if seen.contains(key) {
                        let j = choose|j: int| 0 <= j < seen.len() && seen[j] == key;
                        assert(texts(all@)[j] == texts(all@)[i as int]);
                    }
                }
            }
            let is_logged = logged.contains_key(all[i].as_str());
            if !is_logged {
                keys.push(all[i].clone());
                assert(texts(keys@) =~= kept.push(key));
            }
            proof {
                let more = texts(all@).take(i + 1);
                assert(more =~= seen.push(key));
                let now = texts(keys@);
                assert forall|k: Seq<char>|
                    now.contains(k) <==> more.contains(k) && !logged@.contains_key(k) by {
                    if now.contains(k) {
                        let j = choose|j: int| 0 <= j < now.len() && now[j] == k;
                        if j < kept.len() {
                            assert(kept[j] == k);
                            assert(kept.contains(k));
                            let a = choose|a: int| 0 <= a < seen.len() && seen[a] == k;
                            assert(more[a] == k);
                        } else {
                            assert(more[i as int] == k);
                        }
                    }
                    if more.contains(k) && !logged@.contains_key(k) {
                        let a = choose|a: int| 0 <= a < more.len() && more[a] == k;
                        if a < i {
                            assert(seen[a] == k);
                            assert(seen.contains(k));
                            let j = choose|j: int| 0 <= j < kept.len() && kept[j] == k;
                            assert(now[j] == k);
                        } else {
                            assert(now[now.len() - 1] == k);
                        }
                    }
                }
                assert(now.no_duplicates()) by {
                    if !is_logged {
                        assert(!kept.contains(key));
                        assert forall|a: int, b: int|
                            0 <= a < now.len() && 0 <= b < now.len() && a != b implies now[a]
                            != now[b] by {
                            if a < kept.len() && b < kept.len() {
                                assert(kept[a] != kept[b]);
                            } else if a < kept.len() {
                                assert(kept[a] == now[a]);
                                assert(kept.contains(now[a]));
                            } else {
                                assert(kept[b] == now[b]);
                                assert(kept.contains(now[b]));
                            }
                        }
                    }
                }
            }
            i += 1;
        }
        assert(texts(all@).take(all.len() as int) =~= texts(all@));
        keys
    }

    /// Drops every entry. The counters, the logs and the persisted file
    /// stay as they are.
    pub fn clear(&mut self)
        requires
            old(self).wf(),
        ensures
            final(self).wf(),
            final(self)@ == old(self)@.after_clear(),
    {
        self.cache.clear();
    }

    /// The number of entries for which room is allocated: never less than
    /// the number of entries.
    pub fn capacity(&self) -> (c: usize)
        requires
            self.wf(),
        ensures
            self@.entries.dom().finite(),
            c >= self@.entries.len(),
    {
        self.cache.capacity()
    }
}

impl Default for Cache {
    /// A cache without entries that has seen no call yet, with an empty
    /// path.
    fn default() -> (c: Self)
        ensures
            c.wf(),
            c@ == CacheModel::fresh(c@.path, Map::empty()),
    {
        Cache {
            cache: Mapping::new(),
            misses: Vec::new(),
            hits: Vec::new(),
            accesses: 0,
            path_to_cache: PathBuf::new(),
            pending: None,
        }
    }
}

} // verus!
