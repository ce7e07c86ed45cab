use booth_archiver::cache::{Cache, CacheStats};
use booth_archiver::store::StoreError;
use std::path::PathBuf;

fn empty() -> Cache {
    Cache::new_with_path(PathBuf::from("cache/test.ron"), None).unwrap()
}

fn s(text: &str) -> String {
    text.to_string()
}

#[test]
fn a_new_cache_is_empty_and_has_counted_nothing() {
    let cache = empty();
    assert_eq!(cache.get_stats(), CacheStats { cache_hits: 0, cache_misses: 0, cache_size: 0 });
    assert_eq!(cache.get_accesses(), 0);
    assert!(cache.get_misses().is_empty());
    assert!(cache.get_hits().is_empty());
    assert!(cache.keys().is_empty());
    assert_eq!(cache.get_path_to_cache(), PathBuf::from("cache/test.ron"));
}

#[test]
fn a_cache_is_created_from_its_file() {
    let cache =
        Cache::new_with_path(PathBuf::from("c.ron"), Some("{\"k\": \"v\", \"\": \"\"}")).unwrap();
    let mut cache = cache;
    assert_eq!(cache.get_stats().cache_size, 2);
    assert_eq!(cache.get(&s("k")), Some(s("v")));
    assert_eq!(cache.get(&s("")), Some(s("")));
    assert_eq!(cache.get_accesses(), 0);
}

#[test]
fn a_corrupt_file_is_an_error() {
    let r = Cache::new_with_path(PathBuf::from("c.ron"), Some("{\"k\": "));
    assert!(matches!(r, Err(StoreError::Corrupt(_))));
    let r = Cache::new_with_path(PathBuf::from("c.ron"), Some(""));
    assert!(matches!(r, Err(StoreError::Corrupt(_))));
    let r = Cache::new_with_path(PathBuf::from("c.ron"), Some("[1, 2]"));
    assert!(matches!(r, Err(StoreError::Corrupt(_))));
}

#[test]
fn get_counts_and_logs_hits_and_misses() {
    let mut cache = empty();
    assert_eq!(cache.get(&s("a")), None);
    cache.add(s("a"), s("1"));
    assert_eq!(cache.get(&s("a")), Some(s("1")));
    assert_eq!(cache.get(&s("b")), None);
    assert_eq!(cache.get(&s("a")), Some(s("1")));
    let stats = cache.get_stats();
    assert_eq!(stats.cache_hits, 2);
    assert_eq!(stats.cache_misses, 2);
    assert_eq!(stats.cache_size, 1);
    assert_eq!(cache.get_misses(), vec![s("a"), s("b")]);
    assert_eq!(cache.get_hits(), vec![s("a"), s("a")]);
}

#[test]
fn each_of_k_keys_once_on_a_fresh_cache_is_k_misses() {
    let mut cache = empty();
    for i in 0..25 {
        assert_eq!(cache.get(&format!("key {}", i)), None);
    }
    let stats = cache.get_stats();
    assert_eq!(stats.cache_misses, 25);
    assert_eq!(stats.cache_hits, 0);
    assert_eq!(stats.cache_size, 0);
}

#[test]
fn one_key_missed_then_added_then_found() {
    let mut cache = empty();
    assert_eq!(cache.get(&s("k")), None);
    cache.add(s("k"), s("v"));
    assert_eq!(cache.get(&s("k")), Some(s("v")));
    let stats = cache.get_stats();
    assert_eq!((stats.cache_misses, stats.cache_hits), (1, 1));
}

#[test]
fn one_key_twice_with_nothing_added_is_two_misses() {
    let mut cache = empty();
    assert_eq!(cache.get(&s("k")), None);
    assert_eq!(cache.get(&s("k")), None);
    let stats = cache.get_stats();
    assert_eq!((stats.cache_misses, stats.cache_hits), (2, 0));
    assert_eq!(cache.get_misses(), vec![s("k"), s("k")]);
}

#[test]
fn hit_and_miss_count_alone() {
    let mut cache = empty();
    cache.hit();
    cache.hit();
    cache.miss();
    let stats = cache.get_stats();
    assert_eq!((stats.cache_hits, stats.cache_misses), (2, 1));
    assert!(cache.get_hits().is_empty());
    assert!(cache.get_misses().is_empty());
}

#[test]
fn add_overwrites_and_counts() {
    let mut cache = empty();
    cache.add(s("k"), s("old"));
    cache.add(s("k"), s("new"));
    cache.add(s("j"), s("x"));
    assert_eq!(cache.get_accesses(), 3);
    assert_eq!(cache.get_stats().cache_size, 2);
    assert_eq!(cache.get(&s("k")), Some(s("new")));
    assert_eq!(cache.keys(), vec![s("k"), s("j")]);
}

#[test]
fn the_empty_string_is_a_key_and_a_value() {
    let mut cache = empty();
    assert_eq!(cache.get(&s("")), None);
    cache.add(s(""), s(""));
    assert_eq!(cache.get(&s("")), Some(s("")));
    assert_eq!(cache.get_stats().cache_size, 1);
}

#[test]
fn clear_keeps_the_counters() {
    let mut cache = empty();
    let _ = cache.get(&s("a"));
    cache.add(s("a"), s("1"));
    let _ = cache.get(&s("a"));
    cache.clear();
    let stats = cache.get_stats();
    assert_eq!(stats, CacheStats { cache_hits: 1, cache_misses: 1, cache_size: 0 });
    assert_eq!(cache.get_accesses(), 1);
    assert_eq!(cache.get_misses(), vec![s("a")]);
    assert!(cache.keys().is_empty());
    assert_eq!(cache.get(&s("a")), None);
}

#[test]
fn capacity_is_at_least_the_size() {
    let mut cache = empty();
    assert!(cache.capacity() >= cache.get_stats().cache_size);
    for i in 0..40 {
        cache.add(format!("{}", i), s("v"));
        assert!(cache.capacity() >= cache.get_stats().cache_size);
    }
}

#[test]
fn dump_writes_nothing_before_the_first_miss() {
    let mut cache = empty();
    cache.add(s("a"), s("1"));
    assert_eq!(cache.dump(), Ok(None));
    cache.hit();
    assert_eq!(cache.dump(), Ok(None));
}

#[test]
fn dump_then_a_new_cache_gives_the_same_entries() {
    let mut cache = empty();
    let _ = cache.get(&s("missing"));
    let entries = [
        ("plain", "value"),
        ("", ""),
        ("empty value", ""),
        ("tab\there", "and\tthere"),
        ("日本語", "にほんご 🎌"),
        ("quote \" and ' and \\", "line\nbreak\r\n"),
        ("{TAB}", "\u{3000}\u{0}\u{7f}\u{301}"),
        ("https://example.com/a?b=1&c=2#d", "<html>\n\t<body/>\n</html>"),
    ];
    for (k, v) in entries {
        cache.add(s(k), s(v));
    }
    let text = cache.dump().unwrap().unwrap();
    let mut again = Cache::new_with_path(PathBuf::from("other.ron"), Some(&text)).unwrap();
    assert_eq!(again.get_stats().cache_size, entries.len());
    for (k, v) in entries {
        assert_eq!(again.get(&s(k)), Some(s(v)));
    }
    let mut sorted = again.keys();
    sorted.sort();
    let mut expected = cache.keys();
    expected.sort();
    assert_eq!(sorted, expected);
}

#[test]
fn dump_then_pump_leaves_the_entries() {
    let mut cache = empty();
    let _ = cache.get(&s("x"));
    cache.add(s("a"), s("1"));
    cache.add(s("b\t"), s(""));
    let text = cache.dump().unwrap().unwrap();
    assert_eq!(cache.pump(Some(&text)), Ok(()));
    assert_eq!(cache.get_stats().cache_size, 2);
    assert_eq!(cache.get(&s("a")), Some(s("1")));
    assert_eq!(cache.get(&s("b\t")), Some(s("")));
}

#[test]
fn dump_of_an_empty_mapping_reads_back_empty() {
    let mut cache = empty();
    let _ = cache.get(&s("x"));
    let text = cache.dump().unwrap().unwrap();
    let again = Cache::new_with_path(PathBuf::from("c.ron"), Some(&text)).unwrap();
    assert_eq!(again.get_stats().cache_size, 0);
}

#[test]
fn dump_is_the_same_for_the_same_entries() {
    let mut one = empty();
    let mut two = empty();
    let _ = one.get(&s("x"));
    let _ = two.get(&s("y"));
    one.add(s("a"), s("1"));
    one.add(s("b"), s("2"));
    two.add(s("b"), s("2"));
    two.add(s("a"), s("1"));
    assert_eq!(one.dump(), two.dump());
}

#[test]
fn pump_drops_what_the_file_does_not_hold() {
    let mut cache = empty();
    cache.add(s("only in memory"), s("1"));
    let _ = cache.get(&s("only in memory"));
    assert_eq!(cache.pump(Some("{\"from file\": \"2\"}")), Ok(()));
    assert_eq!(cache.keys(), vec![s("from file")]);
    assert_eq!(cache.get(&s("only in memory")), None);
    assert_eq!(cache.get(&s("from file")), Some(s("2")));
    let stats = cache.get_stats();
    assert_eq!((stats.cache_hits, stats.cache_misses), (2, 1));
    assert_eq!(cache.get_accesses(), 1);
}

#[test]
fn pump_of_a_corrupt_file_changes_nothing() {
    let mut cache = empty();
    cache.add(s("a"), s("1"));
    assert!(matches!(cache.pump(Some("not ron {")), Err(StoreError::Corrupt(_))));
    assert_eq!(cache.get(&s("a")), Some(s("1")));
}

#[test]
fn the_hundredth_add_prepares_the_document() {
    let mut cache = empty();
    let _ = cache.get(&s("missing"));
    for i in 0..99 {
        cache.add(format!("key {}", i), format!("value {}", i));
        assert_eq!(cache.take_flush(), None);
    }
    cache.add(s("key 99"), s("value 99"));
    let text = cache.take_flush().unwrap().unwrap();
    assert_eq!(cache.take_flush(), None);
    let mut again = Cache::new_with_path(PathBuf::from("c.ron"), Some(&text)).unwrap();
    assert_eq!(again.get_stats().cache_size, 100);
    for i in 0..100 {
        assert_eq!(again.get(&format!("key {}", i)), Some(format!("value {}", i)));
    }
}

#[test]
fn every_hundredth_add_prepares_a_document() {
    let mut cache = empty();
    let _ = cache.get(&s("missing"));
    for i in 1..=250u32 {
        cache.add(format!("{}", i % 7), format!("{}", i));
        let flush = cache.take_flush();
        assert_eq!(flush.is_some(), i % 100 == 0, "{}", i);
    }
}

#[test]
fn a_document_that_nobody_took_is_replaced_by_the_next() {
    let mut cache = empty();
    let _ = cache.get(&s("missing"));
    for i in 0..200 {
        cache.add(format!("{}", i), s("v"));
    }
    let text = cache.take_flush().unwrap().unwrap();
    let again = Cache::new_with_path(PathBuf::from("c.ron"), Some(&text)).unwrap();
    assert_eq!(again.get_stats().cache_size, 200);
}

#[test]
fn without_a_miss_the_hundredth_add_prepares_nothing() {
    let mut cache = empty();
    for i in 0..100 {
        cache.add(format!("{}", i), s("v"));
    }
    assert_eq!(cache.get_accesses(), 100);
    assert_eq!(cache.take_flush(), None);
}

#[test]
fn keys_are_a_snapshot() {
    let mut cache = empty();
    cache.add(s("a"), s("1"));
    let keys = cache.keys();
    cache.add(s("b"), s("2"));
    assert_eq!(keys, vec![s("a")]);
    assert_eq!(cache.keys(), vec![s("a"), s("b")]);
    assert_eq!(cache.keys(), vec![s("a"), s("b")]);
}

#[test]
fn keys_that_no_lookup_touched() {
    let mut cache = Cache::new_with_path(
        PathBuf::from("c.ron"),
        Some("{\"from file\": \"1\", \"also from file\": \"2\"}"),
    )
    .unwrap();
    let _ = cache.get(&s("new"));
    cache.add(s("new"), s("3"));
    cache.add(s("never asked for"), s("4"));
    let _ = cache.get(&s("from file"));
    let _ = cache.get(&s("gone"));
    let mut keys = cache.unaccounted_keys();
    keys.sort();
    assert_eq!(keys, vec![s("also from file"), s("never asked for")]);
}

#[test]
fn a_run_that_asks_before_it_adds_leaves_no_key_untouched() {
    let mut cache = empty();
    for i in 0..30 {
        let key = format!("{}", i % 10);
        if cache.get(&key).is_none() {
            cache.add(key, s("v"));
        }
    }
    assert!(cache.unaccounted_keys().is_empty());
    let stats = cache.get_stats();
    assert_eq!((stats.cache_misses, stats.cache_hits, stats.cache_size), (10, 20, 10));
}

#[test]
fn a_default_cache_is_empty_and_has_counted_nothing() {
    let mut cache = Cache::default();
    assert_eq!(cache.get_stats(), CacheStats { cache_hits: 0, cache_misses: 0, cache_size: 0 });
    assert_eq!(cache.get_accesses(), 0);
    assert_eq!(cache.get_path_to_cache(), PathBuf::new());
    assert_eq!(cache.get(&s("k")), None);
    cache.add(s("k"), s("v"));
    assert_eq!(cache.get(&s("k")), Some(s("v")));
    assert_eq!(cache.get(&s("k")), Some(s("v")));
    let stats = cache.get_stats();
    assert_eq!((stats.cache_hits, stats.cache_misses), (2, 1));
}

#[test]
fn bare_hits_and_misses_are_counted_but_not_logged() {
    let mut cache = empty();
    cache.add(s("a"), s("1"));
    cache.hit();
    assert_eq!(cache.get(&s("a")), Some(s("1")));
    cache.miss();
    assert_eq!(cache.get(&s("b")), None);
    cache.hit();
    cache.miss();
    assert_eq!(cache.get(&s("a")), Some(s("1")));
    let stats = cache.get_stats();
    assert_eq!((stats.cache_hits, stats.cache_misses), (4, 3));
    assert_eq!(cache.get_hits(), vec![s("a"), s("a")]);
    assert_eq!(cache.get_misses(), vec![s("b")]);
}

#[test]
fn a_bare_miss_makes_dump_write() {
    let mut cache = empty();
    cache.add(s("a"), s("1"));
    cache.miss();
    assert_eq!(cache.dump(), Ok(Some(s("{\n    \"a\": \"1\",\n}"))));
}

#[test]
fn two_lookups_of_a_held_key_are_two_hits() {
    let mut cache =
        Cache::new_with_path(PathBuf::from("c.ron"), Some("{\"k\": \"v\"}")).unwrap();
    let first = cache.get(&s("k"));
    let second = cache.get(&s("k"));
    assert_eq!(first, Some(s("v")));
    assert_eq!(second, first);
    let stats = cache.get_stats();
    assert_eq!((stats.cache_hits, stats.cache_misses, stats.cache_size), (2, 0, 1));
    assert_eq!(cache.keys(), vec![s("k")]);
}

#[test]
fn the_document_of_the_hundredth_add_is_that_of_dump() {
    let mut cache = empty();
    let _ = cache.get(&s("missing"));
    for i in 0..100 {
        cache.add(format!("key {}", i), format!("value {}", i));
    }
    let prepared = cache.take_flush().unwrap().unwrap();
    assert_eq!(cache.dump(), Ok(Some(prepared)));
}

#[test]
fn pump_from_a_missing_file_empties_the_mapping() {
    let mut cache = empty();
    let _ = cache.get(&s("a"));
    cache.add(s("a"), s("1"));
    let _ = cache.get(&s("a"));
    assert_eq!(cache.pump(None), Ok(()));
    let stats = cache.get_stats();
    assert_eq!(stats, CacheStats { cache_hits: 1, cache_misses: 1, cache_size: 0 });
    assert_eq!(cache.get_accesses(), 1);
    assert_eq!(cache.get_misses(), vec![s("a")]);
    assert_eq!(cache.get_hits(), vec![s("a")]);
    assert!(cache.keys().is_empty());
}

#[test]
fn no_log_is_longer_than_its_counter() {
    let mut cache = empty();
    assert!(cache.get_hits().is_empty() && cache.get_misses().is_empty());
    cache.hit();
    cache.miss();
    let _ = cache.get(&s("a"));
    cache.add(s("a"), s("1"));
    let _ = cache.get(&s("a"));
    let stats = cache.get_stats();
    assert!(cache.get_hits().len() as u64 <= stats.cache_hits);
    assert!(cache.get_misses().len() as u64 <= stats.cache_misses);
}

#[test]
fn lookup_counts_nothing_and_record_counts_it() {
    let mut cache = empty();
    cache.add(s("a"), s("1"));
    assert_eq!(cache.lookup(&s("a")), Some(s("1")));
    assert_eq!(cache.lookup(&s("b")), None);
    let stats = cache.get_stats();
    assert_eq!((stats.cache_hits, stats.cache_misses), (0, 0));
    cache.record(&s("a"), true);
    cache.record(&s("b"), false);
    let stats = cache.get_stats();
    assert_eq!((stats.cache_hits, stats.cache_misses), (1, 1));
    assert_eq!(cache.get_hits(), vec![s("a")]);
    assert_eq!(cache.get_misses(), vec![s("b")]);
    assert_eq!(cache.get_accesses(), 1);
}
