use booth_archiver::cache::Cache;
use booth_archiver::normalize::{decode, encode};
use booth_archiver::translate::translate;
use booth_archiver::translation::{TranslationError, UrlTranslationCTX};
use booth_archiver::url::{contains_http, handle_http};
use std::cell::RefCell;
use std::path::PathBuf;

fn fresh() -> Cache {
    Cache::new_with_path(PathBuf::from("cache/translations.ron"), None).unwrap()
}

fn upper(text: &str) -> Result<String, TranslationError> {
    if text.contains("fail") {
        Err(TranslationError::JsonParseErr(text.to_string()))
    } else {
        Ok(text.to_uppercase().replace(' ', "\t"))
    }
}

/// The translation as the recursive definition has it, with a map as the cache.
fn by_recursion(
    raw: &str,
    cache: &mut Vec<(String, String)>,
    log: &mut Vec<UrlTranslationCTX>,
) -> Result<String, TranslationError> {
    fn put(cache: &mut Vec<(String, String)>, key: &str, value: &str) {
        match cache.iter_mut().find(|(k, _)| k == key) {
            Some(entry) => entry.1 = value.to_string(),
            None => cache.push((key.to_string(), value.to_string())),
        }
    }
    let text = encode(raw);
    if text.is_empty() {
        return Ok(text);
    }
    if let Some((_, value)) = cache.iter().find(|(k, _)| *k == text) {
        return Ok(decode(value));
    }
    if contains_http(&text) {
        let (left, url, right) = handle_http(&text);
        let left_done = by_recursion(&left, cache, log)?;
        let right_done = by_recursion(&right, cache, log)?;
        let out = format!("{} {} {}", left_done, url, right_done);
        log.push(UrlTranslationCTX {
            original_text: text.clone(),
            left: left_done.clone(),
            url: url.clone(),
            right: right_done.clone(),
            tled: out.clone(),
        });
        put(cache, &text, &out);
        put(cache, &url, &url);
        put(cache, &left, &left_done);
        put(cache, &right, &right_done);
        Ok(out)
    } else {
        let answer = upper(&text)?;
        put(cache, &text, &answer);
        Ok(decode(&answer))
    }
}

#[test]
fn one_call_translates_around_a_url() {
    let mut cache = fresh();
    let mut log = Vec::new();
    let out = translate("see https://example.com/a?b=1 for info", &mut cache, &mut log, upper);
    assert_eq!(out, Ok("SEE https://example.com/a?b=1 FOR\tINFO".to_string()));
    assert_eq!(log.len(), 1);
    assert_eq!(cache.get(&"for info".to_string()), Some("FOR\tINFO".to_string()));
}

#[test]
fn one_call_twice_asks_the_backend_once() {
    let asked = RefCell::new(Vec::new());
    let backend = |text: &str| {
        asked.borrow_mut().push(text.to_string());
        Ok(format!("[{}]", text))
    };
    let mut cache = fresh();
    let mut log = Vec::new();
    let first = translate("a http://x.com b http://y.com c", &mut cache, &mut log, &backend);
    let asked_once = asked.borrow().len();
    let second = translate("a http://x.com b http://y.com c", &mut cache, &mut log, &backend);
    assert_eq!(first, Ok("[a] http://x.com [b] http://y.com [c]".to_string()));
    assert_eq!(second, first);
    assert_eq!(asked_once, 3);
    assert_eq!(asked.borrow().len(), 3);
    assert_eq!(log.len(), 2);
}

#[test]
fn one_call_passes_a_failure_on() {
    let mut cache = fresh();
    let mut log = Vec::new();
    let out = translate("ok http://x.com will fail", &mut cache, &mut log, upper);
    assert_eq!(out, Err(TranslationError::JsonParseErr("will fail".to_string())));
    assert!(log.is_empty());
    assert_eq!(cache.get(&"ok".to_string()), Some("OK".to_string()));
}

#[test]
fn the_steps_give_what_the_recursion_gives() {
    let texts = [
        "",
        "   ",
        "plain text",
        "tab\there",
        "https://example.com",
        "see https://example.com/a?b=1 for info",
        "a http://x.com b http://y.com c",
        "http://a http://b http://c",
        "http://ahttp://b",
        "(http://x.com)(http://y.com)",
        "x http://x.com will fail http://y.com y",
        "will fail http://x.com",
        "日本語\u{3000}https://例え.jp/パス\tつづき http",
        "http",
        "see https://example.com/a?b=1 for info",
        "a http://x.com b",
        " for info",
        "\thttp://x.com\t",
    ];
    let mut cache = fresh();
    let mut log = Vec::new();
    let mut expected_cache: Vec<(String, String)> = Vec::new();
    let mut expected_log = Vec::new();
    for text in texts {
        let out = translate(text, &mut cache, &mut log, upper);
        let expected = by_recursion(text, &mut expected_cache, &mut expected_log);
        assert_eq!(out, expected, "{:?}", text);
        assert_eq!(log, expected_log, "{:?}", text);
        let mut keys = cache.keys();
        keys.sort();
        let mut expected_keys: Vec<String> =
            expected_cache.iter().map(|(k, _)| k.clone()).collect();
        expected_keys.sort();
        assert_eq!(keys, expected_keys, "{:?}", text);
    }
    for (key, value) in &expected_cache {
        assert_eq!(cache.get(key).as_ref(), Some(value), "{:?}", key);
    }
}

#[test]
fn an_empty_text_never_asks_and_never_fails() {
    fn failing(_: &str) -> Result<String, TranslationError> {
        Err(TranslationError::UrlParseErr)
    }
    let mut cache = fresh();
    let mut log = Vec::new();
    assert_eq!(translate(" \u{3000}\n", &mut cache, &mut log, failing), Ok(String::new()));
    let stats = cache.get_stats();
    assert_eq!((stats.cache_hits, stats.cache_misses, stats.cache_size), (0, 0, 0));
    assert!(log.is_empty());
}

#[test]
fn a_cached_text_never_asks_and_never_fails() {
    fn failing(_: &str) -> Result<String, TranslationError> {
        Err(TranslationError::UrlParseErr)
    }
    let mut cache = fresh();
    cache.add("a http://x.com".to_string(), "cached{TAB}".to_string());
    let mut log = Vec::new();
    let out = translate(" a http://x.com ", &mut cache, &mut log, failing);
    assert_eq!(out, Ok("cached\t".to_string()));
    let stats = cache.get_stats();
    assert_eq!((stats.cache_hits, stats.cache_misses, stats.cache_size), (1, 0, 1));
    assert_eq!(cache.get_accesses(), 1);
    assert!(log.is_empty());
}
