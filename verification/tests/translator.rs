use booth_archiver::cache::Cache;
use booth_archiver::translation::{TranslationError, UrlTranslationCTX};
use booth_archiver::translator::{reassemble, Action, Translator};
use std::path::PathBuf;

struct Bench {
    cache: Cache,
    log: Vec<UrlTranslationCTX>,
    asked: Vec<String>,
    steps: usize,
}

fn bench() -> Bench {
    Bench {
        cache: Cache::new_with_path(PathBuf::from("cache/translations.ron"), None).unwrap(),
        log: Vec::new(),
        asked: Vec::new(),
        steps: 0,
    }
}

fn marked(text: &str) -> Result<String, TranslationError> {
    Ok(format!("<{}>", text))
}

fn translate(
    bench: &mut Bench,
    raw: &str,
    backend: fn(&str) -> Result<String, TranslationError>,
) -> Result<String, TranslationError> {
    let mut translator = Translator::new(raw.to_string());
    let mut reply = None;
    loop {
        let (next, action) = translator.advance(&mut bench.cache, &mut bench.log, reply.take());
        translator = next;
        bench.steps += 1;
        assert!(bench.steps < 10_000);
        match action {
            Action::Continue => {}
            Action::Translate(text) => {
                bench.asked.push(text.clone());
                reply = Some(backend(&text));
            }
            Action::Finish(result) => return result,
        }
    }
}

fn s(text: &str) -> String {
    text.to_string()
}

#[test]
fn plain_text_goes_to_the_backend_in_normal_form() {
    let mut b = bench();
    assert_eq!(translate(&mut b, "  hello\u{3000}world ", marked), Ok(s("<hello world>")));
    assert_eq!(b.asked, vec![s("hello world")]);
    assert_eq!(b.cache.get(&s("hello world")), Some(s("<hello world>")));
    assert!(b.log.is_empty());
}

#[test]
fn empty_text_is_its_own_translation_and_leaves_the_cache_alone() {
    let mut b = bench();
    assert_eq!(translate(&mut b, "", marked), Ok(s("")));
    assert_eq!(translate(&mut b, " \n ", marked), Ok(s("")));
    assert!(b.asked.is_empty());
    let stats = b.cache.get_stats();
    assert_eq!((stats.cache_hits, stats.cache_misses, stats.cache_size), (0, 0, 0));
}

#[test]
fn tabs_travel_as_tokens_and_come_back_as_tabs() {
    let mut b = bench();
    assert_eq!(translate(&mut b, "a\tb", marked), Ok(s("<a\tb>")));
    assert_eq!(b.asked, vec![s("a{TAB}b")]);
    assert_eq!(b.cache.get(&s("a{TAB}b")), Some(s("<a{TAB}b>")));
}

#[test]
fn translating_twice_gives_the_same_and_asks_once() {
    let mut b = bench();
    let first = translate(&mut b, "good morning", marked);
    let second = translate(&mut b, "good morning", marked);
    assert_eq!(first, Ok(s("<good morning>")));
    assert_eq!(second, first);
    assert_eq!(b.asked.len(), 1);
    assert_eq!(b.cache.get_stats().cache_hits, 1);
}

#[test]
fn translating_a_text_with_a_url_twice_gives_the_same_and_asks_no_more() {
    let mut b = bench();
    let first = translate(&mut b, "see https://example.com/a?b=1 for\tinfo", marked);
    let asked = b.asked.len();
    let hits = b.cache.get_stats().cache_hits;
    let second = translate(&mut b, " see https://example.com/a?b=1 for\tinfo ", marked);
    assert_eq!(second, first);
    assert_eq!(b.asked.len(), asked);
    assert_eq!(b.cache.get_stats().cache_hits, hits + 1);
    assert_eq!(b.log.len(), 1);
}

#[test]
fn a_cached_text_is_never_cut() {
    let mut b = bench();
    b.cache.add(s("go to http://x.com now"), s("cached{TAB}value"));
    assert_eq!(translate(&mut b, "go to http://x.com now", marked), Ok(s("cached\tvalue")));
    assert!(b.asked.is_empty());
    assert!(b.log.is_empty());
}

#[test]
fn recursive_split() {
    let mut b = bench();
    let out = translate(&mut b, "see https://example.com/a?b=1 for info", marked);
    assert_eq!(
        out,
        Ok(format!("{} {} {}", "<see>", "https://example.com/a?b=1", "<for info>"))
    );
    assert_eq!(b.asked, vec![s("see"), s("for info")]);
    assert_eq!(
        b.log,
        vec![UrlTranslationCTX {
            original_text: s("see https://example.com/a?b=1 for info"),
            left: s("<see>"),
            url: s("https://example.com/a?b=1"),
            right: s("<for info>"),
            tled: s("<see> https://example.com/a?b=1 <for info>"),
        }]
    );
}

#[test]
fn a_split_puts_every_part_into_the_cache() {
    let mut b = bench();
    let _ = translate(&mut b, "see https://example.com/a?b=1 for info", marked);
    let cached = |b: &mut Bench, k: &str| b.cache.get(&s(k));
    assert_eq!(
        cached(&mut b, "see https://example.com/a?b=1 for info"),
        Some(s("<see> https://example.com/a?b=1 <for info>"))
    );
    assert_eq!(cached(&mut b, "https://example.com/a?b=1"), Some(s("https://example.com/a?b=1")));
    assert_eq!(cached(&mut b, "see "), Some(s("<see>")));
    assert_eq!(cached(&mut b, " for info"), Some(s("<for info>")));
    assert_eq!(cached(&mut b, "see"), Some(s("<see>")));
    assert_eq!(cached(&mut b, "for info"), Some(s("<for info>")));
    assert_eq!(b.cache.get_stats().cache_size, 6);
    assert_eq!(b.cache.get_accesses(), 6);
}

#[test]
fn multi_url() {
    let mut b = bench();
    let out = translate(&mut b, "a http://x.com b http://y.com c", marked).unwrap();
    assert_eq!(out, "<a> http://x.com <b> http://y.com <c>");
    let first = out.find("http://x.com").unwrap();
    let second = out.find("http://y.com").unwrap();
    assert!(first < second);
    assert_eq!(b.log.len(), 2);
    assert_eq!(b.log[0].url, "http://y.com");
    assert_eq!(b.log[0].original_text, "b http://y.com c");
    assert_eq!(b.log[1].url, "http://x.com");
    assert_eq!(b.log[1].right, "<b> http://y.com <c>");
    assert_eq!(b.asked, vec![s("a"), s("b"), s("c")]);
}

#[test]
fn urls_never_reach_the_backend() {
    let mut b = bench();
    let text = "http://a.b/c?d=e&f=g#h http://i.j, and (https://k.l/m_n-o)";
    let out = translate(&mut b, text, marked).unwrap();
    for asked in &b.asked {
        assert!(!asked.contains("http"), "{}", asked);
    }
    for url in ["http://a.b/c?d=e&f=g#h", "http://i.j,", "https://k.l/m_n-o"] {
        assert!(out.contains(url), "{} in {}", url, out);
    }
}

#[test]
fn a_url_is_its_own_translation_afterwards() {
    let mut b = bench();
    let _ = translate(&mut b, "x http://x.com y", marked);
    assert_eq!(translate(&mut b, "http://x.com", marked), Ok(s("http://x.com")));
    assert_eq!(b.asked, vec![s("x"), s("y")]);
}

#[test]
fn a_lone_url_gets_spaces_once() {
    let mut b = bench();
    assert_eq!(translate(&mut b, "https://example.com", marked), Ok(s(" https://example.com ")));
    assert_eq!(translate(&mut b, "https://example.com", marked), Ok(s("https://example.com")));
    assert!(b.asked.is_empty());
}

#[test]
fn text_next_to_a_url_without_space_gets_one() {
    let mut b = bench();
    assert_eq!(translate(&mut b, "(http://x.com)", marked), Ok(s("<(> http://x.com <)>")));
}

#[test]
fn a_failure_of_the_backend_ends_the_translation() {
    fn failing(text: &str) -> Result<String, TranslationError> {
        if text == "b" {
            Err(TranslationError::HttpErr(text.to_string()))
        } else {
            Ok(format!("<{}>", text))
        }
    }
    let mut b = bench();
    let out = translate(&mut b, "a http://x.com b", failing);
    assert_eq!(out, Err(TranslationError::HttpErr(s("b"))));
    assert_eq!(b.cache.get(&s("a")), Some(s("<a>")));
    assert_eq!(b.cache.get(&s("a http://x.com b")), None);
    assert!(b.log.is_empty());
}

#[test]
fn each_kind_of_failure_is_passed_on() {
    let kinds: [fn(&str) -> Result<String, TranslationError>; 5] = [
        |_| Err(TranslationError::TargetLangMismatch),
        |_| Err(TranslationError::ParseIntErr),
        |_| Err(TranslationError::HttpErr("timeout".to_string())),
        |_| Err(TranslationError::UrlParseErr),
        |_| Err(TranslationError::JsonParseErr("eof".to_string())),
    ];
    for kind in kinds {
        let mut b = bench();
        let expected = kind("x").unwrap_err();
        assert_eq!(translate(&mut b, "text", kind), Err(expected.clone()));
        assert_eq!(expected.copy(), expected);
        assert_eq!(b.cache.get_stats().cache_size, 0);
    }
}

#[test]
fn a_step_without_reply_keeps_waiting() {
    let mut b = bench();
    let t = Translator::new(s("text"));
    let (t, action) = t.advance(&mut b.cache, &mut b.log, None);
    assert!(matches!(action, Action::Translate(ref text) if text == "text"));
    let (t, action) = t.advance(&mut b.cache, &mut b.log, None);
    assert!(matches!(action, Action::Translate(ref text) if text == "text"));
    let (t, action) = t.advance(&mut b.cache, &mut b.log, Some(Ok(s("TEXT"))));
    assert!(matches!(action, Action::Finish(Ok(ref text)) if text == "TEXT"));
    let (t, action) = t.advance(&mut b.cache, &mut b.log, Some(Ok(s("late"))));
    assert!(matches!(action, Action::Finish(Ok(ref text)) if text == "TEXT"));
    assert!(matches!(t.calls_for(), Action::Finish(Ok(ref text)) if text == "TEXT"));
    assert_eq!(b.cache.get_accesses(), 1);
}

#[test]
fn steps_are_bounded_by_the_length() {
    let mut b = bench();
    let text = "a http://x.com b http://y.com c http://z.com d";
    let _ = translate(&mut b, text, marked);
    assert!(b.steps <= 2 * text.chars().count() + 3);
}

#[test]
fn the_backend_may_answer_with_tab_tokens() {
    fn tabbed(_: &str) -> Result<String, TranslationError> {
        Ok("x{TAB}y".to_string())
    }
    let mut b = bench();
    let first = translate(&mut b, "l http://x.com r", tabbed);
    assert_eq!(first, Ok(s("x\ty http://x.com x\ty")));
    assert_eq!(translate(&mut b, "l http://x.com r", tabbed), first);
}

#[test]
fn reassemble_puts_spaces_around_the_url() {
    assert_eq!(reassemble("l", "http://u", "r"), "l http://u r");
    assert_eq!(reassemble("", "http://u", ""), " http://u ");
}

#[test]
fn translation_prepares_the_document_on_the_hundredth_insertion() {
    let mut b = bench();
    for i in 0..100 {
        let _ = translate(&mut b, &format!("text {}", i), marked);
    }
    let text = b.cache.take_flush().unwrap().unwrap();
    let again = Cache::new_with_path(PathBuf::from("c.ron"), Some(&text)).unwrap();
    assert_eq!(again.get_stats().cache_size, 100);
}
