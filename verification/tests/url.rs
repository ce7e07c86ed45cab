use booth_archiver::url::{contains_http, find_http, handle_http, url_char};

fn parts(text: &str) -> (String, String, String) {
    handle_http(text)
}

#[test]
fn split_around_a_url() {
    let (left, url, right) = parts("see https://example.com/a?b=1 for info");
    assert_eq!(left, "see ");
    assert_eq!(url, "https://example.com/a?b=1");
    assert_eq!(right, " for info");
}

#[test]
fn split_takes_the_first_url_only() {
    let (left, url, right) = parts("a http://x.com b http://y.com c");
    assert_eq!(left, "a ");
    assert_eq!(url, "http://x.com");
    assert_eq!(right, " b http://y.com c");
}

#[test]
fn split_of_a_lone_url() {
    let (left, url, right) = parts("https://example.com");
    assert_eq!(left, "");
    assert_eq!(url, "https://example.com");
    assert_eq!(right, "");
}

#[test]
fn split_without_http_gives_the_bare_word() {
    let (left, url, right) = parts("no link here");
    assert_eq!(left, "no link here");
    assert_eq!(url, "http");
    assert_eq!(right, "");
    let (left, url, right) = parts("");
    assert_eq!(left, "");
    assert_eq!(url, "http");
    assert_eq!(right, "");
}

#[test]
fn split_parts_make_up_the_text() {
    let samples = [
        "see https://example.com/a?b=1 for info",
        "http",
        "xhttpy",
        "日本語https://例え.jp/パス?q=1、つづき",
        "a (http://x.com/a_b-c#d) b",
        "htt http",
    ];
    for s in samples {
        let (left, url, right) = parts(s);
        assert_eq!(format!("{}{}{}", left, url, right), s);
        assert!(url.starts_with("http"));
        assert!(!left.contains("http"));
    }
}

#[test]
fn url_ends_at_the_first_other_character() {
    let (_, url, right) = parts("http://x.com/a(b)");
    assert_eq!(url, "http://x.com/a");
    assert_eq!(right, "(b)");
    let (_, url, right) = parts("http://x.com\ttab");
    assert_eq!(url, "http://x.com");
    assert_eq!(right, "\ttab");
    let (_, url, right) = parts("http://x.com{TAB}y");
    assert_eq!(url, "http://x.com");
    assert_eq!(right, "{TAB}y");
}

#[test]
fn url_takes_letters_of_any_script() {
    let (_, url, right) = parts("http://例え.jp/パス 次");
    assert_eq!(url, "http://例え.jp/パス");
    assert_eq!(right, " 次");
}

#[test]
fn url_characters() {
    for c in "&$+.,/:;=_?@#-azAZ09é漢".chars() {
        assert!(url_char(c), "{}", c);
    }
    for c in " \t\n{}()[]<>\"'%!*|\\^~`".chars() {
        assert!(!url_char(c), "{}", c);
    }
}

#[test]
fn url_char_agrees_with_std_on_every_char() {
    let marks = "&$+.,/:;=_?@#-";
    let mut n: u32 = 0;
    while n <= 0x10FFFF {
        if let Some(c) = char::from_u32(n) {
            assert_eq!(url_char(c), marks.contains(c) || c.is_alphanumeric(), "U+{:04X}", n);
        }
        n += 1;
    }
}

#[test]
fn finding_http() {
    let chars: Vec<char> = "ab http".chars().collect();
    assert_eq!(find_http(&chars), 3);
    let chars: Vec<char> = "htt".chars().collect();
    assert_eq!(find_http(&chars), 3);
    let chars: Vec<char> = "日本http".chars().collect();
    assert_eq!(find_http(&chars), 2);
    assert!(contains_http("xhttp"));
    assert!(!contains_http("htt p"));
    assert!(!contains_http(""));
}

#[test]
fn ascii_letters_and_digits_are_the_alphanumeric_ascii_characters() {
    for n in 0u8..128 {
        let c = n as char;
        let expected = c.is_ascii_digit() || c.is_ascii_lowercase() || c.is_ascii_uppercase();
        assert_eq!(c.is_alphanumeric(), expected, "{:?}", c);
        assert_eq!(url_char(c), expected || "&$+.,/:;=_?@#-".contains(c), "{:?}", c);
    }
}
