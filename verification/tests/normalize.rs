use booth_archiver::normalize::{decode, encode, is_whitespace, trim};

#[test]
fn encode_replaces_tabs_and_trims() {
    assert_eq!(encode("  a\tb  "), "a{TAB}b");
}

#[test]
fn encode_replaces_ideographic_space() {
    assert_eq!(encode("a\u{3000}b"), "a b");
}

#[test]
fn encode_trims_what_an_ideographic_space_became() {
    assert_eq!(encode("\u{3000}a\u{3000}"), "a");
}

#[test]
fn encode_keeps_a_tab_at_the_end_as_token() {
    assert_eq!(encode("a\t"), "a{TAB}");
    assert_eq!(encode("\t"), "{TAB}");
}

#[test]
fn encode_of_white_space_is_empty() {
    assert_eq!(encode(""), "");
    assert_eq!(encode(" \n\r \u{3000}"), "");
}

#[test]
fn encode_agrees_with_replace_and_trim() {
    let samples = [
        "",
        "plain",
        " \t mixed\u{3000}text \t",
        "\u{2003}em space\u{00a0}",
        "日本語\tテキスト\u{3000}",
        "{TAB}",
        "\u{85}next line\u{2028}",
    ];
    for s in samples {
        let expected = s.replace('\t', "{TAB}").replace('\u{3000}', " ").trim().to_string();
        assert_eq!(encode(s), expected);
    }
}

#[test]
fn decode_restores_tabs() {
    assert_eq!(decode("a{TAB}b"), "a\tb");
    assert_eq!(decode("{TAB}{TAB}"), "\t\t");
}

#[test]
fn decode_leaves_other_text() {
    assert_eq!(decode(""), "");
    assert_eq!(decode("{TAB"), "{TAB");
    assert_eq!(decode("TAB}"), "TAB}");
    assert_eq!(decode("{tab}"), "{tab}");
    assert_eq!(decode("a b\u{3000}c"), "a b\u{3000}c");
}

#[test]
fn decode_takes_tokens_from_the_left() {
    assert_eq!(decode("{{TAB}"), "{\t");
    assert_eq!(decode("{TAB}}"), "\t}");
    assert_eq!(decode("{TA{TAB}B}"), "{TA\tB}");
}

#[test]
fn decode_agrees_with_replace() {
    let samples =
        ["", "{TAB}", "x{TAB}y{TAB}", "{{TAB}}", "{TAB{TAB}", "日本{TAB}語", "{TA{TAB}B}"];
    for s in samples {
        assert_eq!(decode(s), s.replace("{TAB}", "\t"));
    }
}

#[test]
fn decode_twice_is_decode_once() {
    let samples = ["{TAB}", "{{TAB}TAB}", "{TA{TAB}B}", "a{TAB}b"];
    for s in samples {
        let once = decode(s);
        assert_eq!(decode(&once), once);
    }
}

#[test]
fn decode_undoes_encode_of_tabs() {
    assert_eq!(decode(&encode("a\tb\tc")), "a\tb\tc");
}

#[test]
fn ideographic_space_is_not_restored() {
    assert_eq!(decode(&encode("a\u{3000}b")), "a b");
}

#[test]
fn is_whitespace_agrees_with_std_on_every_char() {
    let mut n: u32 = 0;
    while n <= 0x10FFFF {
        if let Some(c) = char::from_u32(n) {
            assert_eq!(is_whitespace(c), c.is_whitespace(), "U+{:04X}", n);
        }
        n += 1;
    }
}

#[test]
fn trim_drops_both_ends_only() {
    let chars: Vec<char> = " \t a b \n".chars().collect();
    let kept: String = trim(&chars).iter().collect();
    assert_eq!(kept, "a b");
    let none: Vec<char> = Vec::new();
    assert_eq!(trim(&none).len(), 0);
}
