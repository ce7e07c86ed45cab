//! Finding the first URL in a text and cutting the text around it.

use crate::text::{chars_of, string_of};
use vstd::prelude::*;

verus! {

/// Whether `c` is alphanumeric, as `char::is_alphanumeric` tells it.
pub uninterp spec fn alphanumeric(c: char) -> bool;

/// Whether `c` is a letter of the English alphabet or one of the ten
/// digits.
pub open spec fn is_ascii_letter_or_digit(c: char) -> bool {
    let n = c as u32;
    ||| 0x30 <= n <= 0x39
    ||| 0x41 <= n <= 0x5A
    ||| 0x61 <= n <= 0x7A
}

/// `char::is_alphanumeric` says whether the character has the Unicode
/// property `Alphabetic` or is of a numeric general category. Its answer
/// depends on the character alone. Among the ASCII characters these are
/// the letters of the English alphabet and the ten digits.
pub assume_specification[ char::is_alphanumeric ](c: char) -> (b: bool)
    ensures
        b == alphanumeric(c),
        (c as u32) < 0x80 ==> b == is_ascii_letter_or_digit(c),
;

/// Whether `c` is a letter or a digit, of whatever script.
pub open spec fn is_letter_or_digit(c: char) -> bool {
    if (c as u32) < 0x80 {
        is_ascii_letter_or_digit(c)
    } else {
        alphanumeric(c)
    }
}

/// Whether `c` may stand in a URL: a letter, a digit, or one of
/// `& $ + . , / : ; = _ ? @ # -`.
pub open spec fn is_url_char(c: char) -> bool {
    ||| c == '&'
    ||| c == '$'
    ||| c == '+'
    ||| c == '.'
    ||| c == ','
    ||| c == '/'
    ||| c == ':'
    ||| c == ';'
    ||| c == '='
    ||| c == '_'
    ||| c == '?'
    ||| c == '@'
    ||| c == '#'
    ||| c == '-'
    ||| is_letter_or_digit(c)
}

/// Whether the letters `http` stand in `s` at index `i`.
pub open spec fn http_at(s: Seq<char>, i: int) -> bool {
    &&& 0 <= i
    &&& i + 4 <= s.len()
    &&& s[i] == 'h'
    &&& s[i + 1] == 't'
    &&& s[i + 2] == 't'
    &&& s[i + 3] == 'p'
}

/// The least index at or after `from` where `http` stands in `s`; the length
/// of `s` where there is none.
pub open spec fn http_from(s: Seq<char>, from: int) -> int
    decreases s.len() - from,
{
    if from < 0 || from + 4 > s.len() {
        s.len() as int
    } else if http_at(s, from) {
        from
    } else {
        http_from(s, from + 1)
    }
}

/// Whether `http` stands somewhere in `s`.
pub open spec fn has_http(s: Seq<char>) -> bool {
    http_from(s, 0) < s.len()
}

/// The index at which the run of URL characters that starts at `from` ends.
pub open spec fn url_end(s: Seq<char>, from: int) -> int
    decreases s.len() - from,
{
    if 0 <= from < s.len() && is_url_char(s[from]) {
        url_end(s, from + 1)
    } else {
        from
    }
}

/// The four letters `http`.
pub open spec fn http_word() -> Seq<char> {
    seq!['h', 't', 't', 'p']
}

/// The text before the first URL of `s`: all of `s` where it holds none.
pub open spec fn left_of_url(s: Seq<char>) -> Seq<char> {
    s.subrange(0, http_from(s, 0))
}

/// The first URL of `s`: from the first `http` on, as far as URL characters
/// go. Where `s` holds no `http`, the bare word `http`.
pub open spec fn first_url(s: Seq<char>) -> Seq<char> {
    let at = http_from(s, 0);
    if at < s.len() {
        s.subrange(at, url_end(s, at + 4))
    } else {
        http_word()
    }
}

/// The text behind the first URL of `s`: empty where `s` holds none.
pub open spec fn right_of_url(s: Seq<char>) -> Seq<char> {
    let at = http_from(s, 0);
    if at < s.len() {
        s.subrange(url_end(s, at + 4), s.len() as int)
    } else {
        Seq::empty()
    }
}

/// `http_from` answers with an index between `from` and the length, at which
/// `http` stands unless it is the length, and before which it does not.
pub proof fn lemma_http_from(s: Seq<char>, from: int)
    requires
        0 <= from <= s.len(),
    ensures
        from <= http_from(s, from) <= s.len(),
        http_from(s, from) < s.len() ==> http_at(s, http_from(s, from)),
        forall|j: int| from <= j < http_from(s, from) ==> !http_at(s, j),
    decreases s.len() - from,
{
    if from + 4 > s.len() {
    } else if http_at(s, from) {
    } else {
        lemma_http_from(s, from + 1);
    }
}

/// `url_end` answers with an index between `from` and the length; up to it
/// stand URL characters only, and at it none.
pub proof fn lemma_url_end(s: Seq<char>, from: int)
    requires
        0 <= from <= s.len(),
    ensures
        from <= url_end(s, from) <= s.len(),
        forall|j: int| from <= j < url_end(s, from) ==> is_url_char(#[trigger] s[j]),
        url_end(s, from) < s.len() ==> !is_url_char(s[url_end(s, from)]),
    decreases s.len() - from,
{
    if from < s.len() && is_url_char(s[from]) {
        lemma_url_end(s, from + 1);
    }
}

/// The three parts of a text that holds `http`, put together again, are the
/// text, and the URL begins with `http`.
pub proof fn lemma_split_covers(s: Seq<char>)
    requires
        has_http(s),
    ensures
        left_of_url(s) + first_url(s) + right_of_url(s) == s,
        first_url(s).len() >= 4,
        first_url(s).subrange(0, 4) == http_word(),
        !has_http(left_of_url(s)),
        forall|j: int| 4 <= j < first_url(s).len() ==> is_url_char(#[trigger] first_url(s)[j]),
        right_of_url(s).len() > 0 ==> !is_url_char(right_of_url(s)[0]),
{
    let at = http_from(s, 0);
    lemma_http_from(s, 0);
    lemma_url_end(s, at + 4);
    let e = url_end(s, at + 4);
    assert(s.subrange(0, at) + s.subrange(at, e) + s.subrange(e, s.len() as int) == s);
    assert(first_url(s).subrange(0, 4) == http_word());
    let left = left_of_url(s);
    lemma_http_from(left, 0);
    if http_from(left, 0) < left.len() {
        let j = http_from(left, 0);
        assert(http_at(left, j));
        assert(http_at(s, j));
    }
}

/// The first URL of a text that holds `http` holds no opening brace.
pub proof fn lemma_url_brace_free(s: Seq<char>)
    requires
        has_http(s),
    ensures
        forall|i: int| 0 <= i < first_url(s).len() ==> first_url(s)[i] != '{',
{
    lemma_split_covers(s);
    let url = first_url(s);
    assert forall|i: int| 0 <= i < url.len() implies url[i] != '{' by {
        if i < 4 {
            assert(url.subrange(0, 4)[i] == url[i]);
            assert(http_word()[i] != '{');
        } else {
            assert(is_url_char(url[i]));
        }
    }
}

/// Whether `c` may stand in a URL.
pub fn url_char(c: char) -> (b: bool)
    ensures
        b == is_url_char(c),
{
    c == '&' || c == '$' || c == '+' || c == '.' || c == ',' || c == '/' || c == ':' || c == ';'
        || c == '=' || c == '_' || c == '?' || c == '@' || c == '#' || c == '-'
        || c.is_alphanumeric()
}

/// The index of the first `http` in `chars`, or the length where there is
/// none.
pub fn find_http(chars: &Vec<char>) -> (at: usize)
    ensures
        at == http_from(chars@, 0),
        at <= chars.len(),
{
    let n = chars.len();
    let mut i: usize = 0;
    while i < n
        invariant
            i <= n,
            n == chars.len(),
            http_from(chars@, 0) == http_from(chars@, i as int),
        decreases n - i,
    {
        if n - i < 4 {
            return n;
        }
        if chars[i] == 'h' && chars[i + 1] == 't' && chars[i + 2] == 't' && chars[i + 3] == 'p' {
            return i;
        }
        i += 1;
    }
    n
}

/// Whether `http` stands somewhere in `text`.
pub fn contains_http(text: &str) -> (b: bool)
    ensures
        b == has_http(text@),
{
    let chars = chars_of(text);
    find_http(&chars) < chars.len()
}

/// Cuts `text` around its first URL: the text before the first `http`, the
/// URL (from `http` on, as far as URL characters go), and what follows it.
/// A text without `http` is returned whole as the first part, with the bare
/// word `http` as the second and an empty third.
pub fn handle_http(text: &str) -> (parts: (String, String, String))
    ensures
        parts.0@ == left_of_url(text@),
        parts.1@ == first_url(text@),
        parts.2@ == right_of_url(text@),
{
    let chars = chars_of(text);
    let n = chars.len();
    let at = find_http(&chars);
    let mut left: Vec<char> = Vec::new();
    let mut i: usize = 0;
    while i < at
        invariant
            i <= at <= n,
            n == chars.len(),
            left@ == chars@.subrange(0, i as int),
        decreases at - i,
    {
        left.push(chars[i]);
        i += 1;
    }
    let mut url: Vec<char> = Vec::new();
    url.push('h');
    url.push('t');
    url.push('t');
    url.push('p');
    let mut right: Vec<char> = Vec::new();
    if at < n {
        proof {
            lemma_http_from(chars@, 0);
            assert(url@ == chars@.subrange(at as int, at + 4));
        }
        let mut j: usize = at + 4;
        while j < n && url_char(chars[j])
            invariant
                at + 4 <= j <= n,
                n == chars.len(),
                url@ == chars@.subrange(at as int, j as int),
                url_end(chars@, at + 4) == url_end(chars@, j as int),
            decreases n - j,
        {
            url.push(chars[j]);
            j += 1;
        }
        let mut k: usize = j;
        while k < n
            invariant
                j <= k <= n,
                n == chars.len(),
                right@ == chars@.subrange(j as int, k as int),
            decreases n - k,
        {
            right.push(chars[k]);
            k += 1;
        }
    } else {
        assert(url@ == http_word());
    }
    (string_of(&left), string_of(&url), string_of(&right))
}

} // verus!
