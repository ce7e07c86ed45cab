//! Normal form of text: the form under which text is cached and handed to a
//! translation backend, and the way back from it.

use crate::text::{chars_of, string_of};
use vstd::prelude::*;

verus! {

/// The token that stands for a tab character in normalized text.
pub open spec fn tab_token() -> Seq<char> {
    seq!['{', 'T', 'A', 'B', '}']
}

/// Whether `c` is white space (the Unicode property `White_Space`).
pub open spec fn is_space(c: char) -> bool {
    let n = c as u32;
    ||| 0x09 <= n <= 0x0D
    ||| n == 0x20
    ||| n == 0x85
    ||| n == 0xA0
    ||| n == 0x1680
    ||| 0x2000 <= n <= 0x200A
    ||| n == 0x2028
    ||| n == 0x2029
    ||| n == 0x202F
    ||| n == 0x205F
    ||| n == 0x3000
}

/// What one character becomes in normalized text: a tab becomes the tab
/// token, an ideographic space becomes an ordinary space.
pub open spec fn widened_char(c: char) -> Seq<char> {
    if c == '\t' {
        tab_token()
    } else if c == '\u{3000}' {
        seq![' ']
    } else {
        seq![c]
    }
}

/// `s` with every character replaced by what `widened_char` makes of it.
pub open spec fn widened(s: Seq<char>) -> Seq<char>
    decreases s.len(),
{
    if s.len() == 0 {
        Seq::empty()
    } else {
        widened(s.drop_last()) + widened_char(s.last())
    }
}

/// `s` without its leading white space.
pub open spec fn trim_start(s: Seq<char>) -> Seq<char>
    decreases s.len(),
{
    if s.len() > 0 && is_space(s[0]) {
        trim_start(s.drop_first())
    } else {
        s
    }
}

/// `s` without its trailing white space.
pub open spec fn trim_end(s: Seq<char>) -> Seq<char>
    decreases s.len(),
{
    if s.len() > 0 && is_space(s.last()) {
        trim_end(s.drop_last())
    } else {
        s
    }
}

/// `s` without leading and trailing white space.
pub open spec fn trimmed(s: Seq<char>) -> Seq<char> {
    trim_end(trim_start(s))
}

/// The normal form of `s`.
pub open spec fn encoded(s: Seq<char>) -> Seq<char> {
    trimmed(widened(s))
}

/// Whether the tab token stands at the start of `s`.
pub open spec fn starts_with_tab_token(s: Seq<char>) -> bool {
    s.len() >= 5 && s[0] == '{' && s[1] == 'T' && s[2] == 'A' && s[3] == 'B' && s[4] == '}'
}

/// `s` with every tab token, found from the left and without overlap,
/// replaced by a tab character.
pub open spec fn decoded(s: Seq<char>) -> Seq<char>
    decreases s.len(),
{
    if s.len() == 0 {
        Seq::empty()
    } else if starts_with_tab_token(s) {
        seq!['\t'] + decoded(s.skip(5))
    } else {
        seq![s[0]] + decoded(s.drop_first())
    }
}

/// Whether no tab character stands in `s`.
pub open spec fn tab_free(s: Seq<char>) -> bool {
    forall|i: int| 0 <= i < s.len() ==> s[i] != '\t'
}

/// Whether no opening brace stands in `s`.
pub open spec fn brace_free(s: Seq<char>) -> bool {
    forall|i: int| 0 <= i < s.len() ==> s[i] != '{'
}

/// Whether `decoded` leaves `s` as it is.
pub open spec fn is_plain(s: Seq<char>) -> bool {
    decoded(s) == s
}

/// Widening leaves no tab, and does not change the length of a text that
/// holds none.
pub proof fn lemma_widened(s: Seq<char>)
    ensures
        tab_free(widened(s)),
        tab_free(s) ==> widened(s).len() == s.len(),
    decreases s.len(),
{
    if s.len() > 0 {
        lemma_widened(s.drop_last());
        if tab_free(s) {
            assert(tab_free(s.drop_last())) by {
                assert forall|i: int| 0 <= i < s.drop_last().len() implies s.drop_last()[i]
                    != '\t' by {
                    assert(s.drop_last()[i] == s[i]);
                }
            }
            assert(s.last() == s[s.len() - 1]);
        }
    }
}

/// `trim_start` gives the end of its text.
pub proof fn lemma_trim_start_is_tail(s: Seq<char>)
    ensures
        trim_start(s).len() <= s.len(),
        trim_start(s) == s.skip(s.len() - trim_start(s).len()),
    decreases s.len(),
{
    if s.len() > 0 && is_space(s[0]) {
        let t = s.drop_first();
        lemma_trim_start_is_tail(t);
        assert(t.skip(t.len() - trim_start(t).len()) == s.skip(s.len() - trim_start(t).len()));
    } else {
        assert(s.skip(0) == s);
    }
}

/// `trim_end` gives the beginning of its text.
pub proof fn lemma_trim_end_is_head(s: Seq<char>)
    ensures
        trim_end(s).len() <= s.len(),
        trim_end(s) == s.take(trim_end(s).len() as int),
    decreases s.len(),
{
    if s.len() > 0 && is_space(s.last()) {
        let t = s.drop_last();
        lemma_trim_end_is_head(t);
        assert(t.take(trim_end(t).len() as int) == s.take(trim_end(t).len() as int));
    } else {
        assert(s.take(s.len() as int) == s);
    }
}

/// The normal form of a text holds no tab, and is no longer than a text
/// that holds none.
pub proof fn lemma_encoded(s: Seq<char>)
    ensures
        tab_free(encoded(s)),
        tab_free(s) ==> encoded(s).len() <= s.len(),
{
    let w = widened(s);
    lemma_widened(s);
    lemma_trim_start_is_tail(w);
    let t = trim_start(w);
    lemma_trim_end_is_head(t);
    let e = trim_end(t);
    assert forall|i: int| 0 <= i < e.len() implies e[i] != '\t' by {
        assert(e[i] == t[i]);
        assert(t[i] == w[i + (w.len() - t.len())]);
    }
}

/// A part of a text without tabs holds none.
pub proof fn lemma_part_tab_free(s: Seq<char>, from: int, to: int)
    requires
        tab_free(s),
        0 <= from <= to <= s.len(),
    ensures
        tab_free(s.subrange(from, to)),
{
    assert forall|i: int| 0 <= i < to - from implies s.subrange(from, to)[i] != '\t' by {
        assert(s.subrange(from, to)[i] == s[from + i]);
    }
}

/// Where decoding keeps the first character of what it gives, that
/// character stood first in the text, and the rest is the rest decoded.
pub proof fn lemma_decoded_head(s: Seq<char>)
    requires
        decoded(s).len() > 0,
        decoded(s)[0] != '\t',
    ensures
        s.len() > 0,
        s[0] == decoded(s)[0],
        decoded(s).drop_first() == decoded(s.drop_first()),
{
    assert(s.len() > 0);
    if starts_with_tab_token(s) {
        assert(decoded(s)[0] == '\t');
    } else {
        assert(decoded(s) == seq![s[0]] + decoded(s.drop_first()));
        assert(decoded(s).drop_first() =~= decoded(s.drop_first()));
    }
}

/// Decoding what was decoded changes nothing.
pub proof fn lemma_decoded_is_plain(s: Seq<char>)
    ensures
        is_plain(decoded(s)),
    decreases s.len(),
{
    let y = decoded(s);
    if s.len() == 0 {
    } else if starts_with_tab_token(s) {
        let rest = decoded(s.skip(5));
        lemma_decoded_is_plain(s.skip(5));
        assert(y == seq!['\t'] + rest);
        assert(!starts_with_tab_token(y));
        assert(y.drop_first() =~= rest);
        assert(decoded(y) =~= y);
    } else {
        let rest = decoded(s.drop_first());
        lemma_decoded_is_plain(s.drop_first());
        assert(y == seq![s[0]] + rest);
        assert(y.drop_first() =~= rest);
        if starts_with_tab_token(y) {
            let z0 = s.drop_first();
            assert(decoded(z0)[0] == y[1]);
            lemma_decoded_head(z0);
            let z1 = z0.drop_first();
            assert(decoded(z1)[0] == y[2]);
            lemma_decoded_head(z1);
            let z2 = z1.drop_first();
            assert(decoded(z2)[0] == y[3]);
            lemma_decoded_head(z2);
            let z3 = z2.drop_first();
            assert(decoded(z3)[0] == y[4]);
            lemma_decoded_head(z3);
            assert(s[1] == z0[0] && s[2] == z1[0] && s[3] == z2[0] && s[4] == z3[0]);
            assert(starts_with_tab_token(s));
        }
        assert(decoded(y) =~= y);
    }
}

/// The rest of a text that decoding leaves alone is left alone too.
pub proof fn lemma_plain_rest(a: Seq<char>)
    requires
        is_plain(a),
        a.len() > 0,
    ensures
        !starts_with_tab_token(a),
        is_plain(a.drop_first()),
{
    if starts_with_tab_token(a) {
        assert(decoded(a)[0] == '\t');
    }
    assert(decoded(a) == seq![a[0]] + decoded(a.drop_first()));
    assert((seq![a[0]] + decoded(a.drop_first())).drop_first() =~= decoded(a.drop_first()));
}

/// Decoding passes over a beginning that it leaves alone, where what
/// follows begins with a space.
pub proof fn lemma_decoded_after_plain(a: Seq<char>, r: Seq<char>)
    requires
        is_plain(a),
        r.len() > 0 ==> r[0] == ' ',
    ensures
        decoded(a + r) == a + decoded(r),
    decreases a.len(),
{
    if a.len() == 0 {
        assert(a + r =~= r);
        assert(a + decoded(r) =~= decoded(r));
    } else {
        lemma_plain_rest(a);
        let whole = a + r;
        if starts_with_tab_token(whole) {
            if a.len() >= 5 {
                assert(a[0] == whole[0] && a[1] == whole[1] && a[2] == whole[2] && a[3]
                    == whole[3] && a[4] == whole[4]);
            } else {
                assert(whole[a.len() as int] == r[0]);
            }
        }
        assert(whole.drop_first() =~= a.drop_first() + r);
        lemma_decoded_after_plain(a.drop_first(), r);
        assert(decoded(whole) =~= a + decoded(r));
    }
}

/// Decoding passes over a beginning without braces.
pub proof fn lemma_decoded_after_brace_free(a: Seq<char>, r: Seq<char>)
    requires
        brace_free(a),
    ensures
        decoded(a + r) == a + decoded(r),
    decreases a.len(),
{
    if a.len() == 0 {
        assert(a + r =~= r);
        assert(a + decoded(r) =~= decoded(r));
    } else {
        let whole = a + r;
        assert(whole[0] == a[0]);
        assert(!starts_with_tab_token(whole));
        assert(whole.drop_first() =~= a.drop_first() + r);
        assert(brace_free(a.drop_first())) by {
            assert forall|i: int| 0 <= i < a.drop_first().len() implies a.drop_first()[i]
                != '{' by {
                assert(a.drop_first()[i] == a[i + 1]);
            }
        }
        lemma_decoded_after_brace_free(a.drop_first(), r);
        assert(decoded(whole) =~= a + decoded(r));
    }
}

/// Whether `c` is white space.
pub fn is_whitespace(c: char) -> (b: bool)
    ensures
        b == is_space(c),
{
    let n: u32 = c as u32;
    (0x09 <= n && n <= 0x0D) || n == 0x20 || n == 0x85 || n == 0xA0 || n == 0x1680 || (0x2000 <= n
        && n <= 0x200A) || n == 0x2028 || n == 0x2029 || n == 0x202F || n == 0x205F || n == 0x3000
}

/// Dropping `a` leading white-space characters, where the next character is
/// none, is `trim_start`.
pub proof fn lemma_trim_start(s: Seq<char>, a: int)
    requires
        0 <= a <= s.len(),
        forall|i: int| 0 <= i < a ==> is_space(#[trigger] s[i]),
        a < s.len() ==> !is_space(s[a]),
    ensures
        trim_start(s) == s.subrange(a, s.len() as int),
    decreases a,
{
    if a == 0 {
        assert(s.subrange(0, s.len() as int) == s);
    } else {
        let t = s.drop_first();
        assert forall|i: int| 0 <= i < a - 1 implies is_space(#[trigger] t[i]) by {
            assert(t[i] == s[i + 1]);
        }
        lemma_trim_start(t, a - 1);
        assert(t.subrange(a - 1, t.len() as int) == s.subrange(a, s.len() as int));
    }
}

/// Keeping the first `b` characters, where those after them are white space
/// and the last one kept is none, is `trim_end`.
pub proof fn lemma_trim_end(s: Seq<char>, b: int)
    requires
        0 <= b <= s.len(),
        forall|i: int| b <= i < s.len() ==> is_space(#[trigger] s[i]),
        b > 0 ==> !is_space(s[b - 1]),
    ensures
        trim_end(s) == s.subrange(0, b),
    decreases s.len() - b,
{
    if b == s.len() {
        assert(s.subrange(0, b) == s);
    } else {
        let t = s.drop_last();
        lemma_trim_end(t, b);
        assert(t.subrange(0, b) == s.subrange(0, b));
    }
}

/// The text without leading and trailing white space.
pub fn trim(chars: &Vec<char>) -> (out: Vec<char>)
    ensures
        out@ == trimmed(chars@),
{
    let n = chars.len();
    let mut a: usize = 0;
    while a < n && is_whitespace(chars[a])
        invariant
            a <= n,
            n == chars.len(),
            forall|i: int| 0 <= i < a ==> is_space(#[trigger] chars@[i]),
        decreases n - a,
    {
        a += 1;
    }
    let mut b: usize = n;
    while b > a && is_whitespace(chars[b - 1])
        invariant
            a <= b <= n,
            n == chars.len(),
            forall|i: int| b <= i < n ==> is_space(#[trigger] chars@[i]),
        decreases b,
    {
        b -= 1;
    }
    let mut out: Vec<char> = Vec::new();
    let mut i: usize = a;
    while i < b
        invariant
            a <= i <= b <= n,
            n == chars.len(),
            out@ == chars@.subrange(a as int, i as int),
        decreases b - i,
    {
        out.push(chars[i]);
        i += 1;
    }
    proof {
        lemma_trim_start(chars@, a as int);
        let mid = chars@.subrange(a as int, n as int);
        assert forall|i: int| b - a <= i < mid.len() implies is_space(#[trigger] mid[i]) by {
            assert(mid[i] == chars@[i + a]);
        }
        lemma_trim_end(mid, b - a);
        assert(mid.subrange(0, b - a) == chars@.subrange(a as int, b as int));
    }
    out
}

/// Normalizes `text`: every tab becomes the token `{TAB}`, every ideographic
/// space an ordinary space, and white space at both ends is dropped.
pub fn encode(text: &str) -> (out: String)
    ensures
        out@ == encoded(text@),
{
    let chars = chars_of(text);
    let mut wide: Vec<char> = Vec::new();
    let mut i: usize = 0;
    while i < chars.len()
        invariant
            i <= chars.len(),
            wide@ == widened(chars@.take(i as int)),
        decreases chars.len() - i,
    {
        let c = chars[i];
        proof {
            let next = chars@.take(i + 1);
            assert(next.drop_last() == chars@.take(i as int));
            assert(next.last() == c);
        }
        if c == '\t' {
            wide.push('{');
            wide.push('T');
            wide.push('A');
            wide.push('B');
            wide.push('}');
        } else if c == '\u{3000}' {
            wide.push(' ');
        } else {
            wide.push(c);
        }
        assert(wide@ == widened(chars@.take(i as int)) + widened_char(c));
        i += 1;
    }
    assert(chars@.take(chars.len() as int) == chars@);
    let kept = trim(&wide);
    string_of(&kept)
}

/// Restores tabs: every token `{TAB}` becomes a tab character.
pub fn decode(text: &str) -> (out: String)
    ensures
        out@ == decoded(text@),
{
    let chars = chars_of(text);
    let n = chars.len();
    let mut plain: Vec<char> = Vec::new();
    let mut i: usize = 0;
    proof {
        assert(chars@.skip(0) == chars@);
        assert(plain@ + decoded(chars@) == decoded(chars@));
    }
    while i < n
        invariant
            i <= n,
            n == chars.len(),
            decoded(chars@) == plain@ + decoded(chars@.skip(i as int)),
        decreases n - i,
    {
        let ghost rest = chars@.skip(i as int);
        if n - i >= 5 && chars[i] == '{' && chars[i + 1] == 'T' && chars[i + 2] == 'A' && chars[i
            + 3] == 'B' && chars[i + 4] == '}' {
            assert(starts_with_tab_token(rest));
            assert(rest.skip(5) == chars@.skip(i + 5));
            plain.push('\t');
            i += 5;
        } else {
            assert(!starts_with_tab_token(rest));
            assert(rest.drop_first() == chars@.skip(i + 1));
            plain.push(chars[i]);
            i += 1;
        }
    }
    assert(plain@ + decoded(chars@.skip(n as int)) == plain@);
    string_of(&plain)
}

} // verus!
