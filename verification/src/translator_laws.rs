//! What holds of a translation over its steps, and of two translations of
//! one text.

use crate::cache::CacheModel;
use crate::normalize::{decoded, encoded};
use crate::translation::TranslationError;
use crate::translator::{reassembled, Action, Run, Stage};
use crate::url::{
    first_url, has_http, http_from, left_of_url, lemma_http_from, lemma_split_covers,
    lemma_url_end, right_of_url,
};
use vstd::prelude::*;

verus! {

/// Whether the cache answers for `text`, in normal form, with `value`: an
/// empty text is its own translation, and any other is held by the cache
/// with a value that decodes to `value`.
pub open spec fn settled(cache: CacheModel, text: Seq<char>, value: Seq<char>) -> bool {
    if text.len() == 0 {
        value == text
    } else {
        cache.entries.contains_key(text) && decoded(cache.entries[text]) == value
    }
}

/// Whether `text` is one URL and nothing else.
pub open spec fn is_lone_url(text: Seq<char>) -> bool {
    has_http(text) && first_url(text) == text
}

/// The text, in normal form, that a translation is about.
pub open spec fn subject(run: Run) -> Seq<char> {
    if run.stack.len() > 0 {
        run.stack[0].text
    } else {
        match run.stage {
            Stage::Descend(raw) => encoded(raw),
            Stage::Await(text) => text,
            Stage::Ascend(text, _) => text,
            Stage::Failed(_) => Seq::empty(),
        }
    }
}

/// Whether `runs` are the states of one translation before and after each
/// of its steps, every step changing the state, and `caches` the states of
/// the cache between them, which nobody else changes.
pub open spec fn steps(
    runs: Seq<Run>,
    caches: Seq<CacheModel>,
    replies: Seq<Option<Result<Seq<char>, TranslationError>>>,
) -> bool {
    &&& runs.len() == replies.len() + 1
    &&& caches.len() == runs.len()
    &&& forall|i: int|
        0 <= i < replies.len() ==> {
            &&& runs[i].moves(#[trigger] replies[i])
            &&& runs[i + 1] == runs[i].next(caches[i], replies[i])
            &&& caches[i + 1].agrees(runs[i].cache_next(caches[i], replies[i]))
        }
}

/// A URL is found in its text and in the reassembled text, character for
/// character: in the text where the first `http` stands, and in the
/// reassembled text behind the translation of the left side and one space.
pub proof fn lemma_url_is_kept(text: Seq<char>, left: Seq<char>, right: Seq<char>)
    requires
        has_http(text),
    ensures
        ({
            let url = first_url(text);
            let at = http_from(text, 0);
            let out = reassembled(left, url, right);
            &&& 0 <= at && at + url.len() <= text.len()
            &&& text.subrange(at, at + url.len()) == url
            &&& out.subrange(left.len() + 1 as int, left.len() + 1 + url.len() as int) == url
        }),
{
    let url = first_url(text);
    let at = http_from(text, 0);
    lemma_http_from(text, 0);
    lemma_url_end(text, at + 4);
    let out = reassembled(left, url, right);
    assert(out.subrange(left.len() + 1 as int, left.len() + 1 + url.len() as int) =~= url);
}

/// The translation that a split gets when it is done is the reassembled
/// text, which holds the URL of the split's text as it stood there.
pub proof fn lemma_done_split_keeps_url(
    run: Run,
    cache: CacheModel,
    reply: Option<Result<Seq<char>, TranslationError>>,
)
    requires
        run.wf(),
        run.stage is Ascend,
        run.stack.len() > 0,
        run.stack.last().left_done is Some,
    ensures
        ({
            let top = run.stack.last();
            let left = top.left_done->0;
            let right = run.stage->Ascend_1;
            let url = first_url(top.text);
            let out = reassembled(left, url, right);
            &&& run.next(cache, reply).stage == Stage::Ascend(top.text, out)
            &&& out.subrange(left.len() + 1 as int, left.len() + 1 + url.len() as int) == url
            &&& top.text.subrange(http_from(top.text, 0), http_from(top.text, 0) + url.len())
                == url
        }),
{
    let top = run.stack.last();
    assert(top.wf());
    lemma_url_is_kept(top.text, top.left_done->0, run.stage->Ascend_1);
}

/// A step that leads to a translation leaves the cache answering for the
/// text with that translation, unless the text is one URL and nothing else
/// (which the cache then holds as its own translation).
pub proof fn lemma_fresh_result_is_settled(
    run: Run,
    cache: CacheModel,
    reply: Option<Result<Seq<char>, TranslationError>>,
    after: CacheModel,
)
    requires
        run.wf(),
        run.moves(reply),
        after.agrees(run.cache_next(cache, reply)),
    ensures
        run.next(cache, reply).stage matches Stage::Ascend(text, value) ==> is_lone_url(text)
            || settled(after, text, value),
{
    run.lemma_next_wf(cache, reply);
    match run.stage {
        Stage::Ascend(_, right) => {
            let top = run.stack.last();
            assert(top.wf());
            match top.left_done {
                Some(left) => {
                    let text = top.text;
                    lemma_split_covers(text);
                    lemma_http_from(text, 0);
                    lemma_url_end(text, http_from(text, 0) + 4);
                    assert((left_of_url(text) + first_url(text) + right_of_url(text)).len()
                        == text.len());
                    assert(top.left.len() < text.len());
                    assert(top.right.len() < text.len());
                    if !is_lone_url(text) {
                        let out = reassembled(left, top.url, right);
                        let first = cache.after_add(text, out);
                        let second = first.after_add(top.url, top.url);
                        let third = second.after_add(top.left, left);
                        let fourth = third.after_add(top.right, right);
                        assert(top.url != text);
                        assert(top.left != text);
                        assert(top.right != text);
                        assert(first.entries[text] == out);
                        assert(second.entries[text] == out);
                        assert(third.entries[text] == out);
                        assert(fourth.entries[text] == out);
                        assert(fourth == top.stored(cache, right));
                        assert(after.entries == fourth.entries);
                        assert(run.next(cache, reply).stage == Stage::Ascend(text, out));
                        assert(decoded(out) == out);
                    }
                },
                None => {},
            }
        },
        _ => {},
    }
}

/// A text for which the cache answers is translated in one step, without
/// the backend: the step is a hit and gives the cached translation.
pub proof fn lemma_settled_text_needs_no_backend(
    raw: Seq<char>,
    cache: CacheModel,
    value: Seq<char>,
)
    requires
        settled(cache, encoded(raw), value),
    ensures
        Run::start(raw).next(cache, None) == (Run {
            stack: Seq::empty(),
            stage: Stage::Ascend(encoded(raw), value),
        }),
        Run::start(raw).next(cache, None).calls_for() == Action::Finish(
            Ok::<Seq<char>, TranslationError>(value),
        ),
        encoded(raw).len() > 0 ==> Run::start(raw).cache_next(cache, None).hits == cache.hits + 1
            && Run::start(raw).cache_next(cache, None).misses == cache.misses,
{
}

/// A step keeps the text that the translation is about, unless the backend
/// fails.
pub proof fn lemma_subject_is_kept(
    run: Run,
    cache: CacheModel,
    reply: Option<Result<Seq<char>, TranslationError>>,
)
    ensures
        !(run.next(cache, reply).stage is Failed) ==> subject(run.next(cache, reply)) == subject(
            run,
        ),
{
    let after = run.next(cache, reply);
    match run.stage {
        Stage::Descend(raw) => {
            let text = encoded(raw);
            if text.len() != 0 && !cache.entries.contains_key(text) && has_http(text) {
                if run.stack.len() > 0 {
                    assert(after.stack[0] == run.stack[0]);
                }
            }
        },
        Stage::Ascend(_, _) => {
            if run.stack.len() > 1 {
                assert(after.stack[0] == run.stack[0]);
            }
        },
        _ => {},
    }
}

/// Every state of a translation of `raw` meets the invariant, and is about
/// `raw` in normal form unless the backend has failed.
pub proof fn lemma_steps(
    runs: Seq<Run>,
    caches: Seq<CacheModel>,
    replies: Seq<Option<Result<Seq<char>, TranslationError>>>,
    raw: Seq<char>,
    n: int,
)
    requires
        steps(runs, caches, replies),
        runs[0] == Run::start(raw),
        0 <= n < runs.len(),
    ensures
        runs[n].wf(),
        !(runs[n].stage is Failed) ==> subject(runs[n]) == encoded(raw),
    decreases n,
{
    if n > 0 {
        lemma_steps(runs, caches, replies, raw, n - 1);
        assert(runs[n - 1].moves(replies[n - 1]));
        runs[n - 1].lemma_next_wf(caches[n - 1], replies[n - 1]);
        lemma_subject_is_kept(runs[n - 1], caches[n - 1], replies[n - 1]);
        if runs[n - 1].stage is Failed {
            assert(!runs[n - 1].moves(replies[n - 1]));
        }
    }
}

/// Translating is idempotent. Where a translation of `raw` has ended with
/// `value`, and nobody else changed the cache meanwhile, the cache answers
/// for `raw` with `value`: a second translation of `raw`, or of any text
/// with the same normal form, ends at its first step with `value`, as a hit
/// and without the backend. The one exception is a text that is one URL and
/// nothing else: its first translation has a space on each side of the URL,
/// and every later one is the URL itself.
pub proof fn lemma_translation_is_idempotent(
    runs: Seq<Run>,
    caches: Seq<CacheModel>,
    replies: Seq<Option<Result<Seq<char>, TranslationError>>>,
    raw: Seq<char>,
    again: Seq<char>,
    value: Seq<char>,
)
    requires
        steps(runs, caches, replies),
        replies.len() > 0,
        runs[0] == Run::start(raw),
        runs.last().calls_for() == Action::Finish(Ok::<Seq<char>, TranslationError>(value)),
        !is_lone_url(encoded(raw)),
        encoded(again) == encoded(raw),
    ensures
        settled(caches.last(), encoded(raw), value),
        Run::start(again).next(caches.last(), None).calls_for() == Action::Finish(
            Ok::<Seq<char>, TranslationError>(value),
        ),
{
    let n = replies.len() as int;
    lemma_steps(runs, caches, replies, raw, n);
    lemma_steps(runs, caches, replies, raw, n - 1);
    assert(runs[n - 1].moves(replies[n - 1]));
    assert(runs.last() == runs[n]);
    assert(caches.last() == caches[n]);
    lemma_fresh_result_is_settled(runs[n - 1], caches[n - 1], replies[n - 1], caches[n]);
    lemma_settled_text_needs_no_backend(again, caches[n], value);
}

} // verus!
