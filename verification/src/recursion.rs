//! Translation as one recursive definition, and the proof that the steps of
//! a `Translator` compute it.

use crate::cache::CacheModel;
use crate::normalize::{decoded, encoded, is_plain, lemma_decoded_is_plain};
use crate::translation::{CutRecord, TranslationError};
use crate::translator::{
    lemma_sides_are_shorter, reassembled, split_of, Action, Run, Split, Stage,
};
use crate::translator_laws::{
    is_lone_url, lemma_fresh_result_is_settled, lemma_url_is_kept, settled, steps,
};
use crate::url::{first_url, has_http};
use vstd::prelude::*;

verus! {

/// What a whole translation comes to.
pub struct Outcome {
    /// The translation, or why there is none.
    pub result: Result<Seq<char>, TranslationError>,
    /// The cache afterwards, but for the documents that it prepared.
    pub cache: CacheModel,
    /// The records of the cuts, in the order in which they were done.
    pub log: Seq<CutRecord>,
    /// How many steps it takes.
    pub steps: nat,
}

/// The translation of `raw` with the cache `cache`, by a backend that
/// answers as `backend` does.
///
/// The text is put in normal form. An empty text is its own translation,
/// and the cache is not asked. A text that the cache holds has the cached
/// value, decoded, as its translation. A text with a URL is cut around the
/// first one; the left side is translated, then the right side, each in
/// this same way; the translations are put around the URL, the cut is
/// recorded, and the cache gets the text with the result, the URL with
/// itself, and each side with its translation. Any other text goes to the
/// backend, and the cache gets the text with the answer; the translation is
/// the answer, decoded. The first failure of the backend ends everything.
pub open spec fn translated(
    raw: Seq<char>,
    cache: CacheModel,
    backend: spec_fn(Seq<char>) -> Result<Seq<char>, TranslationError>,
) -> Outcome
    decreases encoded(raw).len(),
{
    let text = encoded(raw);
    if text.len() == 0 {
        Outcome { result: Ok(text), cache, log: Seq::empty(), steps: 1 }
    } else if cache.entries.contains_key(text) {
        Outcome {
            result: Ok(decoded(cache.entries[text])),
            cache: cache.after_get(text),
            log: Seq::empty(),
            steps: 1,
        }
    } else if has_http(text) {
        proof {
            lemma_sides_are_shorter(raw);
        }
        let split = split_of(text);
        let left = translated(split.left, cache.after_get(text), backend);
        match left.result {
            Err(_) => Outcome { steps: left.steps + 1, ..left },
            Ok(left_done) => {
                let right = translated(split.right, left.cache, backend);
                let done = Split { left_done: Some(left_done), ..split };
                match right.result {
                    Err(e) => Outcome {
                        result: Err(e),
                        cache: right.cache,
                        log: left.log + right.log,
                        steps: left.steps + right.steps + 2,
                    },
                    Ok(right_done) => Outcome {
                        result: Ok(reassembled(left_done, split.url, right_done)),
                        cache: done.stored(right.cache, right_done),
                        log: left.log + right.log + seq![done.record(right_done)],
                        steps: left.steps + right.steps + 3,
                    },
                }
            },
        }
    } else {
        match backend(text) {
            Ok(answer) => Outcome {
                result: Ok(decoded(answer)),
                cache: cache.after_get(text).after_add(text, answer),
                log: Seq::empty(),
                steps: 2,
            },
            Err(e) => Outcome {
                result: Err(e),
                cache: cache.after_get(text),
                log: Seq::empty(),
                steps: 2,
            },
        }
    }
}

/// Where a translation has come to, with its cache and what it has logged.
pub struct Reached {
    pub run: Run,
    pub cache: CacheModel,
    pub log: Seq<CutRecord>,
}

/// The reply that the next step of `run` gets: the backend's answer where
/// the step before asked for one.
pub open spec fn reply_for(
    run: Run,
    backend: spec_fn(Seq<char>) -> Result<Seq<char>, TranslationError>,
) -> Option<Result<Seq<char>, TranslationError>> {
    match run.stage {
        Stage::Await(text) => Some(backend(text)),
        _ => None,
    }
}

/// Where `run` is after `n` steps, with nobody else at the cache.
pub open spec fn driven(
    run: Run,
    cache: CacheModel,
    backend: spec_fn(Seq<char>) -> Result<Seq<char>, TranslationError>,
    n: nat,
) -> Reached
    decreases n,
{
    if n == 0 {
        Reached { run, cache, log: Seq::empty() }
    } else {
        let reply = reply_for(run, backend);
        let rest = driven(
            run.next(cache, reply),
            run.cache_next(cache, reply),
            backend,
            (n - 1) as nat,
        );
        Reached { log: run.logged() + rest.log, ..rest }
    }
}

/// One step, as `driven` takes it.
pub proof fn lemma_driven_once(
    run: Run,
    cache: CacheModel,
    backend: spec_fn(Seq<char>) -> Result<Seq<char>, TranslationError>,
)
    ensures
        driven(run, cache, backend, 1) == (Reached {
            run: run.next(cache, reply_for(run, backend)),
            cache: run.cache_next(cache, reply_for(run, backend)),
            log: run.logged(),
        }),
{
    let reply = reply_for(run, backend);
    let rest = driven(run.next(cache, reply), run.cache_next(cache, reply), backend, 0);
    assert(rest.log =~= Seq::empty());
    assert(run.logged() + rest.log =~= run.logged());
}

/// Steps taken one run after the other are the steps of both runs.
pub proof fn lemma_driven_on(
    run: Run,
    cache: CacheModel,
    backend: spec_fn(Seq<char>) -> Result<Seq<char>, TranslationError>,
    first: nat,
    then: nat,
)
    ensures
        ({
            let middle = driven(run, cache, backend, first);
            let end = driven(middle.run, middle.cache, backend, then);
            driven(run, cache, backend, first + then) == (Reached {
                log: middle.log + end.log,
                ..end
            })
        }),
    decreases first,
{
    let middle = driven(run, cache, backend, first);
    let end = driven(middle.run, middle.cache, backend, then);
    if first == 0 {
        assert(middle.log + end.log =~= end.log);
    } else {
        let reply = reply_for(run, backend);
        let after = run.next(cache, reply);
        let after_cache = run.cache_next(cache, reply);
        lemma_driven_on(after, after_cache, backend, (first - 1) as nat, then);
        let rest = driven(after, after_cache, backend, (first - 1) as nat);
        assert((first + then - 1) as nat == (first - 1) as nat + then);
        assert(run.logged() + (rest.log + end.log) =~= (run.logged() + rest.log) + end.log);
    }
}

/// Where a translation that was about to translate a text is, once that
/// text is dealt with: it has the translation, with the splits that waited
/// still waiting, or the backend has failed.
pub open spec fn landing(
    stack: Seq<Split<Seq<char>>>,
    raw: Seq<char>,
    outcome: Outcome,
) -> Reached {
    Reached {
        run: match outcome.result {
            Ok(value) => Run { stack, stage: Stage::Ascend(encoded(raw), value) },
            Err(e) => Run { stack: Seq::empty(), stage: Stage::Failed(e) },
        },
        cache: outcome.cache,
        log: outcome.log,
    }
}

/// The steps of a translation compute `translated`, whatever waits on the
/// stack: from the state in which `raw` is about to be translated, the
/// steps that `translated` counts lead to the state in which `raw` has the
/// translation that `translated` gives, with the cache and the log that it
/// gives.
pub proof fn lemma_descent(
    stack: Seq<Split<Seq<char>>>,
    raw: Seq<char>,
    cache: CacheModel,
    backend: spec_fn(Seq<char>) -> Result<Seq<char>, TranslationError>,
)
    ensures
        driven(
            Run { stack, stage: Stage::Descend(raw) },
            cache,
            backend,
            translated(raw, cache, backend).steps,
        ) == landing(stack, raw, translated(raw, cache, backend)),
    decreases encoded(raw).len(),
{
    let run = Run { stack, stage: Stage::Descend(raw) };
    let text = encoded(raw);
    let outcome = translated(raw, cache, backend);
    lemma_driven_once(run, cache, backend);
    let first = driven(run, cache, backend, 1);
    if text.len() == 0 {
    } else if cache.entries.contains_key(text) {
    } else if has_http(text) {
        lemma_sides_are_shorter(raw);
        let split = split_of(text);
        let probed = cache.after_get(text);
        let waiting = stack.push(split);
        assert(first.run == Run { stack: waiting, stage: Stage::Descend(split.left) });
        assert(first.cache == probed);
        assert(first.log =~= Seq::empty());
        let left = translated(split.left, probed, backend);
        lemma_descent(waiting, split.left, probed, backend);
        lemma_driven_on(run, cache, backend, 1, left.steps);
        let at_left = driven(run, cache, backend, 1 + left.steps);
        assert(first.log + left.log =~= left.log);
        assert(at_left == landing(waiting, split.left, left));
        match left.result {
            Err(_) => {
                assert(outcome.steps == 1 + left.steps);
            },
            Ok(left_done) => {
                let done = Split { left_done: Some(left_done), ..split };
                let resumed = stack.push(done);
                assert(waiting.last() == split);
                assert(waiting.drop_last() =~= stack);
                lemma_driven_once(at_left.run, at_left.cache, backend);
                let turned = driven(at_left.run, at_left.cache, backend, 1);
                assert(turned.run == Run { stack: resumed, stage: Stage::Descend(split.right) });
                assert(turned.cache == left.cache);
                assert(turned.log =~= Seq::empty());
                lemma_driven_on(run, cache, backend, 1 + left.steps, 1);
                let at_turn = driven(run, cache, backend, 1 + left.steps + 1);
                assert(left.log + turned.log =~= left.log);
                assert(at_turn == Reached { log: left.log, ..turned });
                let right = translated(split.right, left.cache, backend);
                lemma_descent(resumed, split.right, left.cache, backend);
                lemma_driven_on(run, cache, backend, 1 + left.steps + 1, right.steps);
                let at_right = driven(run, cache, backend, 1 + left.steps + 1 + right.steps);
                assert(at_right == Reached {
                    log: left.log + right.log,
                    ..landing(resumed, split.right, right)
                });
                match right.result {
                    Err(_) => {
                        assert(outcome.steps == 1 + left.steps + 1 + right.steps);
                    },
                    Ok(right_done) => {
                        assert(resumed.last() == done);
                        assert(resumed.drop_last() =~= stack);
                        lemma_driven_once(at_right.run, at_right.cache, backend);
                        let popped = driven(at_right.run, at_right.cache, backend, 1);
                        assert(popped.run == Run {
                            stack,
                            stage: Stage::Ascend(
                                text,
                                reassembled(left_done, split.url, right_done),
                            ),
                        });
                        assert(popped.cache == done.stored(right.cache, right_done));
                        assert(popped.log == seq![done.record(right_done)]);
                        lemma_driven_on(
                            run,
                            cache,
                            backend,
                            1 + left.steps + 1 + right.steps,
                            1,
                        );
                        assert(outcome.steps == 1 + left.steps + 1 + right.steps + 1);
                    },
                }
            },
        }
    } else {
        let probed = cache.after_get(text);
        assert(first.run == Run { stack, stage: Stage::Await(text) });
        assert(first.cache == probed);
        assert(first.log =~= Seq::empty());
        lemma_driven_once(first.run, first.cache, backend);
        let second = driven(first.run, first.cache, backend, 1);
        lemma_driven_on(run, cache, backend, 1, 1);
        assert(first.log + second.log =~= Seq::empty());
    }
}

/// The steps of a translation compute `translated`: a translation of `raw`
/// that takes its steps with nobody else at the cache, and gets from the
/// backend what `backend` answers, ends with the result that `translated`
/// gives, after the steps that it counts, and leaves the cache and the log
/// that it gives.
pub proof fn lemma_steps_compute_translation(
    raw: Seq<char>,
    cache: CacheModel,
    backend: spec_fn(Seq<char>) -> Result<Seq<char>, TranslationError>,
)
    ensures
        ({
            let outcome = translated(raw, cache, backend);
            let end = driven(Run::start(raw), cache, backend, outcome.steps);
            &&& end.run.calls_for() == Action::Finish(outcome.result)
            &&& end.run.ended()
            &&& end.cache == outcome.cache
            &&& end.log == outcome.log
        }),
{
    lemma_descent(Seq::empty(), raw, cache, backend);
}

/// A step does not look at the document that waits in the cache: from two
/// caches that are equal but for that document, it leads to the same state
/// and to caches that are equal but for that document.
pub proof fn lemma_step_on_agreeing_caches(
    run: Run,
    one: CacheModel,
    other: CacheModel,
    reply: Option<Result<Seq<char>, TranslationError>>,
)
    requires
        one.agrees(other),
    ensures
        run.next(one, reply) == run.next(other, reply),
        run.cache_next(one, reply).agrees(run.cache_next(other, reply)),
{
}

/// A translation that has ended stays where it is.
pub proof fn lemma_ended_stays(
    run: Run,
    cache: CacheModel,
    backend: spec_fn(Seq<char>) -> Result<Seq<char>, TranslationError>,
    n: nat,
)
    requires
        run.ended(),
    ensures
        driven(run, cache, backend, n) == (Reached { run, cache, log: Seq::empty() }),
    decreases n,
{
    if n > 0 {
        lemma_ended_stays(run, cache, backend, (n - 1) as nat);
        assert(run.logged() + Seq::<CutRecord>::empty() =~= Seq::<CutRecord>::empty());
    }
}

/// The states of a translation that gets from the backend what `backend`
/// answers are those that `driven` gives, and its caches are, but for the
/// documents that they prepared, those that `driven` gives.
pub proof fn lemma_observed_is_driven(
    runs: Seq<Run>,
    caches: Seq<CacheModel>,
    replies: Seq<Option<Result<Seq<char>, TranslationError>>>,
    backend: spec_fn(Seq<char>) -> Result<Seq<char>, TranslationError>,
    n: nat,
)
    requires
        steps(runs, caches, replies),
        forall|i: int|
            0 <= i < replies.len() ==> #[trigger] replies[i] == reply_for(runs[i], backend),
        n <= replies.len(),
    ensures
        runs[n as int] == driven(runs[0], caches[0], backend, n).run,
        caches[n as int].agrees(driven(runs[0], caches[0], backend, n).cache),
    decreases n,
{
    if n > 0 {
        let before = (n - 1) as nat;
        lemma_observed_is_driven(runs, caches, replies, backend, before);
        let at = driven(runs[0], caches[0], backend, before);
        lemma_driven_on(runs[0], caches[0], backend, before, 1);
        lemma_driven_once(at.run, at.cache, backend);
        let reply = replies[before as int];
        assert(reply == reply_for(runs[before as int], backend));
        assert(runs[before as int].moves(reply));
        lemma_step_on_agreeing_caches(at.run, caches[before as int], at.cache, reply);
        assert(before + 1 == n);
    }
}

/// A translation gives what `translated` gives. Where a translation of
/// `raw` has taken its steps to the end, with nobody else at the cache and
/// with a backend that answers as `backend` does, its result is that of
/// `translated`, and the cache is, but for the documents that it prepared,
/// the cache of `translated`.
pub proof fn lemma_translation_gives_translated(
    runs: Seq<Run>,
    caches: Seq<CacheModel>,
    replies: Seq<Option<Result<Seq<char>, TranslationError>>>,
    raw: Seq<char>,
    backend: spec_fn(Seq<char>) -> Result<Seq<char>, TranslationError>,
)
    requires
        steps(runs, caches, replies),
        runs[0] == Run::start(raw),
        forall|i: int|
            0 <= i < replies.len() ==> #[trigger] replies[i] == reply_for(runs[i], backend),
        runs.last().ended(),
    ensures
        runs.last().calls_for() == Action::Finish(translated(raw, caches[0], backend).result),
        caches.last().agrees(translated(raw, caches[0], backend).cache),
{
    let outcome = translated(raw, caches[0], backend);
    let n = replies.len();
    lemma_steps_compute_translation(raw, caches[0], backend);
    lemma_observed_is_driven(runs, caches, replies, backend, n);
    let seen = driven(runs[0], caches[0], backend, n);
    assert(runs.last() == runs[n as int]);
    assert(caches.last() == caches[n as int]);
    if outcome.steps >= n {
        let more = (outcome.steps - n) as nat;
        lemma_driven_on(runs[0], caches[0], backend, n, more);
        lemma_ended_stays(seen.run, seen.cache, backend, more);
        assert(n + more == outcome.steps);
    } else {
        lemma_observed_is_driven(runs, caches, replies, backend, outcome.steps);
        let early = outcome.steps as int;
        assert(runs[early].ended());
        assert(runs[early].moves(replies[early]));
    }
}

/// A translation is a text that `decoded` leaves alone, and the cache
/// afterwards answers for the text with it, unless the text is one URL and
/// nothing else.
pub proof fn lemma_translated_is_settled(
    raw: Seq<char>,
    cache: CacheModel,
    backend: spec_fn(Seq<char>) -> Result<Seq<char>, TranslationError>,
)
    ensures
        translated(raw, cache, backend).result matches Ok(value) ==> is_plain(value) && (
        is_lone_url(encoded(raw)) || settled(
            translated(raw, cache, backend).cache,
            encoded(raw),
            value,
        )),
    decreases encoded(raw).len(),
{
    let text = encoded(raw);
    if text.len() == 0 {
        assert(decoded(text) =~= text);
    } else if cache.entries.contains_key(text) {
        lemma_decoded_is_plain(cache.entries[text]);
    } else if has_http(text) {
        lemma_sides_are_shorter(raw);
        let split = split_of(text);
        let left = translated(split.left, cache.after_get(text), backend);
        lemma_translated_is_settled(split.left, cache.after_get(text), backend);
        match left.result {
            Err(_) => {},
            Ok(left_done) => {
                let right = translated(split.right, left.cache, backend);
                lemma_translated_is_settled(split.right, left.cache, backend);
                match right.result {
                    Err(_) => {},
                    Ok(right_done) => {
                        let done = Split { left_done: Some(left_done), ..split };
                        let last = Run {
                            stack: seq![done],
                            stage: Stage::Ascend(encoded(split.right), right_done),
                        };
                        assert(last.stack.last() == done);
                        assert(last.wf());
                        last.lemma_next_wf(right.cache, None);
                        lemma_fresh_result_is_settled(
                            last,
                            right.cache,
                            None,
                            done.stored(right.cache, right_done),
                        );
                    },
                }
            },
        }
    } else {
        match backend(text) {
            Ok(answer) => {
                lemma_decoded_is_plain(answer);
            },
            Err(_) => {},
        }
    }
}

/// Translating is idempotent: a text that was translated is translated
/// again to the same, in one step that is a hit, without the backend and
/// without a change to the entries. So is every text with the same normal
/// form. The one exception is a text that is one URL and nothing else.
pub proof fn lemma_translating_twice(
    raw: Seq<char>,
    again: Seq<char>,
    cache: CacheModel,
    backend: spec_fn(Seq<char>) -> Result<Seq<char>, TranslationError>,
)
    requires
        translated(raw, cache, backend).result is Ok,
        !is_lone_url(encoded(raw)),
        encoded(again) == encoded(raw),
    ensures
        ({
            let first = translated(raw, cache, backend);
            let second = translated(again, first.cache, backend);
            &&& second.result == first.result
            &&& second.steps == 1
            &&& second.cache.entries == first.cache.entries
            &&& second.log.len() == 0
            &&& encoded(raw).len() > 0 ==> second.cache.hits == first.cache.hits + 1
        }),
{
    lemma_translated_is_settled(raw, cache, backend);
}

/// A URL survives translation, character for character: the translation of
/// a text with a URL, where the cache does not hold the text, is the
/// translations of the two sides put around the first URL of the text as it
/// stands there.
pub proof fn lemma_translated_keeps_url(
    raw: Seq<char>,
    cache: CacheModel,
    backend: spec_fn(Seq<char>) -> Result<Seq<char>, TranslationError>,
)
    requires
        has_http(encoded(raw)),
        !cache.entries.contains_key(encoded(raw)),
        translated(raw, cache, backend).result is Ok,
    ensures
        ({
            let text = encoded(raw);
            let split = split_of(text);
            let left = translated(split.left, cache.after_get(text), backend);
            let right = translated(split.right, left.cache, backend);
            let url = first_url(text);
            let out = translated(raw, cache, backend).result->Ok_0;
            &&& left.result is Ok
            &&& right.result is Ok
            &&& out == reassembled(left.result->Ok_0, url, right.result->Ok_0)
            &&& out.subrange(
                left.result->Ok_0.len() + 1 as int,
                left.result->Ok_0.len() + 1 + url.len() as int,
            ) == url
        }),
{
    let text = encoded(raw);
    lemma_sides_are_shorter(raw);
    let split = split_of(text);
    let left = translated(split.left, cache.after_get(text), backend);
    let right = translated(split.right, left.cache, backend);
    if left.result is Ok && right.result is Ok {
        lemma_url_is_kept(text, left.result->Ok_0, right.result->Ok_0);
    }
}

/// Where the steps of a translation have come to its end, there is what
/// `translated` gives, however many steps were taken.
pub proof fn lemma_end_is_translated(
    raw: Seq<char>,
    cache: CacheModel,
    backend: spec_fn(Seq<char>) -> Result<Seq<char>, TranslationError>,
    taken: nat,
)
    requires
        driven(Run::start(raw), cache, backend, taken).run.ended(),
    ensures
        ({
            let outcome = translated(raw, cache, backend);
            let end = driven(Run::start(raw), cache, backend, taken);
            &&& end.run.calls_for() == Action::Finish(outcome.result)
            &&& end.cache == outcome.cache
            &&& end.log == outcome.log
        }),
{
    let outcome = translated(raw, cache, backend);
    let start = Run::start(raw);
    let end = driven(start, cache, backend, taken);
    let due = driven(start, cache, backend, outcome.steps);
    lemma_steps_compute_translation(raw, cache, backend);
    if outcome.steps >= taken {
        let more = (outcome.steps - taken) as nat;
        lemma_driven_on(start, cache, backend, taken, more);
        lemma_ended_stays(end.run, end.cache, backend, more);
        assert(taken + more == outcome.steps);
        assert(end.log + Seq::<CutRecord>::empty() =~= end.log);
    } else {
        let more = (taken - outcome.steps) as nat;
        lemma_driven_on(start, cache, backend, outcome.steps, more);
        lemma_ended_stays(due.run, due.cache, backend, more);
        assert(outcome.steps + more == taken);
        assert(due.log + Seq::<CutRecord>::empty() =~= due.log);
    }
}

/// What one step costs the counters of the cache: at most one lookup, or at
/// most four insertions.
pub proof fn lemma_step_costs(
    run: Run,
    cache: CacheModel,
    reply: Option<Result<Seq<char>, TranslationError>>,
)
    ensures
        ({
            let after = run.cache_next(cache, reply);
            &&& cache.hits <= after.hits <= cache.hits + 1
            &&& cache.misses <= after.misses <= cache.misses + 1
            &&& cache.accesses <= after.accesses <= cache.accesses + 4
        }),
{
}

} // verus!
