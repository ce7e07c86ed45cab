//! A whole translation in one call, for a caller that has the cache to
//! itself.

use crate::cache::{Cache, CacheModel};
use crate::normalize::{decoded, encoded};
use crate::recursion::{
    driven, lemma_driven_on, lemma_driven_once, lemma_end_is_translated, lemma_step_costs,
    lemma_step_on_agreeing_caches, reply_for, translated,
};
use crate::translation::{records, CutRecord, TranslationError, UrlTranslationCTX};
use crate::translator::{reply_view, Action, Run, Stage, Translator};
use crate::translator_laws::steps;
use vstd::prelude::*;
use vstd::string::StringExecFns;

verus! {

/// The result of a translation, as characters.
pub open spec fn result_view(result: Result<String, TranslationError>) -> Result<
    Seq<char>,
    TranslationError,
> {
    match result {
        Ok(text) => Ok(text@),
        Err(e) => Err(e),
    }
}

/// Whether `backend` answers every text as `oracle` does.
pub open spec fn answers_as<F: Fn(&str) -> Result<String, TranslationError>>(
    backend: F,
    oracle: spec_fn(Seq<char>) -> Result<Seq<char>, TranslationError>,
) -> bool {
    forall|text: &str, reply: Result<String, TranslationError>|
        call_ensures(backend, (text,), reply) ==> result_view(reply) == oracle(text@)
}

/// Whether `backend` has a call that gives `answer` for `text`.
pub open spec fn heard<F: Fn(&str) -> Result<String, TranslationError>>(
    backend: F,
    text: Seq<char>,
    answer: Result<Seq<char>, TranslationError>,
) -> bool {
    exists|asked: &str, reply: Result<String, TranslationError>| #[trigger]
        call_ensures(backend, (asked,), reply) && asked@ == text && result_view(reply) == answer
}

/// What the first `n` steps of `runs` have logged.
pub open spec fn logged_by(runs: Seq<Run>, n: nat) -> Seq<CutRecord>
    decreases n,
{
    if n == 0 || n > runs.len() {
        Seq::empty()
    } else {
        logged_by(runs, (n - 1) as nat) + runs[n - 1].logged()
    }
}

/// Whether `runs`, `caches` and `replies` are the course of one whole
/// translation of `raw` with `backend`: the states from the first to the
/// last, the caches between the steps, and what each step was given, which
/// is an answer of the backend to the text that the step before asked
/// about, and nothing where it asked nothing.
pub open spec fn course<F: Fn(&str) -> Result<String, TranslationError>>(
    backend: F,
    raw: Seq<char>,
    runs: Seq<Run>,
    caches: Seq<CacheModel>,
    replies: Seq<Option<Result<Seq<char>, TranslationError>>>,
) -> bool {
    &&& steps(runs, caches, replies)
    &&& replies.len() > 0
    &&& runs[0] == Run::start(raw)
    &&& runs.last().ended()
    &&& forall|i: int|
        0 <= i < replies.len() ==> match #[trigger] replies[i] {
            Some(answer) => runs[i].stage matches Stage::Await(text) && heard(
                backend,
                text,
                answer,
            ),
            None => !(runs[i].stage is Await),
        }
}

/// What the first steps have logged does not depend on the states that
/// follow.
pub proof fn lemma_logged_by_prefix(runs: Seq<Run>, next: Run, n: nat)
    requires
        n <= runs.len(),
    ensures
        logged_by(runs.push(next), n) == logged_by(runs, n),
    decreases n,
{
    if n > 0 {
        lemma_logged_by_prefix(runs, next, (n - 1) as nat);
        assert(runs.push(next)[n - 1] == runs[n - 1]);
    }
}

/// The most steps that a translation of `raw` takes.
pub open spec fn most_steps(raw: Seq<char>) -> nat {
    2 * encoded(raw).len() + 3
}

/// Translates `raw` with `backend`, leaving every URL of the text as it is.
/// The cache answers where it can, and learns every translation that is
/// made; every cut around a URL is recorded in `log`.
///
/// Whatever the backend answers, the translation has a course of steps from
/// the cache as it was to the cache as it is, each step as `Run::next` has
/// it, with answers of the backend as replies; its last state gives the
/// result, and its steps have logged what the log has gained. So a text
/// whose normal form is empty is translated to the empty text, and the
/// cache and the log stay as they are; a text that the cache holds is
/// translated to the cached value, decoded, which costs the cache one
/// lookup and nothing else. Where the
/// backend answers as some `oracle` does, the result, the cache and the log
/// are those of `translated` with that oracle. The counter of
/// insertions must have room for four insertions at each step.
pub fn translate<F: Fn(&str) -> Result<String, TranslationError>>(
    raw: &str,
    cache: &mut Cache,
    log: &mut Vec<UrlTranslationCTX>,
    backend: F,
) -> (result: Result<String, TranslationError>)
    requires
        old(cache).wf(),
        forall|text: &str| call_requires(backend, (text,)),
        old(cache)@.accesses + 4 * most_steps(raw@) <= u64::MAX,
    ensures
        final(cache).wf(),
        exists|
            runs: Seq<Run>,
            caches: Seq<CacheModel>,
            replies: Seq<Option<Result<Seq<char>, TranslationError>>>,
        |
            {
                &&& #[trigger] course(backend, raw@, runs, caches, replies)
                &&& caches[0] == old(cache)@
                &&& caches.last() == final(cache)@
                &&& runs.last().calls_for() == Action::Finish(result_view(result))
                &&& records(final(log)@) == records(old(log)@) + logged_by(runs, replies.len())
            },
        encoded(raw@).len() == 0 ==> {
            &&& result_view(result) == Ok::<Seq<char>, TranslationError>(encoded(raw@))
            &&& final(cache)@ == old(cache)@
            &&& records(final(log)@) == records(old(log)@)
        },
        encoded(raw@).len() > 0 && old(cache)@.entries.contains_key(encoded(raw@)) ==> {
            &&& result_view(result) == Ok::<Seq<char>, TranslationError>(
                decoded(old(cache)@.entries[encoded(raw@)]),
            )
            &&& final(cache)@ == old(cache)@.after_get(encoded(raw@))
            &&& records(final(log)@) == records(old(log)@)
        },
        forall|oracle: spec_fn(Seq<char>) -> Result<Seq<char>, TranslationError>|
            #[trigger] answers_as(backend, oracle) ==> {
                &&& result_view(result) == translated(raw@, old(cache)@, oracle).result
                &&& final(cache)@.agrees(translated(raw@, old(cache)@, oracle).cache)
                &&& records(final(log)@) == records(old(log)@) + translated(
                    raw@,
                    old(cache)@,
                    oracle,
                ).log
            },
{
    let mut translator = Translator::new(String::from_str(raw));
    let mut reply: Option<Result<String, TranslationError>> = None;
    let ghost start = Run::start(raw@);
    let ghost taken: nat = 0;
    let ghost runs: Seq<Run> = seq![start];
    let ghost caches: Seq<CacheModel> = seq![cache@];
    let ghost replies: Seq<Option<Result<Seq<char>, TranslationError>>> = Seq::empty();
    proof {
        assert(records(log@) + Seq::empty() =~= records(log@));
    }
    loop
        invariant
            translator.wf(),
            cache.wf(),
            !translator@.ended(),
            start == Run::start(raw@),
            forall|text: &str| call_requires(backend, (text,)),
            cache@.accesses + 4 * translator@.fuel() <= u64::MAX,
            translator@.stage is Await <==> reply is Some,
            reply matches Some(answer) ==> heard(
                backend,
                translator@.stage->Await_0,
                result_view(answer),
            ),
            steps(runs, caches, replies),
            replies.len() == taken,
            runs[0] == start,
            caches[0] == old(cache)@,
            runs.last() == translator@,
            caches.last() == cache@,
            records(log@) == records(old(log)@) + logged_by(runs, taken),
            forall|i: int|
                0 <= i < replies.len() ==> match #[trigger] replies[i] {
                    Some(answer) => runs[i].stage matches Stage::Await(text) && heard(
                        backend,
                        text,
                        answer,
                    ),
                    None => !(runs[i].stage is Await),
                },
            if taken == 0 {
                &&& translator@ == start
                &&& cache@ == old(cache)@
                &&& records(log@) == records(old(log)@)
            } else {
                &&& encoded(raw@).len() > 0
                &&& !old(cache)@.entries.contains_key(encoded(raw@))
            },
            forall|oracle: spec_fn(Seq<char>) -> Result<Seq<char>, TranslationError>|
                #[trigger] answers_as(backend, oracle) ==> {
                    let at = driven(start, old(cache)@, oracle, taken);
                    &&& translator@ == at.run
                    &&& cache@.agrees(at.cache)
                    &&& records(log@) == records(old(log)@) + at.log
                    &&& reply_view(reply) == reply_for(translator@, oracle)
                },
        decreases translator@.fuel(),
    {
        let ghost before = translator@;
        let ghost cache_before = cache@;
        let ghost log_before = records(log@);
        let ghost given = reply_view(reply);
        proof {
            lemma_step_costs(before, cache_before, given);
            assert(before.moves(given));
        }
        let (next, action) = translator.advance(cache, log, reply);
        translator = next;
        proof {
            assert forall|oracle: spec_fn(Seq<char>) -> Result<Seq<char>, TranslationError>|
                #[trigger] answers_as(backend, oracle) implies ({
                let at = driven(start, old(cache)@, oracle, taken + 1);
                &&& translator@ == at.run
                &&& cache@.agrees(at.cache)
                &&& records(log@) == records(old(log)@) + at.log
            }) by {
                let was = driven(start, old(cache)@, oracle, taken);
                lemma_driven_on(start, old(cache)@, oracle, taken, 1);
                lemma_driven_once(was.run, was.cache, oracle);
                lemma_step_on_agreeing_caches(before, cache_before, was.cache, given);
                assert((records(old(log)@) + was.log) + before.logged() =~= records(old(log)@) + (
                was.log + before.logged()));
            }
            let longer = runs.push(translator@);
            let wider = caches.push(cache@);
            let more = replies.push(given);
            assert forall|i: int| 0 <= i < more.len() implies {
                &&& longer[i].moves(#[trigger] more[i])
                &&& longer[i + 1] == longer[i].next(wider[i], more[i])
                &&& wider[i + 1].agrees(longer[i].cache_next(wider[i], more[i]))
            } by {
                if i < replies.len() {
                    assert(more[i] == replies[i]);
                    assert(longer[i] == runs[i] && longer[i + 1] == runs[i + 1]);
                    assert(wider[i] == caches[i] && wider[i + 1] == caches[i + 1]);
                    assert(runs[i].moves(replies[i]));
                }
            }
            assert forall|i: int| 0 <= i < more.len() implies match #[trigger] more[i] {
                Some(answer) => longer[i].stage matches Stage::Await(text) && heard(
                    backend,
                    text,
                    answer,
                ),
                None => !(longer[i].stage is Await),
            } by {
                if i < replies.len() {
                    assert(more[i] == replies[i]);
                    assert(longer[i] == runs[i]);
                }
            }
            lemma_logged_by_prefix(runs, translator@, taken);
            assert(longer[taken as int] == before);
            assert((records(old(log)@) + logged_by(runs, taken)) + before.logged() =~= records(
                old(log)@,
            ) + (logged_by(runs, taken) + before.logged()));
            runs = longer;
            caches = wider;
            replies = more;
            taken = taken + 1;
        }
        match action {
            Action::Continue => {
                reply = None;
            },
            Action::Translate(text) => {
                let asked: &str = text.as_str();
                let answer = backend(asked);
                proof {
                    assert forall|oracle: spec_fn(Seq<char>) -> Result<Seq<char>, TranslationError>|
                        #[trigger] answers_as(backend, oracle) implies result_view(answer)
                        == oracle(text@) by {
                        assert(call_ensures(backend, (asked,), answer));
                    }
                }
                proof {
                    assert(call_ensures(backend, (asked,), answer));
                    assert(heard(backend, text@, result_view(answer)));
                }
                reply = Some(answer);
            },
            Action::Finish(result) => {
                proof {
                    assert forall|oracle: spec_fn(Seq<char>) -> Result<Seq<char>, TranslationError>|
                        #[trigger] answers_as(backend, oracle) implies ({
                        &&& result_view(result) == translated(raw@, old(cache)@, oracle).result
                        &&& cache@.agrees(translated(raw@, old(cache)@, oracle).cache)
                        &&& records(log@) == records(old(log)@) + translated(
                            raw@,
                            old(cache)@,
                            oracle,
                        ).log
                    }) by {
                        lemma_end_is_translated(raw@, old(cache)@, oracle, taken);
                    }
                    assert(runs.last().ended());
                    assert(course(backend, raw@, runs, caches, replies));
                }
                return result;
            },
        }
    }
}

} // verus!
