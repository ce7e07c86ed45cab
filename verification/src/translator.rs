//! Translation of a text that leaves its URLs as they are, one step at a
//! time: between two steps the caller asks the backend, and nobody holds the
//! cache.

use crate::cache::{Cache, CacheModel};
use crate::normalize::{
    brace_free, decode, decoded, encode, encoded, is_plain, lemma_decoded_after_brace_free,
    lemma_decoded_after_plain, lemma_decoded_is_plain, lemma_encoded, lemma_part_tab_free,
};
use crate::translation::{records, CutRecord, TranslationError, UrlTranslationCTX};
use crate::url::{
    contains_http, first_url, handle_http, has_http, http_from, left_of_url, lemma_http_from,
    lemma_split_covers, lemma_url_brace_free, lemma_url_end, right_of_url, url_end,
};
use vstd::prelude::*;

verus! {

/// A text that was cut around its first URL, and how far the translation of
/// its parts has come.
pub struct Split<T> {
    /// The text, in normal form.
    pub text: T,
    /// What stands before the URL.
    pub left: T,
    /// The URL.
    pub url: T,
    /// What stands behind the URL.
    pub right: T,
    /// The translation of `left`, once it is there.
    pub left_done: Option<T>,
}

/// What a translation is busy with.
pub enum Stage<T> {
    /// The text is to be translated.
    Descend(T),
    /// The text, in normal form, is with the backend.
    Await(T),
    /// The first text, in normal form, has the second as its translation.
    Ascend(T, T),
    /// The backend failed.
    Failed(TranslationError),
}

/// What the caller of a step is to do next.
pub enum Action<T> {
    /// Take another step.
    Continue,
    /// Ask the backend for a translation of the text, and hand the answer to
    /// the next step.
    Translate(T),
    /// The translation has ended, with this result.
    Finish(Result<T, TranslationError>),
}

impl View for Split<String> {
    type V = Split<Seq<char>>;

    open spec fn view(&self) -> Split<Seq<char>> {
        Split {
            text: self.text@,
            left: self.left@,
            url: self.url@,
            right: self.right@,
            left_done: match self.left_done {
                Some(done) => Some(done@),
                None => None,
            },
        }
    }
}

impl View for Stage<String> {
    type V = Stage<Seq<char>>;

    open spec fn view(&self) -> Stage<Seq<char>> {
        match *self {
            Stage::Descend(raw) => Stage::Descend(raw@),
            Stage::Await(text) => Stage::Await(text@),
            Stage::Ascend(text, value) => Stage::Ascend(text@, value@),
            Stage::Failed(e) => Stage::Failed(e),
        }
    }
}

impl View for Action<String> {
    type V = Action<Seq<char>>;

    open spec fn view(&self) -> Action<Seq<char>> {
        match *self {
            Action::Continue => Action::Continue,
            Action::Translate(text) => Action::Translate(text@),
            Action::Finish(Ok(value)) => Action::Finish(Ok(value@)),
            Action::Finish(Err(e)) => Action::Finish(Err(e)),
        }
    }
}

/// The answer of the backend, as characters.
pub open spec fn reply_view(reply: Option<Result<String, TranslationError>>) -> Option<
    Result<Seq<char>, TranslationError>,
> {
    match reply {
        None => None,
        Some(Ok(text)) => Some(Ok(text@)),
        Some(Err(e)) => Some(Err(e)),
    }
}

/// The splits of `stack`, each as characters.
pub open spec fn splits(stack: Seq<Split<String>>) -> Seq<Split<Seq<char>>> {
    Seq::new(stack.len(), |i: int| stack[i]@)
}

/// The translations of the two sides put around the URL, with one space on
/// each side of it.
pub open spec fn reassembled(left: Seq<char>, url: Seq<char>, right: Seq<char>) -> Seq<char> {
    left + seq![' '] + url + seq![' '] + right
}

/// The cut of `text` around its first URL, with nothing translated yet.
pub open spec fn split_of(text: Seq<char>) -> Split<Seq<char>> {
    Split {
        text,
        left: left_of_url(text),
        url: first_url(text),
        right: right_of_url(text),
        left_done: None,
    }
}

impl Split<Seq<char>> {
    /// The invariant of a split: its parts are those of its text, which
    /// holds a URL, and a translation that is there is left alone by
    /// `decoded`.
    pub open spec fn wf(self) -> bool {
        &&& has_http(self.text)
        &&& self.left == left_of_url(self.text)
        &&& self.url == first_url(self.text)
        &&& self.right == right_of_url(self.text)
        &&& self.left_done matches Some(done) ==> is_plain(done)
    }

    /// A bound on the steps that this split still takes.
    pub open spec fn fuel(self) -> nat {
        match self.left_done {
            None => 2 * encoded(self.right).len() + 5,
            Some(_) => 2,
        }
    }

    /// The record of this split, once `right` is the translation of its
    /// right side.
    pub open spec fn record(self, right: Seq<char>) -> CutRecord {
        CutRecord {
            original_text: self.text,
            left: self.left_done->0,
            url: self.url,
            right,
            tled: reassembled(self.left_done->0, self.url, right),
        }
    }

    /// The cache after the four entries of this split were put into it: the
    /// text with the result, the URL with itself, and each side with its
    /// translation.
    pub open spec fn stored(self, cache: CacheModel, right: Seq<char>) -> CacheModel {
        cache.after_add(self.text, reassembled(self.left_done->0, self.url, right)).after_add(
            self.url,
            self.url,
        ).after_add(self.left, self.left_done->0).after_add(self.right, right)
    }
}

/// A bound on the steps that the splits of `stack` still take.
pub open spec fn stack_fuel(stack: Seq<Split<Seq<char>>>) -> nat
    decreases stack.len(),
{
    if stack.len() == 0 {
        0
    } else {
        stack_fuel(stack.drop_last()) + stack.last().fuel()
    }
}

/// A translation under way: the splits that wait for their parts, the
/// innermost last, and what is being done now.
pub struct Run {
    pub stack: Seq<Split<Seq<char>>>,
    pub stage: Stage<Seq<char>>,
}

impl Run {
    /// The translation of `raw`, before its first step.
    pub open spec fn start(raw: Seq<char>) -> Run {
        Run { stack: Seq::empty(), stage: Stage::Descend(raw) }
    }

    /// The invariant of a translation under way.
    pub open spec fn wf(self) -> bool {
        &&& forall|i: int| 0 <= i < self.stack.len() ==> (#[trigger] self.stack[i]).wf()
        &&& self.stage matches Stage::Await(text) ==> text.len() > 0
        &&& self.stage matches Stage::Ascend(_, value) ==> is_plain(value)
        &&& self.stage is Failed ==> self.stack.len() == 0
    }

    /// Whether the translation has ended.
    pub open spec fn ended(self) -> bool {
        match self.stage {
            Stage::Ascend(_, _) => self.stack.len() == 0,
            Stage::Failed(_) => true,
            _ => false,
        }
    }

    /// What the caller is to do in this state.
    pub open spec fn calls_for(self) -> Action<Seq<char>> {
        match self.stage {
            Stage::Descend(_) => Action::Continue,
            Stage::Await(text) => Action::Translate(text),
            Stage::Ascend(_, value) => if self.stack.len() == 0 {
                Action::Finish(Ok(value))
            } else {
                Action::Continue
            },
            Stage::Failed(e) => Action::Finish(Err(e)),
        }
    }

    /// Whether a step with `reply` changes this state.
    pub open spec fn moves(self, reply: Option<Result<Seq<char>, TranslationError>>) -> bool {
        match self.stage {
            Stage::Descend(_) => true,
            Stage::Await(_) => reply is Some,
            Stage::Ascend(_, _) => self.stack.len() > 0,
            Stage::Failed(_) => false,
        }
    }

    /// The state after one step.
    ///
    /// A text to be translated is put in normal form. An empty one is its
    /// own translation. One that the cache holds has the cached value,
    /// decoded, as its translation. One that holds a URL is cut around it,
    /// and its left side is translated first. Any other goes to the backend.
    ///
    /// A text that is with the backend stays there until the reply comes.
    /// The decoded reply is its translation; a failure ends everything.
    ///
    /// A translation that is there belongs to the innermost split: as its
    /// left side, after which the right side is translated, or as its right
    /// side, after which the split is done and has the reassembled text as
    /// its translation. Without a split it is the result.
    pub open spec fn next(
        self,
        cache: CacheModel,
        reply: Option<Result<Seq<char>, TranslationError>>,
    ) -> Run {
        match self.stage {
            Stage::Descend(raw) => {
                let text = encoded(raw);
                if text.len() == 0 {
                    Run { stage: Stage::Ascend(text, text), ..self }
                } else if cache.entries.contains_key(text) {
                    Run { stage: Stage::Ascend(text, decoded(cache.entries[text])), ..self }
                } else if has_http(text) {
                    Run {
                        stack: self.stack.push(split_of(text)),
                        stage: Stage::Descend(left_of_url(text)),
                    }
                } else {
                    Run { stage: Stage::Await(text), ..self }
                }
            },
            Stage::Await(text) => match reply {
                None => self,
                Some(Ok(answer)) => Run { stage: Stage::Ascend(text, decoded(answer)), ..self },
                Some(Err(e)) => Run { stack: Seq::empty(), stage: Stage::Failed(e) },
            },
            Stage::Ascend(_, value) => if self.stack.len() == 0 {
                self
            } else {
                let top = self.stack.last();
                match top.left_done {
                    None => Run {
                        stack: self.stack.drop_last().push(
                            Split { left_done: Some(value), ..top },
                        ),
                        stage: Stage::Descend(top.right),
                    },
                    Some(left) => Run {
                        stack: self.stack.drop_last(),
                        stage: Stage::Ascend(top.text, reassembled(left, top.url, value)),
                    },
                }
            },
            Stage::Failed(_) => self,
        }
    }

    /// The cache after one step, but for the document that it may have
    /// prepared by itself: a lookup of a text that is not empty, the entry of
    /// a reply, or the four entries of a split that is done.
    pub open spec fn cache_next(
        self,
        cache: CacheModel,
        reply: Option<Result<Seq<char>, TranslationError>>,
    ) -> CacheModel {
        match self.stage {
            Stage::Descend(raw) => if encoded(raw).len() == 0 {
                cache
            } else {
                cache.after_get(encoded(raw))
            },
            Stage::Await(text) => match reply {
                Some(Ok(answer)) => cache.after_add(text, answer),
                _ => cache,
            },
            Stage::Ascend(_, value) => if self.stack.len() > 0 && self.stack.last().left_done
                is Some {
                self.stack.last().stored(cache, value)
            } else {
                cache
            },
            Stage::Failed(_) => cache,
        }
    }

    /// Whether `after` is a possible state of the cache after one step from
    /// `cache`: what `cache_next` says, where each insertion may have made
    /// the cache prepare its document as `Cache::add` does.
    pub open spec fn stores(
        self,
        cache: CacheModel,
        reply: Option<Result<Seq<char>, TranslationError>>,
        after: CacheModel,
    ) -> bool {
        match self.stage {
            Stage::Await(text) => match reply {
                Some(Ok(answer)) => cache.added(text, answer, after),
                _ => after == cache,
            },
            Stage::Ascend(_, value) => if self.stack.len() > 0 && self.stack.last().left_done
                is Some {
                let top = self.stack.last();
                let left = top.left_done->0;
                exists|first: CacheModel, second: CacheModel, third: CacheModel|
                    {
                        &&& #[trigger] cache.added(
                            top.text,
                            reassembled(left, top.url, value),
                            first,
                        )
                        &&& #[trigger] first.added(top.url, top.url, second)
                        &&& #[trigger] second.added(top.left, left, third)
                        &&& third.added(top.right, value, after)
                    }
            } else {
                after == cache
            },
            _ => after == self.cache_next(cache, reply),
        }
    }

    /// What one step adds to the log: the record of a split that is done.
    pub open spec fn logged(self) -> Seq<CutRecord> {
        match self.stage {
            Stage::Ascend(_, value) => if self.stack.len() > 0 && self.stack.last().left_done
                is Some {
                seq![self.stack.last().record(value)]
            } else {
                Seq::empty()
            },
            _ => Seq::empty(),
        }
    }

    /// A bound on the steps that are still taken.
    pub open spec fn fuel(self) -> nat {
        stack_fuel(self.stack) + match self.stage {
            Stage::Descend(raw) => 2 * encoded(raw).len() + 3,
            Stage::Await(_) => 2,
            Stage::Ascend(_, _) => 1,
            Stage::Failed(_) => 0,
        }
    }
}

/// A split that joins a stack adds its fuel to that of the stack.
pub proof fn lemma_stack_fuel_push(stack: Seq<Split<Seq<char>>>, split: Split<Seq<char>>)
    ensures
        stack_fuel(stack.push(split)) == stack_fuel(stack) + split.fuel(),
{
    assert(stack.push(split).drop_last() =~= stack);
}

/// A stack that is not empty has the fuel of its last split and of the
/// others.
pub proof fn lemma_stack_fuel_last(stack: Seq<Split<Seq<char>>>)
    requires
        stack.len() > 0,
    ensures
        stack_fuel(stack) == stack_fuel(stack.drop_last()) + stack.last().fuel(),
{
}

/// Two translations that `decoded` leaves alone, put around a URL without
/// braces, give a text that `decoded` leaves alone.
pub proof fn lemma_reassembled_plain(left: Seq<char>, url: Seq<char>, right: Seq<char>)
    requires
        is_plain(left),
        is_plain(right),
        brace_free(url),
    ensures
        is_plain(reassembled(left, url, right)),
{
    let middle = seq![' '] + url + seq![' '];
    assert(brace_free(middle));
    let tail = middle + right;
    assert(reassembled(left, url, right) =~= left + tail);
    assert(tail[0] == ' ');
    lemma_decoded_after_plain(left, tail);
    lemma_decoded_after_brace_free(middle, right);
}

/// The two sides of the first URL of a text in normal form are no longer,
/// once in normal form themselves, than they are, and with the URL they
/// make up the text.
pub proof fn lemma_sides_are_shorter(raw: Seq<char>)
    requires
        has_http(encoded(raw)),
    ensures
        encoded(left_of_url(encoded(raw))).len() + encoded(right_of_url(encoded(raw))).len() + 4
            <= encoded(raw).len(),
{
    let text = encoded(raw);
    lemma_encoded(raw);
    lemma_split_covers(text);
    lemma_http_from(text, 0);
    let at = http_from(text, 0);
    lemma_url_end(text, at + 4);
    lemma_part_tab_free(text, 0, at);
    lemma_part_tab_free(text, url_end(text, at + 4), text.len() as int);
    lemma_encoded(left_of_url(text));
    lemma_encoded(right_of_url(text));
    assert((left_of_url(text) + first_url(text) + right_of_url(text)).len() == text.len());
}

impl Run {
    /// A step keeps the invariant.
    pub proof fn lemma_next_wf(
        self,
        cache: CacheModel,
        reply: Option<Result<Seq<char>, TranslationError>>,
    )
        requires
            self.wf(),
        ensures
            self.next(cache, reply).wf(),
    {
        let after = self.next(cache, reply);
        match self.stage {
            Stage::Descend(raw) => {
                let text = encoded(raw);
                if text.len() == 0 {
                    assert(decoded(text) =~= text);
                } else if cache.entries.contains_key(text) {
                    lemma_decoded_is_plain(cache.entries[text]);
                } else if has_http(text) {
                    assert forall|i: int| 0 <= i < after.stack.len() implies (
                    #[trigger] after.stack[i]).wf() by {
                        if i < self.stack.len() {
                            assert(after.stack[i] == self.stack[i]);
                        }
                    }
                }
            },
            Stage::Await(_) => match reply {
                Some(Ok(answer)) => {
                    lemma_decoded_is_plain(answer);
                },
                _ => {},
            },
            Stage::Ascend(_, value) => if self.stack.len() > 0 {
                let top = self.stack.last();
                assert(top.wf());
                assert forall|i: int| 0 <= i < after.stack.len() implies (
                #[trigger] after.stack[i]).wf() by {
                    if i < self.stack.len() - 1 {
                        assert(after.stack[i] == self.stack[i]);
                    }
                }
                match top.left_done {
                    None => {},
                    Some(left) => {
                        lemma_url_brace_free(top.text);
                        lemma_reassembled_plain(left, top.url, value);
                    },
                }
            },
            Stage::Failed(_) => {},
        }
    }

    /// A cache after a step is, but for the document that waits to be
    /// taken, what `cache_next` says.
    pub proof fn lemma_stores_agrees(
        self,
        cache: CacheModel,
        reply: Option<Result<Seq<char>, TranslationError>>,
        after: CacheModel,
    )
        requires
            self.stores(cache, reply, after),
        ensures
            after.agrees(self.cache_next(cache, reply)),
    {
    }

    /// A step that changes the state uses up fuel: no translation takes
    /// more steps than its fuel at the start.
    pub proof fn lemma_next_burns_fuel(
        self,
        cache: CacheModel,
        reply: Option<Result<Seq<char>, TranslationError>>,
    )
        requires
            self.moves(reply),
        ensures
            self.next(cache, reply).fuel() < self.fuel(),
    {
        let after = self.next(cache, reply);
        match self.stage {
            Stage::Descend(raw) => {
                let text = encoded(raw);
                if text.len() != 0 && !cache.entries.contains_key(text) && has_http(text) {
                    lemma_stack_fuel_push(self.stack, split_of(text));
                    lemma_sides_are_shorter(raw);
                }
            },
            Stage::Await(_) => {
                assert(stack_fuel(Seq::<Split<Seq<char>>>::empty()) == 0);
            },
            Stage::Ascend(_, value) => {
                let top = self.stack.last();
                lemma_stack_fuel_last(self.stack);
                match top.left_done {
                    None => {
                        lemma_stack_fuel_push(
                            self.stack.drop_last(),
                            Split { left_done: Some(value), ..top },
                        );
                    },
                    Some(_) => {},
                }
            },
            Stage::Failed(_) => {},
        }
    }
}

/// The translations of the two sides put around the URL, with one space on
/// each side of it.
pub fn reassemble(left: &str, url: &str, right: &str) -> (out: String)
    ensures
        out@ == reassembled(left@, url@, right@),
{
    let mut out = String::new();
    out.append(left);
    out.push(' ');
    out.append(url);
    out.push(' ');
    out.append(right);
    assert(out@ =~= reassembled(left@, url@, right@));
    out
}

/// A translation under way. It is driven by `advance`, one step at a time.
pub struct Translator {
    stack: Vec<Split<String>>,
    stage: Stage<String>,
}

impl View for Translator {
    type V = Run;

    closed spec fn view(&self) -> Run {
        Run { stack: splits(self.stack@), stage: self.stage@ }
    }
}

impl Translator {
    /// The invariant of a translation under way.
    pub open spec fn wf(&self) -> bool {
        self@.wf()
    }

    /// A translation of `raw`, before its first step.
    pub fn new(raw: String) -> (t: Self)
        ensures
            t@ == Run::start(raw@),
            t.wf(),
    {
        let t = Translator { stack: Vec::new(), stage: Stage::Descend(raw) };
        assert(splits(t.stack@) =~= Seq::empty());
        t
    }

    /// What the caller is to do in this state.
    pub fn calls_for(&self) -> (action: Action<String>)
        ensures
            action@ == self@.calls_for(),
    {
        match &self.stage {
            Stage::Descend(_) => Action::Continue,
            Stage::Await(text) => Action::Translate(text.clone()),
            Stage::Ascend(_, value) => if self.stack.len() == 0 {
                Action::Finish(Ok(value.clone()))
            } else {
                Action::Continue
            },
            Stage::Failed(e) => Action::Finish(Err(e.copy())),
        }
    }

    /// Takes one step, and says what the caller is to do next. `reply` is
    /// the answer of the backend where the step before asked for one, and
    /// counts for nothing otherwise. With the cache the step makes one
    /// lookup or up to four insertions, for which the counter of insertions
    /// must have room; a split that is done is recorded in `log`.
    pub fn advance(
        self,
        cache: &mut Cache,
        log: &mut Vec<UrlTranslationCTX>,
        reply: Option<Result<String, TranslationError>>,
    ) -> (r: (Self, Action<String>))
        requires
            self.wf(),
            old(cache).wf(),
            old(cache)@.accesses + 4 <= u64::MAX,
        ensures
            r.0.wf(),
            r.0@ == self@.next(old(cache)@, reply_view(reply)),
            r.1@ == r.0@.calls_for(),
            final(cache).wf(),
            self@.stores(old(cache)@, reply_view(reply), final(cache)@),
            final(cache)@.agrees(self@.cache_next(old(cache)@, reply_view(reply))),
            records(final(log)@) == records(old(log)@) + self@.logged(),
            self@.moves(reply_view(reply)) ==> r.0@.fuel() < self@.fuel(),
    {
        proof {
            self@.lemma_next_wf(cache@, reply_view(reply));
            if self@.moves(reply_view(reply)) {
                self@.lemma_next_burns_fuel(cache@, reply_view(reply));
            }
            assert(records(log@) + Seq::<CutRecord>::empty() =~= records(log@));
        }
        let ghost before = self@;
        let Translator { stack, stage } = self;
        let mut stack = stack;
        let after = match stage {
            Stage::Descend(raw) => {
                let text = encode(raw.as_str());
                if text.as_str().is_empty() {
                    let value = text.clone();
                    Translator { stack, stage: Stage::Ascend(text, value) }
                } else {
                    match cache.get(&text) {
                        Some(found) => {
                            let value = decode(found.as_str());
                            Translator { stack, stage: Stage::Ascend(text, value) }
                        },
                        None => if contains_http(text.as_str()) {
                            let (left, url, right) = handle_http(text.as_str());
                            let first = left.clone();
                            let split = Split { text, left, url, right, left_done: None };
                            assert(split@ == split_of(split.text@));
                            stack.push(split);
                            assert(splits(stack@) =~= before.stack.push(split@));
                            Translator { stack, stage: Stage::Descend(first) }
                        } else {
                            Translator { stack, stage: Stage::Await(text) }
                        },
                    }
                }
            },
            Stage::Await(text) => match reply {
                None => Translator { stack, stage: Stage::Await(text) },
                Some(Ok(answer)) => {
                    let value = decode(answer.as_str());
                    cache.add(text.clone(), answer);
                    Translator { stack, stage: Stage::Ascend(text, value) }
                },
                Some(Err(e)) => {
                    let nothing: Vec<Split<String>> = Vec::new();
                    assert(splits(nothing@) =~= Seq::empty());
                    Translator { stack: nothing, stage: Stage::Failed(e) }
                },
            },
            Stage::Ascend(text, value) => match stack.pop() {
                None => Translator { stack, stage: Stage::Ascend(text, value) },
                Some(top) => {
                    assert(top@ == before.stack.last());
                    assert(splits(stack@) =~= before.stack.drop_last());
                    let Split { text: whole, left, url, right, left_done } = top;
                    match left_done {
                        None => {
                            let next = right.clone();
                            let split = Split {
                                text: whole,
                                left,
                                url,
                                right,
                                left_done: Some(value),
                            };
                            stack.push(split);
                            assert(splits(stack@) =~= before.stack.drop_last().push(split@));
                            Translator { stack, stage: Stage::Descend(next) }
                        },
                        Some(done) => {
                            let out = reassemble(done.as_str(), url.as_str(), value.as_str());
                            let record = UrlTranslationCTX {
                                original_text: whole.clone(),
                                left: done.clone(),
                                url: url.clone(),
                                right: value.clone(),
                                tled: out.clone(),
                            };
                            assert(record@ == before.stack.last().record(value@));
                            log.push(record);
                            assert(records(log@) =~= records(old(log)@) + seq![record@]);
                            cache.add(whole.clone(), out.clone());
                            let ghost first = cache@;
                            cache.add(url.clone(), url);
                            let ghost second = cache@;
                            cache.add(left, done);
                            let ghost third = cache@;
                            cache.add(right, value);
                            assert(third.added(top@.right, value@, cache@));
                            assert(before.stores(old(cache)@, reply_view(reply), cache@));
                            Translator { stack, stage: Stage::Ascend(whole, out) }
                        },
                    }
                },
            },
            Stage::Failed(e) => Translator { stack, stage: Stage::Failed(e) },
        };
        proof {
            before.lemma_stores_agrees(old(cache)@, reply_view(reply), cache@);
        }
        let action = after.calls_for();
        (after, action)
    }
}

} // verus!
