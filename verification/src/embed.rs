//! From a text to its vector: what is answered at once, what the cache knows, and what is left to the
//! model.

use crate::key::{cache_key, key_of};
use crate::lru::{
    law_get_keeps_every_vector, law_operations_keep_contents_valid, law_put_is_read_back, Contents,
    Lru, Stamped,
};
use crate::text::{blank, cut, is_blank, take_chars, white_space};
use vstd::prelude::*;

verus! {

/// The number of components of a vector.
pub const DIMS: usize = 1024;

/// The generation of vectors that the service gives. It changes only when the vector of some text
/// does, so it is no release number: one that moves no vector leaves it alone.
pub const VECTOR_EPOCH: u32 = 1;

/// The vector of a blank text.
pub open spec fn zeros() -> Seq<i32> {
    Seq::new(1024, |i: int| 0i32)
}

/// The vector of a blank text: as many zeros as a vector has components.
pub fn zero_vector() -> (r: Vec<i32>)
    ensures
        r@ == zeros(),
        r@.len() == 1024,
        forall|i: int| 0 <= i < 1024 ==> #[trigger] r@[i] == 0,
{
    let r: Vec<i32> = vec![0;DIMS];
    assert(r@ =~= zeros());
    r
}

/// `x`, or the nearer bound where it lies outside `-127..=127`.
pub open spec fn component(x: int) -> int {
    if x < -127 {
        -127
    } else if x > 127 {
        127
    } else {
        x
    }
}

/// The components of a vector from their rounded values: each held to `-127..=127`.
pub fn clamp_components(rounded: &Vec<i64>) -> (r: Vec<i32>)
    ensures
        r@.len() == rounded@.len(),
        forall|i: int|
            0 <= i < r@.len() ==> #[trigger] r@[i] == component(rounded@[i] as int),
        forall|i: int|
            0 <= i < rounded@.len() ==> {
                &&& -127 <= rounded@[i] <= 127 ==> #[trigger] r@[i] == rounded@[i]
                &&& rounded@[i] > 127 ==> r@[i] == 127
                &&& rounded@[i] < -127 ==> r@[i] == -127
            },
{
    let mut r: Vec<i32> = Vec::new();
    let mut i: usize = 0;
    while i < rounded.len()
        invariant
            i <= rounded@.len(),
            r@.len() == i,
            forall|j: int| 0 <= j < i ==> #[trigger] r@[j] == component(rounded@[j] as int),
        decreases rounded.len() - i,
    {
        let x: i64 = rounded[i];
        r.push(
            if x < -127 {
                -127
            } else if x > 127 {
                127
            } else {
                x as i32
            },
        );
        i = i + 1;
    }
    r
}

/// A component is the rounded value itself wherever that can be, and else the bound on its side of zero: the
/// order of the values and their signs are kept.
pub proof fn law_a_component_is_the_value_or_the_bound_on_its_side(x: int, y: int)
    ensures
        -127 <= x <= 127 ==> component(x) == x,
        x > 127 ==> component(x) == 127,
        x < -127 ==> component(x) == -127,
        component(-x) == -component(x),
        x <= y ==> component(x) <= component(y),
{
}

/// The vector of a blank text has as many components as any other, and each of them is zero.
pub proof fn law_the_zero_vector_is_zeros()
    ensures
        zeros().len() == 1024,
        forall|i: int| 0 <= i < 1024 ==> #[trigger] zeros()[i] == 0,
{
}

/// How the embedding of a text goes on.
pub enum EmbedStep {
    /// It is done: this is the vector.
    Answer(Vec<i32>),
    /// The model is to embed `text`; the vector goes into the cache under `key`.
    Infer { text: String, key: String },
}

/// How the embedding of a text goes on, by the views of what it holds.
pub enum Begun {
    Answer(Seq<i32>),
    Infer { text: Seq<char>, key: Seq<char> },
}

impl EmbedStep {
    /// The step by the views of what it holds.
    pub open spec fn begun(self) -> Begun {
        match self {
            EmbedStep::Answer(v) => Begun::Answer(v@),
            EmbedStep::Infer { text, key } => Begun::Infer { text: text@, key: key@ },
        }
    }
}

/// The cache after the embedding of `text` has begun, and how it goes on.
pub open spec fn begin(cache: Contents, max_chars: nat, text: Seq<char>) -> (Contents, Begun) {
    let head = cut(text, max_chars);
    if blank(text) {
        (cache, Begun::Answer(zeros()))
    } else {
        (
            cache.after_get(key_of(head)),
            match cache.found(key_of(head)) {
                Some(known) => Begun::Answer(known),
                None => Begun::Infer { text: head, key: key_of(head) },
            },
        )
    }
}

/// Begins to embed `text`. A blank one has the zero vector, and nothing else happens. Of any other,
/// the first `max_chars` characters count: the cache may know their vector, else the model is asked.
pub fn embed_one(cache: &mut Lru, max_chars: usize, text: &str) -> (r: EmbedStep)
    requires
        old(cache).wf(),
        !blank(text@) && old(cache)@.cap > 0 ==> old(cache)@.tick < u64::MAX,
    ensures
        final(cache).wf(),
        (final(cache)@, r.begun()) == begin(old(cache)@, max_chars as nat, text@),
        (forall|i: int| 0 <= i < text@.len() ==> white_space(#[trigger] text@[i])) ==> {
            &&& final(cache)@ == old(cache)@
            &&& r matches EmbedStep::Answer(v) && v@.len() == 1024 && forall|i: int|
                0 <= i < 1024 ==> #[trigger] v@[i] == 0
        },
        (exists|i: int| 0 <= i < text@.len() && !white_space(#[trigger] text@[i])) ==> {
            let head = if text@.len() <= max_chars {
                text@
            } else {
                text@.take(max_chars as int)
            };
            &&& final(cache)@ == old(cache)@.after_get(key_of(head))
            &&& old(cache)@.entries.contains_key(key_of(head)) ==> (r matches EmbedStep::Answer(v)
                && v@ == old(cache)@.entries[key_of(head)].vector)
            &&& !old(cache)@.entries.contains_key(key_of(head)) ==> (r matches EmbedStep::Infer {
                text: t,
                key,
            } && t@ == head && key@ == key_of(head))
        },
{
    if is_blank(text) {
        return EmbedStep::Answer(zero_vector());
    }
    let head: &str = take_chars(text, max_chars);
    let key: String = cache_key(head);
    match cache.get(key.as_str()) {
        Some(v) => EmbedStep::Answer(v),
        None => EmbedStep::Infer { text: head.to_owned(), key },
    }
}

/// Ends what `embed_one` left to the model: a vector is kept under `key` and given back, and a failure
/// is handed on and leaves the cache alone.
pub fn embed_inferred<E>(cache: &mut Lru, key: String, outcome: Result<Vec<i32>, E>) -> (r: Result<
    Vec<i32>,
    E,
>)
    requires
        old(cache).wf(),
        outcome is Ok && old(cache)@.cap > 0 ==> old(cache)@.tick < u64::MAX,
    ensures
        final(cache).wf(),
        match outcome {
            Ok(v) => {
                &&& final(cache)@ == old(cache)@.after_put(key@, v@)
                &&& r matches Ok(w) && w@ == v@
            },
            Err(e) => final(cache)@ == old(cache)@ && r == Err::<Vec<i32>, E>(e),
        },
{
    match outcome {
        Ok(v) => {
            let kept: Vec<i32> = v.clone();
            assert(kept@ =~= v@);
            cache.put(key, kept);
            Ok(v)
        },
        Err(e) => Err(e),
    }
}

/// How the embedding of a batch goes on.
pub enum ManyStep<E> {
    /// The text numbered `index` is next; the vectors of those before it are in `done`.
    Embed { index: usize, done: Vec<Vec<i32>> },
    /// These are the vectors of all the texts, in their order.
    Done(Vec<Vec<i32>>),
    /// A text failed, and that is the end of it.
    Failed(E),
}

/// Whether a batch of `total` texts of which the first have the vectors `done` goes on as `step` says: with
/// the text after those, or with nothing where there is none.
pub open spec fn goes_on<E>(step: ManyStep<E>, total: nat, done: Seq<Vec<i32>>) -> bool {
    if done.len() < total {
        step matches ManyStep::Embed { index, done: d } && index == done.len() && d@ == done
    } else {
        step matches ManyStep::Done(d) && d@ == done
    }
}

/// Goes on with a batch of `total` texts, which are embedded one by one, in their order. Those before the
/// current one have the vectors `done`; `outcome` is what came of the current one, and `None` where none has
/// been embedded yet. The first that fails ends it, and no text after it is embedded.
pub fn embed_many<E>(
    total: usize,
    done: Vec<Vec<i32>>,
    outcome: Option<Result<Vec<i32>, E>>,
) -> (r: ManyStep<E>)
    requires
        outcome is None ==> done@.len() <= total,
        outcome is Some ==> done@.len() < total,
    ensures
        match outcome {
            None => goes_on(r, total as nat, done@),
            Some(Ok(v)) => goes_on(r, total as nat, done@.push(v)),
            Some(Err(e)) => r == ManyStep::Failed(e),
        },
        outcome is None && done@.len() < total ==> (r matches ManyStep::Embed { index, done: d }
            && index == done@.len() && d@ == done@),
        outcome is None && done@.len() == total ==> (r matches ManyStep::Done(d) && d@ == done@),
        outcome matches Some(Ok(v)) ==> {
            &&& done@.len() + 1 < total ==> (r matches ManyStep::Embed { index, done: d } && index
                == done@.len() + 1 && d@ == done@.push(v))
            &&& done@.len() + 1 == total ==> (r matches ManyStep::Done(d) && d@ == done@.push(v))
        },
{
    let mut done: Vec<Vec<i32>> = done;
    match outcome {
        None => {},
        Some(Ok(v)) => {
            done.push(v);
        },
        Some(Err(e)) => {
            return ManyStep::Failed(e);
        },
    }
    if done.len() < total {
        ManyStep::Embed { index: done.len(), done }
    } else {
        ManyStep::Done(done)
    }
}

/// How many texts of a batch are embedded, and what comes of it, where `outcomes` tells what comes of each
/// text and the first have the vectors `done`.
pub open spec fn batch_run<E>(
    total: nat,
    outcomes: spec_fn(nat) -> Result<Vec<i32>, E>,
    done: Seq<Vec<i32>>,
) -> (nat, Result<Seq<Vec<i32>>, E>)
    decreases total - done.len(),
{
    if done.len() >= total {
        (done.len(), Ok(done))
    } else {
        match outcomes(done.len()) {
            Ok(v) => batch_run(total, outcomes, done.push(v)),
            Err(e) => (done.len() + 1, Err(e)),
        }
    }
}

/// Where no text of a batch fails, each is embedded and the vectors come in the order of the texts; an empty
/// batch has none.
pub proof fn law_a_batch_without_failure_has_every_vector<E>(
    total: nat,
    outcomes: spec_fn(nat) -> Result<Vec<i32>, E>,
    done: Seq<Vec<i32>>,
)
    requires
        done.len() <= total,
        forall|i: nat| i < done.len() ==> #[trigger] outcomes(i) == Ok::<Vec<i32>, E>(done[i as int]),
        forall|i: nat| i < total ==> #[trigger] outcomes(i) is Ok,
    ensures
        batch_run(total, outcomes, done) == (
            total,
            Ok::<Seq<Vec<i32>>, E>(Seq::new(total, |i: int| outcomes(i as nat)->Ok_0)),
        ),
    decreases total - done.len(),
{
    if done.len() == total {
        assert forall|i: int| 0 <= i < total implies done[i] == outcomes(i as nat)->Ok_0 by {
            assert(outcomes(i as nat) == Ok::<Vec<i32>, E>(done[i]));
        }
        assert(done =~= Seq::new(total, |i: int| outcomes(i as nat)->Ok_0));
    } else {
        let next = done.push(outcomes(done.len())->Ok_0);
        assert forall|i: nat| i < next.len() implies #[trigger] outcomes(i) == Ok::<Vec<i32>, E>(
            next[i as int],
        ) by {}
        law_a_batch_without_failure_has_every_vector(total, outcomes, next);
    }
}

/// Where a text of a batch fails, the first failure is what comes of it, and no text after that one is
/// embedded.
pub proof fn law_a_batch_stops_at_its_first_failure<E>(
    total: nat,
    outcomes: spec_fn(nat) -> Result<Vec<i32>, E>,
    done: Seq<Vec<i32>>,
    n: nat,
)
    requires
        done.len() <= n < total,
        forall|i: nat| i < n ==> #[trigger] outcomes(i) is Ok,
        outcomes(n) is Err,
    ensures
        batch_run(total, outcomes, done) == (
            n + 1,
            Err::<Seq<Vec<i32>>, E>(outcomes(n)->Err_0),
        ),
    decreases n - done.len(),
{
    if done.len() < n {
        assert(outcomes(done.len()) is Ok);
        law_a_batch_stops_at_its_first_failure(
            total,
            outcomes,
            done.push(outcomes(done.len())->Ok_0),
            n,
        );
    }
}

/// The steps of a batch are the steps of its run: what `embed_many` answers to the outcome of the text that
/// is next leaves the run where it was.
pub proof fn law_a_step_keeps_the_run<E>(
    total: nat,
    outcomes: spec_fn(nat) -> Result<Vec<i32>, E>,
    done: Seq<Vec<i32>>,
    step: ManyStep<E>,
)
    requires
        done.len() < total,
        match outcomes(done.len()) {
            Ok(v) => goes_on(step, total, done.push(v)),
            Err(e) => step == ManyStep::<E>::Failed(e),
        },
    ensures
        batch_run(total, outcomes, done) == (match step {
            ManyStep::Embed { done: d, .. } => batch_run(total, outcomes, d@),
            ManyStep::Done(d) => (total, Ok::<Seq<Vec<i32>>, E>(d@)),
            ManyStep::Failed(e) => (done.len() + 1, Err::<Seq<Vec<i32>>, E>(e)),
        }),
{
    reveal_with_fuel(batch_run, 2);
}

/// A model: the vector that it gives for a text.
pub type Model = spec_fn(Seq<char>) -> Seq<i32>;

/// The vector of a text by a model, on its own and with no cache: zeros for a blank one, else what the
/// model gives for the characters that count.
pub open spec fn vector_of(model: Model, max_chars: nat, text: Seq<char>) -> Seq<i32> {
    if blank(text) {
        zeros()
    } else {
        model(cut(text, max_chars))
    }
}

/// What comes of embedding `text`, step by step: the cache afterwards and the vector.
pub open spec fn embedded(cache: Contents, model: Model, max_chars: nat, text: Seq<char>) -> (
    Contents,
    Seq<i32>,
) {
    let head = cut(text, max_chars);
    if blank(text) {
        (cache, zeros())
    } else {
        match cache.found(key_of(head)) {
            Some(v) => (cache.after_get(key_of(head)), v),
            None => (
                cache.after_get(key_of(head)).after_put(key_of(head), model(head)),
                model(head),
            ),
        }
    }
}

/// What `embed_one` begins and `embed_inferred` ends is the embedding of the text: an answer is given as it
/// is, and what is left to the model is kept and given as the model has it.
pub proof fn law_the_steps_embed_the_text(
    cache: Contents,
    model: Model,
    max_chars: nat,
    text: Seq<char>,
)
    ensures
        embedded(cache, model, max_chars, text) == (match begin(cache, max_chars, text) {
            (after, Begun::Answer(v)) => (after, v),
            (after, Begun::Infer { text: t, key: k }) => (after.after_put(k, model(t)), model(t)),
        }),
{
}

/// What comes of embedding the texts of a batch, in order.
pub open spec fn embedded_all(
    cache: Contents,
    model: Model,
    max_chars: nat,
    texts: Seq<Seq<char>>,
) -> (Contents, Seq<Seq<i32>>)
    decreases texts.len(),
{
    if texts.len() == 0 {
        (cache, Seq::empty())
    } else {
        let before = embedded_all(cache, model, max_chars, texts.drop_last());
        let last = embedded(before.0, model, max_chars, texts.last());
        (last.0, before.1.push(last.1))
    }
}

proof fn lemma_embedded_one_by_one(
    cache: Contents,
    model: Model,
    max_chars: nat,
    texts: Seq<Seq<char>>,
    i: int,
)
    requires
        0 <= i < texts.len(),
    ensures
        embedded_all(cache, model, max_chars, texts).1.len() == texts.len(),
        embedded_all(cache, model, max_chars, texts).1[i] == embedded(
            embedded_all(cache, model, max_chars, texts.take(i)).0,
            model,
            max_chars,
            texts[i],
        ).1,
    decreases texts.len(),
{
    let init = texts.drop_last();
    if init.len() > 0 {
        lemma_embedded_one_by_one(cache, model, max_chars, init, 0);
    }
    assert(embedded_all(cache, model, max_chars, init).1.len() == init.len());
    if i < init.len() {
        lemma_embedded_one_by_one(cache, model, max_chars, init, i);
        assert(init.take(i) =~= texts.take(i));
    } else {
        assert(texts.take(i) =~= init);
    }
}

/// A batch of which each text is embedded with the cache that those before it have left gives the vectors
/// of all of them.
pub proof fn law_a_batch_embeds_every_text<E>(
    cache: Contents,
    model: Model,
    max_chars: nat,
    texts: Seq<Seq<char>>,
    outcomes: spec_fn(nat) -> Result<Vec<i32>, E>,
)
    requires
        forall|i: nat|
            i < texts.len() ==> #[trigger] outcomes(i) is Ok && outcomes(i)->Ok_0@ == embedded(
                embedded_all(cache, model, max_chars, texts.take(i as int)).0,
                model,
                max_chars,
                texts[i as int],
            ).1,
    ensures
        batch_run(texts.len(), outcomes, Seq::empty()).0 == texts.len(),
        batch_run(texts.len(), outcomes, Seq::empty()).1 is Ok,
        batch_run(texts.len(), outcomes, Seq::empty()).1->Ok_0.map_values(|v: Vec<i32>| v@)
            == embedded_all(cache, model, max_chars, texts).1,
{
    law_a_batch_without_failure_has_every_vector(texts.len(), outcomes, Seq::empty());
    let vectors = batch_run(texts.len(), outcomes, Seq::empty()).1->Ok_0.map_values(
        |v: Vec<i32>| v@,
    );
    let all = embedded_all(cache, model, max_chars, texts).1;
    if texts.len() > 0 {
        lemma_embedded_one_by_one(cache, model, max_chars, texts, 0);
    }
    assert forall|i: int| 0 <= i < texts.len() implies vectors[i] == all[i] by {
        lemma_embedded_one_by_one(cache, model, max_chars, texts, i);
        assert(outcomes(i as nat) is Ok);
    }
    assert(vectors =~= all);
}

/// Everything in the cache is what the model gave for one of the texts `seen`.
pub open spec fn faithful(cache: Contents, model: Model, seen: Set<Seq<char>>) -> bool {
    forall|k: Seq<char>|
        #![trigger cache.entries.contains_key(k)]
        cache.entries.contains_key(k) ==> stems_from(cache.entries[k], k, model, seen)
}

/// An entry is what the model gave for one of the texts `seen`, under that text's key.
pub open spec fn stems_from(
    entry: Stamped,
    key: Seq<char>,
    model: Model,
    seen: Set<Seq<char>>,
) -> bool {
    exists|t: Seq<char>|
        #![trigger seen.contains(t)]
        seen.contains(t) && key_of(t) == key && entry.vector == model(t)
}

/// No two of the texts share a key.
pub open spec fn keys_distinct(seen: Set<Seq<char>>) -> bool {
    forall|a: Seq<char>, b: Seq<char>|
        #![trigger seen.contains(a), seen.contains(b)]
        seen.contains(a) && seen.contains(b) && key_of(a) == key_of(b) ==> a == b
}

/// An empty cache is faithful to any model.
pub proof fn law_empty_cache_is_faithful(cap: nat, model: Model, seen: Set<Seq<char>>)
    ensures
        faithful(Contents { entries: Map::empty(), tick: 0, cap }, model, seen),
{
}

/// The cache decides nothing about vectors: whatever it holds, and whatever it has forgotten, a text
/// has the vector that the model gives for it, and the cache stays faithful to the model. That is so
/// as long as no two texts of those that are embedded share a key.
pub proof fn law_cache_is_transparent(
    cache: Contents,
    model: Model,
    max_chars: nat,
    text: Seq<char>,
    seen: Set<Seq<char>>,
)
    requires
        cache.valid(),
        faithful(cache, model, seen),
        keys_distinct(seen),
        !blank(text) ==> seen.contains(cut(text, max_chars)),
    ensures
        embedded(cache, model, max_chars, text).1 == vector_of(model, max_chars, text),
        embedded(cache, model, max_chars, text).0.valid(),
        faithful(embedded(cache, model, max_chars, text).0, model, seen),
{
    if !blank(text) {
        let head = cut(text, max_chars);
        let key = key_of(head);
        let looked = cache.after_get(key);
        law_operations_keep_contents_valid(cache, key, model(head));
        law_operations_keep_contents_valid(looked, key, model(head));
        assert forall|k: Seq<char>|
            #![trigger looked.entries.contains_key(k)]
            looked.entries.contains_key(k) implies stems_from(
            looked.entries[k],
            k,
            model,
            seen,
        ) by {
            assert(cache.entries.contains_key(k));
            law_get_keeps_every_vector(cache, key, k);
            let t = choose|t: Seq<char>|
                #![trigger seen.contains(t)]
                seen.contains(t) && key_of(t) == k && cache.entries[k].vector == model(t);
            assert(seen.contains(t));
        }
        if cache.found(key) is Some {
            assert(cache.entries.contains_key(key));
            let t = choose|t: Seq<char>|
                #![trigger seen.contains(t)]
                seen.contains(t) && key_of(t) == key && cache.entries[key].vector == model(t);
            assert(seen.contains(t) && seen.contains(head));
        } else {
            let put = looked.after_put(key, model(head));
            assert forall|k: Seq<char>|
                #![trigger put.entries.contains_key(k)]
                put.entries.contains_key(k) implies stems_from(put.entries[k], k, model, seen) by {
                if put.entries[k].vector == model(head) && k == key {
                    assert(seen.contains(head));
                } else {
                    assert(looked.entries.contains_key(k));
                    assert(put.entries[k] == looked.entries[k]);
                }
            }
        }
    }
}

/// A text has the same vector in a batch as on its own: each vector of a batch, whatever the cache
/// held before, is the one that the model gives for that text.
pub proof fn law_batch_gives_each_text_its_own_vector(
    cache: Contents,
    model: Model,
    max_chars: nat,
    texts: Seq<Seq<char>>,
    seen: Set<Seq<char>>,
)
    requires
        cache.valid(),
        faithful(cache, model, seen),
        keys_distinct(seen),
        forall|i: int|
            0 <= i < texts.len() && !blank(texts[i]) ==> seen.contains(
                cut(#[trigger] texts[i], max_chars),
            ),
    ensures
        embedded_all(cache, model, max_chars, texts).1 == texts.map_values(
            |t: Seq<char>| vector_of(model, max_chars, t),
        ),
        embedded_all(cache, model, max_chars, texts).0.valid(),
        faithful(embedded_all(cache, model, max_chars, texts).0, model, seen),
    decreases texts.len(),
{
    let all = embedded_all(cache, model, max_chars, texts);
    let each = texts.map_values(|t: Seq<char>| vector_of(model, max_chars, t));
    if texts.len() > 0 {
        let init = texts.drop_last();
        assert forall|i: int| 0 <= i < init.len() && !blank(init[i]) implies seen.contains(
            cut(#[trigger] init[i], max_chars),
        ) by {
            assert(init[i] == texts[i]);
        }
        law_batch_gives_each_text_its_own_vector(cache, model, max_chars, init, seen);
        let before = embedded_all(cache, model, max_chars, init);
        assert(texts[texts.len() - 1] == texts.last());
        law_cache_is_transparent(before.0, model, max_chars, texts.last(), seen);
        assert(all.1 =~= each);
    } else {
        assert(all.1 =~= each);
    }
}

/// A text that is not blank reaches the model as it is, up to the characters that count: one that the cache does
/// not know and that has no more than `max_chars` characters is handed on whole, and of a longer one the first
/// `max_chars` characters are. What the model gives for that is the text's vector.
pub proof fn law_a_text_reaches_the_model_whole(
    cache: Contents,
    model: Model,
    max_chars: nat,
    text: Seq<char>,
    i: int,
)
    requires
        0 <= i < text.len(),
        !white_space(text[i]),
    ensures
        ({
            let head = if text.len() <= max_chars {
                text
            } else {
                text.take(max_chars as int)
            };
            &&& vector_of(model, max_chars, text) == model(head)
            &&& !cache.entries.contains_key(key_of(head)) ==> {
                &&& begin(cache, max_chars, text).1 == (Begun::Infer {
                    text: head,
                    key: key_of(head),
                })
                &&& embedded(cache, model, max_chars, text).1 == model(head)
            }
            &&& cache.entries.contains_key(key_of(head)) ==> {
                &&& begin(cache, max_chars, text).1 == Begun::Answer(
                    cache.entries[key_of(head)].vector,
                )
                &&& embedded(cache, model, max_chars, text).1
                    == cache.entries[key_of(head)].vector
            }
        }),
{
    assert(!blank(text));
}

/// A text that was embedded is known from then on: embedding it again gives the same vector, whatever model is
/// there, and asks it nothing.
pub proof fn law_an_embedded_text_is_known(
    cache: Contents,
    model: Model,
    other: Model,
    max_chars: nat,
    text: Seq<char>,
)
    requires
        cache.valid(),
        cache.cap > 0,
    ensures
        ({
            let (after, vector) = embedded(cache, model, max_chars, text);
            &&& begin(after, max_chars, text).1 == Begun::Answer(vector)
            &&& embedded(after, other, max_chars, text).1 == vector
        }),
{
    if !blank(text) {
        let key = key_of(cut(text, max_chars));
        law_operations_keep_contents_valid(cache, key, model(cut(text, max_chars)));
        law_get_keeps_every_vector(cache, key, key);
        law_put_is_read_back(cache.after_get(key), key, model(cut(text, max_chars)));
    }
}

/// A blank text has the zero vector, whatever the model and the cache, and leaves the cache as it is.
pub proof fn law_blank_text_is_the_zero_vector(
    cache: Contents,
    model: Model,
    max_chars: nat,
    text: Seq<char>,
)
    requires
        blank(text),
    ensures
        embedded(cache, model, max_chars, text) == (cache, zeros()),
        vector_of(model, max_chars, text) == zeros(),
{
}

/// Texts that agree on the characters that count have the same vector.
pub proof fn law_only_the_first_characters_count(
    model: Model,
    max_chars: nat,
    a: Seq<char>,
    b: Seq<char>,
)
    requires
        cut(a, max_chars) == cut(b, max_chars),
        !blank(a),
        !blank(b),
    ensures
        vector_of(model, max_chars, a) == vector_of(model, max_chars, b),
{
}

} // verus!
