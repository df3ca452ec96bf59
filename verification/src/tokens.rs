//! What the tokenizer makes of a text, and what a batch of texts costs in tokens.

use crate::shape::{check_file, safe_file};
use crate::text::{blank, cut, is_blank, take_chars, white_space};
use tokenizers::{PostProcessor, Tokenizer, TruncationParams};
use vstd::prelude::*;
use vstd::string::*;
use vstd::utf8::*;

verus! {

/// A tokenizer of the `tokenizers` crate, as it stands in memory.
#[verifier::external_type_specification]
#[verifier::external_body]
pub struct ExTokenizer(Tokenizer);

/// The file that a tokenizer was read from.
pub uninterp spec fn tokenizer_file(tokenizer: Tokenizer) -> Seq<u8>;

/// The number of tokens that a tokenizer cuts a text to, where it cuts at all.
pub uninterp spec fn token_cap(tokenizer: Tokenizer) -> Option<nat>;

/// Whether a file can be read as a tokenizer.
pub uninterp spec fn readable(file: Seq<u8>) -> bool;

/// How many tokens of its own the tokenizer in a file adds to a single text.
pub uninterp spec fn added_tokens(file: Seq<u8>) -> nat;

/// The ids and the attention mask that a tokenizer gave for a text, or its complaint.
pub type Answer = Result<(Seq<u32>, Seq<u32>), Seq<char>>;

/// Whether a tokenizer read from `file` and cutting at `cap` tokens can give `answer` for `text`. There may
/// be more than one: which of two added tokens that look alike once they are normalized is found depends on
/// the order in which a hash map is walked.
pub uninterp spec fn may_encode(file: Seq<u8>, cap: nat, text: Seq<char>, answer: Answer) -> bool;

/// `Tokenizer::from_bytes`: reads a tokenizer from the text of its file, or complains. Which of the two
/// depends on the text alone and is left to the name `readable`; nothing is claimed of the complaint. There
/// are files on which it stops the program: one whose decoder is not well-formed, one with a precompiled
/// normalizer whose table cannot be read or leads outside itself, one with a pattern too large to compile.
/// The file must be one for which that is ruled out.
#[verifier::external_body]
fn read_tokenizer(file: &str) -> (r: Result<Tokenizer, String>)
    requires
        safe_file(encode_utf8(file@)),
    ensures
        match r {
            Ok(t) => readable(encode_utf8(file@)) && tokenizer_file(t) == encode_utf8(file@),
            Err(_) => !readable(encode_utf8(file@)),
        },
{
    Tokenizer::from_bytes(file).map_err(|e| format!("{e}"))
}

/// `PostProcessor::added_tokens` of a tokenizer's post-processor, for a single text; 0 where it has
/// no post-processor. That depends on the tokenizer's file alone.
#[verifier::external_body]
fn count_added_tokens(tokenizer: &Tokenizer) -> (r: usize)
    ensures
        r == added_tokens(tokenizer_file(*tokenizer)),
{
    tokenizer.get_post_processor().map_or(0, |p| p.added_tokens(false))
}

/// `Tokenizer::with_truncation` with the default direction, strategy and stride: from then on texts
/// are cut to `max_tokens` tokens, those that the tokenizer adds included. It subtracts the latter
/// from the former, so there must be room for them; with a stride of zero it does not fail.
#[verifier::external_body]
fn set_token_cap(tokenizer: &mut Tokenizer, max_tokens: usize)
    requires
        added_tokens(tokenizer_file(*old(tokenizer))) <= max_tokens,
    ensures
        tokenizer_file(*final(tokenizer)) == tokenizer_file(*old(tokenizer)),
        token_cap(*final(tokenizer)) == Some(max_tokens as nat),
{
    let _ = tokenizer.with_truncation(
        Some(TruncationParams { max_length: max_tokens, ..Default::default() }),
    );
}

/// The ids and the attention mask that the tokenizer gave for a text.
pub struct Tokens {
    pub ids: Vec<u32>,
    pub mask: Vec<u32>,
}

/// An outcome of tokenizing, by its views.
pub open spec fn answer_of(r: Result<Tokens, String>) -> Answer {
    match r {
        Ok(t) => Ok((t.ids@, t.mask@)),
        Err(e) => Err(e@),
    }
}

/// `Tokenizer::encode` of one text, with the tokens that the tokenizer adds. Of the answer it is claimed that
/// this tokenizer can give it for this text, that there are no more tokens than the cap allows, since the text
/// is cut to what the tokens that are added leave, and that the mask is as long as the ids. There are files on
/// which it stops the program: one whose template names a special token that is not defined or a second text,
/// one whose template comes behind another processor that hands it several texts, one with a precompiled
/// normalizer whose table leads outside itself, one with an added token that is empty once it is normalized.
/// The file must be one for which that is ruled out; such a file has no padding that adds to a single text.
#[verifier::external_body]
fn encode(tokenizer: &Tokenizer, text: &str) -> (r: Result<Tokens, String>)
    requires
        safe_file(tokenizer_file(*tokenizer)),
        token_cap(*tokenizer) is Some,
        added_tokens(tokenizer_file(*tokenizer)) <= token_cap(*tokenizer)->0,
    ensures
        may_encode(
            tokenizer_file(*tokenizer),
            token_cap(*tokenizer)->0,
            text@,
            answer_of(r),
        ),
        r matches Ok(t) ==> {
            &&& t.ids@.len() <= token_cap(*tokenizer)->0
            &&& t.mask@.len() == t.ids@.len()
        },
{
    let encoding = tokenizer.encode(text, true).map_err(|e| format!("{e}"))?;
    Ok(Tokens {
        ids: encoding.get_ids().to_vec(),
        mask: encoding.get_attention_mask().to_vec(),
    })
}

/// Why a tokenizer could not be made.
pub enum LoadError {
    /// The file is not well-formed, or has a part that could not be used safely.
    Unsupported,
    /// The file is no tokenizer.
    Malformed(String),
    /// The tokenizer adds more tokens of its own than a text may have.
    CapTooSmall { needed: usize },
}

/// A tokenizer that cuts what it is given to a number of tokens.
pub struct TextTokenizer {
    inner: Tokenizer,
}

impl TextTokenizer {
    /// The file is safe, and there is a cap, with room for the tokens that the tokenizer adds.
    #[verifier::type_invariant]
    spec fn ready(self) -> bool {
        &&& safe_file(tokenizer_file(self.inner))
        &&& token_cap(self.inner) is Some
        &&& added_tokens(tokenizer_file(self.inner)) <= token_cap(self.inner)->0
    }

    /// The file it was read from.
    pub closed spec fn file(self) -> Seq<u8> {
        tokenizer_file(self.inner)
    }

    /// The number of tokens that it cuts a text to.
    pub closed spec fn cap(self) -> nat {
        token_cap(self.inner)->0
    }

    /// The tokenizer in `file`, cutting at `max_tokens` tokens. The file ships no cut of its own, so
    /// this is where the cap on the memory of an inference is set.
    pub fn load(file: &str, max_tokens: usize) -> (r: Result<TextTokenizer, LoadError>)
        ensures
            match r {
                Ok(t) => {
                    &&& safe_file(encode_utf8(file@))
                    &&& readable(encode_utf8(file@))
                    &&& added_tokens(encode_utf8(file@)) <= max_tokens
                    &&& t.file() == encode_utf8(file@)
                    &&& t.cap() == max_tokens
                },
                Err(LoadError::Unsupported) => !safe_file(encode_utf8(file@)),
                Err(LoadError::Malformed(_)) => {
                    &&& safe_file(encode_utf8(file@))
                    &&& !readable(encode_utf8(file@))
                },
                Err(LoadError::CapTooSmall { needed }) => {
                    &&& safe_file(encode_utf8(file@))
                    &&& readable(encode_utf8(file@))
                    &&& added_tokens(encode_utf8(file@)) == needed
                    &&& needed > max_tokens
                },
            },
    {
        if !check_file(file.as_bytes()) {
            return Err(LoadError::Unsupported);
        }
        match read_tokenizer(file) {
            Err(e) => Err(LoadError::Malformed(e)),
            Ok(tokenizer) => {
                let mut inner: Tokenizer = tokenizer;
                let needed: usize = count_added_tokens(&inner);
                if needed > max_tokens {
                    return Err(LoadError::CapTooSmall { needed });
                }
                set_token_cap(&mut inner, max_tokens);
                Ok(TextTokenizer { inner })
            },
        }
    }

    /// The ids and the attention mask of `text`, or the tokenizer's complaint. A text that gives more tokens
    /// than the cap allows is cut to that number, and no complaint comes of it.
    pub fn tokens(&self, text: &str) -> (r: Result<Tokens, String>)
        ensures
            may_encode(self.file(), self.cap(), text@, answer_of(r)),
            r matches Ok(t) ==> {
                &&& may_encode(self.file(), self.cap(), text@, Ok((t.ids@, t.mask@)))
                &&& t.ids@.len() <= self.cap()
                &&& t.mask@.len() == t.ids@.len()
            },
            r matches Err(e) ==> may_encode(self.file(), self.cap(), text@, Err(e@)),
    {
        proof {
            use_type_invariant(self);
        }
        encode(&self.inner, text)
    }
}

/// The characters of each text.
pub open spec fn texts_of(texts: Seq<String>) -> Seq<Seq<char>> {
    texts.map_values(|t: String| t@)
}

/// Whether `lens` are token counts that `tokenizer` can give for `texts`: what is counted of a text
/// is what inference looks at, and a blank text, which needs none, counts nothing.
pub open spec fn may_count(
    file: Seq<u8>,
    cap: nat,
    texts: Seq<Seq<char>>,
    max_chars: nat,
    lens: Seq<nat>,
) -> bool {
    &&& lens.len() == texts.len()
    &&& forall|i: int|
        0 <= i < texts.len() ==> may_count_one(file, cap, texts[i], max_chars, #[trigger] lens[i])
}

/// Whether the tokenizer can give these ids and this attention mask for `text`.
pub open spec fn may_give(
    file: Seq<u8>,
    cap: nat,
    text: Seq<char>,
    ids: Seq<u32>,
    mask: Seq<u32>,
) -> bool {
    may_encode(file, cap, text, Ok((ids, mask)))
}

/// Whether `len` is a token count that the tokenizer can give for one text.
pub open spec fn may_count_one(
    file: Seq<u8>,
    cap: nat,
    text: Seq<char>,
    max_chars: nat,
    len: nat,
) -> bool {
    if blank(text) {
        len == 0
    } else {
        exists|ids: Seq<u32>, mask: Seq<u32>|
            #![trigger may_give(file, cap, cut(text, max_chars), ids, mask)]
            may_give(file, cap, cut(text, max_chars), ids, mask) && len == ids.len()
    }
}

/// Whether the tokenizer can give a count for one text.
pub open spec fn countable(file: Seq<u8>, cap: nat, text: Seq<char>, max_chars: nat) -> bool {
    exists|len: nat| may_count_one(file, cap, text, max_chars, len)
}

/// The sum of the counts, none of them counted beyond `max_tokens`.
pub open spec fn capped_sum(lens: Seq<nat>, max_tokens: nat) -> nat
    decreases lens.len(),
{
    if lens.len() == 0 {
        0
    } else {
        capped_sum(lens.drop_last(), max_tokens) + if lens.last() < max_tokens {
            lens.last()
        } else {
            max_tokens
        }
    }
}

/// `n`, or the largest `usize` where it is beyond that.
pub open spec fn saturated(n: nat) -> nat {
    if n <= usize::MAX {
        n
    } else {
        usize::MAX as nat
    }
}

/// Counts as mathematical numbers.
pub open spec fn nats(lens: Seq<usize>) -> Seq<nat> {
    lens.map_values(|n: usize| n as nat)
}

/// The sum of the counts, none of them counted beyond `max_tokens`; it saturates.
pub fn total_tokens(lens: &Vec<usize>, max_tokens: usize) -> (r: usize)
    ensures
        r == saturated(capped_sum(nats(lens@), max_tokens as nat)),
        capped_sum(nats(lens@), max_tokens as nat) <= usize::MAX ==> r == capped_sum(
            nats(lens@),
            max_tokens as nat,
        ),
        capped_sum(nats(lens@), max_tokens as nat) > usize::MAX ==> r == usize::MAX,
{
    let mut total: usize = 0;
    let mut i: usize = 0;
    while i < lens.len()
        invariant
            i <= lens@.len(),
            total == saturated(capped_sum(nats(lens@.take(i as int)), max_tokens as nat)),
        decreases lens.len() - i,
    {
        let n: usize = if lens[i] < max_tokens {
            lens[i]
        } else {
            max_tokens
        };
        proof {
            let next = nats(lens@.take(i + 1));
            assert(next.drop_last() =~= nats(lens@.take(i as int)));
            assert(next.last() == lens@[i as int]);
        }
        total = total.saturating_add(n);
        i = i + 1;
    }
    assert(lens@.take(lens@.len() as int) =~= lens@);
    total
}

/// What a batch costs in tokens: what the tokenizer makes of each text, capped per text as inference
/// caps it. Measured rather than estimated from the characters, since some of them give more than
/// one token each. The texts are taken in their order, and the first that the tokenizer complains of
/// ends it.
pub fn count_tokens(
    tokenizer: &TextTokenizer,
    texts: &Vec<String>,
    max_chars: usize,
    max_tokens: usize,
) -> (r: Result<usize, String>)
    ensures
        match r {
            Ok(total) => exists|lens: Seq<nat>|
                #![trigger may_count(
                    tokenizer.file(),
                    tokenizer.cap(),
                    texts_of(texts@),
                    max_chars as nat,
                    lens,
                )]
                may_count(
                    tokenizer.file(),
                    tokenizer.cap(),
                    texts_of(texts@),
                    max_chars as nat,
                    lens,
                ) && total == saturated(capped_sum(lens, max_tokens as nat)) && lens.len()
                    == texts@.len() && (forall|i: int|
                    0 <= i < texts@.len() ==> may_count_one(
                        tokenizer.file(),
                        tokenizer.cap(),
                        (#[trigger] texts@[i])@,
                        max_chars as nat,
                        lens[i],
                    )),
            Err(e) => exists|i: int|
                #![trigger texts@[i]]
                0 <= i < texts@.len() && !blank(texts@[i]@) && may_encode(
                    tokenizer.file(),
                    tokenizer.cap(),
                    cut(texts@[i]@, max_chars as nat),
                    Err(e@),
                ) && forall|j: int|
                    0 <= j < i ==> countable(
                        tokenizer.file(),
                        tokenizer.cap(),
                        (#[trigger] texts@[j])@,
                        max_chars as nat,
                    ),
        },
{
    let mut lens: Vec<usize> = Vec::new();
    let mut i: usize = 0;
    while i < texts.len()
        invariant
            i <= texts@.len(),
            may_count(
                tokenizer.file(),
                tokenizer.cap(),
                texts_of(texts@.take(i as int)),
                max_chars as nat,
                nats(lens@),
            ),
        decreases texts.len() - i,
    {
        let text: &String = &texts[i];
        let len: usize = if is_blank(text.as_str()) {
            0
        } else {
            match tokenizer.tokens(take_chars(text.as_str(), max_chars)) {
                Ok(tokens) => {
                    assert(may_give(
                        tokenizer.file(),
                        tokenizer.cap(),
                        cut(text@, max_chars as nat),
                        tokens.ids@,
                        tokens.mask@,
                    ));
                    tokens.ids.len()
                },
                Err(e) => {
                    proof {
                        let done = texts_of(texts@.take(i as int));
                        assert forall|j: int| 0 <= j < i implies countable(
                            tokenizer.file(),
                            tokenizer.cap(),
                            (#[trigger] texts@[j])@,
                            max_chars as nat,
                        ) by {
                            assert(done[j] == texts@[j]@);
                            assert(may_count_one(
                                tokenizer.file(),
                                tokenizer.cap(),
                                done[j],
                                max_chars as nat,
                                nats(lens@)[j],
                            ));
                        }
                        assert(text@ == texts@[i as int]@);
                    }
                    return Err(e);
                },
            }
        };
        assert(may_count_one(
            tokenizer.file(),
            tokenizer.cap(),
            text@,
            max_chars as nat,
            len as nat,
        ));
        let ghost before = nats(lens@);
        lens.push(len);
        proof {
            let done = texts_of(texts@.take(i + 1));
            assert(nats(lens@) =~= before.push(len as nat));
            assert forall|j: int| 0 <= j < done.len() implies may_count_one(
                tokenizer.file(),
                tokenizer.cap(),
                done[j],
                max_chars as nat,
                #[trigger] nats(lens@)[j],
            ) by {
                if j < i {
                    assert(done[j] == texts_of(texts@.take(i as int))[j]);
                    assert(nats(lens@)[j] == before[j]);
                }
            }
        }
        i = i + 1;
    }
    proof {
        assert(texts@.take(texts@.len() as int) =~= texts@);
        let counts = nats(lens@);
        assert forall|j: int| 0 <= j < texts@.len() implies may_count_one(
            tokenizer.file(),
            tokenizer.cap(),
            (#[trigger] texts@[j])@,
            max_chars as nat,
            counts[j],
        ) by {
            assert(texts_of(texts@)[j] == texts@[j]@);
        }
    }
    Ok(total_tokens(&lens, max_tokens))
}

/// Every text of a batch counts: one more text costs its own tokens, up to the cap, on top of what the others
/// cost, and no texts cost nothing.
pub proof fn law_every_text_counts(lens: Seq<nat>, n: nat, max_tokens: nat)
    ensures
        capped_sum(Seq::empty(), max_tokens) == 0,
        capped_sum(lens.push(n), max_tokens) == capped_sum(lens, max_tokens) + if n < max_tokens {
            n
        } else {
            max_tokens
        },
{
    assert(lens.push(n).drop_last() =~= lens);
}

/// What two batches cost together is what they cost one after the other.
pub proof fn law_batches_cost_their_sum(a: Seq<nat>, b: Seq<nat>, max_tokens: nat)
    ensures
        capped_sum(a + b, max_tokens) == capped_sum(a, max_tokens) + capped_sum(b, max_tokens),
    decreases b.len(),
{
    if b.len() == 0 {
        assert(a + b =~= a);
    } else {
        law_batches_cost_their_sum(a, b.drop_last(), max_tokens);
        assert((a + b).drop_last() =~= a + b.drop_last());
    }
}

/// What a batch costs is the sum over all its texts of their tokens, each held to the cap.
pub proof fn law_a_batch_costs_the_sum_of_its_texts(lens: Seq<nat>, max_tokens: nat)
    ensures
        capped_sum(lens, max_tokens) == lens.fold_left(
            0nat,
            |sum: nat, n: nat|
                sum + if n < max_tokens {
                    n
                } else {
                    max_tokens
                },
        ),
    decreases lens.len(),
{
    if lens.len() > 0 {
        law_a_batch_costs_the_sum_of_its_texts(lens.drop_last(), max_tokens);
    }
}

/// The count that is given is the cost itself, as long as it can be written as a `usize`, and the largest
/// `usize` otherwise.
pub proof fn law_a_count_saturates(n: nat)
    ensures
        n <= usize::MAX ==> saturated(n) == n,
        n > usize::MAX ==> saturated(n) == usize::MAX,
{
}

/// No text of a batch is passed over, and none is another than it was; nor is any count.
pub proof fn law_every_text_and_every_count_is_there(texts: Seq<String>, lens: Seq<usize>)
    ensures
        texts_of(texts).len() == texts.len(),
        forall|i: int| 0 <= i < texts.len() ==> #[trigger] texts_of(texts)[i] == texts[i]@,
        nats(lens).len() == lens.len(),
        forall|i: int| 0 <= i < lens.len() ==> #[trigger] nats(lens)[i] == lens[i],
{
}

/// What is counted of a text is what inference looks at: nothing of one that is white space throughout, and of
/// any other as many tokens as the tokenizer gives for the whole of it, or for its first `max_chars` characters
/// where it has more.
pub proof fn law_what_is_counted_is_what_inference_looks_at(
    file: Seq<u8>,
    cap: nat,
    text: Seq<char>,
    max_chars: nat,
    len: nat,
)
    ensures
        (forall|i: int| 0 <= i < text.len() ==> white_space(#[trigger] text[i])) ==> (may_count_one(
            file,
            cap,
            text,
            max_chars,
            len,
        ) <==> len == 0),
        (exists|i: int| 0 <= i < text.len() && !white_space(#[trigger] text[i])) && text.len()
            <= max_chars ==> (may_count_one(file, cap, text, max_chars, len) <==> exists|
            ids: Seq<u32>,
            mask: Seq<u32>,
        |
            #[trigger] may_encode(file, cap, text, Ok((ids, mask))) && len == ids.len()),
        (exists|i: int| 0 <= i < text.len() && !white_space(#[trigger] text[i])) && text.len()
            > max_chars ==> (may_count_one(file, cap, text, max_chars, len) <==> exists|
            ids: Seq<u32>,
            mask: Seq<u32>,
        |
            #[trigger] may_encode(file, cap, text.take(max_chars as int), Ok((ids, mask))) && len
                == ids.len()),
{
    let head = cut(text, max_chars);
    if exists|ids: Seq<u32>, mask: Seq<u32>|
        #[trigger] may_encode(file, cap, head, Ok((ids, mask))) && len == ids.len() {
        let (ids, mask) = choose|ids: Seq<u32>, mask: Seq<u32>|
            #[trigger] may_encode(file, cap, head, Ok((ids, mask))) && len == ids.len();
        assert(may_give(file, cap, head, ids, mask));
    }
    if !blank(text) && may_count_one(file, cap, text, max_chars, len) {
        let (ids, mask) = choose|ids: Seq<u32>, mask: Seq<u32>|
            #![trigger may_give(file, cap, head, ids, mask)]
            may_give(file, cap, head, ids, mask) && len == ids.len();
        assert(may_encode(file, cap, head, Ok((ids, mask))));
    }
}

/// A text can be counted exactly where there is a count that can be given for it.
pub proof fn law_a_text_is_countable_where_there_is_a_count(
    file: Seq<u8>,
    cap: nat,
    text: Seq<char>,
    max_chars: nat,
)
    ensures
        countable(file, cap, text, max_chars) <==> exists|len: nat|
            #[trigger] may_count_one(file, cap, text, max_chars, len),
        (forall|i: int| 0 <= i < text.len() ==> white_space(#[trigger] text[i])) ==> countable(
            file,
            cap,
            text,
            max_chars,
        ),
{
    if blank(text) {
        assert(may_count_one(file, cap, text, max_chars, 0));
    }
}

/// What a text costs never exceeds the cap, so a batch costs at most the cap for each of its texts.
pub proof fn law_batch_cost_is_bounded(lens: Seq<nat>, max_tokens: nat)
    ensures
        capped_sum(lens, max_tokens) <= lens.len() * max_tokens,
    decreases lens.len(),
{
    if lens.len() > 0 {
        law_batch_cost_is_bounded(lens.drop_last(), max_tokens);
        assert((lens.len() - 1) * max_tokens + max_tokens == lens.len() * max_tokens)
            by (nonlinear_arith);
    }
}

/// A batch of blank texts costs nothing.
pub proof fn law_blank_texts_cost_nothing(
    file: Seq<u8>,
    cap: nat,
    texts: Seq<Seq<char>>,
    max_chars: nat,
    lens: Seq<nat>,
    max_tokens: nat,
)
    requires
        may_count(file, cap, texts, max_chars, lens),
        forall|i: int| 0 <= i < texts.len() ==> blank(#[trigger] texts[i]),
    ensures
        capped_sum(lens, max_tokens) == 0,
    decreases lens.len(),
{
    if lens.len() > 0 {
        let n = lens.len() - 1;
        assert(may_count_one(file, cap, texts[n], max_chars, lens[n]));
        assert forall|i: int| 0 <= i < n implies may_count_one(
            file,
            cap,
            texts.drop_last()[i],
            max_chars,
            #[trigger] lens.drop_last()[i],
        ) by {
            assert(lens.drop_last()[i] == lens[i]);
        }
        assert forall|i: int| 0 <= i < n implies blank(#[trigger] texts.drop_last()[i]) by {
            assert(texts.drop_last()[i] == texts[i]);
        }
        law_blank_texts_cost_nothing(
            file,
            cap,
            texts.drop_last(),
            max_chars,
            lens.drop_last(),
            max_tokens,
        );
    }
}

/// What goes into the model for one text: the ids of its tokens and its attention mask, of the same
/// length.
pub struct ModelInput {
    pub ids: Vec<i64>,
    pub mask: Vec<i64>,
}

/// Numbers as mathematical integers.
pub open spec fn ints(s: Seq<i64>) -> Seq<int> {
    s.map_values(|n: i64| n as int)
}

/// Ids or a mask as mathematical integers.
pub open spec fn widened(s: Seq<u32>) -> Seq<int> {
    s.map_values(|n: u32| n as int)
}

fn widen(s: &Vec<u32>) -> (r: Vec<i64>)
    ensures
        ints(r@) == widened(s@),
        r@.len() == s@.len(),
        forall|i: int| 0 <= i < s@.len() ==> #[trigger] r@[i] as int == s@[i] as int,
{
    let mut r: Vec<i64> = Vec::new();
    let mut i: usize = 0;
    while i < s.len()
        invariant
            i <= s@.len(),
            r@.len() == i,
            forall|j: int| 0 <= j < i ==> r@[j] == #[trigger] s@[j],
        decreases s.len() - i,
    {
        r.push(s[i] as i64);
        i = i + 1;
    }
    assert(ints(r@) =~= widened(s@));
    r
}

/// What goes into the model for tokens that the tokenizer gave, or `None` where the mask does not fit
/// the ids.
pub fn model_input(tokens: &Tokens) -> (r: Option<ModelInput>)
    ensures
        match r {
            Some(input) => {
                &&& tokens.ids@.len() == tokens.mask@.len()
                &&& ints(input.ids@) == widened(tokens.ids@)
                &&& ints(input.mask@) == widened(tokens.mask@)
                &&& input.ids@.len() == tokens.ids@.len()
                &&& input.mask@.len() == tokens.mask@.len()
                &&& forall|i: int|
                    0 <= i < tokens.ids@.len() ==> #[trigger] input.ids@[i] as int
                        == tokens.ids@[i] as int
                &&& forall|i: int|
                    0 <= i < tokens.mask@.len() ==> #[trigger] input.mask@[i] as int
                        == tokens.mask@[i] as int
            },
            None => tokens.ids@.len() != tokens.mask@.len(),
        },
{
    if tokens.ids.len() != tokens.mask.len() {
        return None;
    }
    Some(ModelInput { ids: widen(&tokens.ids), mask: widen(&tokens.mask) })
}

/// The numbers that the model gets are the tokenizer's own, each in its place, though wider: the two are equal
/// exactly where they are as many and agree one by one.
pub proof fn law_the_model_gets_the_numbers_as_they_are(given: Seq<u32>, taken: Seq<i64>)
    ensures
        ints(taken) == widened(given) <==> {
            &&& taken.len() == given.len()
            &&& forall|i: int| 0 <= i < given.len() ==> #[trigger] taken[i] as int == given[i] as int
        },
        forall|i: int| 0 <= i < given.len() ==> #[trigger] widened(given)[i] == given[i] as int,
        forall|i: int| 0 <= i < taken.len() ==> #[trigger] ints(taken)[i] == taken[i] as int,
{
    if ints(taken) == widened(given) {
        assert(ints(taken).len() == widened(given).len());
        assert forall|i: int| 0 <= i < given.len() implies #[trigger] taken[i] as int
            == given[i] as int by {
            assert(ints(taken)[i] == widened(given)[i]);
        }
    } else if taken.len() == given.len() && forall|i: int|
        0 <= i < given.len() ==> #[trigger] taken[i] as int == given[i] as int {
        assert(ints(taken) =~= widened(given));
    }
}

} // verus!
