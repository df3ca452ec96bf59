//! Whether a batch of texts is embedded: it is held to a number of texts and to a number of tokens.

use crate::config::Config;
use crate::failure::AppErr;
use crate::number::{decimal, decimal_of};
use crate::text::{blank, is_blank, white_space};
use crate::tokens::{
    capped_sum, law_blank_texts_cost_nothing, law_every_text_counts, may_count, saturated, texts_of,
};
use vstd::prelude::*;
use vstd::string::*;

verus! {

/// How a batch goes on.
pub enum BatchStep {
    /// Its tokens are to be counted.
    Count,
    /// Its texts are to be embedded.
    Embed,
    /// It is refused, and this is the answer.
    Refuse(AppErr),
}

/// Whether every text is blank.
pub open spec fn all_blank(texts: Seq<Seq<char>>) -> bool {
    forall|i: int| 0 <= i < texts.len() ==> blank(#[trigger] texts[i])
}

/// What a batch with too many texts is answered.
pub open spec fn too_many_texts(max_batch: nat) -> Seq<char> {
    "too many texts (max "@ + decimal_of(max_batch) + ")"@
}

/// What a batch with too many tokens is answered.
pub open spec fn too_many_tokens(total: nat, texts: nat, max_request_tokens: nat) -> Seq<char> {
    "batch too large: "@ + decimal_of(total) + " tokens across "@ + decimal_of(texts)
        + " texts (max "@ + decimal_of(max_request_tokens) + " in total)"@
}

/// What a batch of `texts` texts is told when it comes in, where that is too many.
pub open spec fn refused_on_receipt(cfg: Config, texts: nat) -> Option<Seq<char>> {
    if texts > cfg.max_batch {
        Some(too_many_texts(cfg.max_batch as nat))
    } else {
        None
    }
}

/// What a batch of `texts` texts is told when its tokens are counted, where they are too many.
pub open spec fn refused_on_count(cfg: Config, texts: nat, total: nat) -> Option<Seq<char>> {
    if total > cfg.max_request_tokens {
        Some(too_many_tokens(total, texts, cfg.max_request_tokens as nat))
    } else {
        None
    }
}

/// Whether the step refuses a batch as too large, in these words.
pub open spec fn refuses(step: BatchStep, detail: Seq<char>) -> bool {
    step matches BatchStep::Refuse(answer) && answer.status == 413 && answer.detail@ == detail
}

fn only_blank(texts: &Vec<String>) -> (r: bool)
    ensures
        r == all_blank(texts_of(texts@)),
        r <==> (forall|i: int, j: int|
            0 <= i < texts@.len() && 0 <= j < texts@[i]@.len() ==> white_space(
                #[trigger] texts@[i]@[j],
            )),
{
    let mut i: usize = 0;
    while i < texts.len()
        invariant
            i <= texts@.len(),
            forall|j: int| 0 <= j < i ==> blank(#[trigger] texts_of(texts@)[j]),
        decreases texts.len() - i,
    {
        if !is_blank(texts[i].as_str()) {
            proof {
                let text = texts@[i as int]@;
                assert(texts_of(texts@)[i as int] == text);
                let j = choose|j: int| 0 <= j < text.len() && !white_space(#[trigger] text[j]);
                assert(!white_space(texts@[i as int]@[j]));
            }
            return false;
        }
        i = i + 1;
    }
    proof {
        assert forall|i: int, j: int|
            0 <= i < texts@.len() && 0 <= j < texts@[i]@.len() implies white_space(
            #[trigger] texts@[i]@[j],
        ) by {
            assert(blank(texts_of(texts@)[i]));
        }
    }
    true
}

/// A batch has come in. More texts than `max_batch` are refused. The tokens of the others are counted,
/// which takes the model's tokenizer; a batch of blank texts has none, and needs no model at all.
pub fn batch_received(cfg: &Config, texts: &Vec<String>) -> (r: BatchStep)
    ensures
        match refused_on_receipt(*cfg, texts@.len()) {
            Some(detail) => refuses(r, detail),
            None => if all_blank(texts_of(texts@)) {
                r is Embed
            } else {
                r is Count
            },
        },
        texts@.len() > cfg.max_batch ==> (r matches BatchStep::Refuse(answer) && answer.status == 413
            && answer.detail@ == "too many texts (max "@ + decimal_of(cfg.max_batch as nat) + ")"@),
        texts@.len() <= cfg.max_batch ==> {
            let nothing = forall|i: int, j: int|
                0 <= i < texts@.len() && 0 <= j < texts@[i]@.len() ==> white_space(
                    #[trigger] texts@[i]@[j],
                );
            &&& r is Embed <==> nothing
            &&& r is Count <==> !nothing
        },
{
    if texts.len() > cfg.max_batch {
        let mut detail: String = "too many texts (max ".to_owned();
        detail.append(decimal(cfg.max_batch as u64).as_str());
        detail.append(")");
        return BatchStep::Refuse(AppErr { status: 413, detail });
    }
    if only_blank(texts) {
        BatchStep::Embed
    } else {
        BatchStep::Count
    }
}

/// The tokens of a batch of `texts` texts were counted. More than `max_request_tokens` are refused.
pub fn batch_counted(cfg: &Config, texts: usize, total: usize) -> (r: BatchStep)
    ensures
        match refused_on_count(*cfg, texts as nat, total as nat) {
            Some(detail) => refuses(r, detail),
            None => r is Embed,
        },
        total <= cfg.max_request_tokens ==> r is Embed,
        total > cfg.max_request_tokens ==> (r matches BatchStep::Refuse(answer) && answer.status == 413
            && answer.detail@ == "batch too large: "@ + decimal_of(total as nat)
            + " tokens across "@ + decimal_of(texts as nat) + " texts (max "@ + decimal_of(
            cfg.max_request_tokens as nat,
        ) + " in total)"@),
{
    if total > cfg.max_request_tokens {
        let mut detail: String = "batch too large: ".to_owned();
        detail.append(decimal(total as u64).as_str());
        detail.append(" tokens across ");
        detail.append(decimal(texts as u64).as_str());
        detail.append(" texts (max ");
        detail.append(decimal(cfg.max_request_tokens as u64).as_str());
        detail.append(" in total)");
        return BatchStep::Refuse(AppErr { status: 413, detail });
    }
    BatchStep::Embed
}

/// Whether a batch of these texts, whose tokens were counted so, gets as far as being embedded: it is not
/// refused when it comes in, nor, where its tokens are counted, after that.
pub open spec fn embeds(cfg: Config, texts: Seq<Seq<char>>, lens: Seq<nat>) -> bool {
    let total = saturated(capped_sum(lens, cfg.max_tokens as nat));
    &&& refused_on_receipt(cfg, texts.len()) is None
    &&& all_blank(texts) || refused_on_count(cfg, texts.len(), total) is None
}

/// A batch is held to both limits and to no other: it is refused when it comes in exactly where it has more texts
/// than a request may have, and when its tokens are counted exactly where they are more than a request may have.
pub proof fn law_a_batch_is_refused_only_beyond_its_limits(cfg: Config, texts: nat, total: nat)
    ensures
        refused_on_receipt(cfg, texts) is Some <==> texts > cfg.max_batch,
        refused_on_count(cfg, texts, total) is Some <==> total > cfg.max_request_tokens,
{
}

/// One more text that is not blank can only take a batch out of its limits, and by its own tokens alone: a batch
/// with room for one text more and for that text's tokens is embedded with it.
pub proof fn law_a_text_that_fits_is_taken_in(
    cfg: Config,
    texts: Seq<Seq<char>>,
    text: Seq<char>,
    lens: Seq<nat>,
    len: nat,
)
    requires
        cfg.bounded(),
        embeds(cfg, texts, lens),
        texts.len() + 1 <= cfg.max_batch,
        capped_sum(lens, cfg.max_tokens as nat) + (if len < cfg.max_tokens {
            len
        } else {
            cfg.max_tokens as nat
        }) <= cfg.max_request_tokens,
    ensures
        embeds(cfg, texts.push(text), lens.push(len)),
{
    law_every_text_counts(lens, len, cfg.max_tokens as nat);
}

/// A batch is embedded exactly when it has no more texts and no more tokens than a request may have,
/// whatever counts the tokenizer gave: leaving out the count of blank texts admits nothing more.
pub proof fn law_a_batch_within_its_limits_is_embedded(
    cfg: Config,
    file: Seq<u8>,
    cap: nat,
    texts: Seq<Seq<char>>,
    lens: Seq<nat>,
)
    requires
        cfg.bounded(),
        may_count(file, cap, texts, cfg.max_chars as nat, lens),
    ensures
        embeds(cfg, texts, lens) <==> {
            &&& texts.len() <= cfg.max_batch
            &&& capped_sum(lens, cfg.max_tokens as nat) <= cfg.max_request_tokens
        },
{
    if all_blank(texts) {
        law_blank_texts_cost_nothing(
            file,
            cap,
            texts,
            cfg.max_chars as nat,
            lens,
            cfg.max_tokens as nat,
        );
    }
}

} // verus!
