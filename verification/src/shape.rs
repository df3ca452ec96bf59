//! What a tokenizer file must look like for its tokenizer to be safe to use.
//!
//! The code that reads such a file, and the tokenizer that comes out of it, take some things for granted and
//! stop the program where they do not hold: that a decoder is well-formed, that the table of a precompiled
//! normalizer leads nowhere outside, that a template names only tokens that are defined. What is tested here
//! is enough for none of that to happen. It covers the files that SentencePiece models are converted to (a
//! unigram model, the normalizers and pre-tokenizers that go with it, a template for a single text) and
//! those of models that look words up; a part of any other kind is refused.

use crate::charsmap::{check_charsmap, sound_charsmap};
use crate::json::{
    at, fields, find_only, find_values, is_at, is_named, list_at, literal, named, object_at, only,
    read_fields, read_list, read_literal, read_object, same_bytes, skip, skip_string, skipped, spot,
    string_end, values_named, Member,
};
use vstd::prelude::*;
use vstd::string::*;

verus! {

/// The deepest nesting of lists and objects in a file.
pub const MAX_DEPTH: usize = 64;

/// A part of a tokenizer that changes or splits the text, and may be a sequence of such parts.
#[derive(Clone, Copy, PartialEq, Eq, Structural)]
pub enum Part {
    Normalizer,
    PreTokenizer,
}

impl Part {
    /// The member that lists the parts of a sequence.
    pub open spec fn list_name(self) -> Seq<char> {
        match self {
            Part::Normalizer => "normalizers"@,
            Part::PreTokenizer => "pretokenizers"@,
        }
    }
}

/// A precompiled normalizer has one table, and any text can be looked up in it.
pub open spec fn safe_precompiled(s: Seq<u8>, ms: Seq<Member>) -> bool {
    match only(s, ms, "precompiled_charsmap"@) {
        Some(v) => match literal(s, v) {
            Some(t) => sound_charsmap(t),
            None => false,
        },
        None => false,
    }
}

fn check_precompiled(s: &[u8], ms: &Vec<Member>) -> (r: bool)
    ensures
        r == safe_precompiled(s@, ms@),
        r <==> only(s@, ms@, "precompiled_charsmap"@) is Some && literal(
            s@,
            only(s@, ms@, "precompiled_charsmap"@)->0,
        ) is Some && sound_charsmap(literal(s@, only(s@, ms@, "precompiled_charsmap"@)->0)->0),
{
    match find_only(s, ms, "precompiled_charsmap") {
        Some(v) => match read_literal(s, v) {
            Some(t) => check_charsmap(t),
            None => false,
        },
        None => false,
    }
}

/// A replacing normalizer looks for spaces, so that it never matches the empty text and never removes
/// anything else.
pub open spec fn safe_replace(s: Seq<u8>, ms: Seq<Member>, depth: nat) -> bool {
    match only(s, ms, "pattern"@) {
        Some(v) => match fields(s, v, depth) {
            Some(ps) => ps.len() == 1 && ((named(s, ps[0].key as int, "Regex"@) && named(
                s,
                ps[0].value as int,
                " {2,}"@,
            )) || (named(s, ps[0].key as int, "String"@) && named(s, ps[0].value as int, " "@))),
            None => false,
        },
        None => false,
    }
}

fn check_replace(s: &[u8], ms: &Vec<Member>, depth: usize) -> (r: bool)
    ensures
        r == safe_replace(s@, ms@, depth as nat),
{
    match find_only(s, ms, "pattern") {
        Some(v) => match read_fields(s, v, depth) {
            Some(ps) => ps.len() == 1 && ((is_named(s, ps[0].key, "Regex") && is_named(
                s,
                ps[0].value,
                " {2,}",
            )) || (is_named(s, ps[0].key, "String") && is_named(s, ps[0].value, " "))),
            None => false,
        },
        None => false,
    }
}

/// Whether a member bears one of these names.
pub open spec fn among(
    s: Seq<u8>,
    m: Member,
    a: Seq<char>,
    b: Seq<char>,
    c: Seq<char>,
    d: Seq<char>,
    e: Seq<char>,
) -> bool {
    let key = m.key as int;
    named(s, key, a) || named(s, key, b) || named(s, key, c) || named(s, key, d) || named(s, key, e)
}

/// Whether each member bears one of these names.
pub open spec fn all_among(
    s: Seq<u8>,
    ms: Seq<Member>,
    a: Seq<char>,
    b: Seq<char>,
    c: Seq<char>,
    d: Seq<char>,
    e: Seq<char>,
) -> bool {
    forall|j: int| 0 <= j < ms.len() ==> among(s, #[trigger] ms[j], a, b, c, d, e)
}

fn are_among(s: &[u8], ms: &Vec<Member>, a: &str, b: &str, c: &str, d: &str, e: &str) -> (r: bool)
    ensures
        r == all_among(s@, ms@, a@, b@, c@, d@, e@),
        r <==> (forall|j: int|
            0 <= j < ms@.len() ==> {
                let key = (#[trigger] ms@[j]).key as int;
                named(s@, key, a@) || named(s@, key, b@) || named(s@, key, c@) || named(s@, key, d@)
                    || named(s@, key, e@)
            }),
{
    let mut k: usize = 0;
    while k < ms.len()
        invariant
            k <= ms@.len(),
            forall|j: int| 0 <= j < k ==> among(s@, #[trigger] ms@[j], a@, b@, c@, d@, e@),
        decreases ms.len() - k,
    {
        let key: usize = ms[k].key;
        if !(is_named(s, key, a) || is_named(s, key, b) || is_named(s, key, c) || is_named(s, key, d)
            || is_named(s, key, e)) {
            assert(!among(s@, ms@[k as int], a@, b@, c@, d@, e@));
            return false;
        }
        k = k + 1;
    }
    true
}

/// A normalizer of this kind is read by its members, whatever its type says, so it may have no others: with
/// them it could be taken for one of another kind.
pub open spec fn safe_bert(s: Seq<u8>, ms: Seq<Member>) -> bool {
    all_among(
        s,
        ms,
        "type"@,
        "clean_text"@,
        "handle_chinese_chars"@,
        "strip_accents"@,
        "lowercase"@,
    )
}

/// A part that is neither a sequence nor has a table, its members being `ms` and its type standing at `kind`.
pub open spec fn safe_single(s: Seq<u8>, ms: Seq<Member>, kind: int, depth: nat, part: Part) -> bool {
    match part {
        Part::Normalizer => {
            ||| named(s, kind, "Replace"@) && safe_replace(s, ms, depth)
            ||| named(s, kind, "Strip"@)
            ||| named(s, kind, "StripAccents"@)
            ||| named(s, kind, "Nmt"@)
            ||| named(s, kind, "NFD"@)
            ||| named(s, kind, "NFKD"@)
            ||| named(s, kind, "Lowercase"@)
            ||| named(s, kind, "BertNormalizer"@) && safe_bert(s, ms)
        },
        Part::PreTokenizer => {
            ||| named(s, kind, "Metaspace"@)
            ||| named(s, kind, "Whitespace"@)
            ||| named(s, kind, "WhitespaceSplit"@)
            ||| named(s, kind, "BertPreTokenizer"@)
            ||| named(s, kind, "Punctuation"@)
            ||| named(s, kind, "Digits"@)
        },
    }
}

fn check_single(s: &[u8], ms: &Vec<Member>, kind: usize, depth: usize, part: Part) -> (r: bool)
    ensures
        r == safe_single(s@, ms@, kind as int, depth as nat, part),
{
    match part {
        Part::Normalizer => {
            (is_named(s, kind, "Replace") && check_replace(s, ms, depth)) || is_named(s, kind, "Strip")
                || is_named(s, kind, "StripAccents") || is_named(s, kind, "Nmt") || is_named(
                s,
                kind,
                "NFD",
            ) || is_named(s, kind, "NFKD") || is_named(s, kind, "Lowercase") || (is_named(
                s,
                kind,
                "BertNormalizer",
            ) && are_among(
                s,
                ms,
                "type",
                "clean_text",
                "handle_chinese_chars",
                "strip_accents",
                "lowercase",
            ))
        },
        Part::PreTokenizer => {
            is_named(s, kind, "Metaspace") || is_named(s, kind, "Whitespace") || is_named(
                s,
                kind,
                "WhitespaceSplit",
            ) || is_named(s, kind, "BertPreTokenizer") || is_named(s, kind, "Punctuation") || is_named(
                s,
                kind,
                "Digits",
            )
        },
    }
}

/// Whether there has been a table once the part that begins at `i` is looked at, `seen` telling whether there
/// was one before it; `None` where the part is not safe. It is nothing, one of those above, a precompiled
/// normalizer or a sequence of such parts, and there is one table at most.
pub open spec fn safe_part(s: Seq<u8>, i: int, depth: nat, part: Part, seen: bool) -> Option<bool>
    decreases depth, 0int, 0int,
{
    if is_at(s, i, 0x6e) {
        Some(seen)
    } else if depth < 2 {
        None
    } else {
        match fields(s, i, depth) {
            None => None,
            Some(ms) => match only(s, ms, "type"@) {
                None => None,
                Some(kind) => if named(s, kind, "Sequence"@) {
                    match only(s, ms, part.list_name()) {
                        None => None,
                        Some(v) => match list_at(s, v, (depth - 1) as nat) {
                            None => None,
                            Some((es, _)) => safe_parts(s, es, 0, (depth - 2) as nat, part, seen),
                        },
                    }
                } else if part is Normalizer && named(s, kind, "Precompiled"@) {
                    if !seen && safe_precompiled(s, ms) {
                        Some(true)
                    } else {
                        None
                    }
                } else if safe_single(s, ms, kind, (depth - 1) as nat, part) {
                    Some(seen)
                } else {
                    None
                },
            },
        }
    }
}

/// The same of the parts that begin at these positions, from the one numbered `k` on.
pub open spec fn safe_parts(
    s: Seq<u8>,
    es: Seq<usize>,
    k: nat,
    depth: nat,
    part: Part,
    seen: bool,
) -> Option<bool>
    decreases depth, 1int, es.len() - k,
{
    if k >= es.len() {
        Some(seen)
    } else {
        match safe_part(s, es[k as int] as int, depth, part, seen) {
            Some(now) => safe_parts(s, es, k + 1, depth, part, now),
            None => None,
        }
    }
}

/// Every part of a sequence is looked at, in its turn: with one more part at its end, a sequence is safe exactly
/// where it was without it and that part is, given whether there has been a table before it.
pub proof fn law_every_part_of_a_sequence_is_looked_at(
    s: Seq<u8>,
    es: Seq<usize>,
    e: usize,
    k: nat,
    depth: nat,
    part: Part,
    seen: bool,
)
    requires
        k <= es.len(),
    ensures
        safe_parts(s, Seq::empty(), 0, depth, part, seen) == Some(seen),
        safe_parts(s, es.push(e), k, depth, part, seen) == (match safe_parts(
            s,
            es,
            k,
            depth,
            part,
            seen,
        ) {
            Some(now) => safe_part(s, e as int, depth, part, now),
            None => None,
        }),
    decreases es.len() - k,
{
    let all = es.push(e);
    if k < es.len() {
        assert(all[k as int] == es[k as int]);
        match safe_part(s, es[k as int] as int, depth, part, seen) {
            Some(now) => {
                law_every_part_of_a_sequence_is_looked_at(s, es, e, k + 1, depth, part, now);
            },
            None => {},
        }
    } else {
        assert(all[k as int] == e);
        match safe_part(s, e as int, depth, part, seen) {
            Some(now) => {
                assert(safe_parts(s, all, k + 1, depth, part, now) == Some(now));
            },
            None => {},
        }
    }
}

/// A part is nothing, or an object of one of the kinds that are known; a part of any other kind is not safe, and
/// neither is one with a table once there has been another.
pub proof fn law_a_part_is_of_a_known_kind(
    s: Seq<u8>,
    i: int,
    depth: nat,
    part: Part,
    seen: bool,
    ms: Seq<Member>,
    kind: int,
)
    requires
        depth >= 2,
        fields(s, i, depth) == Some(ms),
        only(s, ms, "type"@) == Some(kind),
        !is_at(s, i, 0x6e),
        !named(s, kind, "Sequence"@),
    ensures
        part is Normalizer && named(s, kind, "Precompiled"@) ==> (safe_part(s, i, depth, part, seen)
            == if !seen && safe_precompiled(s, ms) {
            Some(true)
        } else {
            None
        }),
        part is Normalizer && !named(s, kind, "Precompiled"@) ==> (safe_part(s, i, depth, part, seen)
            == if named(s, kind, "Strip"@) || named(s, kind, "StripAccents"@) || named(s, kind, "Nmt"@)
            || named(s, kind, "NFD"@) || named(s, kind, "NFKD"@) || named(s, kind, "Lowercase"@) || (
        named(s, kind, "Replace"@) && safe_replace(s, ms, (depth - 1) as nat)) || (named(
            s,
            kind,
            "BertNormalizer"@,
        ) && safe_bert(s, ms)) {
            Some(seen)
        } else {
            None
        }),
        part is PreTokenizer ==> (safe_part(s, i, depth, part, seen) == if named(s, kind, "Metaspace"@)
            || named(s, kind, "Whitespace"@) || named(s, kind, "WhitespaceSplit"@) || named(
            s,
            kind,
            "BertPreTokenizer"@,
        ) || named(s, kind, "Punctuation"@) || named(s, kind, "Digits"@) {
            Some(seen)
        } else {
            None
        }),
{
}

fn check_part(s: &[u8], i: usize, depth: usize, part: Part, seen: bool) -> (r: Option<bool>)
    ensures
        r == safe_part(s@, i as int, depth as nat, part, seen),
    decreases depth,
{
    if at(s, i, 0x6e) {
        return Some(seen);
    }
    if depth < 2 {
        return None;
    }
    let ms: Vec<Member> = match read_fields(s, i, depth) {
        Some(ms) => ms,
        None => {
            return None;
        },
    };
    let kind: usize = match find_only(s, &ms, "type") {
        Some(kind) => kind,
        None => {
            return None;
        },
    };
    if !is_named(s, kind, "Sequence") {
        let normalizer: bool = match part {
            Part::Normalizer => true,
            Part::PreTokenizer => false,
        };
        if normalizer && is_named(s, kind, "Precompiled") {
            return if !seen && check_precompiled(s, &ms) {
                Some(true)
            } else {
                None
            };
        }
        return if check_single(s, &ms, kind, depth - 1, part) {
            Some(seen)
        } else {
            None
        };
    }
    let listed: Option<usize> = match part {
        Part::Normalizer => find_only(s, &ms, "normalizers"),
        Part::PreTokenizer => find_only(s, &ms, "pretokenizers"),
    };
    let v: usize = match listed {
        Some(v) => v,
        None => {
            return None;
        },
    };
    let es: Vec<usize> = match read_list(s, v, depth - 1) {
        Some((es, _)) => es,
        None => {
            return None;
        },
    };
    let mut now: bool = seen;
    let mut k: usize = 0;
    while k < es.len()
        invariant
            depth >= 2,
            k <= es@.len(),
            safe_part(s@, i as int, depth as nat, part, seen) == safe_parts(
                s@,
                es@,
                k as nat,
                (depth - 2) as nat,
                part,
                now,
            ),
        decreases es.len() - k,
    {
        match check_part(s, es[k], depth - 2, part, now) {
            Some(next) => {
                now = next;
            },
            None => {
                return None;
            },
        }
        k = k + 1;
    }
    Some(now)
}

/// Whether one of the special tokens bears the name that stands at `v`.
pub open spec fn defined(s: Seq<u8>, specials: Seq<Member>, v: int) -> bool {
    exists|j: int|
        0 <= j < specials.len() && literal(s, (#[trigger] specials[j]).key as int) == literal(s, v)
}

fn is_defined(s: &[u8], specials: &Vec<Member>, name: &[u8], v: usize) -> (r: bool)
    requires
        literal(s@, v as int) == Some(name@),
    ensures
        r == defined(s@, specials@, v as int),
{
    let mut k: usize = 0;
    while k < specials.len()
        invariant
            literal(s@, v as int) == Some(name@),
            k <= specials@.len(),
            forall|j: int|
                0 <= j < k ==> literal(s@, (#[trigger] specials@[j]).key as int) != literal(
                    s@,
                    v as int,
                ),
        decreases specials.len() - k,
    {
        match read_literal(s, specials[k].key) {
            Some(t) => {
                if same_bytes(t, name) {
                    assert(literal(s@, specials@[k as int].key as int) == literal(s@, v as int));
                    return true;
                }
            },
            None => {},
        }
        assert(literal(s@, specials@[k as int].key as int) != literal(s@, v as int));
        k = k + 1;
    }
    false
}

/// Where the `id` stands of the piece of a template that begins at `e` and is of the kind `word`.
pub open spec fn piece_id(s: Seq<u8>, e: int, depth: nat, word: Seq<char>) -> Option<int> {
    if depth == 0 {
        None
    } else {
        match fields(s, e, depth) {
            None => None,
            Some(ps) => if ps.len() == 1 && named(s, ps[0].key as int, word) {
                match fields(s, ps[0].value as int, (depth - 1) as nat) {
                    None => None,
                    Some(fs) => only(s, fs, "id"@),
                }
            } else {
                None
            },
        }
    }
}

fn find_piece_id(s: &[u8], e: usize, depth: usize, word: &str) -> (r: Option<usize>)
    ensures
        spot(r) == piece_id(s@, e as int, depth as nat, word@),
{
    if depth == 0 {
        return None;
    }
    match read_fields(s, e, depth) {
        None => None,
        Some(ps) => {
            if ps.len() == 1 && is_named(s, ps[0].key, word) {
                match read_fields(s, ps[0].value, depth - 1) {
                    None => None,
                    Some(fs) => find_only(s, &fs, "id"),
                }
            } else {
                None
            }
        },
    }
}

/// Whether a piece stands for the text, which is the first sequence.
pub open spec fn text_piece(s: Seq<u8>, e: int, depth: nat) -> bool {
    match piece_id(s, e, depth, "Sequence"@) {
        Some(v) => named(s, v, "A"@),
        None => false,
    }
}

/// Whether a piece stands for a special token that is defined.
pub open spec fn token_piece(s: Seq<u8>, e: int, depth: nat, specials: Seq<Member>) -> bool {
    match piece_id(s, e, depth, "SpecialToken"@) {
        Some(v) => literal(s, v) is Some && defined(s, specials, v),
        None => false,
    }
}

/// A piece stands for the text exactly where it is one member named `Sequence` whose `id` is `A`, and for a token
/// where it is one member named `SpecialToken` whose `id` is the name of one that is defined.
pub proof fn law_a_piece_is_the_text_or_a_token(
    s: Seq<u8>,
    e: int,
    depth: nat,
    specials: Seq<Member>,
    ps: Seq<Member>,
    fs: Seq<Member>,
)
    requires
        depth > 0,
        fields(s, e, depth) == Some(ps),
        ps.len() == 1,
        fields(s, ps[0].value as int, (depth - 1) as nat) == Some(fs),
        only(s, fs, "id"@) is Some,
    ensures
        text_piece(s, e, depth) <==> named(s, ps[0].key as int, "Sequence"@) && named(
            s,
            only(s, fs, "id"@)->0,
            "A"@,
        ),
        token_piece(s, e, depth, specials) <==> named(s, ps[0].key as int, "SpecialToken"@) && literal(
            s,
            only(s, fs, "id"@)->0,
        ) is Some && exists|j: int|
            0 <= j < specials.len() && literal(s, (#[trigger] specials[j]).key as int) == literal(
                s,
                only(s, fs, "id"@)->0,
            ),
{
}

/// The pieces of a template from the one numbered `k` on, `seen` telling whether the text is among those
/// before it: it stands there once at most.
pub open spec fn safe_pieces(
    s: Seq<u8>,
    es: Seq<usize>,
    k: nat,
    depth: nat,
    specials: Seq<Member>,
    seen: bool,
) -> bool
    decreases es.len() - k,
{
    if k >= es.len() {
        true
    } else if text_piece(s, es[k as int] as int, depth) {
        !seen && safe_pieces(s, es, k + 1, depth, specials, true)
    } else {
        token_piece(s, es[k as int] as int, depth, specials) && safe_pieces(
            s,
            es,
            k + 1,
            depth,
            specials,
            seen,
        )
    }
}

fn check_pieces(s: &[u8], es: &Vec<usize>, depth: usize, specials: &Vec<Member>) -> (r: bool)
    ensures
        r == safe_pieces(s@, es@, 0, depth as nat, specials@, false),
{
    let mut seen: bool = false;
    let mut k: usize = 0;
    while k < es.len()
        invariant
            k <= es@.len(),
            safe_pieces(s@, es@, 0, depth as nat, specials@, false) == safe_pieces(
                s@,
                es@,
                k as nat,
                depth as nat,
                specials@,
                seen,
            ),
        decreases es.len() - k,
    {
        let text: bool = match find_piece_id(s, es[k], depth, "Sequence") {
            Some(v) => is_named(s, v, "A"),
            None => false,
        };
        if text {
            if seen {
                return false;
            }
            seen = true;
        } else {
            let token: bool = match find_piece_id(s, es[k], depth, "SpecialToken") {
                Some(v) => match read_literal(s, v) {
                    Some(name) => is_defined(s, specials, name, v),
                    None => false,
                },
                None => false,
            };
            if !token {
                return false;
            }
        }
        k = k + 1;
    }
    true
}

proof fn lemma_pieces_from(
    s: Seq<u8>,
    es: Seq<usize>,
    k: nat,
    depth: nat,
    specials: Seq<Member>,
    seen: bool,
)
    requires
        k <= es.len(),
    ensures
        safe_pieces(s, es, k, depth, specials, seen) <==> {
            &&& forall|j: int|
                k <= j < es.len() ==> text_piece(s, #[trigger] es[j] as int, depth) || token_piece(
                    s,
                    es[j] as int,
                    depth,
                    specials,
                )
            &&& forall|i: int, j: int|
                k <= i < j < es.len() ==> !(text_piece(s, #[trigger] es[i] as int, depth)
                    && text_piece(s, #[trigger] es[j] as int, depth))
            &&& seen ==> forall|j: int|
                k <= j < es.len() ==> !text_piece(s, #[trigger] es[j] as int, depth)
        },
    decreases es.len() - k,
{
    if k < es.len() {
        lemma_pieces_from(s, es, k + 1, depth, specials, true);
        lemma_pieces_from(s, es, k + 1, depth, specials, seen);
        let here = text_piece(s, es[k as int] as int, depth);
        if safe_pieces(s, es, k, depth, specials, seen) {
            assert forall|i: int, j: int| k <= i < j < es.len() implies !(text_piece(
                s,
                #[trigger] es[i] as int,
                depth,
            ) && text_piece(s, #[trigger] es[j] as int, depth)) by {
                if i == k && here {
                    assert(!text_piece(s, es[j] as int, depth));
                }
            }
        }
    }
}

/// A template is safe exactly where each of its pieces stands for the text or for a token that is defined, and no
/// two of them stand for the text.
pub proof fn law_a_template_holds_the_text_once_at_most(
    s: Seq<u8>,
    es: Seq<usize>,
    depth: nat,
    specials: Seq<Member>,
)
    ensures
        safe_pieces(s, es, 0, depth, specials, false) <==> {
            &&& forall|j: int|
                0 <= j < es.len() ==> text_piece(s, #[trigger] es[j] as int, depth) || token_piece(
                    s,
                    es[j] as int,
                    depth,
                    specials,
                )
            &&& forall|i: int, j: int|
                0 <= i < j < es.len() ==> !(text_piece(s, #[trigger] es[i] as int, depth)
                    && text_piece(s, #[trigger] es[j] as int, depth))
        },
{
    lemma_pieces_from(s, es, 0, depth, specials, false);
}

/// The post-processor that begins at `i`: nothing, or a template whose form for a single text holds the text
/// once at most and, besides it, special tokens that are defined.
pub open spec fn safe_processor(s: Seq<u8>, i: int, depth: nat) -> bool {
    if is_at(s, i, 0x6e) {
        true
    } else if depth < 2 {
        false
    } else {
        match fields(s, i, depth) {
            None => false,
            Some(ms) => {
                &&& all_among(
                    s,
                    ms,
                    "type"@,
                    "single"@,
                    "pair"@,
                    "special_tokens"@,
                    "special_tokens"@,
                )
                &&& match only(s, ms, "type"@) {
                    Some(kind) => named(s, kind, "TemplateProcessing"@),
                    None => false,
                }
                &&& match (only(s, ms, "single"@), only(s, ms, "special_tokens"@)) {
                    (Some(single), Some(tokens)) => match (
                        list_at(s, single, (depth - 1) as nat),
                        fields(s, tokens, (depth - 1) as nat),
                    ) {
                        (Some((es, _)), Some(specials)) => safe_pieces(
                            s,
                            es,
                            0,
                            (depth - 2) as nat,
                            specials,
                            false,
                        ),
                        _ => false,
                    },
                    _ => false,
                }
            },
        }
    }
}

fn check_processor(s: &[u8], i: usize, depth: usize) -> (r: bool)
    ensures
        r == safe_processor(s@, i as int, depth as nat),
{
    if at(s, i, 0x6e) {
        return true;
    }
    if depth < 2 {
        return false;
    }
    let ms: Vec<Member> = match read_fields(s, i, depth) {
        Some(ms) => ms,
        None => {
            return false;
        },
    };
    if !are_among(s, &ms, "type", "single", "pair", "special_tokens", "special_tokens") {
        return false;
    }
    let template: bool = match find_only(s, &ms, "type") {
        Some(kind) => is_named(s, kind, "TemplateProcessing"),
        None => false,
    };
    if !template {
        return false;
    }
    match (find_only(s, &ms, "single"), find_only(s, &ms, "special_tokens")) {
        (Some(single), Some(tokens)) => match (
            read_list(s, single, depth - 1),
            read_fields(s, tokens, depth - 1),
        ) {
            (Some((es, _)), Some(specials)) => check_pieces(s, &es, depth - 2, &specials),
            _ => false,
        },
        _ => false,
    }
}

/// Whether only characters of ASCII that are no spaces stand between `i` and the end of a string.
pub open spec fn graphic(s: Seq<u8>, i: int) -> bool
    decreases s.len() - i,
{
    if !(0 <= i < s.len()) {
        false
    } else if s[i] == 0x22 {
        true
    } else {
        0x21 <= s[i] <= 0x7e && s[i] != 0x5c && graphic(s, i + 1)
    }
}

fn is_graphic(s: &[u8], i: usize) -> (r: bool)
    ensures
        r == graphic(s@, i as int),
        r ==> exists|e: int|
            i <= e < s@.len() && #[trigger] s@[e] == 0x22 && forall|k: int|
                i <= k < e ==> 0x21 <= #[trigger] s@[k] <= 0x7e && s@[k] != 0x5c,
{
    let mut j: usize = i;
    while j < s.len()
        invariant
            i <= j,
            forall|k: int| i <= k < j ==> 0x21 <= #[trigger] s@[k] <= 0x7e && s@[k] != 0x5c,
            graphic(s@, i as int) == graphic(s@, j as int),
        decreases s.len() - j,
    {
        let b: u8 = s[j];
        if b == 0x22 {
            return true;
        }
        if b < 0x21 || b > 0x7e || b == 0x5c {
            return false;
        }
        j = j + 1;
    }
    false
}

/// An added token takes no white space after it, and is looked for as it is written or begins with a `<` and
/// holds only characters of ASCII that are no spaces. Normalized, such a token is never empty. Up to the table
/// of a precompiled normalizer it stays within ASCII, so that each of its characters is looked up alone, and
/// the table leaves a lone `<` as it is. There is one table at most, and what comes behind it removes nothing
/// but white space, marks and control characters.
pub open spec fn safe_added(s: Seq<u8>, e: int, depth: nat) -> bool {
    match fields(s, e, depth) {
        None => false,
        Some(ms) => {
            &&& match only(s, ms, "rstrip"@) {
                Some(v) => is_at(s, v, 0x66),
                None => false,
            }
            &&& match (only(s, ms, "normalized"@), only(s, ms, "content"@)) {
                (Some(n), Some(c)) => is_at(s, n, 0x66) || (is_at(s, c, 0x22) && is_at(
                    s,
                    c + 1,
                    0x3c,
                ) && graphic(s, c + 1)),
                _ => false,
            }
        },
    }
}

fn check_added(s: &[u8], e: usize, depth: usize) -> (r: bool)
    ensures
        r == safe_added(s@, e as int, depth as nat),
{
    match read_fields(s, e, depth) {
        None => false,
        Some(ms) => {
            let kept: bool = match find_only(s, &ms, "rstrip") {
                Some(v) => at(s, v, 0x66),
                None => false,
            };
            kept && match (find_only(s, &ms, "normalized"), find_only(s, &ms, "content")) {
                (Some(n), Some(c)) => at(s, n, 0x66) || (at(s, c, 0x22) && at(s, c + 1, 0x3c)
                    && is_graphic(s, c + 1)),
                _ => false,
            }
        },
    }
}

/// A run of characters of ASCII that are no spaces, up to the quote at its end, is taken for what it is, however
/// long it is; one with anything else in it is not.
pub proof fn law_a_run_of_visible_characters_is_one(s: Seq<u8>, i: int, e: int)
    requires
        0 <= i <= e <= s.len(),
        forall|k: int|
            i <= k < e ==> 0x21 <= #[trigger] s[k] <= 0x7e && s[k] != 0x5c && s[k] != 0x22,
        e == s.len() || s[e] == 0x22 || s[e] < 0x21 || s[e] > 0x7e || s[e] == 0x5c,
    ensures
        graphic(s, i) <==> e < s.len() && s[e] == 0x22,
    decreases e - i,
{
    if i < e {
        law_a_run_of_visible_characters_is_one(s, i + 1, e);
    }
}

/// An added token is safe exactly where it takes no white space after it and is looked for as it is written, or
/// else begins with a `<` and holds nothing but visible characters of ASCII.
pub proof fn law_an_added_token_is_never_empty(
    s: Seq<u8>,
    e: int,
    depth: nat,
    ms: Seq<Member>,
    rstrip: int,
    normalized: int,
    content: int,
)
    requires
        fields(s, e, depth) == Some(ms),
        only(s, ms, "rstrip"@) == Some(rstrip),
        only(s, ms, "normalized"@) == Some(normalized),
        only(s, ms, "content"@) == Some(content),
    ensures
        safe_added(s, e, depth) <==> is_at(s, rstrip, 0x66) && (is_at(s, normalized, 0x66) || (is_at(
            s,
            content,
            0x22,
        ) && is_at(s, content + 1, 0x3c) && graphic(s, content + 1))),
{
}

/// The added tokens that begin at these positions.
pub open spec fn safe_each_added(s: Seq<u8>, es: Seq<usize>, depth: nat) -> bool {
    forall|j: int| 0 <= j < es.len() ==> safe_added(s, #[trigger] es[j] as int, depth)
}

/// The list of added tokens that begins at `i`.
pub open spec fn safe_added_tokens(s: Seq<u8>, i: int, depth: nat) -> bool {
    if depth == 0 {
        false
    } else {
        match list_at(s, i, depth) {
            None => false,
            Some((es, _)) => safe_each_added(s, es, (depth - 1) as nat),
        }
    }
}

fn check_added_tokens(s: &[u8], i: usize, depth: usize) -> (r: bool)
    ensures
        r == safe_added_tokens(s@, i as int, depth as nat),
        r <==> depth > 0 && list_at(s@, i as int, depth as nat) is Some && forall|j: int|
            0 <= j < (list_at(s@, i as int, depth as nat)->0).0.len() ==> safe_added(
                s@,
                #[trigger] (list_at(s@, i as int, depth as nat)->0).0[j] as int,
                (depth - 1) as nat,
            ),
{
    if depth == 0 {
        return false;
    }
    let (es, end): (Vec<usize>, usize) = match read_list(s, i, depth) {
        Some(list) => list,
        None => {
            return false;
        },
    };
    let mut k: usize = 0;
    while k < es.len()
        invariant
            depth > 0,
            list_at(s@, i as int, depth as nat) == Some((es@, end as int)),
            k <= es@.len(),
            forall|j: int|
                0 <= j < k ==> safe_added(s@, #[trigger] es@[j] as int, (depth - 1) as nat),
        decreases es.len() - k,
    {
        if !check_added(s, es[k], depth - 1) {
            assert(!safe_added(s@, es@[k as int] as int, (depth - 1) as nat));
            assert(!safe_each_added(s@, es@, (depth - 1) as nat));
            assert((list_at(s@, i as int, depth as nat)->0).0[k as int] == es@[k as int]);
            return false;
        }
        k = k + 1;
    }
    true
}

/// The padding that begins at `i`: none, or up to the longest text of a batch and no further, which for a
/// single text is none.
pub open spec fn safe_padding(s: Seq<u8>, i: int, depth: nat) -> bool {
    if is_at(s, i, 0x6e) {
        true
    } else {
        match fields(s, i, depth) {
            None => false,
            Some(ms) => {
                &&& match only(s, ms, "strategy"@) {
                    Some(v) => named(s, v, "BatchLongest"@),
                    None => false,
                }
                &&& forall|j: int|
                    0 <= j < values_named(s, ms, "pad_to_multiple_of"@).len() ==> is_at(
                        s,
                        #[trigger] values_named(s, ms, "pad_to_multiple_of"@)[j] as int,
                        0x6e,
                    )
            },
        }
    }
}

fn check_padding(s: &[u8], i: usize, depth: usize) -> (r: bool)
    ensures
        r == safe_padding(s@, i as int, depth as nat),
{
    if at(s, i, 0x6e) {
        return true;
    }
    let ms: Vec<Member> = match read_fields(s, i, depth) {
        Some(ms) => ms,
        None => {
            return false;
        },
    };
    let longest: bool = match find_only(s, &ms, "strategy") {
        Some(v) => is_named(s, v, "BatchLongest"),
        None => false,
    };
    if !longest {
        return false;
    }
    let multiples: Vec<usize> = find_values(s, &ms, "pad_to_multiple_of");
    let mut k: usize = 0;
    while k < multiples.len()
        invariant
            fields(s@, i as int, depth as nat) == Some(ms@),
            !is_at(s@, i as int, 0x6e),
            multiples@ == values_named(s@, ms@, "pad_to_multiple_of"@),
            k <= multiples@.len(),
            forall|j: int| 0 <= j < k ==> is_at(s@, #[trigger] multiples@[j] as int, 0x6e),
        decreases multiples.len() - k,
    {
        if !at(s, multiples[k], 0x6e) {
            assert(!is_at(s@, multiples@[k as int] as int, 0x6e));
            return false;
        }
        k = k + 1;
    }
    true
}

/// The longest word of a unigram model, in bytes as it is written: its words are kept in a tree as deep as
/// they are long, which is taken down branch by branch.
pub const MAX_WORD: usize = 1024;

/// The entry of a unigram model that begins at `e`: a list that begins with a word.
pub open spec fn safe_word(s: Seq<u8>, e: int, depth: nat) -> bool {
    match list_at(s, e, depth) {
        None => false,
        Some((ws, _)) => ws.len() > 0 && is_at(s, ws[0] as int, 0x22) && match string_end(
            s,
            ws[0] + 1,
        ) {
            Some(end) => end - ws[0] <= MAX_WORD,
            None => false,
        },
    }
}

fn check_word(s: &[u8], e: usize, depth: usize) -> (r: bool)
    ensures
        r == safe_word(s@, e as int, depth as nat),
{
    match read_list(s, e, depth) {
        None => false,
        Some((ws, _)) => {
            if ws.len() == 0 || !at(s, ws[0], 0x22) {
                return false;
            }
            match skip_string(s, ws[0] + 1) {
                Some(end) => end - ws[0] <= MAX_WORD,
                None => false,
            }
        },
    }
}

/// The entries of a unigram model that begin at these positions.
pub open spec fn safe_words(s: Seq<u8>, es: Seq<usize>, depth: nat) -> bool {
    forall|j: int| 0 <= j < es.len() ==> safe_word(s, #[trigger] es[j] as int, depth)
}

fn check_words(s: &[u8], es: &Vec<usize>, depth: usize) -> (r: bool)
    ensures
        r == safe_words(s@, es@, depth as nat),
        r <==> (forall|j: int|
            0 <= j < es@.len() ==> safe_word(s@, #[trigger] es@[j] as int, depth as nat)),
{
    let mut k: usize = 0;
    while k < es.len()
        invariant
            k <= es@.len(),
            forall|j: int| 0 <= j < k ==> safe_word(s@, #[trigger] es@[j] as int, depth as nat),
        decreases es.len() - k,
    {
        if !check_word(s, es[k], depth) {
            assert(!safe_word(s@, es@[k as int] as int, depth as nat));
            return false;
        }
        k = k + 1;
    }
    true
}

/// The model that begins at `i` looks words up, or is a unigram model whose words are not too long.
pub open spec fn safe_model(s: Seq<u8>, i: int, depth: nat) -> bool {
    if depth < 2 {
        false
    } else {
        match fields(s, i, depth) {
            None => false,
            Some(ms) => match only(s, ms, "type"@) {
                None => false,
                Some(kind) => if named(s, kind, "Unigram"@) {
                    match only(s, ms, "vocab"@) {
                        None => false,
                        Some(v) => match list_at(s, v, (depth - 1) as nat) {
                            None => false,
                            Some((es, _)) => safe_words(s, es, (depth - 2) as nat),
                        },
                    }
                } else {
                    named(s, kind, "WordPiece"@) || named(s, kind, "WordLevel"@)
                },
            },
        }
    }
}

fn check_model(s: &[u8], i: usize, depth: usize) -> (r: bool)
    ensures
        r == safe_model(s@, i as int, depth as nat),
{
    if depth < 2 {
        return false;
    }
    match read_fields(s, i, depth) {
        None => false,
        Some(ms) => match find_only(s, &ms, "type") {
            None => false,
            Some(kind) => {
                if is_named(s, kind, "Unigram") {
                    match find_only(s, &ms, "vocab") {
                        None => false,
                        Some(v) => match read_list(s, v, depth - 1) {
                            None => false,
                            Some((es, _)) => check_words(s, &es, depth - 2),
                        },
                    }
                } else {
                    is_named(s, kind, "WordPiece") || is_named(s, kind, "WordLevel")
                }
            },
        },
    }
}

/// The decoder that begins at `i`: nothing, or of a kind that has no pattern to compile.
pub open spec fn safe_decoder(s: Seq<u8>, i: int, depth: nat) -> bool {
    is_at(s, i, 0x6e) || match fields(s, i, depth) {
        None => false,
        Some(ms) => match only(s, ms, "type"@) {
            Some(kind) => named(s, kind, "Metaspace"@) || named(s, kind, "WordPiece"@),
            None => false,
        },
    }
}

fn check_decoder(s: &[u8], i: usize, depth: usize) -> (r: bool)
    ensures
        r == safe_decoder(s@, i as int, depth as nat),
{
    at(s, i, 0x6e) || match read_fields(s, i, depth) {
        None => false,
        Some(ms) => match find_only(s, &ms, "type") {
            Some(kind) => is_named(s, kind, "Metaspace") || is_named(s, kind, "WordPiece"),
            None => false,
        },
    }
}

/// A model is safe exactly where it looks words up or is a unigram model each entry of which is a list that begins
/// with a word of no more than 1024 bytes, its quotes among them.
pub proof fn law_a_model_is_safe_where_every_word_is(
    s: Seq<u8>,
    i: int,
    depth: nat,
    ms: Seq<Member>,
    kind: int,
)
    requires
        depth >= 2,
        fields(s, i, depth) == Some(ms),
        only(s, ms, "type"@) == Some(kind),
    ensures
        !named(s, kind, "Unigram"@) ==> (safe_model(s, i, depth) <==> named(s, kind, "WordPiece"@)
            || named(s, kind, "WordLevel"@)),
        named(s, kind, "Unigram"@) && only(s, ms, "vocab"@) is None ==> !safe_model(s, i, depth),
        named(s, kind, "Unigram"@) && only(s, ms, "vocab"@) is Some ==> {
            let list = list_at(s, only(s, ms, "vocab"@)->0, (depth - 1) as nat);
            safe_model(s, i, depth) <==> list is Some && forall|j: int|
                0 <= j < (list->0).0.len() ==> safe_word(
                    s,
                    #[trigger] (list->0).0[j] as int,
                    (depth - 2) as nat,
                )
        },
{
}

/// An entry is safe exactly where the list that it is begins with a string of no more than 1024 bytes.
pub proof fn law_a_word_is_safe_where_it_is_short(
    s: Seq<u8>,
    e: int,
    depth: nat,
    ws: Seq<usize>,
    list_end: int,
)
    requires
        list_at(s, e, depth) == Some((ws, list_end)),
    ensures
        safe_word(s, e, depth) <==> ws.len() > 0 && is_at(s, ws[0] as int, 0x22) && string_end(
            s,
            ws[0] + 1,
        ) is Some && string_end(s, ws[0] + 1)->0 - ws[0] <= 1024,
{
}

/// A decoder is safe exactly where there is none or it is of a kind that has no pattern to compile; padding where
/// there is none, or it goes up to the longest text of a batch and to no multiple of anything.
pub proof fn law_a_decoder_and_a_padding_are_of_a_known_kind(
    s: Seq<u8>,
    i: int,
    depth: nat,
    ms: Seq<Member>,
)
    requires
        fields(s, i, depth) == Some(ms),
        !is_at(s, i, 0x6e),
    ensures
        safe_decoder(s, i, depth) <==> only(s, ms, "type"@) is Some && (named(
            s,
            only(s, ms, "type"@)->0,
            "Metaspace"@,
        ) || named(s, only(s, ms, "type"@)->0, "WordPiece"@)),
        safe_padding(s, i, depth) <==> only(s, ms, "strategy"@) is Some && named(
            s,
            only(s, ms, "strategy"@)->0,
            "BatchLongest"@,
        ) && forall|j: int|
            0 <= j < values_named(s, ms, "pad_to_multiple_of"@).len() ==> is_at(
                s,
                #[trigger] values_named(s, ms, "pad_to_multiple_of"@)[j] as int,
                0x6e,
            ),
{
}

/// A part that is written as nothing is safe, wherever there may be none.
pub proof fn law_nothing_is_safe(s: Seq<u8>, i: int, depth: nat, part: Part, seen: bool)
    requires
        is_at(s, i, 0x6e),
    ensures
        safe_part(s, i, depth, part, seen) == Some(seen),
        safe_processor(s, i, depth),
        safe_padding(s, i, depth),
        safe_decoder(s, i, depth),
{
}

/// A sequence of parts is safe exactly where each of its parts is, one after the other.
pub proof fn law_a_sequence_is_as_safe_as_its_parts(
    s: Seq<u8>,
    i: int,
    depth: nat,
    seen: bool,
    ms: Seq<Member>,
    kind: int,
    listed: int,
    es: Seq<usize>,
    end: int,
    part: Part,
)
    requires
        depth >= 2,
        !is_at(s, i, 0x6e),
        fields(s, i, depth) == Some(ms),
        only(s, ms, "type"@) == Some(kind),
        named(s, kind, "Sequence"@),
        part is Normalizer ==> only(s, ms, "normalizers"@) == Some(listed),
        part is PreTokenizer ==> only(s, ms, "pretokenizers"@) == Some(listed),
        list_at(s, listed, (depth - 1) as nat) == Some((es, end)),
    ensures
        safe_part(s, i, depth, part, seen) == safe_parts(s, es, 0, (depth - 2) as nat, part, seen),
{
}

/// A post-processor is safe exactly where it is a template with no members but its own and the pieces of its form
/// for a single text are safe.
pub proof fn law_a_processor_is_a_template_with_safe_pieces(
    s: Seq<u8>,
    i: int,
    depth: nat,
    ms: Seq<Member>,
    kind: int,
    single: int,
    tokens: int,
    es: Seq<usize>,
    end: int,
    specials: Seq<Member>,
)
    requires
        depth >= 2,
        !is_at(s, i, 0x6e),
        fields(s, i, depth) == Some(ms),
        only(s, ms, "type"@) == Some(kind),
        only(s, ms, "single"@) == Some(single),
        only(s, ms, "special_tokens"@) == Some(tokens),
        list_at(s, single, (depth - 1) as nat) == Some((es, end)),
        fields(s, tokens, (depth - 1) as nat) == Some(specials),
    ensures
        safe_processor(s, i, depth) <==> {
            &&& named(s, kind, "TemplateProcessing"@)
            &&& forall|j: int|
                0 <= j < ms.len() ==> {
                    let key = (#[trigger] ms[j]).key as int;
                    named(s, key, "type"@) || named(s, key, "single"@) || named(s, key, "pair"@)
                        || named(s, key, "special_tokens"@)
                }
            &&& safe_pieces(s, es, 0, (depth - 2) as nat, specials, false)
        },
{
    if safe_processor(s, i, depth) {
        assert forall|j: int| 0 <= j < ms.len() implies {
            let key = (#[trigger] ms[j]).key as int;
            named(s, key, "type"@) || named(s, key, "single"@) || named(s, key, "pair"@) || named(
                s,
                key,
                "special_tokens"@,
            )
        } by {
            assert(among(
                s,
                ms[j],
                "type"@,
                "single"@,
                "pair"@,
                "special_tokens"@,
                "special_tokens"@,
            ));
        }
    }
}

/// A replacing normalizer is safe exactly where it looks for runs of spaces or for a space; one that goes by
/// its members, where it has only those of its kind.
pub proof fn law_a_normalizer_with_members_is_safe_by_them(
    s: Seq<u8>,
    ms: Seq<Member>,
    depth: nat,
    pattern: int,
    ps: Seq<Member>,
)
    requires
        only(s, ms, "pattern"@) == Some(pattern),
        fields(s, pattern, depth) == Some(ps),
    ensures
        safe_replace(s, ms, depth) <==> ps.len() == 1 && {
            ||| named(s, ps[0].key as int, "Regex"@) && named(s, ps[0].value as int, " {2,}"@)
            ||| named(s, ps[0].key as int, "String"@) && named(s, ps[0].value as int, " "@)
        },
        safe_bert(s, ms) <==> forall|j: int|
            0 <= j < ms.len() ==> {
                let key = (#[trigger] ms[j]).key as int;
                named(s, key, "type"@) || named(s, key, "clean_text"@) || named(
                    s,
                    key,
                    "handle_chinese_chars"@,
                ) || named(s, key, "strip_accents"@) || named(s, key, "lowercase"@)
            },
{
    if safe_bert(s, ms) {
        assert forall|j: int| 0 <= j < ms.len() implies {
            let key = (#[trigger] ms[j]).key as int;
            named(s, key, "type"@) || named(s, key, "clean_text"@) || named(
                s,
                key,
                "handle_chinese_chars"@,
            ) || named(s, key, "strip_accents"@) || named(s, key, "lowercase"@)
        } by {
            assert(among(
                s,
                ms[j],
                "type"@,
                "clean_text"@,
                "handle_chinese_chars"@,
                "strip_accents"@,
                "lowercase"@,
            ));
        }
    }
}

/// A member of the whole file, by its name. What is not named here need only be well-formed.
pub open spec fn safe_member(s: Seq<u8>, m: Member, depth: nat) -> bool {
    let key = m.key as int;
    let v = m.value as int;
    &&& named(s, key, "normalizer"@) ==> safe_part(s, v, depth, Part::Normalizer, false) is Some
    &&& named(s, key, "pre_tokenizer"@) ==> safe_part(s, v, depth, Part::PreTokenizer, false) is Some
    &&& named(s, key, "post_processor"@) ==> safe_processor(s, v, depth)
    &&& named(s, key, "added_tokens"@) ==> safe_added_tokens(s, v, depth)
    &&& named(s, key, "padding"@) ==> safe_padding(s, v, depth)
    &&& named(s, key, "decoder"@) ==> safe_decoder(s, v, depth)
    &&& named(s, key, "model"@) ==> safe_model(s, v, depth)
}

fn check_member(s: &[u8], m: Member, depth: usize) -> (r: bool)
    ensures
        r == safe_member(s@, m, depth as nat),
{
    let (key, v): (usize, usize) = (m.key, m.value);
    if is_named(s, key, "normalizer") && check_part(s, v, depth, Part::Normalizer, false).is_none() {
        return false;
    }
    if is_named(s, key, "pre_tokenizer") && check_part(
        s,
        v,
        depth,
        Part::PreTokenizer,
        false,
    ).is_none() {
        return false;
    }
    if is_named(s, key, "post_processor") && !check_processor(s, v, depth) {
        return false;
    }
    if is_named(s, key, "added_tokens") && !check_added_tokens(s, v, depth) {
        return false;
    }
    if is_named(s, key, "padding") && !check_padding(s, v, depth) {
        return false;
    }
    if is_named(s, key, "decoder") && !check_decoder(s, v, depth) {
        return false;
    }
    !is_named(s, key, "model") || check_model(s, v, depth)
}

/// The members of the whole file.
pub open spec fn safe_members(s: Seq<u8>, ms: Seq<Member>, depth: nat) -> bool {
    forall|j: int| 0 <= j < ms.len() ==> safe_member(s, #[trigger] ms[j], depth)
}

/// Whether a file is one well-formed object, each part of which is safe.
pub open spec fn safe_file(s: Seq<u8>) -> bool {
    let i = skipped(s, 0);
    match (object_at(s, i, MAX_DEPTH as nat), fields(s, i, MAX_DEPTH as nat)) {
        (Some((_, end)), Some(ms)) => skipped(s, end) == s.len() && safe_members(
            s,
            ms,
            (MAX_DEPTH - 1) as nat,
        ),
        _ => false,
    }
}

/// A file that is safe is one object with nothing but white space around it; every member of it shows its name,
/// and each that bears the name of a part is safe as that part. None is passed over.
pub proof fn law_every_part_of_a_safe_file_is_safe(s: Seq<u8>, ms: Seq<Member>, end: int, j: int)
    requires
        safe_file(s),
        object_at(s, skipped(s, 0), 64) == Some((ms, end)),
        0 <= j < ms.len(),
    ensures
        skipped(s, end) == s.len(),
        literal(s, ms[j].key as int) is Some,
        named(s, ms[j].key as int, "normalizer"@) ==> safe_part(
            s,
            ms[j].value as int,
            63,
            Part::Normalizer,
            false,
        ) is Some,
        named(s, ms[j].key as int, "pre_tokenizer"@) ==> safe_part(
            s,
            ms[j].value as int,
            63,
            Part::PreTokenizer,
            false,
        ) is Some,
        named(s, ms[j].key as int, "post_processor"@) ==> safe_processor(s, ms[j].value as int, 63),
        named(s, ms[j].key as int, "added_tokens"@) ==> safe_added_tokens(s, ms[j].value as int, 63),
        named(s, ms[j].key as int, "padding"@) ==> safe_padding(s, ms[j].value as int, 63),
        named(s, ms[j].key as int, "decoder"@) ==> safe_decoder(s, ms[j].value as int, 63),
        named(s, ms[j].key as int, "model"@) ==> safe_model(s, ms[j].value as int, 63),
{
    assert(safe_member(s, ms[j], 63));
}

/// A file that is one object with nothing but white space around it is refused for one of its members alone: that
/// does not show its name, or bears the name of a part and is not safe as that part.
pub proof fn law_an_unsafe_file_has_an_unsafe_part(s: Seq<u8>, ms: Seq<Member>, end: int) -> (j: int)
    requires
        !safe_file(s),
        object_at(s, skipped(s, 0), 64) == Some((ms, end)),
        skipped(s, end) == s.len(),
    ensures
        0 <= j < ms.len(),
        ({
            let key = ms[j].key as int;
            let v = ms[j].value as int;
            ||| literal(s, key) is None
            ||| named(s, key, "normalizer"@) && safe_part(s, v, 63, Part::Normalizer, false) is None
            ||| named(s, key, "pre_tokenizer"@) && safe_part(
                s,
                v,
                63,
                Part::PreTokenizer,
                false,
            ) is None
            ||| named(s, key, "post_processor"@) && !safe_processor(s, v, 63)
            ||| named(s, key, "added_tokens"@) && !safe_added_tokens(s, v, 63)
            ||| named(s, key, "padding"@) && !safe_padding(s, v, 63)
            ||| named(s, key, "decoder"@) && !safe_decoder(s, v, 63)
            ||| named(s, key, "model"@) && !safe_model(s, v, 63)
        }),
{
    if exists|k: int| 0 <= k < ms.len() && literal(s, (#[trigger] ms[k]).key as int) is None {
        choose|k: int| 0 <= k < ms.len() && literal(s, (#[trigger] ms[k]).key as int) is None
    } else {
        let j = choose|k: int| 0 <= k < ms.len() && !safe_member(s, #[trigger] ms[k], 63);
        assert(0 <= j < ms.len() && !safe_member(s, ms[j], 63));
        j
    }
}

/// A file that is no object, or has anything but white space around it, is not safe.
pub proof fn law_a_safe_file_is_one_object(s: Seq<u8>)
    requires
        safe_file(s),
    ensures
        object_at(s, skipped(s, 0), 64) is Some,
        skipped(s, (object_at(s, skipped(s, 0), 64)->0).1) == s.len(),
{
}

/// Whether the file with these bytes is one well-formed object, each part of which is safe.
pub fn check_file(s: &[u8]) -> (r: bool)
    ensures
        r == safe_file(s@),
{
    let i: usize = skip(s, 0);
    let end: usize = match read_object(s, i, MAX_DEPTH) {
        Some((_, end)) => end,
        None => {
            return false;
        },
    };
    if skip(s, end) != s.len() {
        return false;
    }
    let ms: Vec<Member> = match read_fields(s, i, MAX_DEPTH) {
        Some(ms) => ms,
        None => {
            return false;
        },
    };
    let mut k: usize = 0;
    while k < ms.len()
        invariant
            i == skipped(s@, 0),
            object_at(s@, i as int, MAX_DEPTH as nat) matches Some((_, e)) && e == end,
            skipped(s@, end as int) == s@.len(),
            fields(s@, i as int, MAX_DEPTH as nat) == Some(ms@),
            k <= ms@.len(),
            forall|j: int|
                0 <= j < k ==> safe_member(s@, #[trigger] ms@[j], (MAX_DEPTH - 1) as nat),
        decreases ms.len() - k,
    {
        if !check_member(s, ms[k], MAX_DEPTH - 1) {
            assert(!safe_member(s@, ms@[k as int], (MAX_DEPTH - 1) as nat));
            assert(!safe_members(s@, ms@, (MAX_DEPTH - 1) as nat));
            return false;
        }
        k = k + 1;
    }
    true
}

} // verus!
