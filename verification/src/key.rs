//! The name under which the vector of a text is cached.

use blake2::digest::consts::U16;
use blake2::{Blake2b, Digest};
use vstd::prelude::*;
use vstd::string::*;
use vstd::utf8::{encode_scalar, encode_utf8};

verus! {

/// The model whose vectors these are.
pub const MODEL_LABEL: &'static str = "bge-m3";

/// The BLAKE2b digest of `data`, at 128 bits.
pub uninterp spec fn blake2b_128(data: Seq<u8>) -> Seq<u8>;

/// `Digest::digest` of `Blake2b<U16>`: a function of the bytes alone, sixteen bytes long. Which
/// bytes it gives is left to the name `blake2b_128`.
#[verifier::external_body]
fn digest(data: &[u8]) -> (r: Vec<u8>)
    ensures
        r@ == blake2b_128(data@),
        r@.len() == 16,
{
    Blake2b::<U16>::digest(data).to_vec()
}

/// The hexadecimal digit for `d`, in lower case.
pub open spec fn hex_digit(d: int) -> char {
    if d < 10 {
        ('0' as u32 + d) as char
    } else {
        ('a' as u32 + d - 10) as char
    }
}

/// Whether a character is a hexadecimal digit in lower case.
pub open spec fn is_hex_digit(c: char) -> bool {
    ('0' <= c && c <= '9') || ('a' <= c && c <= 'f')
}

/// Each byte as two hexadecimal digits, the higher one first.
pub open spec fn hex_of(data: Seq<u8>) -> Seq<char> {
    Seq::new(
        2 * data.len(),
        |i: int|
            if i % 2 == 0 {
                hex_digit(data[i / 2] as int / 16)
            } else {
                hex_digit(data[i / 2] as int % 16)
            },
    )
}

/// `hex::encode`: each byte as two digits in lower case, the higher one first.
#[verifier::external_body]
fn hex_encode(data: &[u8]) -> (r: String)
    ensures
        r@ == hex_of(data@),
{
    hex::encode(data)
}

/// What is digested for a text: the model's label, a zero byte, and the text, all in UTF-8.
pub open spec fn labelled(text: Seq<char>) -> Seq<u8> {
    encode_utf8(MODEL_LABEL@).push(0u8) + encode_utf8(text)
}

/// The key of a text.
pub open spec fn key_of(text: Seq<char>) -> Seq<char> {
    hex_of(blake2b_128(labelled(text)))
}

/// What is digested for a text.
pub fn labelled_bytes(text: &str) -> (r: Vec<u8>)
    ensures
        r@ == labelled(text@),
        r@ == encode_utf8("bge-m3"@) + seq![0u8] + encode_utf8(text@),
{
    let mut data: Vec<u8> = MODEL_LABEL.as_bytes_vec();
    data.push(0);
    let mut rest: Vec<u8> = text.as_bytes_vec();
    data.append(&mut rest);
    assert(data@ =~= encode_utf8("bge-m3"@) + seq![0u8] + encode_utf8(text@));
    data
}

/// The key that a digest makes.
pub fn key_text(digest: &[u8]) -> (r: String)
    ensures
        r@ == hex_of(digest@),
        r@.len() == 2 * digest@.len(),
{
    hex_encode(digest)
}

/// The key of a text: the digest of the model's label and the text, in hexadecimal.
pub fn cache_key(text: &str) -> (r: String)
    ensures
        r@ == key_of(text@),
        r@ == hex_of(blake2b_128(encode_utf8("bge-m3"@) + seq![0u8] + encode_utf8(text@))),
        r@.len() == 32,
        forall|i: int| 0 <= i < r@.len() ==> is_hex_digit(#[trigger] r@[i]),
{
    let data: Vec<u8> = labelled_bytes(text);
    proof {
        law_hex_is_lower_case_digits(blake2b_128(labelled(text@)));
    }
    key_text(digest(data.as_slice()).as_slice())
}

proof fn lemma_hex_digit_injective(a: int, b: int)
    requires
        0 <= a < 16,
        0 <= b < 16,
        hex_digit(a) == hex_digit(b),
    ensures
        a == b,
{
}

/// What is written in hexadecimal has two digits for each byte, all of them in lower case.
pub proof fn law_hex_is_lower_case_digits(data: Seq<u8>)
    ensures
        hex_of(data).len() == 2 * data.len(),
        forall|i: int| 0 <= i < hex_of(data).len() ==> is_hex_digit(#[trigger] hex_of(data)[i]),
{
    assert forall|i: int| 0 <= i < hex_of(data).len() implies is_hex_digit(
        #[trigger] hex_of(data)[i],
    ) by {
        let b = data[i / 2] as int;
        assert(0 <= b / 16 < 16 && 0 <= b % 16 < 16);
    }
}

/// Sixteen times what the first of a byte's two digits stands for and what the second stands for make the byte.
pub proof fn law_two_digits_make_the_byte(data: Seq<u8>, i: int)
    requires
        0 <= i < data.len(),
    ensures
        ({
            let high = hex_of(data)[2 * i];
            let low = hex_of(data)[2 * i + 1];
            let h = if high <= '9' {
                high as int - 48
            } else {
                high as int - 87
            };
            let l = if low <= '9' {
                low as int - 48
            } else {
                low as int - 87
            };
            &&& ('0' <= high <= '9') || ('a' <= high <= 'f')
            &&& ('0' <= low <= '9') || ('a' <= low <= 'f')
            &&& h * 16 + l == data[i]
        }),
{
    assert((2 * i) / 2 == i && (2 * i) % 2 == 0);
    assert((2 * i + 1) / 2 == i && (2 * i + 1) % 2 == 1);
    let b = data[i] as int;
    assert(0 <= b / 16 < 16 && 0 <= b % 16 < 16);
    assert(hex_of(data)[2 * i] == hex_digit(b / 16));
    assert(hex_of(data)[2 * i + 1] == hex_digit(b % 16));
}

proof fn lemma_encoded_one_after_the_other(a: Seq<char>, b: Seq<char>)
    ensures
        encode_utf8(a + b) == encode_utf8(a) + encode_utf8(b),
    decreases a.len(),
{
    if a.len() == 0 {
        assert(a + b =~= b);
        assert(encode_utf8(a) + encode_utf8(b) =~= encode_utf8(b));
    } else {
        lemma_encoded_one_after_the_other(a.drop_first(), b);
        assert((a + b).drop_first() =~= a.drop_first() + b);
        let first = encode_scalar(a[0] as u32);
        assert(encode_utf8(a + b) =~= first + (encode_utf8(a.drop_first()) + encode_utf8(b)));
        assert(encode_utf8(a) + encode_utf8(b) =~= first + (encode_utf8(a.drop_first())
            + encode_utf8(b)));
    }
}

/// What is digested for a text begins with the model's label and a zero byte and ends with the whole of the
/// text, so that more of the same text at its end is more at the end of what is digested.
pub proof fn law_the_whole_text_is_digested(a: Seq<char>, b: Seq<char>)
    ensures
        labelled(a) == encode_utf8("bge-m3"@) + seq![0u8] + encode_utf8(a),
        labelled(a + b) == labelled(a) + encode_utf8(b),
        key_of(a) == hex_of(blake2b_128(labelled(a))),
{
    assert(labelled(a) =~= encode_utf8("bge-m3"@) + seq![0u8] + encode_utf8(a));
    lemma_encoded_one_after_the_other(a, b);
    assert(labelled(a + b) =~= labelled(a) + encode_utf8(b));
}

/// Hexadecimal loses nothing: equal digits stand for equal bytes.
pub proof fn law_hex_is_injective(a: Seq<u8>, b: Seq<u8>)
    requires
        hex_of(a) == hex_of(b),
    ensures
        a == b,
{
    assert(hex_of(a).len() == 2 * a.len());
    assert(hex_of(b).len() == 2 * b.len());
    assert forall|i: int| 0 <= i < a.len() implies a[i] == b[i] by {
        let high = 2 * i;
        let low = 2 * i + 1;
        assert(high / 2 == i && high % 2 == 0);
        assert(low / 2 == i && low % 2 == 1);
        assert(hex_of(a)[high] == hex_digit(a[i] as int / 16));
        assert(hex_of(b)[high] == hex_digit(b[i] as int / 16));
        assert(hex_of(a)[low] == hex_digit(a[i] as int % 16));
        assert(hex_of(b)[low] == hex_digit(b[i] as int % 16));
        lemma_hex_digit_injective(a[i] as int / 16, b[i] as int / 16);
        lemma_hex_digit_injective(a[i] as int % 16, b[i] as int % 16);
    }
    assert(a =~= b);
}

/// Two texts share a key only where the digest of what names them collides.
pub proof fn law_keys_differ_unless_the_digest_collides(a: Seq<char>, b: Seq<char>)
    requires
        key_of(a) == key_of(b),
    ensures
        a == b || (labelled(a) != labelled(b) && blake2b_128(labelled(a)) == blake2b_128(
            labelled(b),
        )),
{
    law_hex_is_injective(blake2b_128(labelled(a)), blake2b_128(labelled(b)));
    if labelled(a) == labelled(b) {
        let n = encode_utf8(MODEL_LABEL@).len() + 1;
        assert(labelled(a).skip(n as int) =~= encode_utf8(a));
        assert(labelled(b).skip(n as int) =~= encode_utf8(b));
        vstd::utf8::encode_utf8_decode_utf8(a);
        vstd::utf8::encode_utf8_decode_utf8(b);
    }
}

} // verus!
