//! The text of a JSON document, read where it stands: where a value ends, and where the parts of a list or
//! an object begin. Nothing is decoded or copied, so a document of many megabytes costs little.

use vstd::prelude::*;
use vstd::slice::slice_subrange;
use vstd::string::*;
use vstd::utf8::*;

verus! {

/// A member of an object: where its key begins, at the opening quote, and where its value begins.
#[derive(Clone, Copy)]
pub struct Member {
    pub key: usize,
    pub value: usize,
}

/// A position in a document, or none.
pub open spec fn spot(r: Option<usize>) -> Option<int> {
    match r {
        Some(n) => Some(n as int),
        None => None,
    }
}

/// A position that was found is itself, and one that was not is none.
pub proof fn law_a_position_is_itself(n: usize)
    ensures
        spot(Some(n)) == Some(n as int),
        spot(None) is None,
{
}

/// White space between the parts of a document.
pub open spec fn is_space(b: u8) -> bool {
    b == 0x20 || b == 0x09 || b == 0x0a || b == 0x0d
}

/// The first position from `i` on that is not white space.
pub open spec fn skipped(s: Seq<u8>, i: int) -> int
    decreases s.len() - i,
{
    if 0 <= i < s.len() && is_space(s[i]) {
        skipped(s, i + 1)
    } else {
        i
    }
}

/// The first position from `i` on that is not white space.
pub fn skip(s: &[u8], i: usize) -> (r: usize)
    requires
        i <= s@.len(),
    ensures
        r == skipped(s@, i as int),
        i <= r <= s@.len(),
        forall|k: int|
            i <= k < r ==> #[trigger] s@[k] == 0x20 || s@[k] == 0x09 || s@[k] == 0x0a || s@[k] == 0x0d,
        r < s@.len() ==> s@[r as int] != 0x20 && s@[r as int] != 0x09 && s@[r as int] != 0x0a
            && s@[r as int] != 0x0d,
{
    let mut j: usize = i;
    while j < s.len() && (s[j] == 0x20 || s[j] == 0x09 || s[j] == 0x0a || s[j] == 0x0d)
        invariant
            i <= j <= s@.len(),
            forall|k: int|
                i <= k < j ==> #[trigger] s@[k] == 0x20 || s@[k] == 0x09 || s@[k] == 0x0a || s@[k]
                    == 0x0d,
            skipped(s@, i as int) == skipped(s@, j as int),
        decreases s.len() - j,
    {
        j = j + 1;
    }
    j
}

/// Whether the byte at `i` is `b`.
pub open spec fn is_at(s: Seq<u8>, i: int, b: u8) -> bool {
    0 <= i < s.len() && s[i] == b
}

/// Whether the byte at `i` is `b`.
pub fn at(s: &[u8], i: usize, b: u8) -> (r: bool)
    ensures
        r == is_at(s@, i as int, b),
        r <==> i < s@.len() && s@[i as int] == b,
        r ==> i < usize::MAX,
{
    i < s.len() && s[i] == b
}

/// The digit that a byte writes in base sixteen.
pub open spec fn hex_digit(b: u8) -> Option<nat> {
    if 0x30 <= b <= 0x39 {
        Some((b - 0x30) as nat)
    } else if 0x41 <= b <= 0x46 {
        Some((b - 0x41 + 10) as nat)
    } else if 0x61 <= b <= 0x66 {
        Some((b - 0x61 + 10) as nat)
    } else {
        None
    }
}

fn hex_of_byte(b: u8) -> (r: Option<u32>)
    ensures
        match r {
            Some(n) => hex_digit(b) == Some(n as nat) && n < 16,
            None => hex_digit(b) is None,
        },
        r is Some <==> 0x30 <= b <= 0x39 || 0x41 <= b <= 0x46 || 0x61 <= b <= 0x66,
        0x30 <= b <= 0x39 ==> r->0 == b - 48,
        0x41 <= b <= 0x46 ==> r->0 == b - 55,
        0x61 <= b <= 0x66 ==> r->0 == b - 87,
{
    if 0x30 <= b && b <= 0x39 {
        Some((b - 0x30) as u32)
    } else if 0x41 <= b && b <= 0x46 {
        Some((b - 0x41 + 10) as u32)
    } else if 0x61 <= b && b <= 0x66 {
        Some((b - 0x61 + 10) as u32)
    } else {
        None
    }
}

/// The number that four digits in base sixteen write, from `i` on.
pub open spec fn hex_four(s: Seq<u8>, i: int) -> Option<nat> {
    if 0 <= i && i + 4 <= s.len() {
        match (hex_digit(s[i]), hex_digit(s[i + 1]), hex_digit(s[i + 2]), hex_digit(s[i + 3])) {
            (Some(a), Some(b), Some(c), Some(d)) => Some(4096 * a + 256 * b + 16 * c + d),
            _ => None,
        }
    } else {
        None
    }
}

fn read_hex_four(s: &[u8], i: usize) -> (r: Option<u32>)
    ensures
        match r {
            Some(n) => hex_four(s@, i as int) == Some(n as nat),
            None => hex_four(s@, i as int) is None,
        },
        r is Some ==> i + 4 <= s@.len(),
        r matches Some(n) ==> n == ((hex_digit(s@[i as int])->0 * 16 + hex_digit(s@[i + 1])->0) * 16
            + hex_digit(s@[i + 2])->0) * 16 + hex_digit(s@[i + 3])->0,
{
    if s.len() < 4 || i > s.len() - 4 {
        return None;
    }
    match (hex_of_byte(s[i]), hex_of_byte(s[i + 1]), hex_of_byte(s[i + 2]), hex_of_byte(s[i + 3])) {
        (Some(a), Some(b), Some(c), Some(d)) => Some(4096 * a + 256 * b + 16 * c + d),
        _ => None,
    }
}

/// How many bytes the escape at `i` takes: a backslash and one letter, or a code unit in four digits; two
/// of them where the first is the high half of a pair.
pub open spec fn escape_len(s: Seq<u8>, i: int) -> Option<int> {
    if !(0 <= i && i + 1 < s.len()) {
        None
    } else if s[i + 1] == 0x75 {
        match hex_four(s, i + 2) {
            None => None,
            Some(unit) => if 0xdc00 <= unit < 0xe000 {
                None
            } else if 0xd800 <= unit < 0xdc00 {
                if is_at(s, i + 6, 0x5c) && is_at(s, i + 7, 0x75) {
                    match hex_four(s, i + 8) {
                        Some(low) => if 0xdc00 <= low < 0xe000 {
                            Some(12)
                        } else {
                            None
                        },
                        None => None,
                    }
                } else {
                    None
                }
            } else {
                Some(6)
            },
        }
    } else if s[i + 1] == 0x22 || s[i + 1] == 0x5c || s[i + 1] == 0x2f || s[i + 1] == 0x62 || s[i + 1]
        == 0x66 || s[i + 1] == 0x6e || s[i + 1] == 0x72 || s[i + 1] == 0x74 {
        Some(2)
    } else {
        None
    }
}

fn read_escape(s: &[u8], i: usize) -> (r: Option<usize>)
    requires
        i < s@.len(),
    ensures
        spot(r) == escape_len(s@, i as int),
        r matches Some(n) ==> 0 < n && i + n <= s@.len(),
{
    if s.len() - i < 2 {
        return None;
    }
    let c: u8 = s[i + 1];
    if c == 0x75 {
        if s.len() - i < 6 {
            return None;
        }
        match read_hex_four(s, i + 2) {
            None => None,
            Some(unit) => {
                if 0xdc00 <= unit && unit < 0xe000 {
                    None
                } else if 0xd800 <= unit && unit < 0xdc00 {
                    if s.len() - i < 12 {
                        return None;
                    }
                    if at(s, i + 6, 0x5c) && at(s, i + 7, 0x75) {
                        match read_hex_four(s, i + 8) {
                            Some(low) => {
                                if 0xdc00 <= low && low < 0xe000 {
                                    Some(12)
                                } else {
                                    None
                                }
                            },
                            None => None,
                        }
                    } else {
                        None
                    }
                } else {
                    Some(6)
                }
            },
        }
    } else if c == 0x22 || c == 0x5c || c == 0x2f || c == 0x62 || c == 0x66 || c == 0x6e || c == 0x72
        || c == 0x74 {
        Some(2)
    } else {
        None
    }
}

/// Where a string ends, `i` being past its opening quote: past its closing quote.
pub open spec fn string_end(s: Seq<u8>, i: int) -> Option<int>
    decreases s.len() - i,
{
    if !(0 <= i < s.len()) {
        None
    } else if s[i] == 0x22 {
        Some(i + 1)
    } else if s[i] < 0x20 {
        None
    } else if s[i] == 0x5c {
        match escape_len(s, i) {
            Some(n) => if n > 0 {
                string_end(s, i + n)
            } else {
                None
            },
            None => None,
        }
    } else {
        string_end(s, i + 1)
    }
}

/// Where a string ends, `i` being past its opening quote.
pub fn skip_string(s: &[u8], i: usize) -> (r: Option<usize>)
    requires
        i <= s@.len(),
    ensures
        spot(r) == string_end(s@, i as int),
        r matches Some(e) ==> i < e <= s@.len(),
{
    let mut j: usize = i;
    while j < s.len()
        invariant
            i <= j <= s@.len(),
            string_end(s@, i as int) == string_end(s@, j as int),
        decreases s.len() - j,
    {
        let b: u8 = s[j];
        if b == 0x22 {
            return Some(j + 1);
        }
        if b < 0x20 {
            return None;
        }
        if b == 0x5c {
            match read_escape(s, j) {
                Some(n) => {
                    j = j + n;
                },
                None => {
                    return None;
                },
            }
        } else {
            j = j + 1;
        }
    }
    None
}

/// The decimal digits.
pub open spec fn is_digit(b: u8) -> bool {
    0x30 <= b <= 0x39
}

/// The first position from `i` on that is no digit.
pub open spec fn digits_end(s: Seq<u8>, i: int) -> int
    decreases s.len() - i,
{
    if 0 <= i < s.len() && is_digit(s[i]) {
        digits_end(s, i + 1)
    } else {
        i
    }
}

fn skip_digits(s: &[u8], i: usize) -> (r: usize)
    requires
        i <= s@.len(),
    ensures
        r == digits_end(s@, i as int),
        i <= r <= s@.len(),
        forall|k: int| i <= k < r ==> 0x30 <= #[trigger] s@[k] <= 0x39,
        r < s@.len() ==> !(0x30 <= s@[r as int] <= 0x39),
{
    let mut j: usize = i;
    while j < s.len() && 0x30 <= s[j] && s[j] <= 0x39
        invariant
            i <= j <= s@.len(),
            forall|k: int| i <= k < j ==> 0x30 <= #[trigger] s@[k] <= 0x39,
            digits_end(s@, i as int) == digits_end(s@, j as int),
        decreases s.len() - j,
    {
        j = j + 1;
    }
    j
}

/// The most bytes that a number may take. With the digits of its exponent bounded too, it stays well within
/// the range of a 64-bit float.
pub const NUMBER_BYTES: usize = 200;

/// The most digits of a number's exponent.
pub const EXPONENT_DIGITS: usize = 2;

/// Where the fraction of a number ends that begins at `i`, if there is one.
pub open spec fn fraction_end(s: Seq<u8>, i: int) -> Option<int> {
    if is_at(s, i, 0x2e) {
        let e = digits_end(s, i + 1);
        if e > i + 1 {
            Some(e)
        } else {
            None
        }
    } else {
        Some(i)
    }
}

/// Where the digits of an exponent begin, `i` being past its letter.
pub open spec fn past_sign(s: Seq<u8>, i: int) -> int {
    if is_at(s, i, 0x2b) || is_at(s, i, 0x2d) {
        i + 1
    } else {
        i
    }
}

/// Where the exponent of a number ends that begins at `i`, if there is one.
pub open spec fn exponent_end(s: Seq<u8>, i: int) -> Option<int> {
    if is_at(s, i, 0x65) || is_at(s, i, 0x45) {
        let d = past_sign(s, i + 1);
        let e = digits_end(s, d);
        if d < e <= d + EXPONENT_DIGITS {
            Some(e)
        } else {
            None
        }
    } else {
        Some(i)
    }
}

/// Where a number ends that begins at `i`.
pub open spec fn number_end(s: Seq<u8>, i: int) -> Option<int> {
    let a = if is_at(s, i, 0x2d) {
        i + 1
    } else {
        i
    };
    let b = digits_end(s, a);
    if b == a || (is_at(s, a, 0x30) && b > a + 1) {
        None
    } else {
        match fraction_end(s, b) {
            None => None,
            Some(c) => match exponent_end(s, c) {
                None => None,
                Some(e) => if e - i <= NUMBER_BYTES {
                    Some(e)
                } else {
                    None
                },
            },
        }
    }
}

/// Where the number ends that begins at `i`.
fn skip_number(s: &[u8], i: usize) -> (r: Option<usize>)
    requires
        i < s@.len(),
    ensures
        spot(r) == number_end(s@, i as int),
        r matches Some(e) ==> i < e <= s@.len(),
{
    let a: usize = if at(s, i, 0x2d) {
        i + 1
    } else {
        i
    };
    let b: usize = skip_digits(s, a);
    if b == a || (at(s, a, 0x30) && b - a > 1) {
        return None;
    }
    let c: usize = if at(s, b, 0x2e) {
        let e: usize = skip_digits(s, b + 1);
        if e == b + 1 {
            return None;
        }
        e
    } else {
        b
    };
    let e: usize = if at(s, c, 0x65) || at(s, c, 0x45) {
        let d: usize = if at(s, c + 1, 0x2b) || at(s, c + 1, 0x2d) {
            c + 2
        } else {
            c + 1
        };
        let e: usize = skip_digits(s, d);
        if e == d || e - d > EXPONENT_DIGITS {
            return None;
        }
        e
    } else {
        c
    };
    if e - i <= NUMBER_BYTES {
        Some(e)
    } else {
        None
    }
}

/// Whether the characters of `word` stand at `i`.
pub open spec fn spells(s: Seq<u8>, i: int, word: Seq<char>) -> bool {
    let w = encode_utf8(word);
    0 <= i && i + w.len() <= s.len() && s.subrange(i, i + w.len()) == w
}

/// Whether the characters of `word` stand at `i`.
pub fn reads(s: &[u8], i: usize, word: &str) -> (r: bool)
    ensures
        r == spells(s@, i as int, word@),
        r <==> i + encode_utf8(word@).len() <= s@.len() && forall|k: int|
            0 <= k < encode_utf8(word@).len() ==> s@[i + k] == #[trigger] encode_utf8(word@)[k],
        r ==> i + encode_utf8(word@).len() <= usize::MAX,
{
    let w: &[u8] = word.as_bytes();
    if s.len() < w.len() || i > s.len() - w.len() {
        return false;
    }
    let mut k: usize = 0;
    while k < w.len()
        invariant
            k <= w@.len(),
            i + w@.len() <= s@.len() <= usize::MAX,
            w@ == encode_utf8(word@),
            forall|j: int| 0 <= j < k ==> s@[i + j] == #[trigger] w@[j],
        decreases w.len() - k,
    {
        if s[i + k] != w[k] {
            assert(s@.subrange(i as int, i + w@.len())[k as int] != w@[k as int]);
            return false;
        }
        k = k + 1;
    }
    assert(s@.subrange(i as int, i + w@.len()) =~= w@);
    true
}

/// Where a word such as `null` ends that should stand at `i`.
pub open spec fn word_end(s: Seq<u8>, i: int, word: Seq<char>) -> Option<int> {
    if spells(s, i, word) {
        Some(i + encode_utf8(word).len())
    } else {
        None
    }
}

fn skip_word(s: &[u8], i: usize, word: &str) -> (r: Option<usize>)
    ensures
        spot(r) == word_end(s@, i as int, word@),
        r matches Some(e) ==> i <= e <= s@.len(),
{
    if reads(s, i, word) {
        Some(i + word.as_bytes().len())
    } else {
        None
    }
}

/// Where the value ends that begins at `i`, lists and objects nested at most `depth` deep.
pub open spec fn value_end(s: Seq<u8>, i: int, depth: nat) -> Option<int>
    decreases depth, 2int, 0int,
{
    if !(0 <= i < s.len()) {
        None
    } else if s[i] == 0x22 {
        string_end(s, i + 1)
    } else if s[i] == 0x7b {
        match object_at(s, i, depth) {
            Some((_, e)) => Some(e),
            None => None,
        }
    } else if s[i] == 0x5b {
        match list_at(s, i, depth) {
            Some((_, e)) => Some(e),
            None => None,
        }
    } else if s[i] == 0x74 {
        word_end(s, i, "true"@)
    } else if s[i] == 0x66 {
        word_end(s, i, "false"@)
    } else if s[i] == 0x6e {
        word_end(s, i, "null"@)
    } else {
        number_end(s, i)
    }
}

/// The members of the object that begins at `i`, in their order, and where it ends.
pub open spec fn object_at(s: Seq<u8>, i: int, depth: nat) -> Option<(Seq<Member>, int)>
    decreases depth, 1int, 0int,
{
    if depth == 0 || !is_at(s, i, 0x7b) {
        None
    } else {
        let j = skipped(s, i + 1);
        if is_at(s, j, 0x7d) {
            Some((Seq::empty(), j + 1))
        } else {
            members_from(s, j, (depth - 1) as nat, Seq::empty())
        }
    }
}

/// The members of an object of which those in `done` are known and the next begins at `j`.
pub open spec fn members_from(s: Seq<u8>, j: int, depth: nat, done: Seq<Member>) -> Option<
    (Seq<Member>, int),
>
    decreases depth, 3int, s.len() - j,
{
    if !is_at(s, j, 0x22) {
        None
    } else {
        match string_end(s, j + 1) {
            None => None,
            Some(k) => {
                let c = skipped(s, k);
                let v = skipped(s, c + 1);
                if !is_at(s, c, 0x3a) {
                    None
                } else {
                    match value_end(s, v, depth) {
                        None => None,
                        Some(e) => {
                            let n = skipped(s, e);
                            let now = done.push(Member { key: j as usize, value: v as usize });
                            if is_at(s, n, 0x7d) {
                                Some((now, n + 1))
                            } else if is_at(s, n, 0x2c) && j < skipped(s, n + 1) <= s.len() {
                                members_from(s, skipped(s, n + 1), depth, now)
                            } else {
                                None
                            }
                        },
                    }
                }
            },
        }
    }
}

/// Where each element of the list begins that begins at `i`, in their order, and where it ends.
pub open spec fn list_at(s: Seq<u8>, i: int, depth: nat) -> Option<(Seq<usize>, int)>
    decreases depth, 1int, 0int,
{
    if depth == 0 || !is_at(s, i, 0x5b) {
        None
    } else {
        let j = skipped(s, i + 1);
        if is_at(s, j, 0x5d) {
            Some((Seq::empty(), j + 1))
        } else {
            elements_from(s, j, (depth - 1) as nat, Seq::empty())
        }
    }
}

/// The elements of a list of which those in `done` are known and the next begins at `j`.
pub open spec fn elements_from(s: Seq<u8>, j: int, depth: nat, done: Seq<usize>) -> Option<
    (Seq<usize>, int),
>
    decreases depth, 3int, s.len() - j,
{
    if !(0 <= j < s.len()) {
        None
    } else {
        match value_end(s, j, depth) {
            None => None,
            Some(e) => {
                let n = skipped(s, e);
                let now = done.push(j as usize);
                if is_at(s, n, 0x5d) {
                    Some((now, n + 1))
                } else if is_at(s, n, 0x2c) && j < skipped(s, n + 1) <= s.len() {
                    elements_from(s, skipped(s, n + 1), depth, now)
                } else {
                    None
                }
            },
        }
    }
}

/// The parts that were found, by their views, and where they end.
pub open spec fn found<T>(r: Option<(Vec<T>, usize)>) -> Option<(Seq<T>, int)> {
    match r {
        Some((v, e)) => Some((v@, e as int)),
        None => None,
    }
}

/// What was found is all of what was found, and where it ends.
pub proof fn law_what_is_found_is_all_of_it<T>(v: Vec<T>, e: usize)
    ensures
        found(Some((v, e))) == Some((v@, e as int)),
        found::<T>(None) is None,
{
}

/// Where the value ends that begins at `i`, lists and objects nested at most `depth` deep.
pub fn skip_value(s: &[u8], i: usize, depth: usize) -> (r: Option<usize>)
    ensures
        spot(r) == value_end(s@, i as int, depth as nat),
        r matches Some(e) ==> i < e <= s@.len(),
    decreases depth, 2int, 0int,
{
    if i >= s.len() {
        return None;
    }
    let b: u8 = s[i];
    if b == 0x22 {
        skip_string(s, i + 1)
    } else if b == 0x7b {
        match read_object(s, i, depth) {
            Some((_, e)) => Some(e),
            None => None,
        }
    } else if b == 0x5b {
        match read_list(s, i, depth) {
            Some((_, e)) => Some(e),
            None => None,
        }
    } else if b == 0x74 {
        proof {
            reveal_strlit("true");
            lemma_ascii_len("true"@);
        }
        skip_word(s, i, "true")
    } else if b == 0x66 {
        proof {
            reveal_strlit("false");
            lemma_ascii_len("false"@);
        }
        skip_word(s, i, "false")
    } else if b == 0x6e {
        proof {
            reveal_strlit("null");
            lemma_ascii_len("null"@);
        }
        skip_word(s, i, "null")
    } else {
        skip_number(s, i)
    }
}

/// The members of the object that begins at `i`, in their order, and where it ends.
pub fn read_object(s: &[u8], i: usize, depth: usize) -> (r: Option<(Vec<Member>, usize)>)
    ensures
        found(r) == object_at(s@, i as int, depth as nat),
        r matches Some((_, e)) ==> i < e <= s@.len(),
    decreases depth, 1int, 0int,
{
    if depth == 0 || !at(s, i, 0x7b) {
        return None;
    }
    let mut done: Vec<Member> = Vec::new();
    let mut j: usize = skip(s, i + 1);
    if at(s, j, 0x7d) {
        assert(done@ =~= Seq::empty());
        return Some((done, j + 1));
    }
    assert(done@ =~= Seq::empty());
    loop
        invariant
            depth > 0,
            i < j <= s@.len(),
            object_at(s@, i as int, depth as nat) == members_from(
                s@,
                j as int,
                (depth - 1) as nat,
                done@,
            ),
        decreases s.len() - j,
    {
        if !at(s, j, 0x22) {
            return None;
        }
        let k: usize = match skip_string(s, j + 1) {
            Some(k) => k,
            None => {
                return None;
            },
        };
        let c: usize = skip(s, k);
        if !at(s, c, 0x3a) {
            return None;
        }
        let v: usize = skip(s, c + 1);
        let e: usize = match skip_value(s, v, depth - 1) {
            Some(e) => e,
            None => {
                return None;
            },
        };
        let n: usize = skip(s, e);
        done.push(Member { key: j, value: v });
        if at(s, n, 0x7d) {
            return Some((done, n + 1));
        }
        if !at(s, n, 0x2c) {
            return None;
        }
        j = skip(s, n + 1);
    }
}

/// Where each element of the list begins that begins at `i`, in their order, and where it ends.
pub fn read_list(s: &[u8], i: usize, depth: usize) -> (r: Option<(Vec<usize>, usize)>)
    ensures
        found(r) == list_at(s@, i as int, depth as nat),
        r matches Some((_, e)) ==> i < e <= s@.len(),
    decreases depth, 1int, 0int,
{
    if depth == 0 || !at(s, i, 0x5b) {
        return None;
    }
    let mut done: Vec<usize> = Vec::new();
    let mut j: usize = skip(s, i + 1);
    if at(s, j, 0x5d) {
        assert(done@ =~= Seq::empty());
        return Some((done, j + 1));
    }
    assert(done@ =~= Seq::empty());
    loop
        invariant
            depth > 0,
            i < j <= s@.len(),
            list_at(s@, i as int, depth as nat) == elements_from(
                s@,
                j as int,
                (depth - 1) as nat,
                done@,
            ),
        decreases s.len() - j,
    {
        let e: usize = match skip_value(s, j, depth - 1) {
            Some(e) => e,
            None => {
                return None;
            },
        };
        let n: usize = skip(s, e);
        done.push(j);
        if at(s, n, 0x5d) {
            return Some((done, n + 1));
        }
        if !at(s, n, 0x2c) {
            return None;
        }
        j = skip(s, n + 1);
    }
}

/// Where the closing quote stands of a string that is written without escapes, `i` being past its opening
/// quote or further in.
pub open spec fn plain_end(s: Seq<u8>, i: int) -> Option<int>
    decreases s.len() - i,
{
    if !(0 <= i < s.len()) || s[i] < 0x20 || s[i] == 0x5c {
        None
    } else if s[i] == 0x22 {
        Some(i)
    } else {
        plain_end(s, i + 1)
    }
}

/// Where the closing quote stands of a string that is written without escapes.
pub fn find_plain_end(s: &[u8], i: usize) -> (r: Option<usize>)
    requires
        i <= s@.len(),
    ensures
        spot(r) == plain_end(s@, i as int),
        r matches Some(e) ==> i <= e < s@.len(),
        r matches Some(e) ==> s@[e as int] == 0x22 && forall|k: int|
            i <= k < e ==> #[trigger] s@[k] >= 0x20 && s@[k] != 0x22 && s@[k] != 0x5c,
{
    let mut j: usize = i;
    while j < s.len()
        invariant
            i <= j <= s@.len(),
            forall|k: int|
                i <= k < j ==> #[trigger] s@[k] >= 0x20 && s@[k] != 0x22 && s@[k] != 0x5c,
            plain_end(s@, i as int) == plain_end(s@, j as int),
        decreases s.len() - j,
    {
        let b: u8 = s[j];
        if b < 0x20 || b == 0x5c {
            return None;
        }
        if b == 0x22 {
            return Some(j);
        }
        j = j + 1;
    }
    None
}

/// What stands between the quotes of the string that begins at `k`, where it is written without escapes and
/// so means what it shows.
pub open spec fn literal(s: Seq<u8>, k: int) -> Option<Seq<u8>> {
    if !is_at(s, k, 0x22) {
        None
    } else {
        match plain_end(s, k + 1) {
            Some(e) => Some(s.subrange(k + 1, e)),
            None => None,
        }
    }
}

/// What stands between the quotes of the string that begins at `k`, where it is written without escapes.
pub fn read_literal(s: &[u8], k: usize) -> (r: Option<&[u8]>)
    ensures
        match r {
            Some(t) => literal(s@, k as int) == Some(t@),
            None => literal(s@, k as int) is None,
        },
        r matches Some(t) ==> {
            &&& k + 1 + t@.len() < s@.len()
            &&& s@[k as int] == 0x22 && s@[k + 1 + t@.len()] == 0x22
            &&& t@ == s@.subrange(k + 1, k + 1 + t@.len())
            &&& forall|j: int|
                0 <= j < t@.len() ==> #[trigger] t@[j] >= 0x20 && t@[j] != 0x22 && t@[j] != 0x5c
        },
{
    if !at(s, k, 0x22) {
        return None;
    }
    match find_plain_end(s, k + 1) {
        Some(e) => Some(slice_subrange(s, k + 1, e)),
        None => None,
    }
}

/// Whether the string that begins at `k` shows `word`.
pub open spec fn named(s: Seq<u8>, k: int, word: Seq<char>) -> bool {
    literal(s, k) == Some(encode_utf8(word))
}

/// Whether the string that begins at `k` shows `word`.
pub fn is_named(s: &[u8], k: usize, word: &str) -> (r: bool)
    ensures
        r == named(s@, k as int, word@),
        r <==> literal(s@, k as int) == Some(encode_utf8(word@)),
{
    match read_literal(s, k) {
        Some(t) => same_bytes(t, word.as_bytes()),
        None => false,
    }
}

/// Whether two runs of bytes are the same.
pub fn same_bytes(a: &[u8], b: &[u8]) -> (r: bool)
    ensures
        r == (a@ == b@),
{
    if a.len() != b.len() {
        return false;
    }
    let mut k: usize = 0;
    while k < a.len()
        invariant
            a@.len() == b@.len(),
            k <= a@.len(),
            forall|j: int| 0 <= j < k ==> a@[j] == #[trigger] b@[j],
        decreases a.len() - k,
    {
        if a[k] != b[k] {
            return false;
        }
        k = k + 1;
    }
    assert(a@ =~= b@);
    true
}

/// The values of the members named `word`, in their order.
pub open spec fn values_named(s: Seq<u8>, members: Seq<Member>, word: Seq<char>) -> Seq<usize>
    decreases members.len(),
{
    if members.len() == 0 {
        Seq::empty()
    } else {
        let before = values_named(s, members.drop_last(), word);
        if named(s, members.last().key as int, word) {
            before.push(members.last().value)
        } else {
            before
        }
    }
}

/// The values of the members named `word`, in their order.
pub fn find_values(s: &[u8], members: &Vec<Member>, word: &str) -> (r: Vec<usize>)
    ensures
        r@ == values_named(s@, members@, word@),
{
    let mut r: Vec<usize> = Vec::new();
    let mut k: usize = 0;
    while k < members.len()
        invariant
            k <= members@.len(),
            r@ == values_named(s@, members@.take(k as int), word@),
        decreases members.len() - k,
    {
        assert(members@.take(k + 1).drop_last() =~= members@.take(k as int));
        if is_named(s, members[k].key, word) {
            r.push(members[k].value);
        }
        k = k + 1;
    }
    assert(members@.take(k as int) =~= members@);
    r
}

/// The value of the member named `word`, where there is exactly one.
pub open spec fn only(s: Seq<u8>, members: Seq<Member>, word: Seq<char>) -> Option<int> {
    let values = values_named(s, members, word);
    if values.len() == 1 {
        Some(values[0] as int)
    } else {
        None
    }
}

/// The value of the member named `word`, where there is exactly one.
pub fn find_only(s: &[u8], members: &Vec<Member>, word: &str) -> (r: Option<usize>)
    ensures
        spot(r) == only(s@, members@, word@),
{
    let values: Vec<usize> = find_values(s, members, word);
    if values.len() == 1 {
        Some(values[0])
    } else {
        None
    }
}

/// The members of the object that begins at `i`, where each key is written without escapes.
pub open spec fn fields(s: Seq<u8>, i: int, depth: nat) -> Option<Seq<Member>> {
    match object_at(s, i, depth) {
        Some((members, _)) => if forall|j: int|
            0 <= j < members.len() ==> literal(s, (#[trigger] members[j]).key as int) is Some {
            Some(members)
        } else {
            None
        },
        None => None,
    }
}

/// The members of the object that begins at `i`, where each key is written without escapes.
pub fn read_fields(s: &[u8], i: usize, depth: usize) -> (r: Option<Vec<Member>>)
    ensures
        match r {
            Some(members) => fields(s@, i as int, depth as nat) == Some(members@),
            None => fields(s@, i as int, depth as nat) is None,
        },
{
    let (members, end): (Vec<Member>, usize) = match read_object(s, i, depth) {
        Some(object) => object,
        None => {
            return None;
        },
    };
    let mut k: usize = 0;
    while k < members.len()
        invariant
            object_at(s@, i as int, depth as nat) == Some((members@, end as int)),
            k <= members@.len(),
            forall|j: int|
                0 <= j < k ==> literal(s@, (#[trigger] members@[j]).key as int) is Some,
        decreases members.len() - k,
    {
        if read_literal(s, members[k].key).is_none() {
            assert(literal(s@, members@[k as int].key as int) is None);
            return None;
        }
        k = k + 1;
    }
    Some(members)
}

/// White space is passed over to its end and no further.
pub proof fn law_white_space_is_passed_over_to_its_end(s: Seq<u8>, i: int, e: int)
    requires
        0 <= i <= e <= s.len(),
        forall|k: int|
            i <= k < e ==> #[trigger] s[k] == 0x20 || s[k] == 0x09 || s[k] == 0x0a || s[k] == 0x0d,
        e < s.len() ==> s[e] != 0x20 && s[e] != 0x09 && s[e] != 0x0a && s[e] != 0x0d,
    ensures
        skipped(s, i) == e,
    decreases e - i,
{
    if i < e {
        law_white_space_is_passed_over_to_its_end(s, i + 1, e);
    }
}

/// Digits are passed over to their end and no further.
pub proof fn law_digits_are_passed_over_to_their_end(s: Seq<u8>, i: int, e: int)
    requires
        0 <= i <= e <= s.len(),
        forall|k: int| i <= k < e ==> 0x30 <= #[trigger] s[k] <= 0x39,
        e < s.len() ==> !(0x30 <= s[e] <= 0x39),
    ensures
        digits_end(s, i) == e,
    decreases e - i,
{
    if i < e {
        law_digits_are_passed_over_to_their_end(s, i + 1, e);
    }
}

/// A string that is written without escapes ends at its first quote, and is what stands before that, however
/// long it is.
pub proof fn law_a_plain_string_ends_at_its_first_quote(s: Seq<u8>, i: int, e: int)
    requires
        0 <= i <= e < s.len(),
        forall|k: int| i <= k < e ==> #[trigger] s[k] >= 0x20 && s[k] != 0x22 && s[k] != 0x5c,
        s[e] == 0x22,
    ensures
        string_end(s, i) == Some(e + 1),
        plain_end(s, i) == Some(e),
        i > 0 && s[i - 1] == 0x22 ==> literal(s, i - 1) == Some(s.subrange(i, e)),
    decreases e - i,
{
    if i < e {
        law_a_plain_string_ends_at_its_first_quote(s, i + 1, e);
    }
}

/// A string with a control character in it, or without a quote at its end, is none; nor does one show what it
/// means once there is a backslash in it.
pub proof fn law_a_broken_string_is_none(s: Seq<u8>, i: int, e: int)
    requires
        0 <= i <= e <= s.len(),
        forall|k: int| i <= k < e ==> #[trigger] s[k] >= 0x20 && s[k] != 0x22 && s[k] != 0x5c,
        e == s.len() || s[e] < 0x20 || s[e] == 0x5c,
    ensures
        plain_end(s, i) is None,
        e == s.len() || s[e] < 0x20 ==> string_end(s, i) is None,
    decreases e - i,
{
    if i < e {
        law_a_broken_string_is_none(s, i + 1, e);
    }
}

/// A backslash and the letter behind it are passed over together, and so is a backslash with the four digits of
/// a code unit, or two of them where they make one character; the string goes on behind them.
pub proof fn law_an_escape_is_passed_over_whole(s: Seq<u8>, i: int)
    requires
        0 <= i,
        i + 1 < s.len(),
        s[i] == 0x5c,
    ensures
        ({
            let c = s[i + 1];
            let letter = c == 0x22 || c == 0x5c || c == 0x2f || c == 0x62 || c == 0x66 || c == 0x6e || c
                == 0x72 || c == 0x74;
            let unit = hex_four(s, i + 2);
            let low = hex_four(s, i + 8);
            &&& letter ==> escape_len(s, i) == Some(2int) && string_end(s, i) == string_end(s, i + 2)
            &&& !letter && c != 0x75 ==> string_end(s, i) is None
            &&& c == 0x75 && unit is None ==> string_end(s, i) is None
            &&& c == 0x75 && unit is Some && (unit->0 < 0xd800 || unit->0 >= 0xe000) ==> string_end(
                s,
                i,
            ) == string_end(s, i + 6)
            &&& c == 0x75 && unit is Some && 0xdc00 <= unit->0 < 0xe000 ==> string_end(s, i) is None
            &&& c == 0x75 && unit is Some && 0xd800 <= unit->0 < 0xdc00 ==> {
                if i + 8 <= s.len() && s[i + 6] == 0x5c && s[i + 7] == 0x75 && low is Some && 0xdc00
                    <= low->0 < 0xe000 {
                    string_end(s, i) == string_end(s, i + 12)
                } else {
                    string_end(s, i) is None
                }
            }
        }),
{
}

/// A number of up to 200 characters is passed over whole: a sign or none, digits that begin with a zero only
/// where it is the one digit, a point with digits behind it or none, an exponent of one or two digits with a
/// sign or without, or none.
pub proof fn law_a_number_is_passed_over_whole(
    s: Seq<u8>,
    i: int,
    digits: int,
    point: int,
    exponent: int,
    power: int,
    end: int,
)
    requires
        0 <= i <= digits < point <= exponent <= power <= end <= s.len(),
        end - i <= 200,
        digits == i && s[i] != 0x2d || digits == i + 1 && s[i] == 0x2d,
        forall|k: int| digits <= k < point ==> 0x30 <= #[trigger] s[k] <= 0x39,
        s[digits] == 0x30 ==> point == digits + 1,
        point < exponent ==> s[point] == 0x2e && point + 1 < exponent,
        forall|k: int| point < k < exponent ==> 0x30 <= #[trigger] s[k] <= 0x39,
        exponent < end ==> {
            &&& s[exponent] == 0x65 || s[exponent] == 0x45
            &&& power == exponent + 1 && s[power] != 0x2b && s[power] != 0x2d || power == exponent + 2
                && (s[exponent + 1] == 0x2b || s[exponent + 1] == 0x2d)
            &&& power < end <= power + 2
        },
        exponent == end ==> power == end,
        forall|k: int| power <= k < end ==> 0x30 <= #[trigger] s[k] <= 0x39,
        end < s.len() ==> !(0x30 <= s[end] <= 0x39),
        end < s.len() && exponent == end ==> s[end] != 0x65 && s[end] != 0x45,
        end < s.len() && point == end ==> s[end] != 0x2e,
    ensures
        number_end(s, i) == Some(end),
{
    law_digits_are_passed_over_to_their_end(s, digits, point);
    if point < exponent {
        law_digits_are_passed_over_to_their_end(s, point + 1, exponent);
    }
    if exponent < end {
        law_digits_are_passed_over_to_their_end(s, power, end);
    }
}

proof fn lemma_digits_end(s: Seq<u8>, i: int)
    requires
        0 <= i <= s.len(),
    ensures
        i <= digits_end(s, i) <= s.len(),
        forall|k: int| i <= k < digits_end(s, i) ==> 0x30 <= #[trigger] s[k] <= 0x39,
        digits_end(s, i) < s.len() ==> !(0x30 <= s[digits_end(s, i)] <= 0x39),
    decreases s.len() - i,
{
    if i < s.len() && is_digit(s[i]) {
        lemma_digits_end(s, i + 1);
    }
}

/// What is taken for a number begins with a sign or a digit and ends with a digit, has no more than 200 characters
/// and none but those of numbers, and is followed by no digit.
pub proof fn law_a_number_is_made_of_its_characters(s: Seq<u8>, i: int, e: int)
    requires
        0 <= i < s.len(),
        number_end(s, i) == Some(e),
    ensures
        i < e <= s.len(),
        e - i <= 200,
        s[i] == 0x2d || 0x30 <= s[i] <= 0x39,
        0x30 <= s[e - 1] <= 0x39,
        e < s.len() ==> !(0x30 <= s[e] <= 0x39),
        forall|k: int|
            i <= k < e ==> 0x30 <= #[trigger] s[k] <= 0x39 || s[k] == 0x2b || s[k] == 0x2d || s[k] == 0x2e
                || s[k] == 0x45 || s[k] == 0x65,
        i + 1 < e && s[i] == 0x30 ==> !(0x30 <= s[i + 1] <= 0x39),
{
    let a = if is_at(s, i, 0x2d) {
        i + 1
    } else {
        i
    };
    lemma_digits_end(s, a);
    let b = digits_end(s, a);
    if is_at(s, b, 0x2e) {
        lemma_digits_end(s, b + 1);
    }
    let c = fraction_end(s, b)->0;
    if is_at(s, c, 0x65) || is_at(s, c, 0x45) {
        let d = past_sign(s, c + 1);
        if d <= s.len() {
            lemma_digits_end(s, d);
        }
    }
}

/// A number with a second digit behind a zero at its front, a point with no digit behind it, or an exponent of no
/// digits or of more than two is none.
pub proof fn law_a_broken_number_is_none(s: Seq<u8>, i: int, b: int, c: int)
    requires
        0 <= i < b <= c <= s.len(),
        forall|k: int| i <= k < b ==> 0x30 <= #[trigger] s[k] <= 0x39,
        b < s.len() ==> !(0x30 <= s[b] <= 0x39),
        c == b || s[b] == 0x2e,
        forall|k: int| b < k < c ==> 0x30 <= #[trigger] s[k] <= 0x39,
        b < c && c < s.len() ==> !(0x30 <= s[c] <= 0x39),
    ensures
        s[i] == 0x30 && b > i + 1 ==> number_end(s, i) is None,
        c == b + 1 ==> number_end(s, i) is None,
        (c > b || c == s.len() || s[c] != 0x2e) && is_at(s, c, 0x65) && c + 3 < s.len() && 0x30
            <= s[c + 1] <= 0x39 && 0x30 <= s[c + 2] <= 0x39 && 0x30 <= s[c + 3] <= 0x39 ==> number_end(
            s,
            i,
        ) is None,
        c > b + 1 && is_at(s, c, 0x65) && c + 1 < s.len() && s[c + 1] != 0x2b && s[c + 1] != 0x2d && !(
        0x30 <= s[c + 1] <= 0x39) ==> number_end(s, i) is None,
{
    law_digits_are_passed_over_to_their_end(s, i, b);
    if c > b {
        law_digits_are_passed_over_to_their_end(s, b + 1, c);
    }
    if is_at(s, c, 0x65) && c + 3 < s.len() {
        lemma_digits_end(s, c + 1);
    }
    if is_at(s, c, 0x65) && c + 1 < s.len() {
        lemma_digits_end(s, c + 1);
    }
}

/// What a value is shows at its first character, and it ends where a value of that kind ends.
pub proof fn law_a_value_is_what_it_begins_as(s: Seq<u8>, i: int, depth: nat)
    requires
        0 <= i < s.len(),
    ensures
        s[i] == 0x22 ==> value_end(s, i, depth) == string_end(s, i + 1),
        s[i] == 0x7b ==> (value_end(s, i, depth) is Some <==> object_at(s, i, depth) is Some),
        s[i] == 0x7b && object_at(s, i, depth) is Some ==> value_end(s, i, depth) == Some(
            (object_at(s, i, depth)->0).1,
        ),
        s[i] == 0x5b ==> (value_end(s, i, depth) is Some <==> list_at(s, i, depth) is Some),
        s[i] == 0x5b && list_at(s, i, depth) is Some ==> value_end(s, i, depth) == Some(
            (list_at(s, i, depth)->0).1,
        ),
        s[i] == 0x2d || 0x30 <= s[i] <= 0x39 ==> value_end(s, i, depth) == number_end(s, i),
        spells(s, i, "true"@) ==> value_end(s, i, depth) == Some(i + 4),
        spells(s, i, "false"@) ==> value_end(s, i, depth) == Some(i + 5),
        spells(s, i, "null"@) ==> value_end(s, i, depth) == Some(i + 4),
{
    reveal_strlit("true");
    reveal_strlit("false");
    reveal_strlit("null");
    lemma_begins_with("true"@, s, i);
    lemma_begins_with("false"@, s, i);
    lemma_begins_with("null"@, s, i);
}

proof fn lemma_begins_with(word: Seq<char>, s: Seq<u8>, i: int)
    requires
        is_ascii_chars(word),
        word.len() > 0,
    ensures
        encode_utf8(word).len() == word.len(),
        spells(s, i, word) ==> s[i] == word[0] as u8,
{
    is_ascii_chars_encode_utf8(word);
    if spells(s, i, word) {
        assert(s.subrange(i, i + encode_utf8(word).len())[0] == encode_utf8(word)[0]);
    }
}

/// Each element of a list is read, one after the other: behind an element and a comma the list goes on with the
/// next, behind an element and a bracket it ends, and nothing else may stand there. A bracket with nothing but
/// white space before it ends a list without elements.
pub proof fn law_a_list_is_read_element_by_element(
    s: Seq<u8>,
    i: int,
    depth: nat,
    done: Seq<usize>,
    end: int,
)
    requires
        0 <= i < s.len(),
        value_end(s, i, depth) == Some(end),
        0 <= i < end <= s.len(),
        i <= usize::MAX,
    ensures
        ({
            let n = skipped(s, end);
            let next = skipped(s, n + 1);
            &&& is_at(s, n, 0x5d) ==> elements_from(s, i, depth, done) == Some(
                (done.push(i as usize), n + 1),
            )
            &&& is_at(s, n, 0x2c) && next <= s.len() ==> elements_from(s, i, depth, done)
                == elements_from(s, next, depth, done.push(i as usize))
            &&& !is_at(s, n, 0x5d) && !is_at(s, n, 0x2c) ==> elements_from(s, i, depth, done) is None
        }),
{
    lemma_skipped_goes_on(s, end);
    if is_at(s, skipped(s, end), 0x2c) {
        lemma_skipped_goes_on(s, skipped(s, end) + 1);
    }
}

proof fn lemma_skipped_goes_on(s: Seq<u8>, i: int)
    ensures
        skipped(s, i) >= i,
    decreases s.len() - i,
{
    if 0 <= i < s.len() && is_space(s[i]) {
        lemma_skipped_goes_on(s, i + 1);
    }
}

/// A list begins at a bracket, an object at a brace, and either is one deeper than what is in it; with nothing
/// but white space before the closing one it is empty.
pub proof fn law_lists_and_objects_open_and_close(s: Seq<u8>, i: int, depth: nat)
    requires
        0 <= i < s.len(),
    ensures
        ({
            let j = skipped(s, i + 1);
            &&& list_at(s, i, 0) is None && object_at(s, i, 0) is None
            &&& s[i] != 0x5b ==> list_at(s, i, depth) is None
            &&& s[i] != 0x7b ==> object_at(s, i, depth) is None
            &&& s[i] == 0x5b && is_at(s, j, 0x5d) ==> list_at(s, i, depth + 1) == Some(
                (Seq::<usize>::empty(), j + 1),
            )
            &&& s[i] == 0x5b && !is_at(s, j, 0x5d) ==> list_at(s, i, depth + 1) == elements_from(
                s,
                j,
                depth,
                Seq::empty(),
            )
            &&& s[i] == 0x7b && is_at(s, j, 0x7d) ==> object_at(s, i, depth + 1) == Some(
                (Seq::<Member>::empty(), j + 1),
            )
            &&& s[i] == 0x7b && !is_at(s, j, 0x7d) ==> object_at(s, i, depth + 1) == members_from(
                s,
                j,
                depth,
                Seq::empty(),
            )
        }),
{
}

/// Each member of an object is read, one after the other: a key in quotes, a colon, a value; behind that and a
/// comma the object goes on with the next, behind that and a brace it ends, and nothing else may stand there.
pub proof fn law_an_object_is_read_member_by_member(
    s: Seq<u8>,
    key: int,
    key_end: int,
    end: int,
    depth: nat,
    done: Seq<Member>,
)
    requires
        0 <= key < key_end <= s.len() <= usize::MAX,
        s[key] == 0x22,
        string_end(s, key + 1) == Some(key_end),
        is_at(s, skipped(s, key_end), 0x3a),
        value_end(s, skipped(s, skipped(s, key_end) + 1), depth) == Some(end),
        skipped(s, skipped(s, key_end) + 1) < end <= s.len(),
    ensures
        ({
            let value = skipped(s, skipped(s, key_end) + 1);
            let n = skipped(s, end);
            let next = skipped(s, n + 1);
            let now = done.push(Member { key: key as usize, value: value as usize });
            &&& is_at(s, n, 0x7d) ==> members_from(s, key, depth, done) == Some((now, n + 1))
            &&& is_at(s, n, 0x2c) && next <= s.len() ==> members_from(s, key, depth, done)
                == members_from(s, next, depth, now)
            &&& !is_at(s, n, 0x7d) && !is_at(s, n, 0x2c) ==> members_from(s, key, depth, done) is None
        }),
{
    lemma_skipped_goes_on(s, key_end);
    lemma_skipped_goes_on(s, skipped(s, key_end) + 1);
    lemma_skipped_goes_on(s, end);
    if is_at(s, skipped(s, end), 0x2c) {
        lemma_skipped_goes_on(s, skipped(s, end) + 1);
    }
}

/// Every member counts towards those of a name: one more member of that name is one more value, behind those
/// there were, and one of another name changes nothing.
pub proof fn law_every_member_of_a_name_is_found(
    s: Seq<u8>,
    members: Seq<Member>,
    m: Member,
    word: Seq<char>,
)
    ensures
        values_named(s, Seq::empty(), word) == Seq::<usize>::empty(),
        literal(s, m.key as int) == Some(encode_utf8(word)) ==> values_named(s, members.push(m), word)
            == values_named(s, members, word).push(m.value),
        literal(s, m.key as int) != Some(encode_utf8(word)) ==> values_named(s, members.push(m), word)
            == values_named(s, members, word),
        only(s, members, word) is Some <==> values_named(s, members, word).len() == 1,
        only(s, members, word) matches Some(v) ==> values_named(s, members, word)[0] == v,
{
    assert(members.push(m).drop_last() =~= members);
}

/// The members of an object are those that were read, all of them, as long as each shows its name.
pub proof fn law_the_fields_are_all_the_members(s: Seq<u8>, i: int, depth: nat, j: int)
    ensures
        object_at(s, i, depth) is None ==> fields(s, i, depth) is None,
        fields(s, i, depth) is Some ==> fields(s, i, depth) == Some((object_at(s, i, depth)->0).0),
        object_at(s, i, depth) is Some && 0 <= j < (object_at(s, i, depth)->0).0.len() && literal(
            s,
            (object_at(s, i, depth)->0).0[j].key as int,
        ) is None ==> fields(s, i, depth) is None,
        object_at(s, i, depth) is Some && (forall|k: int|
            0 <= k < (object_at(s, i, depth)->0).0.len() ==> literal(
                s,
                (#[trigger] (object_at(s, i, depth)->0).0[k]).key as int,
            ) is Some) ==> fields(s, i, depth) is Some,
{
}

/// Characters within ASCII take a byte each.
proof fn lemma_ascii_len(word: Seq<char>)
    requires
        is_ascii_chars(word),
    ensures
        encode_utf8(word).len() == word.len(),
{
    is_ascii_chars_encode_utf8(word);
}

} // verus!
