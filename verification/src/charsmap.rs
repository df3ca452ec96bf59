//! The table of a precompiled normalizer: a trie over the bytes of a text, and the replacements that its
//! leaves point at. Whoever walks the trie follows its links without looking, so a table is walked here
//! first, to see that no link and no leaf leads outside.

use vstd::prelude::*;
use vstd::slice::slice_subrange;
use vstd::utf8::*;

verus! {

/// `std::str::from_utf8` on bytes: it succeeds on UTF-8 and on nothing else, which is what `valid_utf8`
/// describes.
#[verifier::external_body]
fn is_utf8(bytes: &[u8]) -> (r: bool)
    ensures
        r == valid_utf8(bytes@),
{
    std::str::from_utf8(bytes).is_ok()
}

/// The six bits that a character of base 64 stands for.
pub open spec fn sextet(b: u8) -> Option<nat> {
    if 0x41 <= b <= 0x5a {
        Some((b - 0x41) as nat)
    } else if 0x61 <= b <= 0x7a {
        Some((b - 0x61 + 26) as nat)
    } else if 0x30 <= b <= 0x39 {
        Some((b - 0x30 + 52) as nat)
    } else if b == 0x2b {
        Some(62)
    } else if b == 0x2f {
        Some(63)
    } else {
        None
    }
}

fn read_sextet(b: u8) -> (r: Option<u8>)
    ensures
        match r {
            Some(n) => sextet(b) == Some(n as nat) && n < 64,
            None => sextet(b) is None,
        },
        r is Some <==> 0x41 <= b <= 0x5a || 0x61 <= b <= 0x7a || 0x30 <= b <= 0x39 || b == 0x2b || b
            == 0x2f,
        0x41 <= b <= 0x5a ==> r->0 == b - 65,
        0x61 <= b <= 0x7a ==> r->0 == b - 71,
        0x30 <= b <= 0x39 ==> r->0 == b + 4,
        b == 0x2b ==> r->0 == 62,
        b == 0x2f ==> r->0 == 63,
{
    if 0x41 <= b && b <= 0x5a {
        Some(b - 0x41)
    } else if 0x61 <= b && b <= 0x7a {
        Some(b - 0x61 + 26)
    } else if 0x30 <= b && b <= 0x39 {
        Some(b - 0x30 + 52)
    } else if b == 0x2b {
        Some(62)
    } else if b == 0x2f {
        Some(63)
    } else {
        None
    }
}

/// The six bits at `i`, and none of them set where no character of base 64 stands there.
pub open spec fn bits(t: Seq<u8>, i: int) -> nat {
    match sextet(t[i]) {
        Some(n) => n,
        None => 0,
    }
}

fn bits_of(b: u8) -> (r: u8)
    ensures
        r < 64,
        r == (match sextet(b) {
            Some(n) => n,
            None => 0,
        }),
{
    match read_sextet(b) {
        Some(n) => n,
        None => 0,
    }
}

/// How many `=` fill up the last four characters.
pub open spec fn padding(t: Seq<u8>) -> nat {
    if t.len() < 4 || t[t.len() - 1] != 0x3d {
        0
    } else if t[t.len() - 2] != 0x3d {
        1
    } else {
        2
    }
}

/// Whether a text is the base 64 of some bytes, filled up and with no bit left over.
pub open spec fn well_coded(t: Seq<u8>) -> bool {
    &&& t.len() % 4 == 0
    &&& forall|i: int| 0 <= i < t.len() - padding(t) ==> sextet(#[trigger] t[i]) is Some
    &&& padding(t) == 1 ==> bits(t, t.len() - 2) % 4 == 0
    &&& padding(t) == 2 ==> bits(t, t.len() - 3) % 16 == 0
}

/// Byte `k` of what a text in base 64 stands for.
pub open spec fn coded_byte(t: Seq<u8>, k: int) -> u8 {
    let i = 4 * (k / 3) + k % 3;
    let a = bits(t, i);
    let b = bits(t, i + 1);
    (if k % 3 == 0 {
        a * 4 + b / 16
    } else if k % 3 == 1 {
        (a % 16) * 16 + b / 4
    } else {
        (a % 4) * 64 + b
    }) as u8
}

/// The bytes that a text in base 64 stands for.
pub open spec fn decoded(t: Seq<u8>) -> Seq<u8> {
    Seq::new((t.len() / 4 * 3 - padding(t)) as nat, |k: int| coded_byte(t, k))
}

/// The bytes that a text in base 64 stands for, or `None` where it is no base 64.
pub fn decode(t: &[u8]) -> (r: Option<Vec<u8>>)
    ensures
        match r {
            Some(v) => well_coded(t@) && v@ == decoded(t@),
            None => !well_coded(t@),
        },
{
    let len: usize = t.len();
    if len % 4 != 0 {
        return None;
    }
    let pad: usize = if len < 4 || t[len - 1] != 0x3d {
        0
    } else if t[len - 2] != 0x3d {
        1
    } else {
        2
    };
    let mut i: usize = 0;
    while i < len - pad
        invariant
            len == t@.len(),
            pad == padding(t@),
            i <= len - pad,
            forall|j: int| 0 <= j < i ==> sextet(#[trigger] t@[j]) is Some,
        decreases len - i,
    {
        if read_sextet(t[i]).is_none() {
            return None;
        }
        i = i + 1;
    }
    if pad == 1 && bits_of(t[len - 2]) % 4 != 0 {
        return None;
    }
    if pad == 2 && bits_of(t[len - 3]) % 16 != 0 {
        return None;
    }
    let total: usize = len / 4 * 3 - pad;
    let mut v: Vec<u8> = Vec::new();
    let mut k: usize = 0;
    while k < total
        invariant
            len == t@.len(),
            len % 4 == 0,
            pad == padding(t@),
            pad <= 2,
            total == len / 4 * 3 - pad,
            k <= total,
            v@.len() == k,
            forall|j: int| 0 <= j < k ==> v@[j] == #[trigger] coded_byte(t@, j),
        decreases total - k,
    {
        assert(k / 3 < len / 4);
        let i: usize = 4 * (k / 3) + k % 3;
        let a: u8 = bits_of(t[i]);
        let b: u8 = bits_of(t[i + 1]);
        let byte: u8 = if k % 3 == 0 {
            a * 4 + b / 16
        } else if k % 3 == 1 {
            (a % 16) * 16 + b / 4
        } else {
            (a % 4) * 64 + b
        };
        assert(byte == coded_byte(t@, k as int));
        v.push(byte);
        k = k + 1;
    }
    assert(v@ =~= decoded(t@));
    Some(v)
}

/// The characters of base 64 stand for the numbers up to 63 in their order: capitals, small letters, digits, a
/// plus sign and a slash. No other character stands for any.
pub proof fn law_characters_stand_for_six_bits(b: u8)
    ensures
        sextet(b) is Some <==> 0x41 <= b <= 0x5a || 0x61 <= b <= 0x7a || 0x30 <= b <= 0x39 || b == 0x2b
            || b == 0x2f,
        0x41 <= b <= 0x5a ==> sextet(b)->0 == b - 65,
        0x61 <= b <= 0x7a ==> sextet(b)->0 == b - 71,
        0x30 <= b <= 0x39 ==> sextet(b)->0 == b + 4,
        b == 0x2b ==> sextet(b)->0 == 62,
        b == 0x2f ==> sextet(b)->0 == 63,
{
}

/// Four characters of base 64 and the three bytes that they stand for write the same number, in every group of a
/// text; where the last group is filled up, the bytes that it lacks are zeros of which nothing is left.
pub proof fn law_four_characters_are_three_bytes(t: Seq<u8>, g: int)
    requires
        well_coded(t),
        0 <= g < t.len() as int / 4,
    ensures
        decoded(t).len() == t.len() as int / 4 * 3 - padding(t),
        ({
            let v = decoded(t);
            let third = if 3 * g + 2 < v.len() {
                v[3 * g + 2] as int
            } else {
                0
            };
            let second = if 3 * g + 1 < v.len() {
                v[3 * g + 1] as int
            } else {
                0
            };
            let a = sextet(t[4 * g])->0;
            let b = sextet(t[4 * g + 1])->0;
            let c = if t[4 * g + 2] == 0x3d {
                0
            } else {
                sextet(t[4 * g + 2])->0
            };
            let d = if t[4 * g + 3] == 0x3d {
                0
            } else {
                sextet(t[4 * g + 3])->0
            };
            (v[3 * g] * 256 + second) * 256 + third == ((a * 64 + b) * 64 + c) * 64 + d
        }),
{
    let v = decoded(t);
    let k = 3 * g;
    let n = t.len() as int;
    assert(k / 3 == g && k % 3 == 0);
    assert((k + 1) / 3 == g && (k + 1) % 3 == 1);
    assert((k + 2) / 3 == g && (k + 2) % 3 == 2);
    assert(v[k] == coded_byte(t, k));
    assert(4 * g + 4 <= n);
    assert(sextet(t[4 * g]) is Some && sextet(t[4 * g + 1]) is Some);
    if 4 * g + 4 < n {
        assert(sextet(t[4 * g + 2]) is Some && sextet(t[4 * g + 3]) is Some);
        assert(v[k + 1] == coded_byte(t, k + 1));
        assert(v[k + 2] == coded_byte(t, k + 2));
    } else {
        if padding(t) <= 1 {
            assert(sextet(t[4 * g + 2]) is Some);
            assert(v[k + 1] == coded_byte(t, k + 1));
        }
        if padding(t) == 0 {
            assert(sextet(t[4 * g + 3]) is Some);
            assert(v[k + 2] == coded_byte(t, k + 2));
        }
    }
}

/// A text is base 64 exactly where it has its characters by fours and all of them stand for something, but for
/// one or two equals signs that fill up the last four and leave no bit over.
pub proof fn law_base_64_comes_by_fours(t: Seq<u8>)
    ensures
        t.len() == 0 ==> well_coded(t) && decoded(t).len() == 0,
        t.len() > 0 ==> (well_coded(t) <==> t.len() % 4 == 0 && {
            let n = t.len() as int;
            let all = |m: int| forall|i: int| 0 <= i < m ==> sextet(#[trigger] t[i]) is Some;
            ||| t[n - 1] != 0x3d && all(n)
            ||| t[n - 1] == 0x3d && t[n - 2] != 0x3d && all(n - 1) && sextet(t[n - 2])->0 % 4 == 0
            ||| t[n - 1] == 0x3d && t[n - 2] == 0x3d && all(n - 2) && sextet(t[n - 3])->0 % 16 == 0
        }),
{
}

/// The number that four bytes write from `i` on, the least significant first.
pub open spec fn little_endian(t: Seq<u8>, i: int) -> u64 {
    (t[i] + 256 * t[i + 1] + 65_536 * t[i + 2] + 16_777_216 * t[i + 3]) as u64
}

fn read_little_endian(t: &[u8], i: usize) -> (r: u64)
    requires
        i + 4 <= t@.len(),
    ensures
        r == little_endian(t@, i as int),
        r == t@[i as int] + 256 * (t@[i + 1] + 256 * (t@[i + 2] + 256 * t@[i + 3])),
        r < 0x1_0000_0000,
{
    let len: usize = t.len();
    t[i] as u64 + 256 * (t[i + 1] as u64) + 65_536 * (t[i + 2] as u64) + 16_777_216 * (t[i
        + 3] as u64)
}

/// How many units the trie of a table has.
pub open spec fn unit_count(t: Seq<u8>) -> nat {
    (little_endian(t, 0) / 4) as nat
}

/// The units of the trie of a table.
pub open spec fn units_of(t: Seq<u8>) -> Seq<u64> {
    Seq::new(unit_count(t), |k: int| little_endian(t, 4 + 4 * k))
}

/// The replacements of a table, each up to a zero byte.
pub open spec fn replacements(t: Seq<u8>) -> Seq<u8> {
    t.skip(4 + 4 * unit_count(t) as int)
}

/// The byte that a unit is for.
pub open spec fn label(unit: u64) -> u64 {
    unit & 0x8000_00ff
}

/// Whether a text may end at a unit.
pub open spec fn has_leaf(unit: u64) -> bool {
    (unit >> 8) & 1 == 1
}

/// Where the replacement of a leaf begins.
pub open spec fn leaf_value(unit: u64) -> u64 {
    unit & 0x7fff_ffff
}

/// What leads from a unit to those below it.
pub open spec fn link(unit: u64) -> u64 {
    (unit >> 10) << ((unit & 0x200) >> 6)
}

fn link_of(unit: u64) -> (r: u64)
    ensures
        r == link(unit),
{
    assert((unit & 0x200) >> 6 < 64) by (bit_vector);
    (unit >> 10) << ((unit & 0x200) >> 6)
}

/// Whether a replacement can begin at `v`: within the text, at the start of a character or at the end.
pub open spec fn begins_character(text: Seq<u8>, v: u64) -> bool {
    v == text.len() || (v < text.len() && !(0x80 <= text[v as int] < 0xc0))
}

/// Whether the trie goes on with byte `c` from position `p`.
pub open spec fn goes_on(units: Seq<u64>, p: u64, c: u64) -> bool {
    label(units[(p ^ c) as int]) == c
}

/// Where byte `c` leads from position `p`.
pub open spec fn below(units: Seq<u64>, p: u64, c: u64) -> u64 {
    (p ^ c) ^ link(units[(p ^ c) as int])
}

/// Whether looking for byte `c` from position `p` stays within the trie, and a leaf found there within the
/// replacements.
pub open spec fn inside(units: Seq<u64>, text: Seq<u8>, p: u64, c: u64) -> bool {
    &&& (p ^ c) < units.len()
    &&& goes_on(units, p, c) && has_leaf(units[(p ^ c) as int]) ==> {
        &&& below(units, p, c) < units.len()
        &&& begins_character(text, leaf_value(units[below(units, p, c) as int]))
    }
}

/// Whether any text of up to `depth` bytes can be followed from position `p` of the trie, its first byte
/// `c` or a greater one.
pub open spec fn followed(units: Seq<u64>, text: Seq<u8>, p: u64, depth: nat, c: nat) -> bool
    decreases depth, 256 - c,
{
    if depth == 0 || c > 255 {
        true
    } else {
        let b = c as u64;
        &&& inside(units, text, p, b)
        &&& goes_on(units, p, b) ==> followed(units, text, below(units, p, b), (depth - 1) as nat, 1)
        &&& followed(units, text, p, depth, c + 1)
    }
}

fn follow(units: &Vec<u64>, text: &[u8], p: u64, depth: usize) -> (r: bool)
    ensures
        r == followed(units@, text@, p, depth as nat, 1),
    decreases depth,
{
    if depth == 0 {
        return true;
    }
    let mut c: u64 = 1;
    while c <= 255
        invariant
            depth > 0,
            1 <= c <= 256,
            followed(units@, text@, p, depth as nat, 1) == followed(
                units@,
                text@,
                p,
                depth as nat,
                c as nat,
            ),
        decreases 256 - c,
    {
        let q: u64 = p ^ c;
        if q >= units.len() as u64 {
            return false;
        }
        let unit: u64 = units[q as usize];
        if unit & 0x8000_00ff == c {
            let n: u64 = q ^ link_of(unit);
            if (unit >> 8) & 1 == 1 {
                if n >= units.len() as u64 {
                    return false;
                }
                let v: u64 = units[n as usize] & 0x7fff_ffff;
                let begins: bool = v == text.len() as u64 || (v < text.len() as u64 && !(0x80
                    <= text[v as usize] && text[v as usize] < 0xc0));
                if !begins {
                    return false;
                }
            }
            if !follow(units, text, n, depth - 1) {
                return false;
            }
        }
        c = c + 1;
    }
    true
}

proof fn lemma_a_byte_is_followed(
    units: Seq<u64>,
    text: Seq<u8>,
    p: u64,
    depth: nat,
    c: nat,
    b: u64,
)
    requires
        depth > 0,
        1 <= c <= b <= 255,
        followed(units, text, p, depth, c),
    ensures
        inside(units, text, p, b),
        goes_on(units, p, b) ==> followed(units, text, below(units, p, b), (depth - 1) as nat, 1),
    decreases 256 - c,
{
    if c < b {
        lemma_a_byte_is_followed(units, text, p, depth, c + 1, b);
    } else {
        assert(c as u64 == b);
    }
}

proof fn lemma_a_byte_is_not_followed(
    units: Seq<u64>,
    text: Seq<u8>,
    p: u64,
    depth: nat,
    c: nat,
) -> (b: u64)
    requires
        1 <= c,
        !followed(units, text, p, depth, c),
    ensures
        depth > 0,
        c <= b <= 255,
        !inside(units, text, p, b) || (goes_on(units, p, b) && !followed(
            units,
            text,
            below(units, p, b),
            (depth - 1) as nat,
            1,
        )),
    decreases 256 - c,
{
    let first = c as u64;
    if !inside(units, text, p, first) || (goes_on(units, p, first) && !followed(
        units,
        text,
        below(units, p, first),
        (depth - 1) as nat,
        1,
    )) {
        first
    } else {
        lemma_a_byte_is_not_followed(units, text, p, depth, c + 1)
    }
}

/// Where every text can be followed in a trie, every byte that a text may hold can be looked for, and wherever the
/// trie goes on with it, every text that is one byte shorter can be followed from there.
pub proof fn law_every_byte_is_followed(
    units: Seq<u64>,
    text: Seq<u8>,
    p: u64,
    depth: nat,
    b: u64,
)
    requires
        followed(units, text, p, depth, 1),
        depth > 0,
        1 <= b <= 255,
    ensures
        inside(units, text, p, b),
        goes_on(units, p, b) ==> followed(units, text, below(units, p, b), (depth - 1) as nat, 1),
{
    lemma_a_byte_is_followed(units, text, p, depth, 1, b);
}

/// Where some text cannot be followed, there is a byte that shows it: looking for it leads outside, or the trie
/// goes on with it and from there some text that is one byte shorter cannot be followed.
pub proof fn law_what_is_not_followed_fails_at_a_byte(
    units: Seq<u64>,
    text: Seq<u8>,
    p: u64,
    depth: nat,
) -> (b: u64)
    requires
        !followed(units, text, p, depth, 1),
    ensures
        depth > 0,
        1 <= b <= 255,
        !inside(units, text, p, b) || (goes_on(units, p, b) && !followed(
            units,
            text,
            below(units, p, b),
            (depth - 1) as nat,
            1,
        )),
{
    lemma_a_byte_is_not_followed(units, text, p, depth, 1)
}

/// What is looked at for a byte lies within the trie; and where a text may end there, what the leaf points at
/// lies within the replacements, at the start of a character or at their end.
pub proof fn law_what_is_looked_at_lies_inside(units: Seq<u64>, text: Seq<u8>, p: u64, b: u64)
    ensures
        ({
            let unit = units[(p ^ b) as int];
            let next = (p ^ b) ^ ((unit >> 10) << ((unit & 0x200) >> 6));
            let at = units[next as int] & 0x7fff_ffff;
            &&& goes_on(units, p, b) <==> unit & 0x8000_00ff == b
            &&& below(units, p, b) == next
            &&& inside(units, text, p, b) <==> (p ^ b) < units.len() && (unit & 0x8000_00ff == b && (unit
                >> 8) & 1 == 1 ==> {
                &&& next < units.len()
                &&& at <= text.len()
                &&& at < text.len() ==> text[at as int] < 0x80 || text[at as int] >= 0xc0
            })
        }),
{
}

/// A table is a number of bytes, as many bytes of units by fours, and the replacements.
pub proof fn law_a_table_is_units_and_replacements(t: Seq<u8>)
    requires
        t.len() >= 4,
        4 + (t[0] + 256 * (t[1] + 256 * (t[2] + 256 * t[3]))) / 4 * 4 <= t.len(),
    ensures
        ({
            let count = (t[0] + 256 * (t[1] + 256 * (t[2] + 256 * t[3]))) / 4;
            &&& units_of(t).len() == count
            &&& forall|k: int|
                0 <= k < count ==> #[trigger] units_of(t)[k] == t[4 + 4 * k] + 256 * (t[5 + 4 * k] + 256
                    * (t[6 + 4 * k] + 256 * t[7 + 4 * k]))
            &&& replacements(t) == t.subrange(4 + 4 * count, t.len() as int)
        }),
{
    let count = unit_count(t) as int;
    assert forall|k: int| 0 <= k < count implies #[trigger] units_of(t)[k] == t[4 + 4 * k] + 256 * (t[5
        + 4 * k] + 256 * (t[6 + 4 * k] + 256 * t[7 + 4 * k])) by {
        assert(units_of(t)[k] == little_endian(t, 4 + 4 * k));
    }
    assert(replacements(t) =~= t.subrange(4 + 4 * count, t.len() as int));
}

/// A table is sound exactly where it has a unit and as many as it says, its replacements are UTF-8, every text of
/// up to five bytes can be followed from the root, and a lone `<` has no replacement.
pub proof fn law_a_table_is_sound_where_any_text_can_be_looked_up(t: Seq<u8>)
    ensures
        t.len() < 4 ==> !sound_table(t),
        t.len() >= 4 ==> (sound_table(t) <==> {
            let count = (t[0] + 256 * (t[1] + 256 * (t[2] + 256 * t[3]))) / 4;
            let units = units_of(t);
            let root = (units[0] >> 10) << ((units[0] & 0x200) >> 6);
            let unit = units[(root ^ 0x3c) as int];
            &&& count > 0
            &&& 4 + 4 * count <= t.len()
            &&& valid_utf8(replacements(t))
            &&& followed(units, replacements(t), root, 5, 1)
            &&& (root ^ 0x3c) < units.len()
            &&& unit & 0x8000_00ff != 0x3c || (unit >> 8) & 1 != 1
        }),
{
}

/// The most bytes of a text that are looked up together.
pub const LOOKED_UP: usize = 5;

/// Whether the trie has nothing for a text of the single byte `b`.
pub open spec fn leaves_alone(units: Seq<u64>, b: u64) -> bool {
    let q = link(units[0]) ^ b;
    q < units.len() && !(label(units[q as int]) == b && has_leaf(units[q as int]))
}

/// Whether any text can be looked up in a table, and a lone `<` stays as it is.
pub open spec fn sound_table(t: Seq<u8>) -> bool {
    &&& t.len() >= 4
    &&& 4 + 4 * unit_count(t) <= t.len()
    &&& unit_count(t) > 0
    &&& valid_utf8(replacements(t))
    &&& followed(units_of(t), replacements(t), link(units_of(t)[0]), LOOKED_UP as nat, 1)
    &&& leaves_alone(units_of(t), 0x3c)
}

/// Whether any text can be looked up in the table with these bytes, and a lone `<` stays as it is.
pub fn check_table(t: &[u8]) -> (r: bool)
    ensures
        r == sound_table(t@),
{
    let len: usize = t.len();
    if len < 4 {
        return false;
    }
    let count: u64 = read_little_endian(t, 0) / 4;
    if count == 0 || count > ((len - 4) / 4) as u64 {
        return false;
    }
    let mut units: Vec<u64> = Vec::new();
    let mut k: usize = 0;
    while k < count as usize
        invariant
            len == t@.len(),
            count == unit_count(t@),
            4 + 4 * count <= len,
            k <= count,
            units@.len() == k,
            forall|j: int| 0 <= j < k ==> units@[j] == #[trigger] little_endian(t@, 4 + 4 * j),
        decreases count - k,
    {
        units.push(read_little_endian(t, 4 + 4 * k));
        k = k + 1;
    }
    assert(units@ =~= units_of(t@));
    let text: &[u8] = slice_subrange(t, 4 + 4 * k, len);
    assert(text@ =~= replacements(t@));
    if !is_utf8(text) {
        return false;
    }
    let root: u64 = link_of(units[0]);
    if !follow(&units, text, root, LOOKED_UP) {
        return false;
    }
    let q: u64 = root ^ 0x3c;
    if q >= units.len() as u64 {
        return false;
    }
    let unit: u64 = units[q as usize];
    !(unit & 0x8000_00ff == 0x3c && (unit >> 8) & 1 == 1)
}

/// Whether a text is the base 64 of a table in which any text can be looked up.
pub open spec fn sound_charsmap(t: Seq<u8>) -> bool {
    well_coded(t) && sound_table(decoded(t))
}

/// Whether `t` is the base 64 of a table in which any text can be looked up.
pub fn check_charsmap(t: &[u8]) -> (r: bool)
    ensures
        r == sound_charsmap(t@),
        r <==> well_coded(t@) && sound_table(decoded(t@)),
{
    match decode(t) {
        Some(v) => check_table(v.as_slice()),
        None => false,
    }
}

} // verus!
