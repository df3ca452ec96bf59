//! Whole numbers in decimal: reading them from text and writing them down.

use vstd::prelude::*;
use vstd::string::*;

verus! {

/// `String::push`: the character comes behind what the string held.
pub assume_specification[ String::push ](s: &mut String, c: char)
    ensures
        final(s)@ == old(s)@.push(c),
;

/// The decimal digits.
pub open spec fn is_digit(c: char) -> bool {
    '0' <= c && c <= '9'
}

/// What a decimal digit stands for.
pub open spec fn digit_value(c: char) -> nat {
    (c as u32 - '0' as u32) as nat
}

/// The decimal digit that stands for `d`.
pub open spec fn digit_char(d: nat) -> char {
    ('0' as u32 + d) as char
}

/// The number that a run of digits writes, most significant digit first.
pub open spec fn digits_value(s: Seq<char>) -> nat
    decreases s.len(),
{
    if s.len() == 0 {
        0
    } else {
        digits_value(s.drop_last()) * 10 + digit_value(s.last())
    }
}

/// At least one character, and all of them digits.
pub open spec fn is_digits(s: Seq<char>) -> bool {
    s.len() > 0 && forall|i: int| 0 <= i < s.len() ==> is_digit(#[trigger] s[i])
}

/// `s` without one leading plus sign.
pub open spec fn unsigned(s: Seq<char>) -> Seq<char> {
    if s.len() > 0 && s[0] == '+' {
        s.skip(1)
    } else {
        s
    }
}

/// The number that `s` writes: digits, a plus sign before them or none, worth no more than `max`.
pub open spec fn parsed(s: Seq<char>, max: nat) -> Option<nat> {
    if is_digits(unsigned(s)) && digits_value(unsigned(s)) <= max {
        Some(digits_value(unsigned(s)))
    } else {
        None
    }
}

/// `n` in decimal, without leading zeros.
pub open spec fn decimal_of(n: nat) -> Seq<char>
    decreases n,
{
    if n < 10 {
        seq![digit_char(n)]
    } else {
        decimal_of(n / 10).push(digit_char(n % 10))
    }
}

proof fn lemma_digits_value_monotone(s: Seq<char>, n: int)
    requires
        0 <= n <= s.len(),
    ensures
        digits_value(s.take(n)) <= digits_value(s),
    decreases s.len() - n,
{
    if n == s.len() {
        assert(s.take(n) =~= s);
    } else {
        lemma_digits_value_monotone(s, n + 1);
        assert(s.take(n + 1).drop_last() =~= s.take(n));
    }
}

/// The number that `text` writes in decimal, or `None` where it writes none up to `max`.
pub fn parse_number(text: &str, max: u64) -> (r: Option<u64>)
    ensures
        match r {
            Some(v) => parsed(text@, max as nat) == Some(v as nat),
            None => parsed(text@, max as nat) is None,
        },
        ({
            let from: int = if text@.len() > 0 && text@[0] == '+' { 1 } else { 0 };
            &&& r is Some <==> from < text@.len() && (forall|i: int|
                from <= i < text@.len() ==> '0' <= #[trigger] text@[i] <= '9') && digits_value(
                text@.skip(from),
            ) <= max
            &&& r matches Some(v) ==> v == digits_value(text@.skip(from))
        }),
{
    let mut value: u64 = 0;
    let mut any: bool = false;
    let mut at: usize = 0;
    let ghost digits = unsigned(text@);
    let ghost signed: int = if text@.len() > 0 && text@[0] == '+' { 1 } else { 0 };
    let count: usize = text.unicode_len();
    for c in it: text.chars()
        invariant
            it.seq() == text@,
            count == text@.len(),
            at == it.index(),
            digits == text@.skip(signed),
            signed == 0 || signed == 1,
            signed == 1 <==> (text@.len() > 0 && text@[0] == '+'),
            digits == unsigned(text@),
            at < signed ==> value == 0 && !any,
            at >= signed ==> {
                &&& any == (at > signed)
                &&& forall|i: int| 0 <= i < at - signed ==> is_digit(#[trigger] digits[i])
                &&& value == digits_value(digits.take(at - signed))
            },
            value <= max,
    {
        assert(text@[at as int] == c);
        if at == 0 && c == '+' {
            assert(digits.take(0).len() == 0);
        } else {
            let ghost k = at - signed;
            assert(digits[k] == c);
            if !('0' <= c && c <= '9') {
                assert(!is_digit(digits[k]));
                return None;
            }
            let d: u64 = (c as u32 - '0' as u32) as u64;
            proof {
                assert(digits.take(k + 1).drop_last() =~= digits.take(k));
                assert(digits_value(digits.take(k + 1)) == value * 10 + d);
            }
            if d > max || value > (max - d) / 10 {
                proof {
                    lemma_digits_value_monotone(digits, k + 1);
                }
                return None;
            }
            value = value * 10 + d;
            any = true;
        }
        at = at + 1;
    }
    proof {
        assert(digits.take(digits.len() as int) =~= digits);
        assert forall|i: int| signed <= i < text@.len() implies '0' <= #[trigger] text@[i] <= '9' by {
            assert(is_digit(digits[i - signed]));
        }
    }
    if any {
        Some(value)
    } else {
        None
    }
}

/// The number that `text` writes, however large: in decimal again, without its sign and leading zeros, or
/// `None` where it writes none.
pub fn rewritten(text: &str) -> (r: Option<String>)
    ensures
        match r {
            Some(d) => is_digits(unsigned(text@)) && d@ == decimal_of(digits_value(unsigned(text@))),
            None => !is_digits(unsigned(text@)),
        },
        ({
            let from: int = if text@.len() > 0 && text@[0] == '+' { 1 } else { 0 };
            &&& r is Some <==> from < text@.len() && (forall|i: int|
                from <= i < text@.len() ==> '0' <= #[trigger] text@[i] <= '9')
            &&& r matches Some(d) ==> d@ == decimal_of(digits_value(text@.skip(from)))
        }),
{
    let mut out: String = String::new();
    let mut any: bool = false;
    let mut zero: bool = true;
    let mut at: usize = 0;
    let ghost digits = unsigned(text@);
    let ghost signed: int = if text@.len() > 0 && text@[0] == '+' { 1 } else { 0 };
    let count: usize = text.unicode_len();
    for c in it: text.chars()
        invariant
            it.seq() == text@,
            count == text@.len(),
            at == it.index(),
            digits == text@.skip(signed),
            signed == 0 || signed == 1,
            signed == 1 <==> (text@.len() > 0 && text@[0] == '+'),
            digits == unsigned(text@),
            at < signed ==> out@.len() == 0 && zero && !any,
            at >= signed ==> {
                &&& any == (at > signed)
                &&& forall|i: int| 0 <= i < at - signed ==> is_digit(#[trigger] digits[i])
                &&& zero == (digits_value(digits.take(at - signed)) == 0)
                &&& zero ==> out@.len() == 0
                &&& !zero ==> out@ == decimal_of(digits_value(digits.take(at - signed)))
            },
    {
        assert(text@[at as int] == c);
        if at == 0 && c == '+' {
            assert(digits.take(0).len() == 0);
        } else {
            let ghost k = at - signed;
            assert(digits[k] == c);
            if !('0' <= c && c <= '9') {
                assert(!is_digit(digits[k]));
                return None;
            }
            let ghost v = digits_value(digits.take(k));
            let ghost d = digit_value(c);
            proof {
                assert(digits.take(k + 1).drop_last() =~= digits.take(k));
                assert(digits_value(digits.take(k + 1)) == v * 10 + d);
                assert(digit_char(d) == c);
            }
            if !zero || c != '0' {
                let ghost before = out@;
                out.push(c);
                proof {
                    if zero {
                        assert(out@ =~= seq![c]);
                    } else {
                        assert((v * 10 + d) / 10 == v && (v * 10 + d) % 10 == d);
                    }
                }
                zero = false;
            }
            any = true;
        }
        at = at + 1;
    }
    proof {
        assert(digits.take(digits.len() as int) =~= digits);
        assert forall|i: int| signed <= i < text@.len() implies '0' <= #[trigger] text@[i] <= '9' by {
            assert(is_digit(digits[i - signed]));
        }
    }
    if !any {
        return None;
    }
    if zero {
        out.push('0');
        assert(out@ =~= seq!['0']);
    }
    Some(out)
}

/// `n` in decimal.
pub fn decimal(n: u64) -> (r: String)
    ensures
        r@ == decimal_of(n as nat),
    decreases n,
{
    let last: char = ('0' as u8 + (n % 10) as u8) as char;
    let mut s: String = if n < 10 {
        String::new()
    } else {
        decimal(n / 10)
    };
    s.push(last);
    assert(n < 10 ==> s@ =~= seq![last]);
    s
}

proof fn lemma_decimal_digits(n: nat)
    ensures
        is_digits(decimal_of(n)),
        digits_value(decimal_of(n)) == n,
    decreases n,
{
    let d = digit_char(n % 10);
    assert(is_digit(d) && digit_value(d) == n % 10);
    if n < 10 {
        assert(decimal_of(n).drop_last() =~= Seq::<char>::empty());
        assert(digits_value(decimal_of(n).drop_last()) == 0);
        assert(decimal_of(n).last() == d);
    } else {
        lemma_decimal_digits(n / 10);
        let head = decimal_of(n / 10);
        let all = decimal_of(n);
        assert(all.drop_last() =~= head);
        assert forall|i: int| 0 <= i < all.len() implies is_digit(#[trigger] all[i]) by {
            if i < head.len() {
                assert(all[i] == head[i]);
            }
        }
    }
}

/// Digits are read from the front: one more digit makes the number ten times what it was and what the digit
/// stands for, and no digits are worth nothing.
pub proof fn law_one_more_digit_is_ten_times_as_much(s: Seq<char>, c: char)
    requires
        '0' <= c <= '9',
    ensures
        digits_value(Seq::empty()) == 0,
        digits_value(s.push(c)) == digits_value(s) * 10 + (c as int - 48),
{
    assert(s.push(c).drop_last() =~= s);
}

/// What a number is in decimal: digits alone, worth that number, and no zero in front of any other digit.
pub proof fn law_a_number_is_written_in_digits(n: nat)
    ensures
        decimal_of(n).len() > 0,
        forall|i: int| 0 <= i < decimal_of(n).len() ==> '0' <= #[trigger] decimal_of(n)[i] <= '9',
        digits_value(decimal_of(n)) == n,
        decimal_of(n).len() > 1 ==> decimal_of(n)[0] != '0',
    decreases n,
{
    lemma_decimal_digits(n);
    assert forall|i: int| 0 <= i < decimal_of(n).len() implies '0' <= #[trigger] decimal_of(n)[i]
        <= '9' by {
        assert(is_digit(decimal_of(n)[i]));
    }
    if n >= 10 {
        law_a_number_is_written_in_digits(n / 10);
        assert(decimal_of(n)[0] == decimal_of(n / 10)[0]);
        if n < 100 {
            assert(decimal_of(n / 10)[0] == digit_char(n / 10));
        } else {
            lemma_decimal_digits(n / 10 / 10);
        }
    }
}

/// A text is a number exactly where it is digits with one plus sign before them or none, and it is the number
/// that those digits are worth, as long as that is no more than it may be.
pub proof fn law_a_number_is_digits_with_or_without_a_sign(digits: Seq<char>, max: nat)
    requires
        digits.len() > 0,
        forall|i: int| 0 <= i < digits.len() ==> '0' <= #[trigger] digits[i] <= '9',
    ensures
        parsed(digits, max) == if digits_value(digits) <= max {
            Some(digits_value(digits))
        } else {
            None
        },
        parsed(seq!['+'] + digits, max) == parsed(digits, max),
{
    assert forall|i: int| 0 <= i < digits.len() implies is_digit(#[trigger] digits[i]) by {}
    assert(is_digit(digits[0]));
    assert((seq!['+'] + digits).skip(1) =~= digits);
}

/// A text with anything in it that is no digit, but for a plus sign at its front, is no number, nor is one
/// without any digit.
pub proof fn law_anything_else_is_no_number(text: Seq<char>, i: int, max: nat)
    requires
        text.len() == 0 || text == seq!['+'] || (0 <= i < text.len() && !('0' <= text[i] <= '9') && (i
            > 0 || text[0] != '+')),
    ensures
        parsed(text, max) is None,
{
    let digits = unsigned(text);
    if 0 <= i < text.len() && !('0' <= text[i] <= '9') && (i > 0 || text[0] != '+') {
        if text[0] == '+' {
            assert(digits[i - 1] == text[i]);
            assert(!is_digit(digits[i - 1]));
        } else {
            assert(!is_digit(digits[i]));
        }
    } else {
        assert(digits.len() == 0);
    }
}

/// A number that was written down is read back as itself.
pub proof fn law_decimal_is_parsed_back(n: nat, max: nat)
    requires
        n <= max,
    ensures
        parsed(decimal_of(n), max) == Some(n),
{
    lemma_decimal_digits(n);
    assert(is_digit(decimal_of(n)[0]));
    assert(unsigned(decimal_of(n)) == decimal_of(n));
}

} // verus!
