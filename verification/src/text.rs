//! Text as a sequence of characters: white space, trimming, cutting and numbers.

use vstd::prelude::*;
use vstd::string::*;

verus! {

/// The characters that count as white space: the Unicode property `White_Space`.
pub open spec fn white_space(c: char) -> bool {
    ||| 0x09 <= c as u32 <= 0x0d
    ||| c as u32 == 0x20
    ||| c as u32 == 0x85
    ||| c as u32 == 0xa0
    ||| c as u32 == 0x1680
    ||| 0x2000 <= c as u32 <= 0x200a
    ||| c as u32 == 0x2028
    ||| c as u32 == 0x2029
    ||| c as u32 == 0x202f
    ||| c as u32 == 0x205f
    ||| c as u32 == 0x3000
}

/// Whether `c` is white space.
pub fn is_white_space(c: char) -> (r: bool)
    ensures
        r == white_space(c),
{
    let u: u32 = c as u32;
    (0x09 <= u && u <= 0x0d) || u == 0x20 || u == 0x85 || u == 0xa0 || u == 0x1680 || (0x2000 <= u
        && u <= 0x200a) || u == 0x2028 || u == 0x2029 || u == 0x202f || u == 0x205f || u == 0x3000
}

/// A text is blank when it holds nothing but white space.
pub open spec fn blank(s: Seq<char>) -> bool {
    forall|i: int| 0 <= i < s.len() ==> white_space(#[trigger] s[i])
}

/// Whether `text` is empty or white space throughout.
pub fn is_blank(text: &str) -> (r: bool)
    ensures
        r == blank(text@),
        r <==> (forall|i: int| 0 <= i < text@.len() ==> white_space(#[trigger] text@[i])),
{
    for c in it: text.chars()
        invariant
            it.seq() == text@,
            forall|i: int| 0 <= i < it.index() ==> white_space(#[trigger] text@[i]),
    {
        if !is_white_space(c) {
            assert(text@[it.index() as int] == c);
            return false;
        }
    }
    true
}

/// Every character of a text counts towards its being blank: the empty text is blank, one more character
/// leaves a text blank exactly where that is white space, and of two texts one after the other both must be.
pub proof fn law_every_character_decides_blankness(a: Seq<char>, b: Seq<char>, c: char)
    ensures
        blank(Seq::empty()),
        blank(a.push(c)) <==> blank(a) && white_space(c),
        blank(a + b) <==> blank(a) && blank(b),
{
    let longer = a.push(c);
    if blank(longer) {
        assert(longer[a.len() as int] == c);
        assert forall|i: int| 0 <= i < a.len() implies white_space(#[trigger] a[i]) by {
            assert(longer[i] == a[i]);
        }
    }
    let both = a + b;
    if blank(both) {
        assert forall|i: int| 0 <= i < a.len() implies white_space(#[trigger] a[i]) by {
            assert(both[i] == a[i]);
        }
        assert forall|i: int| 0 <= i < b.len() implies white_space(#[trigger] b[i]) by {
            assert(both[a.len() + i] == b[i]);
        }
    }
}

/// `s` without the white space at its front.
pub open spec fn trimmed_start(s: Seq<char>) -> Seq<char>
    decreases s.len(),
{
    if s.len() > 0 && white_space(s[0]) {
        trimmed_start(s.skip(1))
    } else {
        s
    }
}

/// `s` without the white space at its back.
pub open spec fn trimmed_end(s: Seq<char>) -> Seq<char>
    decreases s.len(),
{
    if s.len() > 0 && white_space(s.last()) {
        trimmed_end(s.drop_last())
    } else {
        s
    }
}

/// `s` without the white space at either end.
pub open spec fn trimmed(s: Seq<char>) -> Seq<char> {
    trimmed_end(trimmed_start(s))
}

proof fn lemma_trimmed_start(s: Seq<char>, a: int)
    requires
        0 <= a <= s.len(),
        forall|i: int| 0 <= i < a ==> white_space(#[trigger] s[i]),
        a < s.len() ==> !white_space(s[a]),
    ensures
        trimmed_start(s) == s.skip(a),
    decreases a,
{
    if a == 0 {
        assert(s.skip(0) =~= s);
    } else {
        assert forall|i: int| 0 <= i < a - 1 implies white_space(#[trigger] s.skip(1)[i]) by {
            assert(s.skip(1)[i] == s[i + 1]);
        }
        lemma_trimmed_start(s.skip(1), a - 1);
        assert(s.skip(1).skip(a - 1) =~= s.skip(a));
    }
}

proof fn lemma_trimmed_end(s: Seq<char>, b: int)
    requires
        0 <= b <= s.len(),
        forall|i: int| b <= i < s.len() ==> white_space(#[trigger] s[i]),
        b > 0 ==> !white_space(s[b - 1]),
    ensures
        trimmed_end(s) == s.take(b),
    decreases s.len(),
{
    if b == s.len() {
        assert(s.take(b) =~= s);
    } else {
        assert forall|i: int| b <= i < s.len() - 1 implies white_space(
            #[trigger] s.drop_last()[i],
        ) by {
            assert(s.drop_last()[i] == s[i]);
        }
        lemma_trimmed_end(s.drop_last(), b);
        assert(s.drop_last().take(b) =~= s.take(b));
    }
}

/// `text` without the white space at either end.
pub fn trim<'a>(text: &'a str) -> (r: &'a str)
    ensures
        r@ == trimmed(text@),
{
    let mut seen: usize = 0;
    let mut first: usize = 0;
    let mut end: usize = 0;
    let count: usize = text.unicode_len();
    for c in it: text.chars()
        invariant
            it.seq() == text@,
            count == text@.len(),
            seen == it.index(),
            0 <= first <= end <= seen,
            end == 0 ==> first == 0 && blank(text@.take(seen as int)),
            end > 0 ==> {
                &&& first < end
                &&& !white_space(text@[first as int])
                &&& !white_space(text@[end - 1])
            },
            forall|i: int| 0 <= i < first ==> white_space(#[trigger] text@[i]),
            forall|i: int| end <= i < seen ==> white_space(#[trigger] text@[i]),
    {
        assert(text@[seen as int] == c);
        assert(seen < count);
        if !is_white_space(c) {
            if end == 0 {
                first = seen;
                assert forall|i: int| 0 <= i < first implies white_space(#[trigger] text@[i]) by {
                    assert(text@.take(seen as int)[i] == text@[i]);
                }
            }
            end = seen + 1;
        } else if end == 0 {
            assert(text@.take(seen + 1) =~= text@.take(seen as int).push(c));
        }
        seen = seen + 1;
    }
    proof {
        if end == 0 {
            lemma_trimmed_start(text@, text@.len() as int);
            assert(trimmed_start(text@).len() == 0);
            assert(text@.subrange(0, 0) =~= text@.skip(text@.len() as int));
        } else {
            lemma_trimmed_start(text@, first as int);
            let rest = text@.skip(first as int);
            assert forall|i: int| end - first <= i < rest.len() implies white_space(
                #[trigger] rest[i],
            ) by {
                assert(rest[i] == text@[first + i]);
            }
            assert(rest[end - first - 1] == text@[end - 1]);
            lemma_trimmed_end(rest, end - first);
            assert(rest.take(end - first) =~= text@.subrange(first as int, end as int));
        }
    }
    text.substring_char(first, end)
}

/// A text is blank exactly when nothing of it is left after trimming.
pub proof fn law_blank_is_trimmed_away(s: Seq<char>)
    ensures
        blank(s) <==> trimmed(s).len() == 0,
{
    if blank(s) {
        lemma_trimmed_start(s, s.len() as int);
    } else {
        lemma_trimmed_start_nonblank(s);
        lemma_trimmed_end_nonblank(trimmed_start(s));
    }
}

/// Trimming takes the white space at both ends and nothing else: of any text that neither starts nor ends
/// with white space, whatever white space is put before and behind it, that text is left, with the white
/// space inside it.
pub proof fn law_trimming_takes_the_white_space_around(
    before: Seq<char>,
    core: Seq<char>,
    after: Seq<char>,
)
    requires
        forall|i: int| 0 <= i < before.len() ==> white_space(#[trigger] before[i]),
        forall|i: int| 0 <= i < after.len() ==> white_space(#[trigger] after[i]),
        core.len() > 0 ==> !white_space(core[0]) && !white_space(core[core.len() - 1]),
    ensures
        trimmed(before + core + after) == core,
{
    let s = before + core + after;
    if core.len() == 0 {
        assert forall|i: int| 0 <= i < s.len() implies white_space(#[trigger] s[i]) by {
            if i < before.len() {
                assert(s[i] == before[i]);
            } else {
                assert(s[i] == after[i - before.len()]);
            }
        }
        lemma_trimmed_start(s, s.len() as int);
        assert(trimmed(s) =~= core);
    } else {
        let a = before.len() as int;
        assert forall|i: int| 0 <= i < a implies white_space(#[trigger] s[i]) by {
            assert(s[i] == before[i]);
        }
        assert(s[a] == core[0]);
        lemma_trimmed_start(s, a);
        let rest = s.skip(a);
        assert(rest =~= core + after);
        assert forall|i: int| core.len() <= i < rest.len() implies white_space(
            #[trigger] rest[i],
        ) by {
            assert(rest[i] == after[i - core.len()]);
        }
        assert(rest[core.len() - 1] == core[core.len() - 1]);
        lemma_trimmed_end(rest, core.len() as int);
        assert(rest.take(core.len() as int) =~= core);
    }
}

/// Trimming what was trimmed changes nothing.
pub proof fn law_trimming_twice_changes_nothing(s: Seq<char>)
    ensures
        trimmed(trimmed(s)) == trimmed(s),
{
    law_blank_is_trimmed_away(s);
    if !blank(s) {
        lemma_trimmed_start_nonblank(s);
        let start = trimmed_start(s);
        lemma_trimmed_end_nonblank(start);
        lemma_trimmed_end_is_prefix(start);
        let t = trimmed(s);
        assert(t[0] == start[0]);
        assert(trimmed_start(t) == t);
        assert(trimmed_end(t) == t);
    } else {
        assert(trimmed_start(trimmed(s)) == trimmed(s));
    }
}

proof fn lemma_trimmed_end_is_prefix(s: Seq<char>)
    ensures
        trimmed_end(s).is_prefix_of(s),
        trimmed_end(s).len() > 0 ==> !white_space(trimmed_end(s).last()),
    decreases s.len(),
{
    if s.len() > 0 && white_space(s.last()) {
        lemma_trimmed_end_is_prefix(s.drop_last());
        assert(s.drop_last().is_prefix_of(s));
        assert(trimmed_end(s) =~= s.take(trimmed_end(s).len() as int));
    }
}

proof fn lemma_trimmed_start_nonblank(s: Seq<char>)
    requires
        !blank(s),
    ensures
        trimmed_start(s).len() > 0,
        !white_space(trimmed_start(s)[0]),
    decreases s.len(),
{
    if white_space(s[0]) {
        if blank(s.skip(1)) {
            assert forall|i: int| 0 <= i < s.len() implies white_space(#[trigger] s[i]) by {
                if i > 0 {
                    assert(s.skip(1)[i - 1] == s[i]);
                }
            }
        }
        lemma_trimmed_start_nonblank(s.skip(1));
    }
}

proof fn lemma_trimmed_end_nonblank(s: Seq<char>)
    requires
        s.len() > 0,
        !white_space(s[0]),
    ensures
        trimmed_end(s).len() > 0,
    decreases s.len(),
{
    if white_space(s.last()) {
        lemma_trimmed_end_nonblank(s.drop_last());
    }
}

/// The first `n` characters of `s`, or all of them where it has no more.
pub open spec fn cut(s: Seq<char>, n: nat) -> Seq<char> {
    if s.len() <= n {
        s
    } else {
        s.take(n as int)
    }
}

/// The first `n` characters of `text`, or all of them where it has no more.
pub fn take_chars<'a>(text: &'a str, n: usize) -> (r: &'a str)
    ensures
        r@ == cut(text@, n as nat),
        text@.len() <= n ==> r@ == text@,
        text@.len() > n ==> r@.len() == n && r@.is_prefix_of(text@),
{
    if text.unicode_len() <= n {
        text
    } else {
        text.substring_char(0, n)
    }
}

/// A text is cut only where it is too long, and no shorter than it must be: one of no more than `n`
/// characters is left whole, and of a longer one the first `n` are left.
pub proof fn law_a_text_is_cut_only_where_it_is_too_long(s: Seq<char>, n: nat)
    ensures
        s.len() <= n ==> cut(s, n) == s,
        s.len() > n ==> cut(s, n).len() == n && cut(s, n).is_prefix_of(s),
        s.len() > n ==> cut(s, n) + s.skip(n as int) == s,
{
    if s.len() > n {
        assert(cut(s, n) + s.skip(n as int) =~= s);
    }
}

/// What stands behind the characters that count does not matter, and each of those that count does.
pub proof fn law_a_cut_keeps_what_it_keeps(a: Seq<char>, b: Seq<char>, n: nat)
    ensures
        a.len() == n ==> cut(a + b, n) == a,
        a.len() <= n && b.len() <= n ==> (cut(a, n) == cut(b, n) <==> a == b),
        cut(cut(a, n), n) == cut(a, n),
{
    if a.len() == n {
        assert(cut(a + b, n) =~= a);
    }
}

/// Whether `a` and `b` hold the same characters.
pub fn same_text(a: &str, b: &str) -> (r: bool)
    ensures
        r == (a@ == b@),
{
    a.to_owned() == b.to_owned()
}

/// What follows `prefix` in `text`, or `None` where `text` starts otherwise.
pub fn strip_prefix<'a>(text: &'a str, prefix: &str) -> (r: Option<&'a str>)
    ensures
        match r {
            Some(rest) => prefix@.is_prefix_of(text@) && rest@ == text@.skip(
                prefix@.len() as int,
            ),
            None => !prefix@.is_prefix_of(text@),
        },
{
    let n: usize = prefix.unicode_len();
    let len: usize = text.unicode_len();
    if len < n {
        return None;
    }
    if same_text(text.substring_char(0, n), prefix) {
        assert(text@.subrange(n as int, len as int) =~= text@.skip(n as int));
        Some(text.substring_char(n, len))
    } else {
        None
    }
}

} // verus!
