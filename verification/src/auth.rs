//! Who may read the metrics.

use crate::text::{
    law_trimming_takes_the_white_space_around, law_trimming_twice_changes_nothing, strip_prefix, trim,
    trimmed, white_space,
};
use vstd::prelude::*;
use vstd::string::*;
use vstd::utf8::{encode_utf8, encode_utf8_decode_utf8};

verus! {

/// Whether the bytes are the same. Every byte is looked at, whatever the ones before it were, so that
/// the time taken does not tell how much of a guess was right; only a difference in length ends it at
/// once.
pub fn constant_time_eq(a: &[u8], b: &[u8]) -> (r: bool)
    ensures
        r == (a@ == b@),
{
    if a.len() != b.len() {
        return false;
    }
    let mut acc: u8 = 0;
    let mut i: usize = 0;
    assert(a@.take(0) =~= b@.take(0));
    while i < a.len()
        invariant
            i <= a@.len(),
            a@.len() == b@.len(),
            acc == 0 <==> a@.take(i as int) == b@.take(i as int),
        decreases a.len() - i,
    {
        let x: u8 = a[i];
        let y: u8 = b[i];
        assert((acc | (x ^ y)) == 0 <==> (acc == 0 && x == y)) by (bit_vector);
        proof {
            let p = a@.take(i + 1);
            let q = b@.take(i + 1);
            assert(p.drop_last() =~= a@.take(i as int) && q.drop_last() =~= b@.take(i as int));
            assert(p.last() == x && q.last() == y);
            if acc == 0 && x == y {
                assert(p =~= p.drop_last().push(x) && q =~= q.drop_last().push(y));
            }
        }
        acc = acc | (x ^ y);
        i = i + 1;
    }
    assert(a@.take(a@.len() as int) =~= a@ && b@.take(b@.len() as int) =~= b@);
    acc == 0
}

/// The token that an `Authorization` header presents: what follows `Bearer `, or the whole of it where
/// it starts otherwise, without the white space around it. No header presents the empty token.
pub open spec fn presented(authorization: Option<&str>) -> Seq<char> {
    let given = match authorization {
        Some(h) => h@,
        None => ""@,
    };
    let bearer = "Bearer "@;
    if bearer.is_prefix_of(given) {
        trimmed(given.skip(bearer.len() as int))
    } else {
        trimmed(given)
    }
}

/// Whether the metrics are open to a request: there is a token, and the request presents it.
pub fn metrics_authorized(want: Option<&str>, authorization: Option<&str>) -> (r: bool)
    ensures
        r == (want matches Some(token) && presented(authorization) == token@),
        want is None ==> !r,
        authorization is None ==> (r <==> want is Some && want->0@.len() == 0),
        want is Some && authorization is Some && "Bearer "@.is_prefix_of(authorization->0@) ==> (r
            <==> trimmed(authorization->0@.skip("Bearer "@.len() as int)) == want->0@),
        want is Some && authorization is Some && !"Bearer "@.is_prefix_of(authorization->0@) ==> (r
            <==> trimmed(authorization->0@) == want->0@),
{
    proof {
        law_no_header_presents_nothing();
        if want is Some && want->0@.len() == 0 {
            assert(want->0@ =~= presented(None));
        }
    }
    let want: &str = match want {
        Some(token) => token,
        None => {
            return false;
        },
    };
    let given: &str = match authorization {
        Some(h) => h,
        None => "",
    };
    let given: &str = match strip_prefix(given, "Bearer ") {
        Some(rest) => rest,
        None => given,
    };
    let given: &str = trim(given);
    proof {
        encode_utf8_decode_utf8(given@);
        encode_utf8_decode_utf8(want@);
    }
    constant_time_eq(given.as_bytes(), want.as_bytes())
}

/// Whoever sends the token that was set, after `Bearer `, presents it.
pub proof fn law_the_token_is_presented(raw: Seq<char>, header: &str)
    requires
        header@ == "Bearer "@ + trimmed(raw),
    ensures
        presented(Some(header)) == trimmed(raw),
{
    let bearer = "Bearer "@;
    assert(bearer.is_prefix_of(header@));
    assert(header@.skip(bearer.len() as int) =~= trimmed(raw));
    law_trimming_twice_changes_nothing(raw);
}

/// Whatever stands behind `Bearer `, or is the whole of a header that starts otherwise, is presented without the
/// white space around it, and every character of it counts.
pub proof fn law_what_the_header_holds_is_presented(
    header: &str,
    before: Seq<char>,
    core: Seq<char>,
    after: Seq<char>,
)
    requires
        forall|i: int| 0 <= i < before.len() ==> white_space(#[trigger] before[i]),
        forall|i: int| 0 <= i < after.len() ==> white_space(#[trigger] after[i]),
        core.len() > 0 ==> !white_space(core[0]) && !white_space(core[core.len() - 1]),
        header@ == "Bearer "@ + (before + core + after) || (header@ == before + core + after
            && !"Bearer "@.is_prefix_of(header@)),
    ensures
        presented(Some(header)) == core,
{
    let bearer = "Bearer "@;
    law_trimming_takes_the_white_space_around(before, core, after);
    if header@ == bearer + (before + core + after) {
        assert(bearer.is_prefix_of(header@));
        assert(header@.skip(bearer.len() as int) =~= before + core + after);
    }
}

/// A request without the header presents nothing, which is no token.
pub proof fn law_no_header_presents_nothing()
    ensures
        presented(None).len() == 0,
{
    reveal_strlit("");
    reveal_strlit("Bearer ");
}

} // verus!
