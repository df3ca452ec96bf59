//! Numeric settings: one value read from text, held between bounds, with the line to log where the
//! text was not what it should have been.

use crate::number::{
    decimal, decimal_of, digits_value, is_digit, is_digits, parse_number, rewritten, unsigned,
};
use crate::text::{law_trimming_takes_the_white_space_around, trim, trimmed, white_space};
use vstd::prelude::*;
use vstd::string::*;

verus! {

/// How `{:?}` prints a text: in double quotes, with escapes.
pub uninterp spec fn quoted_text(s: Seq<char>) -> Seq<char>;

/// `format!("{:?}")` on a `str`. What it returns depends on the text alone; which characters it
/// escapes is left to the name `quoted_text`.
#[verifier::external_body]
fn quoted(text: &str) -> (r: String)
    ensures
        r@ == quoted_text(text@),
{
    format!("{text:?}")
}

/// The characters of an optional text.
pub open spec fn given(text: Option<&str>) -> Option<Seq<char>> {
    match text {
        Some(t) => Some(t@),
        None => None,
    }
}

/// `v`, or the nearer bound where it lies outside `min..=max`.
pub open spec fn clamped(v: nat, min: nat, max: nat) -> nat {
    if v < min {
        min
    } else if v > max {
        max
    } else {
        v
    }
}

/// The number that a setting's text writes once the white space around it is gone, however large.
pub open spec fn setting_number(text: Seq<char>) -> Option<nat> {
    let digits = unsigned(trimmed(text));
    if is_digits(digits) {
        Some(digits_value(digits))
    } else {
        None
    }
}

/// The value of a setting: the default where it is unset or no number, else the number, clamped.
pub open spec fn setting_value(raw: Option<Seq<char>>, default: nat, min: nat, max: nat) -> nat {
    match raw {
        None => default,
        Some(text) => match setting_number(text) {
            Some(v) => clamped(v, min, max),
            None => default,
        },
    }
}

/// The line to log for a number outside its range.
pub open spec fn outside_line(key: Seq<char>, v: nat, min: nat, max: nat) -> Seq<char> {
    key + "="@ + decimal_of(v) + " is outside "@ + decimal_of(min) + "..="@ + decimal_of(max)
        + "; using "@ + decimal_of(clamped(v, min, max))
}

/// The line to log for a text that is no number.
pub open spec fn malformed_line(key: Seq<char>, text: Seq<char>, default: nat) -> Seq<char> {
    unusable_line(key, quoted_text(text), "number"@, default)
}

/// The line to log for a setting whose text, in quotes, is not what it should be.
pub open spec fn unusable_line(
    key: Seq<char>,
    quoted: Seq<char>,
    what: Seq<char>,
    default: nat,
) -> Seq<char> {
    key + "="@ + quoted + " is not a "@ + what + "; using the default "@ + decimal_of(default)
}

/// The line to log for a setting: none where it is unset or a number within its range.
pub open spec fn setting_warning(
    key: Seq<char>,
    raw: Option<Seq<char>>,
    default: nat,
    min: nat,
    max: nat,
) -> Option<Seq<char>> {
    match raw {
        None => None,
        Some(text) => match setting_number(text) {
            Some(v) => if clamped(v, min, max) != v {
                Some(outside_line(key, v, min, max))
            } else {
                None
            },
            None => Some(malformed_line(key, text, default)),
        },
    }
}

/// What became of a numeric setting.
pub struct Setting {
    pub value: usize,
    /// The line to log, where the text was out of range or no number.
    pub warning: Option<String>,
}

impl Setting {
    /// The characters of the line to log.
    pub open spec fn warning_text(self) -> Option<Seq<char>> {
        match self.warning {
            Some(w) => Some(w@),
            None => None,
        }
    }
}

/// The line to log for the setting `key` whose text, in quotes, is not what it should be.
pub fn unusable(key: &str, quoted: &str, what: &str, default: u64) -> (r: String)
    ensures
        r@ == unusable_line(key@, quoted@, what@, default as nat),
        r@ == key@ + "="@ + quoted@ + " is not a "@ + what@ + "; using the default "@ + decimal_of(
            default as nat,
        ),
{
    let mut line: String = key.to_owned();
    line.append("=");
    line.append(quoted);
    line.append(" is not a ");
    line.append(what);
    line.append("; using the default ");
    line.append(decimal(default).as_str());
    line
}

/// The line to log for the setting `key` whose text is not what it should be.
pub fn malformed(key: &str, text: &str, what: &str, default: u64) -> (r: String)
    ensures
        r@ == unusable_line(key@, quoted_text(text@), what@, default as nat),
        r@ == key@ + "="@ + quoted_text(text@) + " is not a "@ + what@ + "; using the default "@
            + decimal_of(default as nat),
{
    unusable(key, quoted(text).as_str(), what, default)
}

/// The numeric setting `key`, whose text is `raw`, held to `min..=max`.
///
/// A malformed value is reported, not silently replaced, and falls back to the default rather than
/// to zero. A number outside its range is clamped, and that is reported too.
pub fn env_clamped(
    key: &str,
    raw: Option<&str>,
    default: usize,
    min: usize,
    max: usize,
) -> (r: Setting)
    requires
        raw matches Some(t) ==> setting_number(t@) is Some ==> min <= max,
    ensures
        r.value == setting_value(given(raw), default as nat, min as nat, max as nat),
        r.warning_text() == setting_warning(
            key@,
            given(raw),
            default as nat,
            min as nat,
            max as nat,
        ),
        raw is None ==> r.value == default && r.warning is None,
        raw matches Some(t) ==> {
            let text = trimmed(t@);
            let from: int = if text.len() > 0 && text[0] == '+' { 1 } else { 0 };
            let v = digits_value(text.skip(from));
            if from < text.len() && (forall|i: int|
                from <= i < text.len() ==> '0' <= #[trigger] text[i] <= '9') {
                &&& min <= v <= max ==> r.value == v && r.warning is None
                &&& v < min ==> r.value == min
                &&& min <= v && v > max ==> r.value == max
                &&& !(min <= v <= max) ==> r.warning is Some && r.warning->0@ == key@ + "="@
                    + decimal_of(v) + " is outside "@ + decimal_of(min as nat) + "..="@ + decimal_of(
                    max as nat,
                ) + "; using "@ + decimal_of(r.value as nat)
            } else {
                &&& r.value == default
                &&& r.warning is Some && r.warning->0@ == key@ + "="@ + quoted_text(t@) + " is not a "@
                    + "number"@ + "; using the default "@ + decimal_of(default as nat)
            }
        },
{
    proof {
        if let Some(t) = raw {
            law_a_setting_is_a_number_or_the_default(
                t@,
                default as nat,
                min as nat,
                max as nat,
            );
        }
    }
    match raw {
        None => Setting { value: default, warning: None },
        Some(text) => match rewritten(trim(text)) {
            None => Setting {
                value: default,
                warning: Some(malformed(key, text, "number", default as u64)),
            },
            Some(number) => {
                let value: usize = match parse_number(trim(text), usize::MAX as u64) {
                    None => max,
                    Some(n) => {
                        let v: usize = n as usize;
                        let value: usize = if v < min {
                            min
                        } else if v > max {
                            max
                        } else {
                            v
                        };
                        if value == v {
                            return Setting { value, warning: None };
                        }
                        value
                    },
                };
                let mut line: String = key.to_owned();
                line.append("=");
                line.append(number.as_str());
                line.append(" is outside ");
                line.append(decimal(min as u64).as_str());
                line.append("..=");
                line.append(decimal(max as u64).as_str());
                line.append("; using ");
                line.append(decimal(value as u64).as_str());
                Setting { value, warning: Some(line) }
            },
        },
    }
}

/// A setting whose text, without the white space around it, is digits with one plus sign before them or none
/// is the number that they are worth where that lies within the bounds, and the nearer bound where it does
/// not; a setting with any other text is the default.
pub proof fn law_a_setting_is_a_number_or_the_default(
    text: Seq<char>,
    default: nat,
    min: nat,
    max: nat,
)
    ensures
        ({
            let core = trimmed(text);
            let from: int = if core.len() > 0 && core[0] == '+' { 1 } else { 0 };
            let v = digits_value(core.skip(from));
            let value = setting_value(Some(text), default, min, max);
            if from < core.len() && (forall|i: int|
                from <= i < core.len() ==> '0' <= #[trigger] core[i] <= '9') {
                &&& setting_number(text) == Some(v)
                &&& min <= v <= max ==> value == v
                &&& v < min ==> value == min
                &&& min <= v && v > max ==> value == max
            } else {
                &&& setting_number(text) is None
                &&& value == default
            }
        }),
{
    let core = trimmed(text);
    let from: int = if core.len() > 0 && core[0] == '+' { 1 } else { 0 };
    let digits = unsigned(core);
    assert(digits =~= core.skip(from));
    if from < core.len() && (forall|i: int|
        from <= i < core.len() ==> '0' <= #[trigger] core[i] <= '9') {
        assert forall|i: int| 0 <= i < digits.len() implies is_digit(#[trigger] digits[i]) by {
            assert('0' <= core[i + from] <= '9');
        }
        assert(is_digits(digits));
    } else if from < core.len() {
        let i = choose|i: int| from <= i < core.len() && !('0' <= #[trigger] core[i] <= '9');
        assert(!is_digit(digits[i - from]));
        assert(!is_digits(digits));
    }
}

/// White space around a number, a plus sign before it, and nothing else, leave a setting as it is: a number
/// within the bounds is taken for itself, digit for digit.
pub proof fn law_a_number_within_its_bounds_is_taken(
    before: Seq<char>,
    digits: Seq<char>,
    after: Seq<char>,
    default: nat,
    min: nat,
    max: nat,
)
    requires
        forall|i: int| 0 <= i < before.len() ==> white_space(#[trigger] before[i]),
        forall|i: int| 0 <= i < after.len() ==> white_space(#[trigger] after[i]),
        forall|i: int| 0 <= i < digits.len() ==> '0' <= #[trigger] digits[i] <= '9',
        digits.len() > 0,
        min <= digits_value(digits) <= max,
    ensures
        setting_value(Some(before + digits + after), default, min, max) == digits_value(digits),
        setting_value(Some(before + (seq!['+'] + digits) + after), default, min, max)
            == digits_value(digits),
{
    let signed = seq!['+'] + digits;
    assert('0' <= digits[0] <= '9' && '0' <= digits[digits.len() - 1] <= '9');
    assert(signed[signed.len() - 1] == digits[digits.len() - 1]);
    law_trimming_takes_the_white_space_around(before, digits, after);
    law_trimming_takes_the_white_space_around(before, signed, after);
    law_a_setting_is_a_number_or_the_default(before + digits + after, default, min, max);
    law_a_setting_is_a_number_or_the_default(before + signed + after, default, min, max);
    assert(digits.skip(0) =~= digits);
    assert(signed.skip(1) =~= digits);
    assert forall|i: int| 1 <= i < signed.len() implies '0' <= #[trigger] signed[i] <= '9' by {
        assert(signed[i] == digits[i - 1]);
    }
}

/// A number that is too large for its setting, by however much, is taken for the largest that it can be.
pub proof fn law_too_large_a_number_is_the_largest(
    text: Seq<char>,
    default: nat,
    min: nat,
    max: nat,
)
    requires
        min <= max,
        is_digits(unsigned(trimmed(text))),
        digits_value(unsigned(trimmed(text))) > max,
    ensures
        setting_value(Some(text), default, min, max) == max,
{
}

/// No text, however large or malformed the number in it, takes a setting out of its range.
pub proof fn law_setting_stays_in_range(raw: Option<Seq<char>>, default: nat, min: nat, max: nat)
    requires
        min <= default <= max,
    ensures
        min <= setting_value(raw, default, min, max) <= max,
{
}

/// A text that is no number yields the default, and the line to log names the text and the default.
pub proof fn law_malformed_setting_is_the_default(
    key: Seq<char>,
    text: Seq<char>,
    default: nat,
    min: nat,
    max: nat,
)
    requires
        setting_number(text) is None,
    ensures
        setting_value(Some(text), default, min, max) == default,
        setting_warning(key, Some(text), default, min, max) == Some(
            malformed_line(key, text, default),
        ),
{
}

/// A setting that was changed is never changed in silence: with no line to log, it is unset or the
/// value is the number that was written.
pub proof fn law_no_silent_change(
    key: Seq<char>,
    text: Seq<char>,
    default: nat,
    min: nat,
    max: nat,
)
    requires
        setting_warning(key, Some(text), default, min, max) is None,
    ensures
        setting_number(text) == Some(setting_value(Some(text), default, min, max)),
{
}

} // verus!
