//! Parsing of probed duration values.
//!
//! The probing tool reports a track's duration as an unsigned decimal number
//! of seconds, e.g. `"1234.567000"`. The pipeline works in integer
//! milliseconds, so the value is converted with truncation: only the first
//! three fractional digits contribute.

use crate::errors::ConvertError;
use crate::text;
use vstd::prelude::*;

verus! {

/// The millisecond contribution of the fractional digit string `f`:
/// its first three digits, padded with zeros on the right.
pub open spec fn spec_frac_ms(f: Seq<char>) -> int {
    let d0 = if f.len() > 0 {
        text::spec_digit_val(f[0])
    } else {
        0
    };
    let d1 = if f.len() > 1 {
        text::spec_digit_val(f[1])
    } else {
        0
    };
    let d2 = if f.len() > 2 {
        text::spec_digit_val(f[2])
    } else {
        0
    };
    d0 * 100 + d1 * 10 + d2
}

/// Whether `s` is a well-formed unsigned decimal duration numeral:
/// digits with at most one decimal point and at least one digit.
pub open spec fn spec_duration_valid(s: Seq<char>) -> bool {
    match text::spec_find(s, '.') {
        None => s.len() > 0 && text::spec_all_digits(s),
        Some(i) => {
            let whole = s.take(i);
            let frac = s.skip(i + 1);
            &&& text::spec_all_digits(whole)
            &&& text::spec_all_digits(frac)
            &&& whole.len() + frac.len() > 0
        },
    }
}

/// The duration in milliseconds denoted by `s`, truncated to millisecond
/// granularity; `None` when `s` is malformed or the value does not fit.
pub open spec fn spec_duration_ms(s: Seq<char>) -> Option<u64> {
    if spec_duration_valid(s) {
        let v = match text::spec_find(s, '.') {
            None => text::spec_digits_value(s) * 1000 as int,
            Some(i) => text::spec_digits_value(s.take(i)) * 1000 + spec_frac_ms(s.skip(i + 1)),
        };
        if v <= u64::MAX {
            Some(v as u64)
        } else {
            None
        }
    } else {
        None
    }
}

/// Parses a digit string as a whole number of seconds, in milliseconds.
fn whole_seconds_ms(digits: &Vec<char>) -> (r: Option<u64>)
    requires
        digits@.len() > 0,
        text::spec_all_digits(digits@),
    ensures
        r matches Some(v) ==> text::spec_digits_value(digits@) * 1000 == v,
        r is None ==> text::spec_digits_value(digits@) * 1000 > u64::MAX,
{
    let whole = match text::parse_u64(digits) {
        Some(w) => w,
        None => {
            proof {
                assert(text::spec_digits_value(digits@) > u64::MAX);
                assert(text::spec_digits_value(digits@) * 1000 >= text::spec_digits_value(
                    digits@,
                )) by (nonlinear_arith);
            }
            return None;
        },
    };
    match whole.checked_mul(1000) {
        Some(v) => Some(v),
        None => None,
    }
}

/// The millisecond value of the fractional digits.
fn frac_ms(frac: &Vec<char>) -> (r: u64)
    requires
        text::spec_all_digits(frac@),
    ensures
        r == spec_frac_ms(frac@),
        r < 1000,
{
    let d0: u64 = if frac.len() > 0 {
        match text::digit_val(frac[0]) {
            Some(d) => d,
            None => 0,
        }
    } else {
        0
    };
    let d1: u64 = if frac.len() > 1 {
        match text::digit_val(frac[1]) {
            Some(d) => d,
            None => 0,
        }
    } else {
        0
    };
    let d2: u64 = if frac.len() > 2 {
        match text::digit_val(frac[2]) {
            Some(d) => d,
            None => 0,
        }
    } else {
        0
    };
    d0 * 100 + d1 * 10 + d2
}

/// Parses a trimmed duration numeral to milliseconds, truncating below
/// millisecond granularity.
pub fn duration_ms_of_chars(v: &Vec<char>) -> (r: Option<u64>)
    ensures
        r == spec_duration_ms(v@),
{
    let dot = text::find_char(v, '.');
    proof {
        text::lemma_spec_find(v@, '.');
    }
    match dot {
        None => {
            if v.len() == 0 {
                return None;
            }
            let mut i: usize = 0;
            while i < v.len()
                invariant
                    i <= v.len(),
                    v@.len() > 0,
                    text::spec_find(v@, '.') is None,
                    forall|j: int| 0 <= j < i ==> text::spec_is_digit(#[trigger] v@[j]),
                decreases v.len() - i,
            {
                if text::digit_val(v[i]).is_none() {
                    proof {
                        assert(!text::spec_all_digits(v@)) by {
                            assert(!text::spec_is_digit(v@[i as int]));
                        }
                    }
                    return None;
                }
                i = i + 1;
            }
            whole_seconds_ms(v)
        },
        Some(i) => {
            let whole = text::subvec(v, 0, i);
            let frac = text::subvec(v, i + 1, v.len());
            proof {
                assert(v@.skip(i + 1) =~= v@.subrange(i + 1, v@.len() as int));
                assert(v@.take(i as int) =~= v@.subrange(0, i as int));
            }
            let mut j: usize = 0;
            while j < whole.len()
                invariant
                    j <= whole.len(),
                    i < v@.len(),
                    text::spec_find(v@, '.') == Some(i as int),
                    whole@ == v@.take(i as int),
                    forall|k: int| 0 <= k < j ==> text::spec_is_digit(#[trigger] whole@[k]),
                decreases whole.len() - j,
            {
                if text::digit_val(whole[j]).is_none() {
                    proof {
                        assert(!text::spec_all_digits(whole@)) by {
                            assert(!text::spec_is_digit(whole@[j as int]));
                        }
                    }
                    return None;
                }
                j = j + 1;
            }
            let mut j2: usize = 0;
            while j2 < frac.len()
                invariant
                    j2 <= frac.len(),
                    i < v@.len(),
                    text::spec_find(v@, '.') == Some(i as int),
                    frac@ == v@.skip(i + 1),
                    forall|k: int| 0 <= k < j2 ==> text::spec_is_digit(#[trigger] frac@[k]),
                decreases frac.len() - j2,
            {
                if text::digit_val(frac[j2]).is_none() {
                    proof {
                        assert(!text::spec_all_digits(frac@)) by {
                            assert(!text::spec_is_digit(frac@[j2 as int]));
                        }
                    }
                    return None;
                }
                j2 = j2 + 1;
            }
            if whole.len() == 0 && frac.len() == 0 {
                return None;
            }
            let f = frac_ms(&frac);
            if whole.len() == 0 {
                proof {
                    assert(text::spec_digits_value(whole@) == 0);
                }
                return Some(f);
            }
            let base = match whole_seconds_ms(&whole) {
                Some(b) => b,
                None => {
                    return None;
                },
            };
            match base.checked_add(f) {
                Some(v2) => Some(v2),
                None => None,
            }
        },
    }
}

/// Parses one probed duration report per track, in track order.
///
/// Succeeds exactly when every report parses; the first unparsable report
/// aborts the whole batch with its own error, matching the policy that a
/// chapter of unknown length cannot be planned.
pub fn parse_probed_durations(outputs: &Vec<String>) -> (r: Result<Vec<u64>, ConvertError>)
    ensures
        r is Ok <==> forall|i: int|
            0 <= i < outputs@.len() ==> spec_duration_ms(
                text::spec_trim(#[trigger] outputs@[i]@),
            ) is Some,
        r matches Ok(v) ==> v@.len() == outputs@.len() && forall|i: int|
            0 <= i < outputs@.len() ==> spec_duration_ms(text::spec_trim(#[trigger] outputs@[i]@))
                == Some(v@[i]),
        r matches Err(e) ==> exists|i: int|
            0 <= i < outputs@.len() && spec_duration_ms(
                text::spec_trim(#[trigger] outputs@[i]@),
            ) is None && (e matches ConvertError::Probe(m) && m@ == "Failed to parse duration '"@
                + text::spec_trim(outputs@[i]@) + "'"@),
{
    let mut v: Vec<u64> = Vec::new();
    let mut i: usize = 0;
    while i < outputs.len()
        invariant
            i <= outputs.len(),
            v@.len() == i,
            forall|j: int|
                0 <= j < i ==> spec_duration_ms(text::spec_trim(#[trigger] outputs@[j]@)) == Some(
                    v@[j],
                ),
        decreases outputs.len() - i,
    {
        match parse_probed_duration(outputs[i].as_str()) {
            Ok(ms) => {
                v.push(ms);
            },
            Err(e) => {
                proof {
                    assert(spec_duration_ms(text::spec_trim(outputs@[i as int]@)) is None);
                }
                return Err(e);
            },
        }
        i = i + 1;
    }
    Ok(v)
}

/// Parses the probing tool's reported duration, ignoring surrounding
/// whitespace. On failure the error names the offending value.
pub fn parse_probed_duration(s: &str) -> (r: Result<u64, ConvertError>)
    ensures
        r matches Ok(ms) ==> spec_duration_ms(text::spec_trim(s@)) == Some(ms),
        r matches Err(e) ==> spec_duration_ms(text::spec_trim(s@)) is None && (e matches
        ConvertError::Probe(m) && m@ == "Failed to parse duration '"@ + text::spec_trim(s@)
            + "'"@),
{
    let chars = text::chars_of(s);
    let trimmed = text::trim_chars(&chars);
    match duration_ms_of_chars(&trimmed) {
        Some(ms) => Ok(ms),
        None => {
            let mut m = String::new();
            m.append("Failed to parse duration '");
            let t = text::string_from_chars(&trimmed);
            m.append(t.as_str());
            m.append("'");
            Err(ConvertError::Probe(m))
        },
    }
}

} // verus!
