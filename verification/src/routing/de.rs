//! The capture decoder: turns the ordered (name, value) pairs that
//! extraction recovers into strongly-typed field values. A named-field
//! target reads pairs by name; a tuple-shaped target reads them by
//! position, in the order the grammar declared the variables.

use vstd::prelude::*;

use crate::routing::fill::{lookup_pairs, pairs_view};
use crate::routing::parser::{digit_val, digits_val, is_digit};
use crate::routing::{str_eq, to_chars};

verus! {

/// A capture could not be turned into the requested value.
#[derive(Debug, Clone, PartialEq, Eq)]
pub enum CaptureDeserializationError {
    /// No capture carries the requested name.
    MissingField(String),
    /// The captured text does not read as the requested type.
    InvalidValue(String),
}

/// The value captured under a name, by-name matching, the first capture
/// winning.
pub fn capture_named(pairs: &Vec<(String, String)>, name: &str) -> (r: Option<String>)
    ensures
        match r {
            Option::Some(v) => lookup_pairs(pairs_view(pairs@), name@) == Option::Some(v@),
            Option::None => lookup_pairs(pairs_view(pairs@), name@) is None,
        },
{
    let n = pairs.len();
    proof {
        assert(pairs_view(pairs@).skip(0) =~= pairs_view(pairs@));
    }
    let mut i: usize = 0;
    while i < n
        invariant
            i <= n,
            n == pairs@.len(),
            lookup_pairs(pairs_view(pairs@), name@)
                == lookup_pairs(pairs_view(pairs@).skip(i as int), name@),
        decreases n - i,
    {
        proof {
            let pv = pairs_view(pairs@);
            assert(pv.skip(i as int).len() == n - i);
            assert(pv.skip(i as int)[0] == pv[i as int]);
            assert(pv.skip(i as int).drop_first() =~= pv.skip(i + 1));
        }
        if str_eq(pairs[i].0.as_str(), name) {
            return Option::Some(pairs[i].1.clone());
        }
        i = i + 1;
    }
    proof {
        assert(pairs_view(pairs@).skip(n as int).len() == 0);
    }
    Option::None
}

/// The value captured under a name, where the target field requires one:
/// a missing capture is a decode error carrying the field's name.
pub fn require_named(pairs: &Vec<(String, String)>, name: &str)
    -> (r: Result<String, CaptureDeserializationError>)
    ensures
        match r {
            Result::Ok(v) => lookup_pairs(pairs_view(pairs@), name@) == Option::Some(v@),
            Result::Err(e) => lookup_pairs(pairs_view(pairs@), name@) is None
                && (e matches CaptureDeserializationError::MissingField(n) && n@ == name@),
        },
{
    match capture_named(pairs, name) {
        Option::Some(v) => Result::Ok(v),
        Option::None => Result::Err(CaptureDeserializationError::MissingField(
            name.to_owned())),
    }
}

/// Reads a named capture as an unsigned sixteen-bit field: absence and an
/// unreadable value are distinct decode errors, each naming the field.
pub fn decode_u16_field(pairs: &Vec<(String, String)>, name: &str)
    -> (r: Result<u16, CaptureDeserializationError>)
    ensures
        match r {
            Result::Ok(n) => (lookup_pairs(pairs_view(pairs@), name@) matches Option::Some(v)
                && v.len() >= 1 && all_digits(v) && digits_val(v) == n as int),
            Result::Err(CaptureDeserializationError::MissingField(f)) =>
                lookup_pairs(pairs_view(pairs@), name@) is None && f@ == name@,
            Result::Err(CaptureDeserializationError::InvalidValue(f)) =>
                (lookup_pairs(pairs_view(pairs@), name@) matches Option::Some(v)
                    && !(v.len() >= 1 && all_digits(v) && digits_val(v) <= 65535))
                    && f@ == name@,
        },
{
    match capture_named(pairs, name) {
        Option::None => Result::Err(CaptureDeserializationError::MissingField(
            name.to_owned())),
        Option::Some(v) => match parse_u16(v.as_str()) {
            Option::Some(n) => Result::Ok(n),
            Option::None => Result::Err(CaptureDeserializationError::InvalidValue(
                name.to_owned())),
        },
    }
}

/// A string is a plain run of decimal digits.
pub open spec fn all_digits(s: Seq<char>) -> bool {
    forall|k: int| 0 <= k < s.len() ==> is_digit(#[trigger] s[k])
}

/// A longer digit run never has a smaller value.
proof fn lemma_digits_val_mono(s: Seq<char>, i: int)
    requires
        0 <= i <= s.len(),
        all_digits(s),
    ensures
        digits_val(s) >= digits_val(s.take(i)),
        digits_val(s) >= 0,
    decreases s.len() - i,
{
    if i == s.len() {
        assert(s.take(i) =~= s);
        crate::routing::parser::lemma_digits_val_nonneg(s);
    } else {
        lemma_digits_val_mono(s, i + 1);
        assert(s.take(i + 1).drop_last() =~= s.take(i));
        assert(s.take(i + 1).last() == s[i]);
        crate::routing::parser::lemma_digits_val_nonneg(s.take(i));
        assert(digits_val(s.take(i + 1)) >= digits_val(s.take(i)));
    }
}

/// Reads a capture as an unsigned sixteen-bit number: a non-empty digit
/// run whose value fits.
pub fn parse_u16(s: &str) -> (r: Option<u16>)
    ensures
        match r {
            Option::Some(n) => s@.len() >= 1 && all_digits(s@) && digits_val(s@) == n as int,
            Option::None => !(s@.len() >= 1 && all_digits(s@) && digits_val(s@) <= 65535),
        },
{
    let t = to_chars(s);
    if t.len() == 0 {
        return Option::None;
    }
    let mut n: u32 = 0;
    let mut i: usize = 0;
    while i < t.len()
        invariant
            i <= t@.len(),
            t@ == s@,
            t@.len() >= 1,
            all_digits(t@.take(i as int)),
            n == digits_val(t@.take(i as int)),
            n <= 65535,
        decreases t@.len() - i,
    {
        let c = t[i];
        if !crate::routing::parser::digit(c) {
            proof {
                assert(!is_digit(s@[i as int]));
            }
            return Option::None;
        }
        let d = c as u32 - 48;
        proof {
            assert(t@.take(i + 1).drop_last() =~= t@.take(i as int));
            assert(t@.take(i + 1).last() == t@[i as int]);
            assert(d == digit_val(t@[i as int]));
        }
        let next: u32 = n * 10 + d;
        if next > 65535 {
            proof {
                assert(digits_val(t@.take(i + 1)) == next as int);
                if all_digits(s@) {
                    lemma_digits_val_mono(s@, i + 1);
                    assert(digits_val(s@) >= next as int);
                }
            }
            return Option::None;
        }
        n = next;
        i = i + 1;
    }
    proof {
        assert(t@.take(t@.len() as int) =~= t@);
    }
    Option::Some(n as u16)
}

/// Reads a capture as an unsigned sixty-four-bit number: a non-empty
/// digit run whose value fits.
pub fn parse_u64(s: &str) -> (r: Option<u64>)
    ensures
        match r {
            Option::Some(n) => s@.len() >= 1 && all_digits(s@) && digits_val(s@) == n as int,
            Option::None => !(s@.len() >= 1 && all_digits(s@)
                && digits_val(s@) <= 18446744073709551615),
        },
{
    let t = to_chars(s);
    if t.len() == 0 {
        return Option::None;
    }
    let mut n: u64 = 0;
    let mut i: usize = 0;
    while i < t.len()
        invariant
            i <= t@.len(),
            t@ == s@,
            t@.len() >= 1,
            all_digits(t@.take(i as int)),
            n == digits_val(t@.take(i as int)),
        decreases t@.len() - i,
    {
        let c = t[i];
        if !crate::routing::parser::digit(c) {
            proof {
                assert(!is_digit(s@[i as int]));
            }
            return Option::None;
        }
        let d = (c as u32 - 48) as u64;
        proof {
            assert(t@.take(i + 1).drop_last() =~= t@.take(i as int));
            assert(t@.take(i + 1).last() == t@[i as int]);
            assert(d == digit_val(t@[i as int]));
        }
        if n > (18446744073709551615u64 - d) / 10 {
            proof {
                assert(digits_val(t@.take(i + 1)) == n as int * 10 + d as int);
                assert(digits_val(t@.take(i + 1)) > 18446744073709551615int);
                if all_digits(s@) {
                    lemma_digits_val_mono(s@, i + 1);
                }
            }
            return Option::None;
        }
        let next: u64 = n * 10 + d;
        n = next;
        i = i + 1;
    }
    proof {
        assert(t@.take(t@.len() as int) =~= t@);
    }
    Option::Some(n)
}

} // verus!
