//! Conversion of orchestrator quantity strings to millicores and kibibytes.
//!
//! A CPU quantity either carries an `m` suffix and is already in millicores
//! (`"500m"`), or is a plain core count and is scaled by 1000.  A memory
//! quantity carries one of the suffixes `Ki`, `Mi`, `Gi`; any other suffix
//! is an unsupported unit.

use vstd::prelude::*;

use crate::numeric::{dec_val, is_dec_digits, parse_u64};

verus! {

/// Why a quantity string was rejected.
#[derive(Debug, Clone, Copy, PartialEq, Eq, Structural)]
pub enum QuantityError {
    /// The suffix names no unit this parser knows.
    UnsupportedUnit,
    /// The numeric part is empty, holds a non-digit, or exceeds `u64::MAX`.
    BadNumber,
    /// The number itself fits, but scaling it to the base unit does not.
    Overflow,
}

/// The digit part of a CPU quantity: everything before a trailing `m`,
/// or the whole string when there is none.
pub open spec fn millicore_digits(s: Seq<char>) -> Seq<char> {
    if s.len() > 0 && s.last() == 'm' {
        s.drop_last()
    } else {
        s
    }
}

/// True when the CPU quantity `s` is well-formed.
pub open spec fn millicores_valid(s: Seq<char>) -> bool {
    is_dec_digits(millicore_digits(s))
}

/// The number of millicores denoted by the CPU quantity `s`.
pub open spec fn millicores_of(s: Seq<char>) -> nat
    recommends
        millicores_valid(s),
{
    if s.len() > 0 && s.last() == 'm' {
        dec_val(s.drop_last())
    } else {
        dec_val(s) * 1000
    }
}

/// Converts a CPU quantity string to millicores: a trailing `m` marks a
/// value already in millicores, anything else is a core count scaled by
/// 1000.
pub fn quantity_to_millicores(q: &str) -> (r: Result<u64, QuantityError>)
    ensures
        match r {
            Ok(v) => millicores_valid(q@) && v == millicores_of(q@),
            Err(QuantityError::BadNumber) => !millicores_valid(q@) || dec_val(
                millicore_digits(q@),
            ) > u64::MAX,
            Err(QuantityError::Overflow) => millicores_valid(q@) && dec_val(
                millicore_digits(q@),
            ) <= u64::MAX && millicores_of(q@) > u64::MAX,
            Err(QuantityError::UnsupportedUnit) => false,
        },
{
    let n = q.unicode_len();
    if n > 0 && q.get_char(n - 1) == 'm' {
        let body = q.substring_char(0, n - 1);
        proof {
            assert(body@ =~= q@.drop_last());
        }
        match parse_u64(body) {
            Some(v) => Ok(v),
            None => Err(QuantityError::BadNumber),
        }
    } else {
        match parse_u64(q) {
            Some(v) => {
                if v > u64::MAX / 1000 {
                    proof {
                        assert(v * 1000 > u64::MAX) by (nonlinear_arith)
                            requires
                                v > u64::MAX / 1000,
                        ;
                    }
                    Err(QuantityError::Overflow)
                } else {
                    proof {
                        assert(v * 1000 <= u64::MAX) by (nonlinear_arith)
                            requires
                                v <= u64::MAX / 1000,
                        ;
                    }
                    Ok(v * 1000)
                }
            },
            None => Err(QuantityError::BadNumber),
        }
    }
}

/// True when the memory quantity `s` ends in a suffix this parser knows.
pub open spec fn kib_suffix_known(s: Seq<char>) -> bool {
    s.len() >= 2 && s.last() == 'i' && (s[s.len() - 2] == 'K' || s[s.len() - 2] == 'M' || s[s.len()
        - 2] == 'G')
}

/// The digit part of a memory quantity: everything before the two-character
/// unit suffix.
pub open spec fn kib_digits(s: Seq<char>) -> Seq<char> {
    s.take(s.len() - 2)
}

/// The scale of the unit suffix of `s`, in kibibytes.
pub open spec fn kib_factor(s: Seq<char>) -> nat
    recommends
        kib_suffix_known(s),
{
    if s.len() >= 2 && s[s.len() - 2] == 'K' {
        1
    } else if s.len() >= 2 && s[s.len() - 2] == 'M' {
        1024
    } else {
        1024 * 1024
    }
}

/// True when the memory quantity `s` is well-formed.
pub open spec fn kibytes_valid(s: Seq<char>) -> bool {
    kib_suffix_known(s) && is_dec_digits(kib_digits(s))
}

/// The number of kibibytes denoted by the memory quantity `s`.
pub open spec fn kibytes_of(s: Seq<char>) -> nat
    recommends
        kibytes_valid(s),
{
    dec_val(kib_digits(s)) * kib_factor(s)
}

/// The millicore value of a quantity dominates the bare number in it.
pub proof fn lemma_millicores_ge_digits(s: Seq<char>)
    ensures
        millicores_of(s) >= dec_val(millicore_digits(s)),
{
    if !(s.len() > 0 && s.last() == 'm') {
        assert(dec_val(s) * 1000 >= dec_val(s)) by (nonlinear_arith);
    }
}

/// The kibibyte value of a quantity dominates the bare number in it.
pub proof fn lemma_kibytes_ge_digits(s: Seq<char>)
    ensures
        kibytes_of(s) >= dec_val(kib_digits(s)),
{
    assert(dec_val(kib_digits(s)) * kib_factor(s) >= dec_val(kib_digits(s))) by (nonlinear_arith)
        requires
            kib_factor(s) >= 1,
    ;
}

/// Converts a memory quantity string to kibibytes: `Ki` is taken as is,
/// `Mi` is scaled by 1024, `Gi` by 1024 squared; any other suffix is an
/// unsupported unit.
pub fn quantity_to_kibytes(q: &str) -> (r: Result<u64, QuantityError>)
    ensures
        match r {
            Ok(v) => kibytes_valid(q@) && v == kibytes_of(q@),
            Err(QuantityError::UnsupportedUnit) => !kib_suffix_known(q@),
            Err(QuantityError::BadNumber) => kib_suffix_known(q@) && (!is_dec_digits(kib_digits(q@))
                || dec_val(kib_digits(q@)) > u64::MAX),
            Err(QuantityError::Overflow) => kibytes_valid(q@) && dec_val(kib_digits(q@)) <= u64::MAX
                && kibytes_of(q@) > u64::MAX,
        },
{
    let n = q.unicode_len();
    if n < 2 {
        return Err(QuantityError::UnsupportedUnit);
    }
    let unit = q.get_char(n - 2);
    if !(q.get_char(n - 1) == 'i' && (unit == 'K' || unit == 'M' || unit == 'G')) {
        return Err(QuantityError::UnsupportedUnit);
    }
    let body = q.substring_char(0, n - 2);
    proof {
        assert(body@ =~= kib_digits(q@));
    }
    let v = match parse_u64(body) {
        Some(v) => v,
        None => {
            return Err(QuantityError::BadNumber);
        },
    };
    let factor: u64 = if unit == 'K' {
        1
    } else if unit == 'M' {
        1024
    } else {
        1024 * 1024
    };
    assert(factor == kib_factor(q@));
    if v > u64::MAX / factor {
        proof {
            assert(v * factor > u64::MAX) by (nonlinear_arith)
                requires
                    v > u64::MAX / factor && factor >= 1,
            ;
        }
        Err(QuantityError::Overflow)
    } else {
        proof {
            assert(v * factor <= u64::MAX) by (nonlinear_arith)
                requires
                    v <= u64::MAX / factor && factor >= 1,
            ;
        }
        Ok(v * factor)
    }
}

} // verus!
