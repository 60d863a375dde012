//! Quota arithmetic rewritten to avoid floating point.
//!
//! The check "allow while `used / limit < 0.9`" loses precision once `used`
//! exceeds 2^53 when done in floating point; the integer rewrite
//! `used * 10 < limit * 9` is exact, with overflow and a zero limit rejected
//! explicitly.

use vstd::prelude::*;

verus! {

/// Why a quota check was rejected.
#[derive(Clone, Copy, Debug, PartialEq, Eq)]
pub enum LabError {
    InvalidInput,
    NaNOrInfinity,
    PrecisionLoss,
}

/// Allow while `used / limit < 9 / 10`, computed exactly as
/// `used * 10 < limit * 9` in checked integer arithmetic.
pub fn quota_check_buggy(used: u64, limit: u64) -> (r: Result<bool, LabError>)
    ensures
        match r {
            Ok(allowed) => {
                &&& limit != 0
                &&& used * 10 <= u64::MAX
                &&& limit * 9 <= u64::MAX
                &&& (allowed <==> used * 10 < limit * 9)
            },
            Err(e) => (e matches LabError::InvalidInput) && (limit == 0 || used * 10 > u64::MAX
                || limit * 9 > u64::MAX),
        },
{
    if limit == 0 {
        return Err(LabError::InvalidInput);
    }
    let lhs = match used.checked_mul(10) {
        Some(v) => v,
        None => {
            return Err(LabError::InvalidInput);
        },
    };
    let rhs = match limit.checked_mul(9) {
        Some(v) => v,
        None => {
            return Err(LabError::InvalidInput);
        },
    };
    Ok(lhs < rhs)
}

} // verus!
