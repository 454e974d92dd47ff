//! Conversions between the signed integers of the database and the unsigned
//! ones of the dashboard.
use vstd::prelude::*;

verus! {

/// The signed number with the bits of `n`.
pub open spec fn wrapped(n: u64) -> int {
    if n <= i64::MAX {
        n as int
    } else {
        n - 0x1_0000_0000_0000_0000
    }
}

/// The signed number with the bits of `n`.
pub fn wrap_i64(n: u64) -> (r: i64)
    ensures
        r == wrapped(n),
{
    proof {
        assert(n as i64 == if n <= 0x7fff_ffff_ffff_ffff {
            n as int
        } else {
            n - 0x1_0000_0000_0000_0000
        }) by (bit_vector);
    }
    #[verifier::truncate]
    let r = n as i64;
    r
}

/// `value`, or zero where it is below.
pub open spec fn floored(value: int) -> int {
    if value < 0 {
        0
    } else {
        value
    }
}

/// `value`, or zero where it is below.
pub fn i64_to_u64(value: i64) -> (r: u64)
    ensures
        r == floored(value as int),
{
    if value < 0 {
        0
    } else {
        value as u64
    }
}

/// `value`, or the largest signed number where it is above.
pub fn u64_to_i64_saturating(value: u64) -> (r: i64)
    ensures
        r == if value > i64::MAX {
            i64::MAX as int
        } else {
            value as int
        },
{
    if value > i64::MAX as u64 {
        i64::MAX
    } else {
        value as i64
    }
}

/// The truth value of a number, where there is one: zero is `false`.
pub fn opt_i64_to_bool(value: Option<i64>) -> (r: Option<bool>)
    ensures
        r == match value {
            Some(v) => Some(v != 0),
            None => None,
        },
{
    match value {
        Some(v) => Some(v != 0),
        None => None,
    }
}

/// A number survives being stored and loaded, up to the largest signed number.
pub proof fn stored_number_reads_back(n: u64)
    ensures
        floored(
            if n > i64::MAX {
                i64::MAX as int
            } else {
                n as int
            },
        ) == if n > i64::MAX {
            i64::MAX as int
        } else {
            n as int
        },
{
}

/// A number and the signed number with its bits differ by a multiple of 2^64, and
/// those of the signed range are the same.
pub proof fn bits_are_kept(n: u64)
    ensures
        i64::MIN <= wrapped(n) <= i64::MAX,
        wrapped(n) == n || wrapped(n) + 18_446_744_073_709_551_616 == n,
        n <= i64::MAX ==> wrapped(n) == n,
        wrapped(u64::MAX) == -1,
{
}

} // verus!
