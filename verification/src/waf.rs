//! Blocked addresses: how long a block lasts and what a new one counts.
use vstd::prelude::*;

verus! {

/// How many blocks a block by hand counts as.
pub const MANUAL_BLOCK_COUNT: u64 = 99_999;

/// The reason of a block for a wrong password, and where it counts.
pub const BLOCK_REASON_LOGIN: u8 = 1;

pub const BLOCK_ID_LOGIN: i64 = -125;

/// The reason of a block for a wrong answer of a sign-in service, and where it
/// counts.
pub const BLOCK_REASON_SERVICE: u8 = 2;

pub const BLOCK_ID_SERVICE: i64 = -1;

/// Where a block by hand counts.
pub const BLOCK_ID_MANUAL: i64 = -124;

/// The reason of a block by hand.
pub const BLOCK_REASON_MANUAL: u8 = 4;

/// Until when `count` blocks hold, the last of them at `block_timestamp`: the
/// fourth power of their number in seconds, three seconds at least.
pub open spec fn blocked_until(count: u64, block_timestamp: u64) -> u64 {
    let power = count * count * (count * count);
    let until = block_timestamp + if power > 3 {
        power
    } else {
        3
    };
    if until > u64::MAX {
        u64::MAX
    } else {
        until as u64
    }
}

/// Until when `count` blocks hold, the last of them at `block_timestamp`.
pub fn waf_block_until(count: u64, block_timestamp: u64) -> (r: u64)
    ensures
        r == blocked_until(count, block_timestamp),
{
    let wide: u128 = count as u128;
    proof {
        assert(wide * wide <= u128::MAX) by (nonlinear_arith)
            requires
                wide <= u64::MAX,
        ;
    }
    let square: u128 = wide * wide;
    if square > u32::MAX as u128 {
        proof {
            assert(square * square > u64::MAX) by (nonlinear_arith)
                requires
                    square > u32::MAX,
            ;
        }
        return u64::MAX;
    }
    proof {
        assert(square * square <= u64::MAX) by (nonlinear_arith)
            requires
                square <= u32::MAX,
        ;
    }
    let power: u128 = square * square;
    let wait: u128 = if power > 3 {
        power
    } else {
        3
    };
    let until: u128 = block_timestamp as u128 + wait;
    if until > u64::MAX as u128 {
        u64::MAX
    } else {
        until as u64
    }
}

/// Whether an address with `count` blocks, the last at `latest`, is blocked.
pub open spec fn is_blocked(count: u64, latest: Option<u64>, now: u64) -> bool {
    match latest {
        Some(at) => blocked_until(count, at) > now,
        None => false,
    }
}

/// Whether an address with `count` blocks, the last at `latest`, is blocked.
pub fn waf_block_active(count: u64, latest: Option<u64>, now: u64) -> (r: bool)
    ensures
        r == is_blocked(count, latest, now),
        r == match latest {
            Some(at) => blocked_until(count, at) > now,
            None => false,
        },
{
    match latest {
        Some(at) => waf_block_until(count, at) > now,
        None => false,
    }
}

/// What a new block counts, where `before` have been counted.
pub open spec fn counted(before: Option<u64>, block_reason: u8) -> int {
    if block_reason == BLOCK_REASON_MANUAL {
        MANUAL_BLOCK_COUNT as int
    } else {
        match before {
            Some(n) => n + 1,
            None => 1,
        }
    }
}

/// What a new block counts, where `before` have been counted: one more, or the
/// number of a block by hand.
pub fn block_count(before: Option<u64>, block_reason: u8) -> (r: u64)
    requires
        before matches Some(n) ==> n < u64::MAX,
    ensures
        r == counted(before, block_reason),
{
    if block_reason == BLOCK_REASON_MANUAL {
        return MANUAL_BLOCK_COUNT;
    }
    match before {
        Some(n) => n + 1,
        None => 1,
    }
}

/// More blocks never shorten a block, nor does a later one.
pub proof fn blocks_only_lengthen(count: u64, more: u64, at: u64, later: u64)
    requires
        count <= more,
        at <= later,
    ensures
        blocked_until(count, at) <= blocked_until(more, later),
{
    assert(count * count * (count * count) <= more * more * (more * more)) by (nonlinear_arith)
        requires
            0 <= count <= more,
    ;
}

/// A fresh block holds for three seconds at least, up to the end of time.
pub proof fn block_holds_for_three_seconds(count: u64, at: u64, now: u64)
    requires
        at <= now < at + 3,
        now < u64::MAX,
    ensures
        blocked_until(count, at) > now,
{
}

/// The part of a list that a page shows: at least one row and at most five
/// hundred.
pub fn page_limit(limit: u64) -> (r: u64)
    ensures
        1 <= r <= 500,
        1 <= limit <= 500 ==> r == limit,
        limit < 1 ==> r == 1,
        limit > 500 ==> r == 500,
{
    if limit < 1 {
        1
    } else if limit > 500 {
        500
    } else {
        limit
    }
}

/// An address that was never blocked is not; another is blocked until the fourth
/// power of the number of its blocks has gone by in seconds since the last of
/// them, or three seconds where there were none or one.
pub proof fn blocks_end(count: u64, at: u64, now: u64)
    requires
        now < u64::MAX,
    ensures
        !is_blocked(count, None, now),
        count >= 2 ==> (is_blocked(count, Some(at), now) <==> now < at + count * count * count
            * count),
        count <= 1 ==> (is_blocked(count, Some(at), now) <==> now < at + 3),
{
    assert(count * count * (count * count) == count * count * count * count) by (nonlinear_arith);
    if count >= 2 {
        assert(count * count * (count * count) >= 16) by (nonlinear_arith)
            requires
                count >= 2,
        ;
    } else {
        assert(count * count * (count * count) <= 1) by (nonlinear_arith)
            requires
                0 <= count <= 1,
        ;
    }
}

/// Twice as many blocks hold sixteen times as long.
pub proof fn twice_the_blocks_hold_sixteen_times_as_long(count: u64, at: u64)
    requires
        count >= 2,
        at + 16 * (count * count * (count * count)) <= u64::MAX,
    ensures
        blocked_until((2 * count) as u64, at) - at == 16 * (blocked_until(count, at) - at),
{
    assert(count * count * (count * count) >= 16) by (nonlinear_arith)
        requires
            count >= 2,
    ;
    assert(count <= count * count * (count * count)) by (nonlinear_arith)
        requires
            count >= 2,
    ;
    assert((2 * count) * (2 * count) * ((2 * count) * (2 * count)) == 16 * (count * count * (count
        * count))) by (nonlinear_arith);
}

/// Every block counts one more than the one before, beginning with one, but for a
/// block by hand, which counts 99999 whatever was there before.
pub proof fn blocks_are_counted(before: Option<u64>, block_reason: u8)
    ensures
        block_reason != 4 ==> counted(None, block_reason) == 1,
        block_reason != 4 ==> (before matches Some(n) ==> counted(before, block_reason) - n == 1),
        block_reason == 4 ==> counted(before, block_reason) == 99_999,
{
}

} // verus!
