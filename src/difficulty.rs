//! Bitcoin's proof-of-work target and its retarget rule.
use vstd::prelude::*;
use crate::types::{U256, le_value, two_256, word, u256_checked_mul, u256_div, u256_lt};

verus! {

/// Blocks between two retargets.
pub const DIFFICULTY_ADJUSTMENT_INTERVAL: u32 = 2016;

/// Seconds between two blocks that the retarget aims at.
pub const TARGET_SPACING: u32 = 600;

/// Seconds that a retarget interval should take: two weeks.
pub const TARGET_TIMESPAN: u32 = 1209600;

/// The factor by which one retarget may change the target at most.
pub const TARGET_TIMESPAN_DIVISOR: u32 = 4;

/// The largest target: `0x00000000FFFF...FF`, that is `2^224 - 1`.
pub open spec fn max_target_value() -> int {
    word() * word() * word() * 0x1_0000_0000 - 1
}

/// Whether a block at height `h` starts a new retarget interval.
pub open spec fn is_retarget_height(h: int) -> bool {
    h >= 2016 && h % 2016 == 0
}

/// The observed timespan, held within a factor of four of the intended one.
pub open spec fn clamp_timespan(span: int) -> int {
    if span < TARGET_TIMESPAN / TARGET_TIMESPAN_DIVISOR {
        (TARGET_TIMESPAN / TARGET_TIMESPAN_DIVISOR) as int
    } else if span > TARGET_TIMESPAN * TARGET_TIMESPAN_DIVISOR {
        (TARGET_TIMESPAN * TARGET_TIMESPAN_DIVISOR) as int
    } else {
        span
    }
}

/// The target after a retarget: the previous target scaled by the clamped time the
/// interval took over the intended time, and never above the largest target. The
/// time taken counts as zero where the clock went backwards.
pub open spec fn retarget_value(prev_target: int, prev_time: int, last_retarget_time: int) -> int {
    let span = if prev_time > last_retarget_time {
        prev_time - last_retarget_time
    } else {
        0
    };
    let t = prev_target * clamp_timespan(span) / TARGET_TIMESPAN as int;
    if t > max_target_value() {
        max_target_value()
    } else {
        t
    }
}

/// Whether proof of work holds: the hash, read as a number, lies below the target.
pub open spec fn meets_target(hash: Seq<u8>, target: int) -> bool {
    le_value(hash) < target
}

/// Whether a block at height `h` starts a new retarget interval.
pub fn retarget_due(h: u32) -> (r: bool)
    ensures
        r == is_retarget_height(h as int),
{
    h >= DIFFICULTY_ADJUSTMENT_INTERVAL && h % DIFFICULTY_ADJUSTMENT_INTERVAL == 0
}

/// The largest target.
pub fn max_target() -> (r: U256)
    ensures
        r.value() == max_target_value(),
{
    U256 { w: [u64::MAX, u64::MAX, u64::MAX, 0xffff_ffff] }
}

/// The target of the first block of a retarget interval, given the target and time
/// of the block before it and the time of the block that began the last interval.
pub fn compute_retarget(prev_target: U256, prev_time: u32, last_retarget_time: u32) -> (r: U256)
    ensures
        r.value() == retarget_value(prev_target.value(), prev_time as int, last_retarget_time as int),
{
    let span: u32 = if prev_time > last_retarget_time {
        prev_time - last_retarget_time
    } else {
        0
    };
    let actual: u32 = if span < TARGET_TIMESPAN / TARGET_TIMESPAN_DIVISOR {
        TARGET_TIMESPAN / TARGET_TIMESPAN_DIVISOR
    } else if span > TARGET_TIMESPAN * TARGET_TIMESPAN_DIVISOR {
        TARGET_TIMESPAN * TARGET_TIMESPAN_DIVISOR
    } else {
        span
    };
    let ghost exact = prev_target.value() * actual as int / TARGET_TIMESPAN as int;
    let limit = max_target();
    match u256_checked_mul(prev_target, U256::from_u64(actual as u64)) {
        Some(p) => {
            let q = u256_div(p, U256::from_u64(TARGET_TIMESPAN as u64));
            if u256_lt(&limit, &q) {
                limit
            } else {
                q
            }
        },
        None => {
            proof {
                let prod = prev_target.value() * actual as int;
                assert(two_256() / 1209600 > max_target_value());
                vstd::arithmetic::div_mod::lemma_div_is_ordered(two_256(), prod, 1209600);
            }
            limit
        },
    }
}

} // verus!
