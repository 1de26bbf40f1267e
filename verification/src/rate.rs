//! Interrupt rates in fixed point.
//!
//! A rate is a whole number of thousandths of an interrupt per second.  It
//! is the growth of a counter over one sampling interval, divided by the
//! nominal length of the interval.

use vstd::prelude::*;

verus! {

/// The largest rate that can be told: `u64::MAX` thousandths per second.
pub open spec fn rate_limit() -> int {
    u64::MAX as int
}

/// The growth of a counter from `previous` to `current`, which is nothing
/// where the counter fell back.
pub open spec fn growth(previous: int, current: int) -> int {
    if current > previous {
        current - previous
    } else {
        0
    }
}

/// The rate at which a counter grew from `previous` to `current` over an
/// interval of `interval_ms` milliseconds, in thousandths of an interrupt per
/// second, rounded down and held at [`rate_limit`].  Over an interval of no
/// length, no growth is the rate 0 and any growth is the limit.
pub open spec fn rate_of(previous: int, current: int, interval_ms: int) -> int {
    let grown = growth(previous, current);
    if interval_ms <= 0 {
        if grown == 0 {
            0
        } else {
            rate_limit()
        }
    } else if (grown * 1_000_000) / interval_ms > rate_limit() {
        rate_limit()
    } else {
        (grown * 1_000_000) / interval_ms
    }
}

/// A rate is never negative, whatever the two counts are, and it is zero
/// where the counter did not grow: a counter that was reset gives the rate 0.
pub proof fn lemma_rate_never_negative(previous: int, current: int, interval_ms: int)
    ensures
        rate_of(previous, current, interval_ms) >= 0,
        rate_of(previous, current, interval_ms) <= rate_limit(),
        current <= previous ==> rate_of(previous, current, interval_ms) == 0,
{
    let grown = growth(previous, current);
    if interval_ms > 0 {
        assert((grown * 1_000_000) / interval_ms >= 0) by (nonlinear_arith)
            requires
                grown >= 0,
                interval_ms > 0,
        ;
        if current <= previous {
            assert((0int * 1_000_000) / interval_ms == 0) by (nonlinear_arith)
                requires
                    interval_ms > 0,
            ;
        }
    }
}

/// Over an interval of one second the rate is the growth itself, in
/// thousandths.
pub proof fn lemma_rate_per_second(previous: int, current: int)
    requires
        growth(previous, current) * 1000 <= rate_limit(),
    ensures
        rate_of(previous, current, 1000) == growth(previous, current) * 1000,
{
    let grown = growth(previous, current);
    assert((grown * 1_000_000) / 1000 == grown * 1000) by (nonlinear_arith);
}

/// The rate at which a counter grew from `previous` to `current` over an
/// interval of `interval_ms` milliseconds.
pub fn rate(previous: u64, current: u64, interval_ms: u64) -> (out: u64)
    ensures
        out == rate_of(previous as int, current as int, interval_ms as int),
{
    let grown: u64 = if current > previous {
        current - previous
    } else {
        0
    };
    if interval_ms == 0 {
        if grown == 0 {
            0
        } else {
            u64::MAX
        }
    } else {
        assert(grown * 1_000_000 <= u128::MAX) by (nonlinear_arith)
            requires
                grown <= u64::MAX,
        ;
        let scaled: u128 = (grown as u128) * 1_000_000u128;
        let per_second: u128 = scaled / (interval_ms as u128);
        if per_second > u64::MAX as u128 {
            u64::MAX
        } else {
            per_second as u64
        }
    }
}

/// The mean of `samples` rates whose sum is `sum`, rounded down; 0 where
/// there is no sample.
pub open spec fn mean_of(sum: int, samples: int) -> int {
    if samples > 0 {
        sum / samples
    } else {
        0
    }
}

/// The mean of `samples` rates whose sum is `sum`.
pub fn mean(sum: u128, samples: u32) -> (out: u128)
    ensures
        out == mean_of(sum as int, samples as int),
{
    if samples > 0 {
        sum / (samples as u128)
    } else {
        0
    }
}

/// The sum of two numbers, held at the largest 128-bit value.
pub open spec fn capped_sum(a: int, b: int) -> int {
    if a + b > u128::MAX {
        u128::MAX as int
    } else {
        a + b
    }
}

/// The smaller of an optional bound and a value.
pub open spec fn lower(bound: Option<int>, value: int) -> int {
    match bound {
        Some(b) => if value < b {
            value
        } else {
            b
        },
        None => value,
    }
}

/// The larger of an optional bound and a value.
pub open spec fn upper(bound: Option<int>, value: int) -> int {
    match bound {
        Some(b) => if value > b {
            value
        } else {
            b
        },
        None => value,
    }
}

} // verus!
