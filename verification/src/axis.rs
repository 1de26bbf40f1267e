//! The axes of the chart: a vertical scale with round tick values and a
//! horizontal window that scrolls with time.

use vstd::arithmetic::div_mod::{lemma_fundamental_div_mod, lemma_fundamental_div_mod_converse};
use vstd::prelude::*;

verus! {

/// The number of labels that the vertical axis aims at.
pub const TARGET_Y_LABELS: u128 = 5;

/// The least top of the vertical axis, in interrupts per second.
pub const MIN_SCALE: u128 = 10;

/// The width of the horizontal window in milliseconds.
pub const X_WINDOW_MS: u64 = 60_000;

/// Ten to the power of `k`.
pub open spec fn pow10(k: nat) -> nat
    decreases k,
{
    if k == 0 {
        1
    } else {
        10 * pow10((k - 1) as nat)
    }
}

/// Whether `n` is a round number: 1, 2 or 5 times a power of ten.
pub open spec fn is_nice(n: int) -> bool {
    exists|k: nat| n == pow10(k) || n == 2 * #[trigger] pow10(k) || n == 5 * pow10(k)
}

/// Whether `step` is the tick step for an axis that reaches `max_value`: the
/// least round number of which [`TARGET_Y_LABELS`] steps reach `max_value`.
pub open spec fn is_nice_step(step: int, max_value: int) -> bool {
    &&& is_nice(step)
    &&& TARGET_Y_LABELS * step >= max_value
    &&& forall|s: int| #[trigger] is_nice(s) && TARGET_Y_LABELS * s >= max_value ==> step <= s
}

/// The tick step for an axis that reaches `max_value`.
pub open spec fn nice_step_of(max_value: int) -> int {
    choose|step: int| is_nice_step(step, max_value)
}

/// `value` rounded up to a multiple of `step`.
pub open spec fn ceil_to(value: int, step: int) -> int {
    if value % step == 0 {
        value
    } else {
        value - value % step + step
    }
}

/// What the axis must reach for a highest rate of `peak` thousandths per
/// second: the rate with a tenth of headroom, in whole interrupts per second
/// rounded up, and no less than [`MIN_SCALE`].
pub open spec fn headroom(peak: int) -> int {
    if (11 * peak + 9_999) / 10_000 < MIN_SCALE {
        MIN_SCALE as int
    } else {
        (11 * peak + 9_999) / 10_000
    }
}

/// The top of the vertical axis, in interrupts per second, for a highest
/// rate of `peak` thousandths per second: the headroom rounded up to a
/// multiple of its tick step.
pub open spec fn axis_top_of(peak: int) -> int {
    ceil_to(headroom(peak), nice_step_of(headroom(peak)))
}

/// The values of the labels of an axis from 0 to `top`: the multiples of
/// `step` up to `top`.
pub open spec fn label_values(top: int, step: int) -> Seq<int> {
    Seq::new((top / step + 1) as nat, |i: int| i * step)
}

/// The horizontal window at `elapsed_ms`: the first minute until it has
/// passed, from then on the last minute.
pub open spec fn x_window(elapsed_ms: int) -> (int, int) {
    if elapsed_ms <= X_WINDOW_MS {
        (
            0,
            if elapsed_ms > X_WINDOW_MS {
                elapsed_ms
            } else {
                X_WINDOW_MS as int
            },
        )
    } else {
        (elapsed_ms - X_WINDOW_MS, elapsed_ms)
    }
}

/// Powers of ten are positive and grow with the exponent.
pub proof fn lemma_pow10_grows(j: nat, k: nat)
    requires
        j <= k,
    ensures
        1 <= pow10(j) <= pow10(k),
    decreases k,
{
    if k == 0 {
    } else if j == k {
        lemma_pow10_grows(0, (k - 1) as nat);
    } else {
        lemma_pow10_grows(j, (k - 1) as nat);
    }
}

/// Round numbers are positive, and between two neighbours of the row
/// 1, 2, 5, 10, 20, 50, ... lies no other.
pub proof fn lemma_nice_gap(k: nat, s: int)
    requires
        is_nice(s),
    ensures
        s >= 1,
        !(pow10(k) < s < 2 * pow10(k)),
        !(2 * pow10(k) < s < 5 * pow10(k)),
        !(5 * pow10(k) < s < 10 * pow10(k)),
{
    let j = choose|j: nat| s == pow10(j) || s == 2 * #[trigger] pow10(j) || s == 5 * pow10(j);
    lemma_pow10_grows(0, j);
    if j < k {
        lemma_pow10_grows(j, (k - 1) as nat);
    } else if j > k {
        lemma_pow10_grows(k + 1, j);
    }
}

/// An axis has one tick step.
pub proof fn lemma_nice_step_unique(a: int, b: int, max_value: int)
    requires
        is_nice_step(a, max_value),
        is_nice_step(b, max_value),
    ensures
        a == b,
        a == nice_step_of(max_value),
{
    let c = nice_step_of(max_value);
    assert(is_nice_step(c, max_value));
    assert(is_nice(a) && is_nice(b) && is_nice(c));
}

/// The tick step of an axis is one of 1, 2, 5, 10, 20, 50 and so on, and
/// the top of the axis, rounded up to a multiple of the step, is not below
/// what the axis must reach.
pub proof fn lemma_nice_step_reaches(step: int, max_value: int)
    requires
        is_nice_step(step, max_value),
    ensures
        is_nice(step),
        step >= 1,
        ceil_to(max_value, step) >= max_value,
        ceil_to(max_value, step) % step == 0,
{
    lemma_nice_gap(0, step);
    lemma_ceil_to(max_value, step);
}

/// Rounding up gives the least multiple of the step that is not below the
/// value.
pub proof fn lemma_ceil_to(value: int, step: int)
    requires
        step > 0,
    ensures
        ceil_to(value, step) % step == 0,
        value <= ceil_to(value, step) < value + step,
        forall|m: int| #[trigger] (m % step) == 0 && m >= value ==> ceil_to(value, step) <= m,
{
    let q = value / step;
    let r = value % step;
    lemma_fundamental_div_mod(value, step);
    assert(0 <= r < step) by {
        vstd::arithmetic::div_mod::lemma_mod_bound(value, step);
    }
    if r != 0 {
        assert((q + 1) * step == step * q + step) by (nonlinear_arith);
        lemma_fundamental_div_mod_converse(value - r + step, step, q + 1, 0);
    }
    assert forall|m: int| #[trigger] (m % step) == 0 && m >= value implies ceil_to(
        value,
        step,
    ) <= m by {
        lemma_fundamental_div_mod(m, step);
        let p = m / step;
        if p <= q && r != 0 {
            assert(step * p <= step * q) by (nonlinear_arith)
                requires
                    p <= q,
                    step > 0,
            ;
        }
        if p <= q {
            assert(step * p <= step * q) by (nonlinear_arith)
                requires
                    p <= q,
                    step > 0,
            ;
        } else {
            assert(step * p >= step * (q + 1)) by (nonlinear_arith)
                requires
                    p >= q + 1,
                    step > 0,
            ;
            assert(step * (q + 1) == step * q + step) by (nonlinear_arith);
        }
    }
}

/// The tick step for an axis that reaches `max_value`.
pub fn nice_step(max_value: u128) -> (step: u128)
    ensures
        is_nice_step(step as int, max_value as int),
        step == nice_step_of(max_value as int),
        step == 1 || 2 * step < max_value,
{
    let need: u128 = max_value / 5 + if max_value % 5 != 0 {
        1
    } else {
        0
    };
    let mut unit: u128 = 1;
    let mut lead: u8 = 1;
    let mut step: u128 = 1;
    let ghost mut k: nat = 0;
    proof {
        assert forall|s: int| #[trigger] is_nice(s) && s < 1 implies 5 * s < max_value by {
            lemma_nice_gap(0, s);
        }
    }
    while step < need
        invariant
            need == max_value / 5 + if max_value % 5 != 0 {
                1int
            } else {
                0int
            },
            unit == pow10(k),
            unit >= 1,
            (lead == 1 && step == unit) || (lead == 2 && step == 2 * unit) || (lead == 5 && step
                == 5 * unit),
            step == 1 || 2 * step < max_value,
            forall|s: int| #[trigger] is_nice(s) && s < step ==> 5 * s < max_value,
        decreases
                (if step < need {
                    need - step
                } else {
                    0
                }),
    {
        let ghost before = step;
        if lead == 1 {
            lead = 2;
            step = unit * 2;
        } else if lead == 2 {
            lead = 5;
            step = unit * 5;
        } else {
            lead = 1;
            unit = unit * 10;
            step = unit;
            proof {
                k = k + 1;
            }
        }
        proof {
            assert forall|s: int| #[trigger] is_nice(s) && s < step implies 5 * s < max_value by {
                if lead == 1 {
                    lemma_nice_gap((k - 1) as nat, s);
                } else {
                    lemma_nice_gap(k, s);
                }
                assert(s <= before);
            }
        }
    }
    proof {
        assert(is_nice(step as int)) by {
            assert(step == pow10(k) || step == 2 * pow10(k) || step == 5 * pow10(k));
        }
        assert(is_nice_step(step as int, max_value as int));
        lemma_nice_step_unique(step as int, step as int, max_value as int);
    }
    step
}

/// Rounds `value` up to a multiple of `step`.
pub fn ceil_to_step(value: u128, step: u128) -> (out: u128)
    requires
        step > 0,
        value + step - 1 <= u128::MAX,
    ensures
        out == ceil_to(value as int, step as int),
{
    let r = value % step;
    if r == 0 {
        value
    } else {
        value + (step - r)
    }
}

/// What the axis must reach for a highest rate of `peak`.
fn with_headroom(peak: u128) -> (out: u128)
    ensures
        out == headroom(peak as int),
        out <= u128::MAX / 2,
{
    let q = peak / 10_000;
    let r = peak % 10_000;
    let scaled = 11 * q + (11 * r + 9_999) / 10_000;
    if scaled < MIN_SCALE {
        MIN_SCALE
    } else {
        scaled
    }
}

/// The top of the vertical axis, in interrupts per second, for a highest
/// rate of `peak` thousandths per second.
pub fn axis_top(peak: u128) -> (out: u128)
    ensures
        out == axis_top_of(peak as int),
        out >= MIN_SCALE,
        out * 1000 >= peak,
{
    let raw = with_headroom(peak);
    let step = nice_step(raw);
    proof {
        lemma_ceil_to(raw as int, step as int);
    }
    ceil_to_step(raw, step)
}

/// The values of the labels of an axis from 0 to `top`.
pub fn y_labels(top: u128) -> (out: Vec<u128>)
    ensures
        out@.len() == label_values(top as int, nice_step_of(top as int)).len(),
        forall|i: int|
            0 <= i < out@.len() ==> out@[i] == label_values(top as int, nice_step_of(top as int))[i],
{
    let step = nice_step(top);
    let mut out: Vec<u128> = Vec::new();
    let mut y: u128 = 0;
    let ghost mut n: int = 0;
    assert(0 * step == 0) by (nonlinear_arith);
    loop
        invariant_except_break
            y == n * step,
            y <= top,
            out@.len() == n,
        invariant
            step >= 1,
            n >= 0,
            forall|i: int| 0 <= i < out@.len() ==> out@[i] == i * step,
        ensures
            out@.len() == top / step + 1,
        decreases top - y,
    {
        out.push(y);
        if top - y < step {
            proof {
                lemma_fundamental_div_mod_converse(top as int, step as int, n, top - y);
            }
            break ;
        }
        proof {
            assert((n + 1) * step == n * step + step) by (nonlinear_arith);
            n = n + 1;
        }
        y += step;
    }
    out
}

/// The horizontal window at `elapsed_ms`, in milliseconds.
pub fn x_bounds(elapsed_ms: u64) -> (out: (u64, u64))
    ensures
        out.0 == x_window(elapsed_ms as int).0,
        out.1 == x_window(elapsed_ms as int).1,
{
    if elapsed_ms <= X_WINDOW_MS {
        (
            0,
            if elapsed_ms > X_WINDOW_MS {
                elapsed_ms
            } else {
                X_WINDOW_MS
            },
        )
    } else {
        (elapsed_ms - X_WINDOW_MS, elapsed_ms)
    }
}

} // verus!
