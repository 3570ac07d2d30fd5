//! Conversion between normalized speeds and raw PWM duty-cycle values.
use vstd::prelude::*;
use crate::speed::{Speed, SPEED_SCALE};

verus! {

/// The raw value for `speed` on a channel whose full scale is `max_raw`:
/// `speed * max_raw`, rounded to the nearest integer, halves up.
pub open spec fn raw_of(speed: int, max_raw: int) -> int {
    (speed * max_raw + SPEED_SCALE / 2) / (SPEED_SCALE as int)
}

/// The speed, in millionths, that a raw value stands for, rounded the same way.
pub open spec fn speed_of(raw: int, max_raw: int) -> int {
    (raw * SPEED_SCALE + max_raw / 2) / max_raw
}

proof fn lemma_raw_of_bounds(speed: int, max_raw: int)
    requires
        0 <= speed <= SPEED_SCALE,
        0 < max_raw <= 255,
    ensures
        0 <= raw_of(speed, max_raw) <= max_raw,
        2 * (raw_of(speed, max_raw) * SPEED_SCALE - speed * max_raw) <= SPEED_SCALE,
        2 * (speed * max_raw - raw_of(speed, max_raw) * SPEED_SCALE) < SPEED_SCALE,
{
    let x = speed * max_raw + SPEED_SCALE / 2;
    assert(0 <= speed * max_raw <= SPEED_SCALE * max_raw) by (nonlinear_arith)
        requires
            0 <= speed <= SPEED_SCALE,
            0 < max_raw,
    ;
    let q = x / (SPEED_SCALE as int);
    vstd::arithmetic::div_mod::lemma_fundamental_div_mod(x, SPEED_SCALE as int);
    assert(q <= max_raw) by (nonlinear_arith)
        requires
            q * 1_000_000 <= x,
            x <= 1_000_000 * max_raw + 500_000,
    ;
}

/// The raw PWM value for a speed, `round(speed * max_raw)`, within
/// `[0, max_raw]`.
pub fn raw_from_speed(speed: Speed, max_raw: u8) -> (r: u8)
    requires
        speed.wf(),
        max_raw > 0,
    ensures
        r == raw_of(speed@, max_raw as int),
        r <= max_raw,
{
    proof {
        lemma_raw_of_bounds(speed@, max_raw as int);
    }
    let wide: u64 = (speed.millionths as u64 * max_raw as u64 + (SPEED_SCALE / 2) as u64) / (SPEED_SCALE as u64);
    wide as u8
}

/// The speed a raw PWM value stands for on a channel of full scale `max_raw`.
pub fn speed_from_raw(raw: u8, max_raw: u8) -> (r: Speed)
    requires
        0 < max_raw,
        raw <= max_raw,
    ensures
        r@ == speed_of(raw as int, max_raw as int),
        r.wf(),
{
    proof {
        lemma_speed_of_bounds(raw as int, max_raw as int);
    }
    let wide: u64 = (raw as u64 * SPEED_SCALE as u64 + (max_raw / 2) as u64) / (max_raw as u64);
    Speed { millionths: wide as u32 }
}

proof fn lemma_speed_of_bounds(raw: int, max_raw: int)
    requires
        0 < max_raw <= 255,
        0 <= raw <= max_raw,
    ensures
        0 <= speed_of(raw, max_raw) <= SPEED_SCALE,
{
    let x = raw * SPEED_SCALE + max_raw / 2;
    assert(0 <= raw * SPEED_SCALE <= max_raw * SPEED_SCALE) by (nonlinear_arith)
        requires
            0 <= raw <= max_raw,
    ;
    let q = x / max_raw;
    vstd::arithmetic::div_mod::lemma_fundamental_div_mod(x, max_raw);
    vstd::arithmetic::div_mod::lemma_div_pos_is_pos(x, max_raw);
    assert(q <= SPEED_SCALE) by (nonlinear_arith)
        requires
            q * max_raw <= x,
            x < max_raw * 1_000_000 + max_raw,
            0 < max_raw,
    ;
}

/// A larger raw value never stands for a smaller speed.
pub proof fn lemma_speed_of_monotonic(a: int, b: int, max_raw: int)
    requires
        0 < max_raw,
        0 <= a <= b,
    ensures
        speed_of(a, max_raw) <= speed_of(b, max_raw),
{
    vstd::arithmetic::div_mod::lemma_div_is_ordered(
        a * SPEED_SCALE + max_raw / 2,
        b * SPEED_SCALE + max_raw / 2,
        max_raw,
    );
}

/// The raw value for a speed, read back as a fraction of `max_raw`, is
/// within `1 / max_raw` of that speed: `|raw / max_raw - speed| <= 1 / max_raw`,
/// with both sides scaled by `max_raw * SPEED_SCALE`.
pub proof fn lemma_raw_round_trip(speed: int, max_raw: int)
    requires
        0 <= speed <= SPEED_SCALE,
        0 < max_raw <= 255,
    ensures
        raw_of(speed, max_raw) * SPEED_SCALE - speed * max_raw <= SPEED_SCALE,
        speed * max_raw - raw_of(speed, max_raw) * SPEED_SCALE <= SPEED_SCALE,
{
    lemma_raw_of_bounds(speed, max_raw);
}

} // verus!
