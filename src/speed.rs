//! Fan speeds, temperature ranges and the temperature to speed curve.
use vstd::prelude::*;

verus! {

/// Full speed, in millionths.
pub const SPEED_SCALE: u32 = 1_000_000;

/// A normalized fan speed, stored in millionths of full speed.
#[derive(Clone, Copy, Debug, PartialEq, Eq, Structural)]
pub struct Speed {
    pub millionths: u32,
}

impl Speed {
    /// A speed never exceeds full speed.
    pub open spec fn wf(&self) -> bool {
        self.millionths <= SPEED_SCALE
    }

    pub open spec fn view(&self) -> int {
        self.millionths as int
    }

    /// Builds a speed from millionths, refusing anything above full speed.
    pub fn from_millionths(millionths: u32) -> (r: Option<Speed>)
        ensures
            millionths <= SPEED_SCALE <==> r.is_some(),
            r matches Some(s) ==> s.millionths == millionths && s.wf(),
    {
        if millionths <= SPEED_SCALE {
            Some(Speed { millionths })
        } else {
            None
        }
    }

    /// Builds a speed from a percentage, refusing anything above 100.
    pub fn from_percent(percent: u32) -> (r: Option<Speed>)
        ensures
            percent <= 100 <==> r.is_some(),
            r matches Some(s) ==> s.millionths == percent * 10_000 && s.wf(),
    {
        if percent <= 100 {
            Some(Speed { millionths: percent * 10_000 })
        } else {
            None
        }
    }

    pub fn full() -> (r: Speed)
        ensures
            r.millionths == SPEED_SCALE,
            r.wf(),
    {
        Speed { millionths: SPEED_SCALE }
    }

    pub fn stopped() -> (r: Speed)
        ensures
            r.millionths == 0,
            r.wf(),
    {
        Speed { millionths: 0 }
    }

    pub fn millionths(&self) -> (r: u32)
        ensures
            r == self.millionths,
    {
        self.millionths
    }

    /// The greater of two speeds.
    pub fn max(self, other: Speed) -> (r: Speed)
        ensures
            r@ == if self@ >= other@ { self@ } else { other@ },
    {
        if self.millionths >= other.millionths {
            self
        } else {
            other
        }
    }
}

/// A temperature range in millidegrees Celsius, `low < high`.
#[derive(Clone, Copy, Debug, PartialEq, Eq, Structural)]
pub struct TempRange {
    pub low: i64,
    pub high: i64,
}

impl TempRange {
    pub open spec fn wf(&self) -> bool {
        self.low < self.high
    }

    /// Builds a range, refusing one whose bounds are not increasing.
    pub fn new(low: i64, high: i64) -> (r: Option<TempRange>)
        ensures
            low < high <==> r.is_some(),
            r matches Some(t) ==> t.low == low && t.high == high && t.wf(),
    {
        if low < high {
            Some(TempRange { low, high })
        } else {
            None
        }
    }
}

/// The piecewise linear curve: `floor` at or below `low`, full speed at or
/// above `high`, linear (rounded down) in between.
pub open spec fn curve(temp: int, low: int, high: int, floor: int) -> int {
    if temp <= low {
        floor
    } else if temp >= high {
        SPEED_SCALE as int
    } else {
        floor + (SPEED_SCALE - floor) * (temp - low) / (high - low)
    }
}

proof fn lemma_interpolation_bounds(span: int, num: int, den: int)
    requires
        0 <= span,
        0 < num < den,
    ensures
        0 <= span * num / den <= span,
{
    assert(0 <= span * num) by (nonlinear_arith)
        requires
            0 <= span,
            0 < num,
    ;
    assert(span * num <= span * den) by (nonlinear_arith)
        requires
            0 <= span,
            num < den,
    ;
    assert(span * num / den <= span * den / den) by {
        vstd::arithmetic::div_mod::lemma_div_is_ordered(span * num, span * den, den);
    }
    assert(span * den / den == span) by {
        vstd::arithmetic::div_mod::lemma_div_by_multiple(span, den);
    }
    vstd::arithmetic::div_mod::lemma_div_pos_is_pos(span * num, den);
}

/// The speed that a temperature calls for within `range`, never below `floor`.
pub fn target_speed(temp: i64, range: &TempRange, floor: Speed) -> (r: Speed)
    requires
        range.wf(),
        floor.wf(),
    ensures
        r.wf(),
        r@ == curve(temp as int, range.low as int, range.high as int, floor@),
{
    if temp <= range.low {
        floor
    } else if temp >= range.high {
        Speed::full()
    } else {
        let span: i128 = (SPEED_SCALE - floor.millionths) as i128;
        let num: i128 = temp as i128 - range.low as i128;
        let den: i128 = range.high as i128 - range.low as i128;
        proof {
            lemma_interpolation_bounds(span as int, num as int, den as int);
            assert(span * num <= 1_000_000 * 0x1_0000_0000_0000_0000int) by (nonlinear_arith)
                requires
                    0 <= span <= 1_000_000,
                    0 < num <= 0x1_0000_0000_0000_0000int,
            ;
        }
        let step: i128 = span * num / den;
        Speed { millionths: floor.millionths + step as u32 }
    }
}

/// At or below the low end of the range the curve gives exactly the floor.
pub proof fn lemma_curve_at_or_below_low(temp: int, low: int, high: int, floor: int)
    requires
        low < high,
        temp <= low,
    ensures
        curve(temp, low, high, floor) == floor,
{
}

/// At or above the high end of the range the curve gives full speed.
pub proof fn lemma_curve_at_or_above_high(temp: int, low: int, high: int, floor: int)
    requires
        low < high,
        temp >= high,
    ensures
        curve(temp, low, high, floor) == SPEED_SCALE,
{
}

/// The curve never decreases as the temperature rises.
pub proof fn lemma_curve_monotonic(t1: int, t2: int, low: int, high: int, floor: int)
    requires
        low < high,
        0 <= floor <= SPEED_SCALE,
        t1 <= t2,
    ensures
        curve(t1, low, high, floor) <= curve(t2, low, high, floor),
{
    let span = SPEED_SCALE - floor;
    let den = high - low;
    if low < t1 < high {
        lemma_interpolation_bounds(span, t1 - low, den);
    }
    if low < t2 < high {
        lemma_interpolation_bounds(span, t2 - low, den);
    }
    if low < t1 && t2 < high {
        assert(span * (t1 - low) <= span * (t2 - low)) by (nonlinear_arith)
            requires
                0 <= span,
                t1 - low <= t2 - low,
        ;
        vstd::arithmetic::div_mod::lemma_div_is_ordered(span * (t1 - low), span * (t2 - low), den);
    }
}

/// A speed within bounds stays within bounds along the whole curve.
pub proof fn lemma_curve_in_bounds(temp: int, low: int, high: int, floor: int)
    requires
        low < high,
        0 <= floor <= SPEED_SCALE,
    ensures
        floor <= curve(temp, low, high, floor) <= SPEED_SCALE,
{
    if low < temp < high {
        lemma_interpolation_bounds(SPEED_SCALE - floor, temp - low, high - low);
    }
}

} // verus!
