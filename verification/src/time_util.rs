//! Wall-clock access and the arithmetic of the replay-rate admission rule.

use vstd::prelude::*;

verus! {

/// A replay rate: the positive rational `num / den`.  A rate above 1 replays
/// faster than wall time, below 1 slower.
#[derive(Clone, Copy)]
pub struct Speed {
    pub num: u32,
    pub den: u32,
}

impl Speed {
    pub open spec fn wf(&self) -> bool {
        self.num >= 1 && self.den >= 1
    }

    /// Replay at wall-clock rate.
    pub fn real_time() -> (r: Speed)
        ensures
            r.num == 1 && r.den == 1,
            r.wf(),
    {
        Speed { num: 1, den: 1 }
    }

    /// The rate `num / den`.
    pub fn new(num: u32, den: u32) -> (r: Speed)
        requires
            num >= 1,
            den >= 1,
        ensures
            r.num == num && r.den == den,
            r.wf(),
    {
        Speed { num, den }
    }
}

/// `a - b` clamped to the `i64` range.
pub open spec fn sat_sub_spec(a: int, b: int) -> int {
    if a - b < i64::MIN {
        i64::MIN as int
    } else if a - b > i64::MAX {
        i64::MAX as int
    } else {
        a - b
    }
}

/// Whether an item carrying `data_time` is admitted at wall time `now`:
///
/// `(data_time - data_origin)  <=  round((now - wall_origin) * speed)`
///
/// with both subtractions in saturating nanoseconds and the product rounded
/// to the nearest integer, half toward positive infinity.  With
/// `dest = data_time - data_origin`, `elapsed = now - wall_origin` and
/// `speed = num / den` this is `dest <= floor((2*elapsed*num + den) / (2*den))`,
/// that is, `2*den*dest <= 2*elapsed*num + den`.
pub open spec fn released(
    data_time: i64,
    data_origin: i64,
    wall_origin: i64,
    now: i64,
    speed: Speed,
) -> bool {
    2 * (speed.den as int) * sat_sub_spec(data_time as int, data_origin as int) <= 2 * sat_sub_spec(
        now as int,
        wall_origin as int,
    ) * (speed.num as int) + (speed.den as int)
}

/// `a - b` clamped to the `i64` range.
pub(crate) fn sat_sub(a: i64, b: i64) -> (r: i64)
    ensures
        r as int == sat_sub_spec(a as int, b as int),
{
    let d: i128 = (a as i128) - (b as i128);
    if d < i64::MIN as i128 {
        i64::MIN
    } else if d > i64::MAX as i128 {
        i64::MAX
    } else {
        d as i64
    }
}

/// Evaluate the admission rule at wall time `now`.
pub fn is_released_at(
    data_time: i64,
    data_origin: i64,
    wall_origin: i64,
    now: i64,
    speed: Speed,
) -> (r: bool)
    ensures
        r == released(data_time, data_origin, wall_origin, now, speed),
{
    let dest: i128 = sat_sub(data_time, data_origin) as i128;
    let elapsed: i128 = sat_sub(now, wall_origin) as i128;
    let num: i128 = speed.num as i128;
    let den: i128 = speed.den as i128;
    proof {
        assert((2 * den) * dest <= (2 * den) * (i64::MAX as i128) && (2 * den) * dest >= (2 * den)
            * (i64::MIN as i128)) by (nonlinear_arith)
            requires
                0 <= den <= u32::MAX,
                i64::MIN <= dest <= i64::MAX,
        ;
        assert((2 * elapsed) * num <= (2 * (i64::MAX as i128)) * (u32::MAX as i128) && (2
            * elapsed) * num >= (2 * (i64::MIN as i128)) * (u32::MAX as i128)) by (nonlinear_arith)
            requires
                0 <= num <= u32::MAX,
                i64::MIN <= elapsed <= i64::MAX,
        ;
    }
    2 * den * dest <= 2 * elapsed * num + den
}

/// Relies on chrono's `Utc::now`: the wall clock as a naive local timestamp
/// in nanoseconds since the Unix epoch (0 when the clock lies outside the
/// range chrono can express in nanoseconds).  Nothing is promised of the
/// value: it depends on the machine's clock alone.
#[verifier::external_body]
pub fn now_nanos() -> i64 {
    chrono::Utc::now().naive_local().and_utc().timestamp_nanos_opt().unwrap_or(0)
}

} // verus!
