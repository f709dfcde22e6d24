//! Integer scaling helpers: rounded proportional scaling of sizes and
//! offsets, and saturating conversions.
use vstd::prelude::*;

verus! {

/// `value * numerator / denominator`, rounded half up.
pub open spec fn rounded_ratio(value: int, numerator: int, denominator: int) -> int {
    (value * numerator + denominator / 2) / denominator
}

/// `value` scaled by `size / native_size`, rounded half up and truncated to
/// 32 bits.
pub open spec fn spec_scale_u32(value: u32, size: u32, native_size: u32) -> u32 {
    rounded_ratio(value as int, size as int, native_size as int) as u32
}

/// Scales `value` by `size / native_size`, rounding half up; the result is
/// truncated to 32 bits.
pub fn scale_u32(value: u32, size: u32, native_size: u32) -> (r: u32)
    requires
        native_size != 0,
    ensures
        r == spec_scale_u32(value, size, native_size),
{
    proof {
        assert((value as int) * (size as int) <= 0xffff_ffffint * 0xffff_ffffint) by (nonlinear_arith)
            requires
                value <= 0xffff_ffffint,
                size <= 0xffff_ffffint,
        ;
    }
    let numerator = value as u64 * size as u64 + (native_size as u64 / 2);
    (numerator / native_size as u64) as u32
}

/// A scaled size that is never zero unless the unscaled size is zero.
pub open spec fn spec_scale_ratio_nonzero(value: u32, numerator: u32, denominator: u32) -> u32 {
    if value == 0 {
        0
    } else {
        let scaled = spec_scale_u32(value, numerator, denominator);
        if scaled == 0 {
            1
        } else {
            scaled
        }
    }
}

/// Scales `value` by `numerator / denominator`; a non-zero value never
/// scales to zero.
pub fn scale_ratio_nonzero(value: u32, numerator: u32, denominator: u32) -> (r: u32)
    requires
        denominator != 0,
    ensures
        r == spec_scale_ratio_nonzero(value, numerator, denominator),
        value == 0 <==> r == 0,
{
    if value == 0 {
        0
    } else {
        let scaled = scale_u32(value, numerator, denominator);
        if scaled == 0 {
            1
        } else {
            scaled
        }
    }
}

/// `value`, or one in place of zero.
pub open spec fn spec_non_zero_or_one(value: u32) -> u32 {
    if value == 0 {
        1
    } else {
        value
    }
}

/// Returns `value`, or one in place of zero.
pub fn non_zero_or_one(value: u32) -> (r: u32)
    ensures
        r == spec_non_zero_or_one(value),
        r != 0,
{
    if value == 0 {
        1
    } else {
        value
    }
}

/// `value` clamped to the `i32` range.
pub open spec fn clamp_i32(value: int) -> i32 {
    if value > i32::MAX {
        i32::MAX
    } else if value < i32::MIN {
        i32::MIN
    } else {
        value as i32
    }
}

/// A signed offset scaled by `numerator / denominator`: its magnitude is
/// rounded half up, its sign kept, and the result clamped to `i32`.
pub open spec fn spec_scale_i32_ratio(value: i32, numerator: u32, denominator: u32) -> i32 {
    if value == 0 {
        0
    } else {
        let magnitude = if value < 0 {
            -(value as int)
        } else {
            value as int
        };
        let scaled = rounded_ratio(magnitude, numerator as int, denominator as int);
        clamp_i32(
            if value < 0 {
                -scaled
            } else {
                scaled
            },
        )
    }
}

/// Scales a signed offset by `numerator / denominator`, rounding its
/// magnitude half up and saturating at the bounds of `i32`. Taking the
/// magnitude of `i32::MIN` overflows, so that value is excluded.
pub fn scale_i32_ratio(value: i32, numerator: u32, denominator: u32) -> (r: i32)
    requires
        denominator != 0,
        value != i32::MIN,
    ensures
        r == spec_scale_i32_ratio(value, numerator, denominator),
{
    if value == 0 {
        0
    } else {
        let sign: i64 = if value < 0 {
            -1
        } else {
            1
        };
        let abs: i64 = if value < 0 {
            -(value as i64)
        } else {
            value as i64
        };
        proof {
            assert(abs * (numerator as int) <= 0x7fff_ffffint * 0xffff_ffffint) by (nonlinear_arith)
                requires
                    0 <= abs <= 0x7fff_ffffint,
                    numerator <= 0xffff_ffffint,
            ;
            assert(abs * (numerator as int) >= 0) by (nonlinear_arith)
                requires
                    0 <= abs,
                    0 <= numerator,
            ;
        }
        let scaled = (abs * numerator as i64 + (denominator as i64 / 2)) / denominator as i64;
        proof {
            assert(scaled <= abs * (numerator as int) + (denominator as int) / 2);
        }
        let signed = scaled * sign;
        if signed > i32::MAX as i64 {
            i32::MAX
        } else if signed < i32::MIN as i64 {
            i32::MIN
        } else {
            signed as i32
        }
    }
}

/// `value` as an `i32`, saturating at `i32::MAX`.
pub open spec fn sat_i32(value: u32) -> i32 {
    if value > i32::MAX {
        i32::MAX
    } else {
        value as i32
    }
}

/// Converts to `i32`, saturating at `i32::MAX`.
pub fn u32_to_i32_sat(value: u32) -> (r: i32)
    ensures
        r == sat_i32(value),
{
    if value > i32::MAX as u32 {
        i32::MAX
    } else {
        value as i32
    }
}

/// Scaling by a ratio whose numerator equals its denominator leaves every
/// value unchanged.
pub proof fn lemma_scale_by_one(value: u32, n: u32)
    requires
        n != 0,
    ensures
        spec_scale_u32(value, n, n) == value,
        spec_scale_ratio_nonzero(value, n, n) == value,
{
    assert(rounded_ratio(value as int, n as int, n as int) == value as int) by (nonlinear_arith)
        requires
            n > 0,
            value >= 0,
    {
        assert((value as int) * (n as int) + (n as int) / 2 == (n as int) * (value as int) + (n as int) / 2);
        assert(0 <= (n as int) / 2 < n);
    }
}

/// Scaling an offset by a ratio whose numerator equals its denominator leaves
/// it unchanged.
pub proof fn lemma_scale_i32_by_one(v: i32, n: u32)
    requires
        n != 0,
    ensures
        spec_scale_i32_ratio(v, n, n) == v,
{
    if v != 0 {
        let m: int = if v < 0 {
            -(v as int)
        } else {
            v as int
        };
        assert(rounded_ratio(m, n as int, n as int) == m) by (nonlinear_arith)
            requires
                n > 0,
                m >= 0,
        {
            assert(0 <= (n as int) / 2 < n);
        }
    }
}

/// Scaling an offset is symmetric in its sign wherever the scaled magnitude
/// fits below `i32::MAX`.
pub proof fn lemma_scale_i32_ratio_odd(value: i32, numerator: u32, denominator: u32)
    requires
        denominator != 0,
        value != i32::MIN,
        spec_scale_i32_ratio(value, numerator, denominator) != i32::MAX,
        spec_scale_i32_ratio(value, numerator, denominator) != i32::MIN,
    ensures
        spec_scale_i32_ratio(-value as i32, numerator, denominator) == -spec_scale_i32_ratio(
            value,
            numerator,
            denominator,
        ),
{
}

} // verus!
