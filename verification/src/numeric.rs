//! Numeric axis domains: a half-open interval `[start, end)` of a primitive
//! integer type, mapped onto a pixel span by an exact affine formula, with
//! key points generated at "nice" round steps.
use vstd::prelude::*;

use crate::arith::{
    abs_int, ceil_div_i128, ceil_ratio, clamp_i32, floor_div_i128, floor_ratio,
    lemma_floor_div_bounds, lemma_floor_div_ordered, trunc_div_i128, trunc_ratio,
};
use crate::ranged::{Ranged, ReversibleRanged};

verus! {

/// Coordinate arithmetic is carried out in `i128`; every value handled is
/// far below this bound, which keeps all intermediate products in range.
pub const COORD_LIMIT: i128 = 1000000000000000000000000;

pub open spec fn in_coord_range(x: int) -> bool {
    -(COORD_LIMIT as int) <= x <= COORD_LIMIT as int
}

/// The affine projection of `v` from the value interval `[a, b)` onto the
/// pixel interval `[p0, p1)`, before clamping:
/// `p0 + floor((p1 - p0) * (v - a) / (b - a) + 1/1000)`.
/// The small bias avoids losing a pixel to floor truncation at positions
/// that land exactly on a pixel boundary. A degenerate pixel interval maps
/// everything to `p1`; a degenerate value interval maps everything to `p0`.
pub open spec fn affine_map_val(a: int, b: int, p0: int, p1: int, v: int) -> int {
    if p1 == p0 {
        p1
    } else if b == a {
        p0
    } else {
        p0 + floor_ratio(1000 * (p1 - p0) * (v - a) + (b - a), 1000 * (b - a))
    }
}

/// What a numeric `map` returns: the affine projection, saturated into the
/// `i32` pixel range.
pub open spec fn spec_pixel_map(a: int, b: int, p0: int, p1: int, v: int) -> int {
    clamp_i32(affine_map_val(a, b, p0, p1, v))
}

/// The inverse projection: the value whose mapped position is the pixel
/// `p`, rounded toward zero as a hardware cast rounds.
pub open spec fn affine_unmap_val(a: int, b: int, p0: int, p1: int, p: int) -> int {
    trunc_ratio((b - a) * (p - p0) + a * (p1 - p0), p1 - p0)
}

/// What a numeric `unmap` returns: `None` when the pixel lies outside the
/// interval spanned by the limit, or when the limit is degenerate.
pub open spec fn spec_pixel_unmap(a: int, b: int, p0: int, p1: int, p: int) -> Option<int> {
    let lo = if p0 <= p1 {
        p0
    } else {
        p1
    };
    let hi = if p0 <= p1 {
        p1
    } else {
        p0
    };
    if p < lo || p > hi {
        None
    } else if p0 == p1 {
        None
    } else {
        Some(affine_unmap_val(a, b, p0, p1, p))
    }
}

/// Maps `v` from `[a, b)` onto the pixel span `limit`, exactly as
/// `spec_pixel_map` describes.
pub fn map_core(a: i128, b: i128, p0: i32, p1: i32, v: i128) -> (r: i32)
    requires
        in_coord_range(a as int),
        in_coord_range(b as int),
        in_coord_range(v as int),
    ensures
        r as int == spec_pixel_map(a as int, b as int, p0 as int, p1 as int, v as int),
{
    if p1 == p0 {
        return p1;
    }
    if b == a {
        return p0;
    }
    let s: i128 = (p1 as i128) - (p0 as i128);
    let d: i128 = b - a;
    proof {
        assert(-6000000000000 * 3 * (COORD_LIMIT as int) <= 1000 * (s as int) * (v as int - a as int)
            <= 6000000000000 * 3 * (COORD_LIMIT as int)) by (nonlinear_arith)
            requires
                -6000000000 <= s as int <= 6000000000,
                -3 * (COORD_LIMIT as int) <= v as int - a as int <= 3 * (COORD_LIMIT as int),
        ;
    }
    let n: i128 = 1000 * s * (v - a) + d;
    let q: i128 = if d > 0 {
        floor_div_i128(n, 1000 * d)
    } else {
        floor_div_i128(-n, 1000 * (-d))
    };
    proof {
        assert(q as int == floor_ratio(n as int, 1000 * (d as int)));
        lemma_div_magnitude(n as int, 1000 * (d as int));
    }
    let res: i128 = (p0 as i128) + q;
    if res < (i32::MIN as i128) {
        i32::MIN
    } else if res > (i32::MAX as i128) {
        i32::MAX
    } else {
        res as i32
    }
}

/// The magnitude of a floored quotient never exceeds the numerator's.
proof fn lemma_div_magnitude_pos(n: int, d: int)
    requires
        d >= 1,
    ensures
        abs_int(n / d) <= abs_int(n),
{
    lemma_floor_div_bounds(n, d);
    let q = n / d;
    assert(d * q <= n < d * q + d);
    if q >= 0 {
        assert(q <= d * q) by (nonlinear_arith)
            requires
                d >= 1,
                q >= 0,
        ;
    } else {
        assert(d * (q + 1) <= q + 1) by (nonlinear_arith)
            requires
                d >= 1,
                q + 1 <= 0,
        ;
        assert(d * q + d == d * (q + 1)) by (nonlinear_arith);
        assert(n <= q);
    }
}

/// The magnitude of `floor_ratio` never exceeds the numerator's.
proof fn lemma_div_magnitude(n: int, d: int)
    requires
        d != 0,
    ensures
        abs_int(floor_ratio(n, d)) <= abs_int(n),
{
    if d > 0 {
        lemma_div_magnitude_pos(n, d);
    } else {
        lemma_div_magnitude_pos(-n, -d);
    }
}

/// Recovers from pixel `p` the value it stands for, exactly as
/// `spec_pixel_unmap` describes.
pub fn unmap_core(a: i128, b: i128, p0: i32, p1: i32, p: i32) -> (r: Option<i128>)
    requires
        in_coord_range(a as int),
        in_coord_range(b as int),
    ensures
        match r {
            Some(w) => spec_pixel_unmap(a as int, b as int, p0 as int, p1 as int, p as int)
                == Some(w as int),
            None => spec_pixel_unmap(a as int, b as int, p0 as int, p1 as int, p as int) is None,
        },
{
    let lo = if p0 <= p1 {
        p0
    } else {
        p1
    };
    let hi = if p0 <= p1 {
        p1
    } else {
        p0
    };
    if p < lo || p > hi {
        return None;
    }
    if p0 == p1 {
        return None;
    }
    let s: i128 = (p1 as i128) - (p0 as i128);
    let t: i128 = (p as i128) - (p0 as i128);
    proof {
        assert(-6000000000 * 3 * (COORD_LIMIT as int) <= (b as int - a as int) * (t as int)
            <= 6000000000 * 3 * (COORD_LIMIT as int)) by (nonlinear_arith)
            requires
                -6000000000 <= t as int <= 6000000000,
                -3 * (COORD_LIMIT as int) <= b as int - a as int <= 3 * (COORD_LIMIT as int),
        ;
        assert(-6000000000 * (COORD_LIMIT as int) <= (a as int) * (s as int) <= 6000000000 * (
        COORD_LIMIT as int)) by (nonlinear_arith)
            requires
                -6000000000 <= s as int <= 6000000000,
                -(COORD_LIMIT as int) <= a as int <= COORD_LIMIT as int,
        ;
    }
    let n: i128 = (b - a) * t + a * s;
    let w = trunc_div_i128(n, s);
    Some(w)
}

/// How many ticks a step of `scale` places over a span: one, plus one per
/// whole step the span covers.
pub open spec fn kp_ceil(span: int, scale: int) -> int {
    ceil_ratio(span, scale)
}

/// The step size the integer key-point generator settles on. Starting from
/// `scale`, it accepts the current step once it fits the budget, otherwise
/// tries doubling, then five times, then ten times the step, and repeats
/// from the next power of ten.
pub open spec fn kp_scale(span: int, max: int, scale: int) -> int
    decreases
            (if scale > span {
                0int
            } else {
                span + 1 - scale
            }),
    when 1 <= scale && 1 <= max && 0 <= span
    via kp_scale_decreases
{
    if kp_ceil(span, scale) <= max {
        scale
    } else if kp_ceil(span, 2 * scale) < max {
        2 * scale
    } else if kp_ceil(span, 5 * scale) < max {
        5 * scale
    } else if kp_ceil(span, 10 * scale) < max {
        10 * scale
    } else {
        kp_scale(span, max, 10 * scale)
    }
}

/// A budget overrun at the current step means the span strictly exceeds it.
proof fn lemma_kp_overrun(span: int, max: int, scale: int)
    requires
        1 <= scale,
        1 <= max,
        0 <= span,
        kp_ceil(span, scale) > max,
    ensures
        span > scale,
{
    lemma_floor_div_bounds(span + scale - 1, scale);
    let q = (span + scale - 1) / scale;
    assert(q >= 2);
    assert(scale * 2 <= scale * q) by (nonlinear_arith)
        requires
            scale >= 1,
            q >= 2,
    ;
}

#[via_fn]
proof fn kp_scale_decreases(span: int, max: int, scale: int) {
    if !(kp_ceil(span, scale) <= max) && !(kp_ceil(span, 2 * scale) < max) && !(kp_ceil(
        span,
        5 * scale,
    ) < max) && !(kp_ceil(span, 10 * scale) < max) {
        lemma_kp_overrun(span, max, scale);
    }
}

/// The chosen step covers the span within the budget: at most `max` whole
/// steps fit in it.
pub proof fn lemma_kp_scale_fits(span: int, max: int, scale: int)
    requires
        1 <= scale,
        1 <= max,
        0 <= span,
    ensures
        kp_scale(span, max, scale) >= scale,
        span / kp_scale(span, max, scale) <= max,
    decreases
            (if scale > span {
                0int
            } else {
                span + 1 - scale
            }),
{
    let chosen = kp_scale(span, max, scale);
    if kp_ceil(span, scale) <= max {
        lemma_ceil_dominates_floor(span, scale);
    } else if kp_ceil(span, 2 * scale) < max {
        lemma_ceil_dominates_floor(span, 2 * scale);
    } else if kp_ceil(span, 5 * scale) < max {
        lemma_ceil_dominates_floor(span, 5 * scale);
    } else if kp_ceil(span, 10 * scale) < max {
        lemma_ceil_dominates_floor(span, 10 * scale);
    } else {
        lemma_kp_overrun(span, max, scale);
        lemma_kp_scale_fits(span, max, 10 * scale);
    }
}

/// The floored tick count never exceeds the ceiling-based estimate.
proof fn lemma_ceil_dominates_floor(span: int, scale: int)
    requires
        1 <= scale,
        0 <= span,
    ensures
        span / scale <= kp_ceil(span, scale),
{
    lemma_floor_div_ordered(span, span + scale - 1, scale);
}

/// The ascending multiples of `scale` lying in `[lo, hi]`.
pub open spec fn multiples_seq(lo: int, hi: int, scale: int) -> Seq<int> {
    let k0 = ceil_ratio(lo, scale);
    let k1 = floor_ratio(hi, scale);
    if k0 > k1 {
        Seq::empty()
    } else {
        Seq::new((k1 - k0 + 1) as nat, |i: int| (k0 + i) * scale)
    }
}

/// What the integer key-point generator returns for the interval from `a`
/// to `b` (in either order): nothing when no points were asked for, else
/// every multiple of the chosen step inside the closed interval.
pub open spec fn int_key_points_spec(a: int, b: int, max: int) -> Seq<int> {
    let lo = if a <= b {
        a
    } else {
        b
    };
    let hi = if a <= b {
        b
    } else {
        a
    };
    if max <= 0 {
        Seq::empty()
    } else {
        multiples_seq(lo, hi, kp_scale(hi - lo, max, 1))
    }
}

/// Generates the integer key points, exactly as `int_key_points_spec`
/// describes, with never more than one point over the requested budget.
pub fn int_key_points_core(a: i128, b: i128, max_points: usize) -> (r: Vec<i128>)
    requires
        in_coord_range(a as int),
        in_coord_range(b as int),
    ensures
        r@.map_values(|x: i128| x as int) == int_key_points_spec(
            a as int,
            b as int,
            max_points as int,
        ),
        r@.len() <= max_points + 1,
        forall|i: int|
            0 <= i < r@.len() ==> (a as int <= #[trigger] (r@[i] as int) <= b as int || b as int
                <= r@[i] as int <= a as int),
{
    let mut ret: Vec<i128> = Vec::new();
    if max_points == 0 {
        assert(ret@.map_values(|x: i128| x as int) =~= Seq::<int>::empty());
        return ret;
    }
    let (lo, hi) = if a <= b {
        (a, b)
    } else {
        (b, a)
    };
    let span: i128 = hi - lo;
    let maxw: i128 = max_points as i128;
    let mut scale: i128 = 1;
    loop
        invariant_except_break
            1 <= scale <= 10 * span + 10,
            0 <= span <= 2 * (COORD_LIMIT as int),
            1 <= maxw,
            kp_scale(span as int, maxw as int, 1) == kp_scale(span as int, maxw as int, scale as int),
        ensures
            1 <= scale <= 10 * span + 10,
            0 <= span <= 2 * (COORD_LIMIT as int),
            scale as int == kp_scale(span as int, maxw as int, 1),
        decreases
                (if span >= scale {
                    span - scale
                } else {
                    0int
                }),
    {
        if (span + scale - 1) / scale <= maxw {
            break ;
        }
        proof {
            lemma_kp_overrun(span as int, maxw as int, scale as int);
        }
        if (span + 2 * scale - 1) / (2 * scale) < maxw {
            scale = 2 * scale;
            break ;
        }
        if (span + 5 * scale - 1) / (5 * scale) < maxw {
            scale = 5 * scale;
            break ;
        }
        if (span + 10 * scale - 1) / (10 * scale) < maxw {
            scale = 10 * scale;
            break ;
        }
        scale = 10 * scale;
    }
    proof {
        lemma_kp_scale_fits(span as int, maxw as int, 1);
    }
    let k0 = ceil_div_i128(lo, scale);
    let k1 = floor_div_i128(hi, scale);
    proof {
        lemma_floor_div_bounds(hi as int, scale as int);
        lemma_floor_div_bounds(lo as int + scale as int - 1, scale as int);
        lemma_kp_emission_bounds(lo as int, hi as int, scale as int, maxw as int);
    }
    if k0 > k1 {
        assert(ret@.map_values(|x: i128| x as int) =~= multiples_seq(
            lo as int,
            hi as int,
            scale as int,
        ));
        return ret;
    }
    let ghost target = multiples_seq(lo as int, hi as int, scale as int);
    let mut k = k0;
    while k <= k1
        invariant
            k0 <= k <= k1 + 1,
            k1 - k0 + 1 <= maxw + 1,
            maxw as int <= max_points as int,
            1 <= scale,
            in_coord_range(lo as int),
            in_coord_range(hi as int),
            k0 == ceil_ratio(lo as int, scale as int),
            k1 == floor_ratio(hi as int, scale as int),
            lo as int <= k0 * scale,
            k1 * scale <= hi as int,
            target == multiples_seq(lo as int, hi as int, scale as int),
            ret@.len() == k - k0,
            forall|i: int| 0 <= i < ret@.len() ==> ret@[i] as int == target[i],
            forall|i: int|
                0 <= i < ret@.len() ==> lo as int <= #[trigger] (ret@[i] as int) <= hi as int,
        decreases k1 + 1 - k,
    {
        proof {
            assert(k0 * scale <= k * scale <= k1 * scale) by (nonlinear_arith)
                requires
                    k0 <= k <= k1,
                    scale >= 1,
            ;
        }
        ret.push(k * scale);
        k = k + 1;
    }
    assert(ret@.map_values(|x: i128| x as int) =~= target);
    ret
}

/// The number of step multiples inside the interval stays within one of
/// the budget.
proof fn lemma_kp_emission_bounds(lo: int, hi: int, scale: int, max: int)
    requires
        1 <= scale,
        1 <= max,
        lo <= hi,
        (hi - lo) / scale <= max,
    ensures
        ceil_ratio(lo, scale) * scale >= lo,
        floor_ratio(hi, scale) * scale <= hi,
        floor_ratio(hi, scale) - ceil_ratio(lo, scale) + 1 <= max + 1,
{
    let k0 = ceil_ratio(lo, scale);
    let k1 = floor_ratio(hi, scale);
    lemma_floor_div_bounds(lo + scale - 1, scale);
    lemma_floor_div_bounds(hi, scale);
    assert(scale * k0 <= lo + scale - 1);
    assert(scale * k0 > lo + scale - 1 - scale);
    assert(scale * k1 <= hi);
    assert((k1 - k0) * scale <= hi - lo) by (nonlinear_arith)
        requires
            scale * k1 <= hi,
            scale * k0 > lo - 1,
            scale >= 1,
    ;
    if k1 - k0 >= 0 {
        assert(k1 - k0 <= (hi - lo) / scale) by {
            lemma_div_ge_mult(k1 - k0, hi - lo, scale);
        }
    }
}

/// If `q * d` stays at or below `n`, then `q` stays at or below `n / d`.
pub proof fn lemma_div_ge_mult(q: int, n: int, d: int)
    requires
        d >= 1,
        q * d <= n,
        0 <= q,
    ensures
        q <= n / d,
{
    lemma_floor_div_bounds(n, d);
    let qd = n / d;
    assert(d * qd + d > n >= q * d);
    assert(q <= qd) by (nonlinear_arith)
        requires
            d * qd + d > q * d,
            d >= 1,
    ;
}

/// The shape of the integer key points: they ascend strictly, they all
/// lie inside the closed interval between the two ends, and whenever the
/// interval contains zero and at least one point was asked for, at least
/// one is returned.
pub proof fn lemma_int_key_points_props(a: int, b: int, max: int)
    ensures
        ({
            let s = int_key_points_spec(a, b, max);
            let lo = if a <= b {
                a
            } else {
                b
            };
            let hi = if a <= b {
                b
            } else {
                a
            };
            &&& (forall|i: int, j: int| 0 <= i < j < s.len() ==> s[i] < s[j])
            &&& (forall|i: int| 0 <= i < s.len() ==> lo <= #[trigger] s[i] <= hi)
            &&& (lo <= 0 <= hi && max >= 1 ==> s.len() >= 1)
        }),
{
    let s = int_key_points_spec(a, b, max);
    let lo = if a <= b {
        a
    } else {
        b
    };
    let hi = if a <= b {
        b
    } else {
        a
    };
    if max >= 1 {
        let scale = kp_scale(hi - lo, max, 1);
        lemma_kp_scale_fits(hi - lo, max, 1);
        let k0 = ceil_ratio(lo, scale);
        let k1 = floor_ratio(hi, scale);
        lemma_floor_div_bounds(lo + scale - 1, scale);
        lemma_floor_div_bounds(hi, scale);
        assert(scale * k0 >= lo && scale * k1 <= hi);
        assert(forall|i: int, j: int| 0 <= i < j < s.len() ==> s[i] < s[j]) by {
            assert(forall|i: int, j: int|
                i < j ==> #[trigger] ((k0 + i) * scale) < #[trigger] ((k0 + j) * scale))
                by (nonlinear_arith)
                requires
                    scale >= 1,
            ;
        }
        assert(forall|i: int| 0 <= i < s.len() ==> lo <= #[trigger] s[i] <= hi) by {
            assert(forall|i: int|
                0 <= i <= k1 - k0 ==> scale * k0 <= #[trigger] ((k0 + i) * scale) <= scale * k1)
                by (nonlinear_arith)
                requires
                    scale >= 1,
            ;
        }
        if lo <= 0 <= hi {
            crate::arith::lemma_ceil_div_shrinks(lo, scale);
            crate::arith::lemma_floor_div_shrinks(hi, scale);
            assert(k0 <= 0 <= k1);
        }
    }
}

/// A primitive integer type usable as the value type of a numeric axis:
/// it embeds losslessly into the wide arithmetic type, and its whole range
/// sits far inside the coordinate arithmetic bound.
pub trait CoordValue: Copy + Sized {
    /// The mathematical value.
    spec fn as_int(self) -> int;

    /// The smallest value of the type.
    spec fn min_spec() -> int;

    /// The largest value of the type.
    spec fn max_spec() -> int;

    /// The value of the type standing for a mathematical integer.
    spec fn from_int_spec(x: int) -> Self;

    proof fn lemma_in_bounds(self)
        ensures
            Self::min_spec() <= self.as_int() <= Self::max_spec(),
            -(COORD_LIMIT as int) < Self::min_spec() <= Self::max_spec() < COORD_LIMIT as int,
    ;

    proof fn lemma_from_int(x: int)
        requires
            Self::min_spec() <= x <= Self::max_spec(),
        ensures
            Self::from_int_spec(x).as_int() == x,
    ;

    fn to_wide(self) -> (r: i128)
        ensures
            r as int == self.as_int(),
    ;

    fn from_wide(w: i128) -> (r: Self)
        requires
            Self::min_spec() <= w as int <= Self::max_spec(),
        ensures
            r == Self::from_int_spec(w as int),
            r.as_int() == w as int,
    ;

    fn wide_min() -> (r: i128)
        ensures
            r as int == Self::min_spec(),
    ;

    fn wide_max() -> (r: i128)
        ensures
            r as int == Self::max_spec(),
    ;
}

impl CoordValue for i32 {
    open spec fn as_int(self) -> int {
        self as int
    }

    open spec fn min_spec() -> int {
        i32::MIN as int
    }

    open spec fn max_spec() -> int {
        i32::MAX as int
    }

    open spec fn from_int_spec(x: int) -> i32 {
        x as i32
    }

    proof fn lemma_in_bounds(self) {
    }

    proof fn lemma_from_int(x: int) {
    }

    fn to_wide(self) -> i128 {
        self as i128
    }

    fn from_wide(w: i128) -> i32 {
        w as i32
    }

    fn wide_min() -> i128 {
        i32::MIN as i128
    }

    fn wide_max() -> i128 {
        i32::MAX as i128
    }
}

impl CoordValue for u32 {
    open spec fn as_int(self) -> int {
        self as int
    }

    open spec fn min_spec() -> int {
        0
    }

    open spec fn max_spec() -> int {
        u32::MAX as int
    }

    open spec fn from_int_spec(x: int) -> u32 {
        x as u32
    }

    proof fn lemma_in_bounds(self) {
    }

    proof fn lemma_from_int(x: int) {
    }

    fn to_wide(self) -> i128 {
        self as i128
    }

    fn from_wide(w: i128) -> u32 {
        w as u32
    }

    fn wide_min() -> i128 {
        0
    }

    fn wide_max() -> i128 {
        u32::MAX as i128
    }
}

impl CoordValue for i64 {
    open spec fn as_int(self) -> int {
        self as int
    }

    open spec fn min_spec() -> int {
        i64::MIN as int
    }

    open spec fn max_spec() -> int {
        i64::MAX as int
    }

    open spec fn from_int_spec(x: int) -> i64 {
        x as i64
    }

    proof fn lemma_in_bounds(self) {
    }

    proof fn lemma_from_int(x: int) {
    }

    fn to_wide(self) -> i128 {
        self as i128
    }

    fn from_wide(w: i128) -> i64 {
        w as i64
    }

    fn wide_min() -> i128 {
        i64::MIN as i128
    }

    fn wide_max() -> i128 {
        i64::MAX as i128
    }
}

impl CoordValue for u64 {
    open spec fn as_int(self) -> int {
        self as int
    }

    open spec fn min_spec() -> int {
        0
    }

    open spec fn max_spec() -> int {
        u64::MAX as int
    }

    open spec fn from_int_spec(x: int) -> u64 {
        x as u64
    }

    proof fn lemma_in_bounds(self) {
    }

    proof fn lemma_from_int(x: int) {
    }

    fn to_wide(self) -> i128 {
        self as i128
    }

    fn from_wide(w: i128) -> u64 {
        w as u64
    }

    fn wide_min() -> i128 {
        0
    }

    fn wide_max() -> i128 {
        u64::MAX as i128
    }
}

impl CoordValue for isize {
    open spec fn as_int(self) -> int {
        self as int
    }

    open spec fn min_spec() -> int {
        isize::MIN as int
    }

    open spec fn max_spec() -> int {
        isize::MAX as int
    }

    open spec fn from_int_spec(x: int) -> isize {
        x as isize
    }

    proof fn lemma_in_bounds(self) {
    }

    proof fn lemma_from_int(x: int) {
    }

    fn to_wide(self) -> i128 {
        self as i128
    }

    fn from_wide(w: i128) -> isize {
        w as isize
    }

    fn wide_min() -> i128 {
        isize::MIN as i128
    }

    fn wide_max() -> i128 {
        isize::MAX as i128
    }
}

impl CoordValue for usize {
    open spec fn as_int(self) -> int {
        self as int
    }

    open spec fn min_spec() -> int {
        0
    }

    open spec fn max_spec() -> int {
        usize::MAX as int
    }

    open spec fn from_int_spec(x: int) -> usize {
        x as usize
    }

    proof fn lemma_in_bounds(self) {
    }

    proof fn lemma_from_int(x: int) {
    }

    fn to_wide(self) -> i128 {
        self as i128
    }

    fn from_wide(w: i128) -> usize {
        w as usize
    }

    fn wide_min() -> i128 {
        0
    }

    fn wide_max() -> i128 {
        usize::MAX as i128
    }
}

/// A numeric axis domain: the half-open interval from the first field to
/// the second, in either direction.
#[derive(Clone, Copy)]
pub struct NumericCoord<T: CoordValue>(pub T, pub T);

/// The ranged coordinate for type i32.
pub type RangedCoordi32 = NumericCoord<i32>;

/// The ranged coordinate for type u32.
pub type RangedCoordu32 = NumericCoord<u32>;

/// The ranged coordinate for type i64.
pub type RangedCoordi64 = NumericCoord<i64>;

/// The ranged coordinate for type u64.
pub type RangedCoordu64 = NumericCoord<u64>;

/// The ranged coordinate for type isize.
pub type RangedCoordisize = NumericCoord<isize>;

/// The ranged coordinate for type usize.
pub type RangedCoordusize = NumericCoord<usize>;

impl<T: CoordValue> From<core::ops::Range<T>> for NumericCoord<T> {
    fn from(range: core::ops::Range<T>) -> (r: Self) {
        NumericCoord(range.start, range.end)
    }
}

impl<T: CoordValue> vstd::std_specs::convert::FromSpecImpl<core::ops::Range<T>> for NumericCoord<T> {
    open spec fn obeys_from_spec() -> bool {
        true
    }

    open spec fn from_spec(range: core::ops::Range<T>) -> Self {
        NumericCoord(range.start, range.end)
    }
}

impl<T: CoordValue> crate::ranged::AsRangedCoord for core::ops::Range<T> {
    type CoordDescType = NumericCoord<T>;

    type Value = T;
}

/// Generates the key points of the interval from `a` to `b` in the value
/// type itself, exactly as `int_key_points_spec` describes.
pub fn compute_int_key_points<T: CoordValue>(a: T, b: T, max_points: usize) -> (r: Vec<T>)
    ensures
        r@.map_values(|t: T| t.as_int()) == int_key_points_spec(
            a.as_int(),
            b.as_int(),
            max_points as int,
        ),
        r@.len() <= max_points + 1,
{
    proof {
        a.lemma_in_bounds();
        b.lemma_in_bounds();
    }
    let wide = int_key_points_core(a.to_wide(), b.to_wide(), max_points);
    let ghost target = int_key_points_spec(a.as_int(), b.as_int(), max_points as int);
    let mut ret: Vec<T> = Vec::new();
    let mut i: usize = 0;
    while i < wide.len()
        invariant
            i <= wide.len(),
            wide@.map_values(|x: i128| x as int) == target,
            forall|j: int|
                0 <= j < wide@.len() ==> (a.as_int() <= #[trigger] (wide@[j] as int) <= b.as_int()
                    || b.as_int() <= wide@[j] as int <= a.as_int()),
            T::min_spec() <= a.as_int() <= T::max_spec(),
            T::min_spec() <= b.as_int() <= T::max_spec(),
            ret@.len() == i as int,
            forall|j: int| 0 <= j < i as int ==> #[trigger] (ret@[j].as_int()) == wide@[j] as int,
        decreases wide.len() - i,
    {
        assert(wide@.map_values(|x: i128| x as int)[i as int] == wide@[i as int] as int);
        let w = wide[i];
        ret.push(T::from_wide(w));
        i = i + 1;
    }
    proof {
        assert(ret@.map_values(|t: T| t.as_int()) =~= target) by {
            assert(forall|j: int|
                0 <= j < ret@.len() ==> ret@.map_values(|t: T| t.as_int())[j] == #[trigger] (
                ret@[j].as_int()));
            assert(forall|j: int|
                0 <= j < wide@.len() ==> wide@.map_values(|x: i128| x as int)[j] == #[trigger] (
                wide@[j] as int));
        }
    }
    ret
}

/// The key points of an i32 interval.
pub fn compute_i32_key_points(range: (i32, i32), max_points: usize) -> (r: Vec<i32>)
    ensures
        r@.map_values(|t: i32| t as int) == int_key_points_spec(
            range.0 as int,
            range.1 as int,
            max_points as int,
        ),
        r@.len() <= max_points + 1,
{
    compute_int_key_points(range.0, range.1, max_points)
}

/// The key points of a u32 interval.
pub fn compute_u32_key_points(range: (u32, u32), max_points: usize) -> (r: Vec<u32>)
    ensures
        r@.map_values(|t: u32| t as int) == int_key_points_spec(
            range.0 as int,
            range.1 as int,
            max_points as int,
        ),
        r@.len() <= max_points + 1,
{
    compute_int_key_points(range.0, range.1, max_points)
}

/// The key points of an i64 interval.
pub fn compute_i64_key_points(range: (i64, i64), max_points: usize) -> (r: Vec<i64>)
    ensures
        r@.map_values(|t: i64| t as int) == int_key_points_spec(
            range.0 as int,
            range.1 as int,
            max_points as int,
        ),
        r@.len() <= max_points + 1,
{
    compute_int_key_points(range.0, range.1, max_points)
}

/// The key points of a u64 interval.
pub fn compute_u64_key_points(range: (u64, u64), max_points: usize) -> (r: Vec<u64>)
    ensures
        r@.map_values(|t: u64| t as int) == int_key_points_spec(
            range.0 as int,
            range.1 as int,
            max_points as int,
        ),
        r@.len() <= max_points + 1,
{
    compute_int_key_points(range.0, range.1, max_points)
}

/// The key points of an isize interval.
pub fn compute_isize_key_points(range: (isize, isize), max_points: usize) -> (r: Vec<isize>)
    ensures
        r@.map_values(|t: isize| t as int) == int_key_points_spec(
            range.0 as int,
            range.1 as int,
            max_points as int,
        ),
        r@.len() <= max_points + 1,
{
    compute_int_key_points(range.0, range.1, max_points)
}

/// The key points of a usize interval.
pub fn compute_usize_key_points(range: (usize, usize), max_points: usize) -> (r: Vec<usize>)
    ensures
        r@.map_values(|t: usize| t as int) == int_key_points_spec(
            range.0 as int,
            range.1 as int,
            max_points as int,
        ),
        r@.len() <= max_points + 1,
{
    compute_int_key_points(range.0, range.1, max_points)
}

impl<T: CoordValue> crate::ranged::Ranged for NumericCoord<T> {
    type ValueType = T;

    open spec fn spec_map(&self, value: &T, limit: (i32, i32)) -> i32 {
        spec_pixel_map(
            self.0.as_int(),
            self.1.as_int(),
            limit.0 as int,
            limit.1 as int,
            value.as_int(),
        ) as i32
    }

    fn map(&self, value: &T, limit: (i32, i32)) -> (r: i32) {
        proof {
            self.0.lemma_in_bounds();
            self.1.lemma_in_bounds();
            value.lemma_in_bounds();
        }
        map_core(self.0.to_wide(), self.1.to_wide(), limit.0, limit.1, value.to_wide())
    }

    open spec fn key_points_post(&self, max_points: usize, r: Seq<T>) -> bool {
        &&& r.map_values(|t: T| t.as_int()) == int_key_points_spec(
            self.0.as_int(),
            self.1.as_int(),
            max_points as int,
        )
        &&& r.len() <= max_points + 1
    }

    fn key_points(&self, max_points: usize) -> (r: Vec<T>) {
        let r = compute_int_key_points(self.0, self.1, max_points);
        proof {
            assert(r@.map_values(|t: T| t.as_int()).len() == r@.len());
        }
        r
    }

    open spec fn spec_range(&self) -> (T, T) {
        (self.0, self.1)
    }

    fn range(&self) -> (r: core::ops::Range<T>) {
        self.0..self.1
    }

    open spec fn spec_axis_pixel_range(&self, limit: (i32, i32)) -> (i32, i32) {
        limit
    }

    fn axis_pixel_range(&self, limit: (i32, i32)) -> (r: core::ops::Range<i32>) {
        limit.0..limit.1
    }
}

impl<T: CoordValue> crate::ranged::ReversibleRanged for NumericCoord<T> {
    open spec fn spec_unmap(&self, input: i32, limit: (i32, i32)) -> Option<T> {
        match spec_pixel_unmap(
            self.0.as_int(),
            self.1.as_int(),
            limit.0 as int,
            limit.1 as int,
            input as int,
        ) {
            Some(w) => Some(T::from_int_spec(w)),
            None => None,
        }
    }

    fn unmap(&self, input: i32, limit: (i32, i32)) -> (r: Option<T>) {
        proof {
            self.0.lemma_in_bounds();
            self.1.lemma_in_bounds();
        }
        match unmap_core(self.0.to_wide(), self.1.to_wide(), limit.0, limit.1, input) {
            Some(w) => {
                proof {
                    lemma_unmap_within(
                        self.0.as_int(),
                        self.1.as_int(),
                        limit.0 as int,
                        limit.1 as int,
                        input as int,
                    );
                }
                Some(T::from_wide(w))
            },
            None => None,
        }
    }
}

/// For an in-range pixel, the recovered value lies between the interval's
/// two endpoints.
pub proof fn lemma_unmap_within(a: int, b: int, p0: int, p1: int, p: int)
    requires
        spec_pixel_unmap(a, b, p0, p1, p) is Some,
    ensures
        ({
            let w = spec_pixel_unmap(a, b, p0, p1, p)->Some_0;
            (a <= w <= b) || (b <= w <= a)
        }),
{
    let s = p1 - p0;
    let t = p - p0;
    if s > 0 {
        lemma_unmap_within_norm(a, b, s, t);
    } else {
        assert(trunc_ratio((b - a) * t + a * s, s) == trunc_ratio((b - a) * (-t) + a * (-s), -s))
            by {
            assert((b - a) * (-t) + a * (-s) == -((b - a) * t + a * s)) by (nonlinear_arith);
            assert(abs_int(-((b - a) * t + a * s)) == abs_int((b - a) * t + a * s));
        }
        lemma_unmap_within_norm(a, b, -s, -t);
    }
}

/// The normalised case of `lemma_unmap_within`: a positive pixel span.
proof fn lemma_unmap_within_norm(a: int, b: int, s: int, t: int)
    requires
        s >= 1,
        0 <= t <= s,
    ensures
        ({
            let w = trunc_ratio((b - a) * t + a * s, s);
            (a <= w <= b) || (b <= w <= a)
        }),
{
    let n = (b - a) * t + a * s;
    let lo = if a <= b {
        a
    } else {
        b
    };
    let hi = if a <= b {
        b
    } else {
        a
    };
    assert(lo * s <= n <= hi * s) by (nonlinear_arith)
        requires
            s >= 1,
            0 <= t <= s,
            n == (b - a) * t + a * s,
            lo == if a <= b {
                a
            } else {
                b
            },
            hi == if a <= b {
                b
            } else {
                a
            },
    ;
    let w = trunc_ratio(n, s);
    if n >= 0 {
        assert(w == n / s);
        assert(lo <= w) by {
            vstd::arithmetic::div_mod::lemma_div_multiples_vanish(lo, s);
            assert(s * lo == lo * s) by (nonlinear_arith);
            lemma_floor_div_ordered(lo * s, n, s);
        }
        assert(w <= hi) by {
            vstd::arithmetic::div_mod::lemma_div_multiples_vanish(hi, s);
            assert(s * hi == hi * s) by (nonlinear_arith);
            lemma_floor_div_ordered(n, hi * s, s);
        }
    } else {
        let q = (-n) / s;
        assert(w == -q);
        assert(w >= lo) by {
            vstd::arithmetic::div_mod::lemma_div_multiples_vanish(-lo, s);
            assert(s * (-lo) == -(lo * s)) by (nonlinear_arith);
            lemma_floor_div_ordered((-n), -(lo * s), s);
        }
        assert(w <= hi) by {
            vstd::arithmetic::div_mod::lemma_div_multiples_vanish(-hi, s);
            assert(s * (-hi) == -(hi * s)) by (nonlinear_arith);
            lemma_floor_div_ordered(-(hi * s), (-n), s);
        }
    }
}

/// Monotonicity of the numeric pixel mapping: over a forward value range,
/// growing values map to non-decreasing pixels when the pixel limit runs
/// forward, and to non-increasing pixels when it runs backward.
pub proof fn lemma_map_monotonic(a: int, b: int, p0: int, p1: int, v1: int, v2: int)
    requires
        a < b,
        v1 <= v2,
    ensures
        p0 <= p1 ==> spec_pixel_map(a, b, p0, p1, v1) <= spec_pixel_map(a, b, p0, p1, v2),
        p1 <= p0 ==> spec_pixel_map(a, b, p0, p1, v2) <= spec_pixel_map(a, b, p0, p1, v1),
{
    if p0 != p1 {
        let s = p1 - p0;
        let d = b - a;
        let n1 = 1000 * s * (v1 - a) + d;
        let n2 = 1000 * s * (v2 - a) + d;
        if s > 0 {
            assert(n1 <= n2) by (nonlinear_arith)
                requires
                    s > 0,
                    v1 <= v2,
                    n1 == 1000 * s * (v1 - a) + d,
                    n2 == 1000 * s * (v2 - a) + d,
            ;
            lemma_floor_div_ordered(n1, n2, 1000 * d);
        } else {
            assert(n2 <= n1) by (nonlinear_arith)
                requires
                    s < 0,
                    v1 <= v2,
                    n1 == 1000 * s * (v1 - a) + d,
                    n2 == 1000 * s * (v2 - a) + d,
            ;
            lemma_floor_div_ordered(n2, n1, 1000 * d);
        }
    }
}

/// The ends of the value range land exactly on the ends of the pixel
/// limit: `map(a) == p0` and `map(b) == p1`.
pub proof fn lemma_map_endpoints(a: int, b: int, p0: int, p1: int)
    requires
        a < b,
        i32::MIN <= p0 <= i32::MAX,
        i32::MIN <= p1 <= i32::MAX,
    ensures
        spec_pixel_map(a, b, p0, p1, a) == p0,
        spec_pixel_map(a, b, p0, p1, b) == p1,
{
    if p0 != p1 {
        let s = p1 - p0;
        let d = b - a;
        assert(1000 * s * (a - a) + d == d) by (nonlinear_arith);
        assert(floor_ratio(d, 1000 * d) == 0) by {
            lemma_floor_div_ordered(0, d, 1000 * d);
            lemma_floor_div_bounds(d, 1000 * d);
            let q = d / (1000 * d);
            assert(q >= 1 ==> 1000 * d * q >= 1000 * d) by (nonlinear_arith)
                requires
                    d >= 1,
            ;
        }
        assert(1000 * s * (b - a) + d == s * (1000 * d) + d) by (nonlinear_arith)
            requires
                d == b - a,
        ;
        assert(floor_ratio(s * (1000 * d) + d, 1000 * d) == s) by {
            vstd::arithmetic::div_mod::lemma_fundamental_div_mod_converse(
                s * (1000 * d) + d,
                1000 * d,
                s,
                d,
            );
        }
    }
}

/// The round trip of the numeric mapping: a value inside the range maps to
/// a pixel inside the limit, and recovering a value from that pixel lands
/// within one pixel's worth of quantisation of the value mapped.
pub proof fn lemma_map_unmap_round_trip(a: int, b: int, p0: int, p1: int, v: int)
    requires
        a < b,
        p0 < p1,
        a <= v <= b,
        i32::MIN <= p0 <= i32::MAX,
        i32::MIN <= p1 <= i32::MAX,
    ensures
        ({
            let p = spec_pixel_map(a, b, p0, p1, v);
            &&& p0 <= p <= p1
            &&& spec_pixel_unmap(a, b, p0, p1, p) is Some
            &&& abs_int(spec_pixel_unmap(a, b, p0, p1, p)->Some_0 - v) <= ceil_ratio(
                b - a,
                p1 - p0,
            )
        }),
{
    let s = p1 - p0;
    let d = b - a;
    let nv = 1000 * s * (v - a) + d;
    let q = floor_ratio(nv, 1000 * d);
    assert(q == nv / (1000 * d));
    assert(0 <= q <= s) by {
        assert(nv >= d) by (nonlinear_arith)
            requires
                s >= 1,
                d >= 1,
                v >= a,
                nv == 1000 * s * (v - a) + d,
        ;
        lemma_floor_div_ordered(0, nv, 1000 * d);
        assert(nv <= s * (1000 * d) + d) by (nonlinear_arith)
            requires
                s >= 1,
                d >= 1,
                v <= b,
                d == b - a,
                nv == 1000 * s * (v - a) + d,
        ;
        assert((s * (1000 * d) + d) / (1000 * d) == s) by {
            vstd::arithmetic::div_mod::lemma_fundamental_div_mod_converse(
                s * (1000 * d) + d,
                1000 * d,
                s,
                d,
            );
        }
        lemma_floor_div_ordered(nv, s * (1000 * d) + d, 1000 * d);
    }
    let p = spec_pixel_map(a, b, p0, p1, v);
    assert(p == p0 + q);
    let w = affine_unmap_val(a, b, p0, p1, p);
    assert(spec_pixel_unmap(a, b, p0, p1, p) == Some(w));
    let nw = d * q + a * s;
    assert((b - a) * (p - p0) + a * (p1 - p0) == nw);
    // The numerator stays within one value step of the exact position.
    assert(abs_int(nw - v * s) <= d) by {
        lemma_floor_div_bounds(nv, 1000 * d);
        assert(1000 * d * q <= nv < 1000 * d * q + 1000 * d);
        let x = d * q - s * (v - a);
        assert(1000 * x <= d && 1000 * x > -1000 * d) by (nonlinear_arith)
            requires
                x == d * q - s * (v - a),
                nv == 1000 * s * (v - a) + d,
                1000 * d * q <= nv < 1000 * d * q + 1000 * d,
                d >= 1,
        ;
        assert(x <= d) by (nonlinear_arith)
            requires
                1000 * x <= d,
                d >= 1,
        ;
        assert(x >= -d) by (nonlinear_arith)
            requires
                1000 * x > -1000 * d,
        ;
        assert(nw - v * s == x) by (nonlinear_arith)
            requires
                x == d * q - s * (v - a),
                nw == d * q + a * s,
        ;
    }
    // Truncation moves the numerator by less than one pixel span.
    assert(abs_int(w * s - nw) <= s - 1) by {
        if nw >= 0 {
            assert(w == nw / s);
            lemma_floor_div_bounds(nw, s);
            assert(s * w <= nw < s * w + s);
            assert(w * s == s * w) by (nonlinear_arith);
        } else {
            let u = (-nw) / s;
            assert(w == -u);
            lemma_floor_div_bounds(-nw, s);
            assert(s * u <= -nw < s * u + s);
            assert(w * s == -(s * u)) by (nonlinear_arith)
                requires
                    w == -u,
            ;
            assert(w * s >= nw > w * s - s);
        }
    }
    assert(abs_int(w - v) * s <= d + s - 1) by (nonlinear_arith)
        requires
            abs_int(nw - v * s) <= d,
            abs_int(w * s - nw) <= s - 1,
            s >= 1,
            abs_int(w - v) == if w - v >= 0 {
                w - v
            } else {
                -(w - v)
            },
            abs_int(nw - v * s) == if nw - v * s >= 0 {
                nw - v * s
            } else {
                -(nw - v * s)
            },
            abs_int(w * s - nw) == if w * s - nw >= 0 {
                w * s - nw
            } else {
                -(w * s - nw)
            },
    ;
    assert(abs_int(w - v) <= (d + s - 1) / s) by {
        lemma_div_ge_mult(abs_int(w - v), d + s - 1, s);
    }
}

/// Monotonicity of a numeric axis, stated of the public type: over a
/// forward value range, growing values map to non-decreasing pixels when
/// the pixel limit runs forward and to non-increasing pixels when it runs
/// backward; and the ends of the value range land exactly on the ends of
/// the pixel limit.
pub proof fn lemma_numeric_map_monotonic<T: CoordValue>(
    coord: NumericCoord<T>,
    v1: T,
    v2: T,
    limit: (i32, i32),
)
    requires
        coord.0.as_int() < coord.1.as_int(),
        v1.as_int() <= v2.as_int(),
    ensures
        limit.0 <= limit.1 ==> coord.spec_map(&v1, limit) <= coord.spec_map(&v2, limit),
        limit.1 <= limit.0 ==> coord.spec_map(&v2, limit) <= coord.spec_map(&v1, limit),
        coord.spec_map(&coord.0, limit) == limit.0,
        coord.spec_map(&coord.1, limit) == limit.1,
{
    lemma_map_monotonic(
        coord.0.as_int(),
        coord.1.as_int(),
        limit.0 as int,
        limit.1 as int,
        v1.as_int(),
        v2.as_int(),
    );
    lemma_map_endpoints(coord.0.as_int(), coord.1.as_int(), limit.0 as int, limit.1 as int);
}

/// The round trip of a numeric axis, stated of the public type: a value
/// inside a forward range maps into a forward pixel limit, unmapping that
/// pixel succeeds, and the recovered value sits within one pixel's worth
/// of quantisation of the value mapped.
pub proof fn lemma_numeric_round_trip<T: CoordValue>(coord: NumericCoord<T>, v: T, limit: (i32, i32))
    requires
        coord.0.as_int() < coord.1.as_int(),
        coord.0.as_int() <= v.as_int() <= coord.1.as_int(),
        limit.0 < limit.1,
    ensures
        ({
            let p = coord.spec_map(&v, limit);
            let w = coord.spec_unmap(p, limit);
            &&& limit.0 <= p <= limit.1
            &&& w is Some
            &&& abs_int(w->Some_0.as_int() - v.as_int()) <= ceil_ratio(
                coord.1.as_int() - coord.0.as_int(),
                limit.1 - limit.0,
            )
        }),
{
    let a = coord.0.as_int();
    let b = coord.1.as_int();
    lemma_map_unmap_round_trip(a, b, limit.0 as int, limit.1 as int, v.as_int());
    let p = coord.spec_map(&v, limit);
    let wv = spec_pixel_unmap(a, b, limit.0 as int, limit.1 as int, p as int)->Some_0;
    lemma_unmap_within(a, b, limit.0 as int, limit.1 as int, p as int);
    coord.0.lemma_in_bounds();
    coord.1.lemma_in_bounds();
    T::lemma_from_int(wv);
}

impl<T: CoordValue> crate::ranged::DiscreteRanged for NumericCoord<T> {
    type RangeParameter = ();

    open spec fn spec_range_parameter(&self) -> () {
        ()
    }

    fn get_range_parameter(&self) -> () {
    }

    open spec fn spec_next(this: &T, param: &()) -> T {
        if this.as_int() < T::max_spec() {
            T::from_int_spec(this.as_int() + 1)
        } else {
            *this
        }
    }

    fn next_value(this: &T, param: &()) -> (r: T) {
        proof {
            this.lemma_in_bounds();
        }
        let w = this.to_wide();
        let m = T::wide_max();
        if w < m {
            T::from_wide(w + 1)
        } else {
            *this
        }
    }

    open spec fn spec_prev(this: &T, param: &()) -> T {
        if this.as_int() > T::min_spec() {
            T::from_int_spec(this.as_int() - 1)
        } else {
            *this
        }
    }

    fn previous_value(this: &T, param: &()) -> (r: T) {
        proof {
            this.lemma_in_bounds();
        }
        let w = this.to_wide();
        let m = T::wide_min();
        if w > m {
            T::from_wide(w - 1)
        } else {
            *this
        }
    }
}

} // verus!
