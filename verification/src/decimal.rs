//! Decimal axis domains: values with a finite decimal expansion, standing
//! in for binary floating-point coordinates. The arithmetic is exact, so
//! the "nice step" key-point search — powers of ten refined by halves and
//! fifths — needs no rounding step to suppress representation noise.
use vstd::prelude::*;

use crate::arith::{abs_int, floor_ratio, lemma_floor_div_bounds, lemma_floor_div_ordered, lemma_pow10_36_value, lemma_pow10_adds, lemma_pow10_increases, lemma_pow10_pos, pow10, pow10_i128, trunc_ratio};

verus! {

/// A value with a finite decimal expansion: `mant / 10^dp`. Every decimal
/// carries at most twelve decimal places and a magnitude of at most a
/// million, which keeps all scaled arithmetic inside 64 bits.
#[derive(Clone, Copy, Debug)]
pub struct Decimal {
    pub(crate) mant: i64,
    pub(crate) dp: u32,
}

impl Decimal {
    #[verifier::type_invariant]
    pub open(crate) spec fn wf(self) -> bool {
        &&& self.dp <= 12
        &&& -1000000 * pow10(self.dp as nat) <= self.mant as int <= 1000000 * pow10(self.dp as nat)
    }

    /// The value scaled to eighteen decimal places: `mant * 10^(18 - dp)`.
    /// Two decimals are the same value exactly when these agree.
    pub open(crate) spec fn val18(self) -> int {
        self.mant as int * pow10((18 - self.dp) as nat)
    }

    /// The mantissa, as stored.
    pub open(crate) spec fn spec_mant(self) -> int {
        self.mant as int
    }

    /// The number of decimal places, as stored.
    pub open(crate) spec fn spec_dp(self) -> int {
        self.dp as int
    }

    /// Build the decimal `mant / 10^dp`. At most twelve decimal places are
    /// kept and the value may not exceed a million in magnitude.
    pub fn new(mant: i64, dp: u32) -> (r: Decimal)
        requires
            dp <= 12,
            -1000000 * pow10(dp as nat) <= mant as int <= 1000000 * pow10(dp as nat),
        ensures
            r.spec_mant() == mant as int,
            r.spec_dp() == dp as int,
    {
        Decimal { mant, dp }
    }

    /// Build the decimal standing for a plain integer.
    pub fn from_int(v: i64) -> (r: Decimal)
        requires
            -1000000 <= v <= 1000000,
        ensures
            r.spec_mant() == v as int,
            r.spec_dp() == 0,
    {
        proof {
            assert(pow10(0nat) == 1);
        }
        Decimal { mant: v, dp: 0 }
    }

    /// The mantissa of this decimal.
    pub fn mant(&self) -> (r: i64)
        ensures
            r as int == self.spec_mant(),
    {
        self.mant
    }

    /// The number of decimal places of this decimal.
    pub fn dp(&self) -> (r: u32)
        ensures
            r as int == self.spec_dp(),
    {
        self.dp
    }

    /// The value scaled to eighteen decimal places, for exact arithmetic.
    fn to_wide18(&self) -> (r: i128)
        ensures
            r as int == self.val18(),
            -1000000000000000000000000 <= r <= 1000000000000000000000000,
    {
        proof {
            use_type_invariant(self);
            lemma_val18_bound(*self);
        }
        let p = pow10_i128(18 - self.dp);
        proof {
            assert((self.mant as int) * (p as int) == self.val18());
        }
        (self.mant as i128) * p
    }
}

/// A well-formed decimal scales to at most `10^24` at eighteen places.
proof fn lemma_val18_bound(d: Decimal)
    requires
        d.wf(),
    ensures
        -1000000000000000000000000 <= d.val18() <= 1000000000000000000000000,
{
    let m = 1000000 * pow10(d.dp as nat);
    let q = pow10((18 - d.dp) as nat);
    lemma_pow10_pos((18 - d.dp) as nat);
    lemma_pow10_pos(d.dp as nat);
    lemma_pow10_adds(d.dp as nat, (18 - d.dp) as nat);
    assert(pow10(18nat) == 1000000000000000000) by {
        lemma_pow10_adds(18nat, 18nat);
        lemma_pow10_36_value();
        lemma_pow10_pos(18nat);
        assert(pow10(36nat) == pow10(18nat) * pow10(18nat));
        lemma_sqrt_unique(pow10(18nat));
    }
    assert(-m * q <= d.mant as int * q <= m * q) by (nonlinear_arith)
        requires
            -m <= d.mant as int <= m,
            q >= 1,
    ;
    assert(pow10(d.dp as nat) * q == pow10(18nat));
    assert(m * q == 1000000 * (pow10(d.dp as nat) * q)) by (nonlinear_arith)
        requires
            m == 1000000 * pow10(d.dp as nat),
    ;
    assert(m * q == 1000000000000000000000000);
    assert((-m) * q == -(m * q)) by (nonlinear_arith);
}

/// `10^18` is the only positive number whose square is `10^36`.
proof fn lemma_sqrt_unique(x: int)
    requires
        x >= 1,
        x * x == 1000000000000000000000000000000000000,
    ensures
        x == 1000000000000000000,
{
    if x < 1000000000000000000 {
        assert(x * x < 1000000000000000000000000000000000000) by (nonlinear_arith)
            requires
                1 <= x < 1000000000000000000,
        ;
    }
    if x > 1000000000000000000 {
        assert(x * x > 1000000000000000000000000000000000000) by (nonlinear_arith)
            requires
                x > 1000000000000000000,
        ;
    }
}

impl PartialEq for Decimal {
    /// Two decimals are equal when they denote the same value, whatever
    /// their precision.
    fn eq(&self, other: &Decimal) -> (r: bool) {
        proof {
            use_type_invariant(self);
            use_type_invariant(other);
        }
        let a = self.to_wide18();
        let b = other.to_wide18();
        a == b
    }
}

impl vstd::std_specs::cmp::PartialEqSpecImpl for Decimal {
    open spec fn obeys_eq_spec() -> bool {
        true
    }

    open spec fn eq_spec(&self, other: &Decimal) -> bool {
        self.val18() == other.val18()
    }
}

/// The multipliers a step scale may carry: a power of ten, or two or five
/// times one.
pub open spec fn dec_scale_m_ok(m: int) -> bool {
    m == 1 || m == 2 || m == 5
}

/// A step scale, at eighteen decimal places.
pub open spec fn dec_scale(m: int, p: nat) -> int {
    m * pow10(p)
}

/// How many multiples of `c` lie in the half-open interval `(a18, b18]`.
pub open spec fn dec_count(a18: int, b18: int, c: int) -> int {
    floor_ratio(b18, c) - floor_ratio(a18, c)
}

/// The ascending multiples of `c` lying in `(a18, b18]`. The left end is
/// excluded: the first key point sits one step above the range start.
pub open spec fn dec_multiples(a18: int, b18: int, c: int) -> Seq<int> {
    let fa = floor_ratio(a18, c);
    let n = dec_count(a18, b18, c);
    if n <= 0 {
        Seq::empty()
    } else {
        Seq::new(n as nat, |i: int| (fa + 1 + i) * c)
    }
}

/// The shape of a step's multiples: they ascend strictly and all lie in
/// the half-open interval, above its excluded start and at most its end.
pub proof fn lemma_dec_multiples_props(a18: int, b18: int, c: int)
    requires
        c >= 1,
    ensures
        ({
            let s = dec_multiples(a18, b18, c);
            &&& (forall|i: int, j: int| 0 <= i < j < s.len() ==> s[i] < s[j])
            &&& (forall|i: int| 0 <= i < s.len() ==> a18 < #[trigger] s[i] <= b18)
        }),
{
    let s = dec_multiples(a18, b18, c);
    let fa = floor_ratio(a18, c);
    let fb = floor_ratio(b18, c);
    lemma_floor_div_bounds(a18, c);
    lemma_floor_div_bounds(b18, c);
    assert(c * fa <= a18 && c * fb <= b18 && c * fa + c > a18);
    assert(forall|i: int, j: int| 0 <= i < j < s.len() ==> s[i] < s[j]) by {
        assert(forall|i: int, j: int|
            i < j ==> #[trigger] ((fa + 1 + i) * c) < #[trigger] ((fa + 1 + j) * c))
            by (nonlinear_arith)
            requires
                c >= 1,
        ;
    }
    assert(forall|i: int| 0 <= i < s.len() ==> a18 < #[trigger] s[i] <= b18) by {
        assert(c * (fa + 1) == c * fa + c) by (nonlinear_arith);
        assert(forall|i: int|
            0 <= i <= fb - fa - 1 ==> c * (fa + 1) <= #[trigger] ((fa + 1 + i) * c) <= c * fb)
            by (nonlinear_arith)
            requires
                c >= 1,
        ;
    }
}

/// The next finer scale after `m * 10^p` in the refinement chain
/// `10^(p+1), 5*10^p, 2*10^p, 10^p, 5*10^(p-1), ...`.
pub open spec fn dec_next_scale(m: int, p: nat) -> int {
    if m == 5 {
        2 * pow10(p)
    } else if m == 2 {
        pow10(p)
    } else {
        5 * pow10((p - 1) as nat)
    }
}

/// What the decimal key points are: nothing when no points were asked for
/// or the range runs backward; otherwise, for some scale of the chain, all
/// multiples of that scale in the half-open range, where the scale fits
/// the budget and the next refinement of it would not (or no refinement
/// exists).
pub open spec fn decimal_key_points_post(a18: int, b18: int, max: int, vals: Seq<int>) -> bool {
    if max <= 0 || a18 >= b18 {
        vals == Seq::<int>::empty()
    } else {
        exists|m: int, p: nat|
            {
                &&& dec_scale_m_ok(m)
                &&& #[trigger] dec_count(a18, b18, dec_scale(m, p)) <= max
                &&& vals == dec_multiples(a18, b18, dec_scale(m, p))
                &&& (dec_count(a18, b18, dec_next_scale(m, p)) > max || (m == 1 && p == 0))
            }
    }
}

/// Two decimals of at most seven places that differ at all differ by at
/// least `10^11` at eighteen places.
proof fn lemma_dp7_span(a: Decimal, b: Decimal)
    requires
        a.wf(),
        b.wf(),
        a.spec_dp() <= 7,
        b.spec_dp() <= 7,
        a.val18() < b.val18(),
    ensures
        b.val18() - a.val18() >= 100000000000,
{
    let q11 = pow10(11nat);
    assert(q11 == 100000000000) by {
        reveal_with_fuel(pow10, 13);
    }
    let ka = a.mant as int * pow10((7 - a.dp) as nat);
    let kb = b.mant as int * pow10((7 - b.dp) as nat);
    lemma_pow10_adds((7 - a.dp) as nat, 11nat);
    lemma_pow10_adds((7 - b.dp) as nat, 11nat);
    assert(a.val18() == ka * q11) by (nonlinear_arith)
        requires
            a.val18() == a.mant as int * (pow10((7 - a.dp) as nat) * q11),
            ka == a.mant as int * pow10((7 - a.dp) as nat),
    ;
    assert(b.val18() == kb * q11) by (nonlinear_arith)
        requires
            b.val18() == b.mant as int * (pow10((7 - b.dp) as nat) * q11),
            kb == b.mant as int * pow10((7 - b.dp) as nat),
    ;
    assert(kb > ka) by (nonlinear_arith)
        requires
            ka * q11 < kb * q11,
            q11 >= 1,
    ;
    assert(kb * q11 - ka * q11 >= q11) by (nonlinear_arith)
        requires
            kb >= ka + 1,
            q11 >= 1,
    ;
}

/// The number of multiples of `c` in the interval brackets the interval's
/// length in steps.
proof fn lemma_dec_count_bounds(a18: int, b18: int, c: int)
    requires
        c >= 1,
        a18 <= b18,
    ensures
        (b18 - a18) / c <= dec_count(a18, b18, c) <= (b18 - a18) / c + 1,
        dec_count(a18, b18, c) >= 0,
{
    let fa = floor_ratio(a18, c);
    let fb = floor_ratio(b18, c);
    let span = b18 - a18;
    lemma_floor_div_bounds(a18, c);
    lemma_floor_div_bounds(b18, c);
    lemma_floor_div_ordered(a18, b18, c);
    lemma_floor_div_bounds(span, c);
    // Upper: the covered length (fb - fa) * c cannot exceed span + c - 1.
    assert((fb - fa) * c <= span + c - 1) by (nonlinear_arith)
        requires
            span == b18 - a18,
            c * fb <= b18,
            c * fa > a18 - c,
    ;
    assert(fb - fa <= (span + c - 1) / c) by {
        crate::numeric::lemma_div_ge_mult(fb - fa, span + c - 1, c);
    }
    assert((span + c - 1) / c <= span / c + 1) by {
        assert(span + c - 1 <= span + c);
        lemma_floor_div_ordered(span + c - 1, span + c, c);
        assert((span + c) / c == span / c + 1) by {
            vstd::arithmetic::div_mod::lemma_fundamental_div_mod(span, c);
            vstd::arithmetic::div_mod::lemma_mod_bound(span, c);
            assert(span + c == (span / c + 1) * c + span % c) by (nonlinear_arith)
                requires
                    span == c * (span / c) + span % c,
            ;
            vstd::arithmetic::div_mod::lemma_fundamental_div_mod_converse(
                span + c,
                c,
                span / c + 1,
                span % c,
            );
        }
    }
    // Lower: one more step than fb - fa strictly overshoots the span.
    assert((fb - fa + 1) * c > span) by (nonlinear_arith)
        requires
            span == b18 - a18,
            c * fb + c > b18,
            c * fa <= a18,
    ;
    assert(span / c < fb - fa + 1) by {
        assert(c * (span / c) <= span);
        if span / c >= fb - fa + 1 {
            assert(c * (span / c) >= c * (fb - fa + 1)) by (nonlinear_arith)
                requires
                    c >= 1,
                    span / c >= fb - fa + 1,
            ;
            assert(c * (fb - fa + 1) == (fb - fa + 1) * c) by (nonlinear_arith);
        }
    }
}

/// A span smaller than the step holds no whole step.
proof fn lemma_small_div_zero(n: int, c: int)
    requires
        0 <= n < c,
    ensures
        n / c == 0,
{
    vstd::arithmetic::div_mod::lemma_fundamental_div_mod_converse(n, c, 0, n);
}

/// Any scale of the chain that fits a thousand-point budget over a span of
/// at least `10^11` keeps at least six decimal places of step coarseness.
proof fn lemma_dec_p_bound(a18: int, b18: int, m: int, p: nat, max: int)
    requires
        dec_scale_m_ok(m),
        b18 - a18 >= 100000000000,
        1 <= max <= 1000,
        dec_count(a18, b18, dec_scale(m, p)) <= max,
    ensures
        p >= 6,
{
    if p < 6 {
        let c = dec_scale(m, p);
        let span = b18 - a18;
        assert(pow10(p) <= pow10(5nat)) by {
            lemma_pow10_increases(p, 5nat);
        }
        assert(pow10(5nat) == 100000) by {
            reveal_with_fuel(pow10, 7);
        }
        assert(1 <= c <= 500000) by {
            lemma_pow10_pos(p);
            assert(m * pow10(p) <= 5 * pow10(p)) by (nonlinear_arith)
                requires
                    m <= 5,
                    pow10(p) >= 1,
            ;
            assert(m * pow10(p) >= 1 * pow10(p)) by (nonlinear_arith)
                requires
                    m >= 1,
                    pow10(p) >= 1,
            ;
        }
        lemma_dec_count_bounds(a18, b18, c);
        assert(span / c >= span / 500000) by {
            vstd::arithmetic::div_mod::lemma_div_is_ordered_by_denominator(span, c, 500000);
        }
        assert(span / 500000 >= 100000000000int / 500000int) by {
            lemma_floor_div_ordered(100000000000, span, 500000);
        }
        assert(100000000000int / 500000int == 200000) by {
            vstd::arithmetic::div_mod::lemma_fundamental_div_mod_converse(
                100000000000,
                500000,
                200000,
                0,
            );
        }
    }
}

/// Generates the decimal key points of the interval from `a` to `b`:
/// starting from the power of ten just under the span (one decade up if
/// that already overruns the budget), the step is refined through halves
/// and fifths while the refined tick count still fits, and every multiple
/// of the settled step inside the half-open interval is returned. Budgets
/// beyond a thousand are treated as a thousand.
pub fn compute_decimal_key_points(a: Decimal, b: Decimal, max_points: usize) -> (r: Vec<Decimal>)
    requires
        a.spec_dp() <= 7,
        b.spec_dp() <= 7,
    ensures
        ({
            let maxc: int = if max_points > 1000 {
                1000
            } else {
                max_points as int
            };
            &&& decimal_key_points_post(
                a.val18(),
                b.val18(),
                maxc,
                r@.map_values(|d: Decimal| d.val18()),
            )
            &&& r@.len() <= maxc
            &&& ((a.val18() < 0 <= b.val18() && maxc >= 1) ==> r@.len() >= 1)
        }),
{
    let mut ret: Vec<Decimal> = Vec::new();
    if max_points == 0 {
        assert(ret@.map_values(|d: Decimal| d.val18()) =~= Seq::<int>::empty());
        return ret;
    }
    let maxw: i128 = if max_points > 1000 {
        1000
    } else {
        max_points as i128
    };
    let a18 = a.to_wide18();
    let b18 = b.to_wide18();
    if a18 >= b18 {
        assert(ret@.map_values(|d: Decimal| d.val18()) =~= Seq::<int>::empty());
        return ret;
    }
    proof {
        use_type_invariant(a);
        use_type_invariant(b);
        lemma_dp7_span(a, b);
    }
    let span: i128 = b18 - a18;
    // The largest power of ten not above the span.
    let mut e: u32 = 0;
    let mut t: i128 = 1;
    while t * 10 <= span
        invariant
            t as int == pow10(e as nat),
            1 <= t <= span,
            100000000000 <= span <= 2000000000000000000000000,
            e <= 35,
        decreases span - t,
    {
        proof {
            lemma_pow10_36_value();
            assert(pow10((e + 1) as nat) == 10 * pow10(e as nat));
            if e + 1 >= 36 {
                lemma_pow10_increases(36nat, (e + 1) as nat);
                assert(false);
            }
        }
        t = t * 10;
        e = e + 1;
    }
    proof {
        assert(pow10(11nat) == 100000000000) by {
            reveal_with_fuel(pow10, 13);
        }
    }
    let mut m: i128 = 1;
    let mut p: u32 = e;
    let mut c: i128 = t;
    if 1 + span / c > maxw {
        proof {
            lemma_pow10_adds(e as nat, 1nat);
            lemma_dec_count_bounds(a18 as int, b18 as int, 10 * (c as int));
            lemma_small_div_zero(span as int, 10 * (c as int));
        }
        p = e + 1;
        c = 10 * c;
    } else {
        proof {
            lemma_dec_count_bounds(a18 as int, b18 as int, c as int);
        }
    }
    proof {
        lemma_dec_p_bound(a18 as int, b18 as int, m as int, p as nat, maxw as int);
    }
    loop
        invariant_except_break
            dec_scale_m_ok(m as int),
            c as int == dec_scale(m as int, p as nat),
            dec_count(a18 as int, b18 as int, c as int) <= maxw,
            6 <= p <= 36,
            1 <= c,
            a18 < b18,
            span == b18 - a18,
            100000000000 <= span <= 2000000000000000000000000,
            1 <= maxw <= 1000,
            -1000000000000000000000000 <= a18 <= 1000000000000000000000000,
            -1000000000000000000000000 <= b18 <= 1000000000000000000000000,
        ensures
            dec_scale_m_ok(m as int),
            c as int == dec_scale(m as int, p as nat),
            dec_count(a18 as int, b18 as int, c as int) <= maxw,
            dec_count(a18 as int, b18 as int, dec_next_scale(m as int, p as nat)) > maxw,
            6 <= p <= 36,
            1 <= c,
        decreases 3 * p + (if m == 5 {
            2int
        } else if m == 2 {
            1int
        } else {
            0int
        }),
    {
        let (nm, np, nc): (i128, u32, i128) = if m == 1 {
            proof {
                lemma_pow10_adds((p - 1) as nat, 1nat);
                assert((2 * (5 * pow10((p - 1) as nat))) / 2 == 5 * pow10((p - 1) as nat)) by {
                    vstd::arithmetic::div_mod::lemma_div_multiples_vanish(
                        5 * pow10((p - 1) as nat),
                        2,
                    );
                }
                assert(c as int == 2 * (5 * pow10((p - 1) as nat))) by (nonlinear_arith)
                    requires
                        c as int == 1 * pow10(p as nat),
                        pow10(p as nat) == 10 * pow10((p - 1) as nat),
                ;
            }
            (5, p - 1, c / 2)
        } else if m == 5 {
            proof {
                assert((5 * pow10(p as nat)) / 5 == pow10(p as nat)) by {
                    vstd::arithmetic::div_mod::lemma_div_multiples_vanish(pow10(p as nat), 5);
                }
                assert(c as int == 5 * pow10(p as nat));
            }
            (2, p, (c / 5) * 2)
        } else {
            proof {
                assert((2 * pow10(p as nat)) / 2 == pow10(p as nat)) by {
                    vstd::arithmetic::div_mod::lemma_div_multiples_vanish(pow10(p as nat), 2);
                }
            }
            (1, p, c / 2)
        };
        proof {
            assert(nc as int == dec_next_scale(m as int, p as nat));
            lemma_pow10_pos(np as nat);
            assert(nc >= 1) by (nonlinear_arith)
                requires
                    nc as int == nm as int * pow10(np as nat),
                    nm >= 1,
                    pow10(np as nat) >= 1,
            ;
        }
        proof {
            crate::arith::lemma_floor_div_shrinks(a18 as int, nc as int);
            crate::arith::lemma_floor_div_shrinks(b18 as int, nc as int);
        }
        let fa = crate::arith::floor_div_i128(a18, nc);
        let fb = crate::arith::floor_div_i128(b18, nc);
        if fb - fa > maxw {
            break ;
        }
        m = nm;
        p = np;
        c = nc;
        proof {
            lemma_dec_p_bound(a18 as int, b18 as int, m as int, p as nat, maxw as int);
        }
    }
    proof {
        crate::arith::lemma_floor_div_shrinks(a18 as int, c as int);
        crate::arith::lemma_floor_div_shrinks(b18 as int, c as int);
    }
    let fa = crate::arith::floor_div_i128(a18, c);
    let fb = crate::arith::floor_div_i128(b18, c);
    proof {
        lemma_floor_div_ordered(a18 as int, b18 as int, c as int);
        lemma_floor_div_bounds(a18 as int, c as int);
        lemma_floor_div_bounds(b18 as int, c as int);
    }
    let ghost target = dec_multiples(a18 as int, b18 as int, c as int);
    let count: i128 = fb - fa;
    let mut k: i128 = fa + 1;
    while k <= fb
        invariant
            fa < k <= fb + 1,
            fa == floor_ratio(a18 as int, c as int),
            fb == floor_ratio(b18 as int, c as int),
            count == fb - fa,
            count == dec_count(a18 as int, b18 as int, c as int),
            0 <= count <= maxw,
            1 <= maxw <= 1000,
            dec_scale_m_ok(m as int),
            c as int == dec_scale(m as int, p as nat),
            6 <= p <= 36,
            1 <= c,
            1 <= m <= 5,
            a18 < b18,
            -1000000000000000000000000 <= a18 <= 1000000000000000000000000,
            -1000000000000000000000000 <= b18 <= 1000000000000000000000000,
            (c as int) * (fa as int) <= a18 as int,
            (c as int) * (fb as int) <= b18 as int,
            (c as int) * (fb as int) + c as int > b18 as int,
            (c as int) * (fa as int) + c as int > a18 as int,
            target == dec_multiples(a18 as int, b18 as int, c as int),
            ret@.len() == k - (fa + 1),
            forall|j: int| 0 <= j < ret@.len() ==> #[trigger] (ret@[j].val18()) == target[j],
        decreases fb + 1 - k,
    {
        proof {
            lemma_dec_emit(a18 as int, b18 as int, c as int, m as int, p as nat, k as int);
        }
        let d = if p >= 18 {
            let mult = pow10_i128(p - 18);
            proof {
                lemma_dec_emit_coarse(c as int, m as int, p as nat, k as int, mult as int);
            }
            let dd = Decimal { mant: (k * m * mult) as i64, dp: 0 };
            proof {
                assert(dd.val18() == (k as int) * (c as int));
            }
            dd
        } else {
            let dd = Decimal { mant: (k * m) as i64, dp: 18 - p };
            proof {
                lemma_dec_emit_val(c as int, m as int, p as nat, k as int, dd);
            }
            dd
        };
        proof {
            assert(target[k - (fa + 1)] == (fa + 1 + (k - (fa + 1))) * (c as int));
            assert(d.val18() == (k as int) * (c as int));
        }
        ret.push(d);
        k = k + 1;
    }
    proof {
        let mapped = ret@.map_values(|d: Decimal| d.val18());
        assert(mapped =~= target) by {
            assert(forall|j: int| 0 <= j < ret@.len() ==> #[trigger] mapped[j] == ret@[j].val18());
        }
        let wm = m as int;
        let wp = p as nat;
        assert(dec_scale_m_ok(wm) && dec_count(a18 as int, b18 as int, dec_scale(wm, wp)) <= (
        maxw as int) && mapped == dec_multiples(a18 as int, b18 as int, dec_scale(wm, wp))
            && dec_count(a18 as int, b18 as int, dec_next_scale(wm, wp)) > maxw as int);
        if a18 < 0 <= b18 {
            assert(fa < 0) by {
                if fa >= 0 {
                    assert((c as int) * (fa as int) >= 0) by (nonlinear_arith)
                        requires
                            c >= 1,
                            fa >= 0,
                    ;
                }
            }
            assert(fb >= 0) by {
                if fb < 0 {
                    assert((c as int) * (fb as int) + (c as int) <= 0) by (nonlinear_arith)
                        requires
                            c >= 1,
                            fb <= -1,
                    ;
                }
            }
        }
    }
    ret
}

/// The multiple `k * c` for an index inside the counted window stays
/// inside the interval, hence inside the magnitude bound.
proof fn lemma_dec_emit(a18: int, b18: int, c: int, m: int, p: nat, k: int)
    requires
        1 <= c,
        c == dec_scale(m, p),
        1 <= m <= 5,
        6 <= p,
        floor_ratio(a18, c) < k <= floor_ratio(b18, c),
        c * floor_ratio(a18, c) + c > a18,
        c * floor_ratio(b18, c) <= b18,
        -1000000000000000000000000 <= a18 <= 1000000000000000000000000,
        -1000000000000000000000000 <= b18 <= 1000000000000000000000000,
    ensures
        a18 < k * c <= b18,
        -1000000000000000000000000 <= k * c <= 1000000000000000000000000,
        -1000000000000000000 <= k * m <= 1000000000000000000,
        p <= 18 ==> -1000000 * pow10((18 - p) as nat) <= k * m <= 1000000 * pow10((18 - p) as nat),
{
    let fa = floor_ratio(a18, c);
    let fb = floor_ratio(b18, c);
    assert(c * (fa + 1) <= c * k <= c * fb) by (nonlinear_arith)
        requires
            c >= 1,
            fa + 1 <= k <= fb,
    ;
    assert(c * (fa + 1) == c * fa + c) by (nonlinear_arith);
    assert(k * c == c * k) by (nonlinear_arith);
    // The mantissa k * m is the value scaled down by 10^p.
    lemma_pow10_pos(p);
    let q = pow10(p);
    assert(k * c == (k * m) * q) by (nonlinear_arith)
        requires
            c == m * q,
    ;
    assert(-1000000000000000000000000 <= (k * m) * q <= 1000000000000000000000000);
    lemma_pow10_increases(6nat, p);
    assert(pow10(6nat) == 1000000) by {
        reveal_with_fuel(pow10, 8);
    }
    assert(-1000000000000000000 <= k * m <= 1000000000000000000) by (nonlinear_arith)
        requires
            -1000000000000000000000000 <= (k * m) * q <= 1000000000000000000000000,
            q >= 1000000,
    ;
    if p <= 18 {
        let w = pow10((18 - p) as nat);
        lemma_pow10_pos((18 - p) as nat);
        lemma_pow10_adds((18 - p) as nat, p);
        assert(w * q == pow10(18nat));
        assert(pow10(18nat) == 1000000000000000000) by {
            reveal_with_fuel(pow10, 20);
        }
        assert(-1000000 * w <= k * m <= 1000000 * w) by (nonlinear_arith)
            requires
                -1000000000000000000000000 <= (k * m) * q <= 1000000000000000000000000,
                q >= 1,
                w >= 1,
                w * q == 1000000000000000000,
        ;
    }
}

/// The emitted fine-scale decimal scales back to exactly its multiple.
proof fn lemma_dec_emit_val(c: int, m: int, p: nat, k: int, d: Decimal)
    requires
        6 <= p < 18,
        c == dec_scale(m, p),
        d.dp as int == 18 - p,
        d.mant as int == k * m,
    ensures
        d.val18() == k * c,
{
    assert(d.val18() == (k * m) * pow10(p));
    assert((k * m) * pow10(p) == k * (m * pow10(p))) by (nonlinear_arith);
}

/// For a scale of at least a whole unit, the emitted mantissa carries the
/// trailing zeros itself and the value is small.
proof fn lemma_dec_emit_coarse(c: int, m: int, p: nat, k: int, mult: int)
    requires
        p >= 18,
        mult == pow10((p - 18) as nat),
        c == dec_scale(m, p),
        1 <= m <= 5,
        -1000000000000000000000000 <= k * c <= 1000000000000000000000000,
        -1000000000000000000 <= k * m <= 1000000000000000000,
    ensures
        -1000000 <= (k * m) * mult <= 1000000,
        ((k * m) * mult) * pow10(18nat) == k * c,
{
    let q18 = pow10(18nat);
    assert(q18 == 1000000000000000000) by {
        reveal_with_fuel(pow10, 20);
    }
    lemma_pow10_pos((p - 18) as nat);
    lemma_pow10_adds((p - 18) as nat, 18nat);
    assert(mult * q18 == pow10(p));
    assert(((k * m) * mult) * q18 == k * c) by (nonlinear_arith)
        requires
            c == m * pow10(p),
            pow10(p) == mult * q18,
    ;
    let v = (k * m) * mult;
    assert(-1000000 <= v <= 1000000) by (nonlinear_arith)
        requires
            -1000000000000000000000000 <= v * q18 <= 1000000000000000000000000,
            q18 == 1000000000000000000,
    ;
}

/// The decimal axis domain: the half-open interval from the first decimal
/// to the second. Range ends carry at most seven decimal places, so that
/// refined key points still fit the decimal type.
#[derive(Clone, Copy)]
pub struct RangedCoordDecimal(pub(crate) Decimal, pub(crate) Decimal);

impl RangedCoordDecimal {
    #[verifier::type_invariant]
    pub open(crate) spec fn rwf(self) -> bool {
        &&& self.0.spec_dp() <= 7
        &&& self.1.spec_dp() <= 7
    }

    /// The start of the range.
    pub open(crate) spec fn spec_start(self) -> Decimal {
        self.0
    }

    /// The end of the range.
    pub open(crate) spec fn spec_end(self) -> Decimal {
        self.1
    }

    /// Build the decimal range from `start` to `end`; the ends may carry
    /// at most seven decimal places.
    pub fn new(start: Decimal, end: Decimal) -> (r: Self)
        requires
            start.spec_dp() <= 7,
            end.spec_dp() <= 7,
        ensures
            r.spec_start() == start,
            r.spec_end() == end,
    {
        RangedCoordDecimal(start, end)
    }
}

impl crate::ranged::Ranged for RangedCoordDecimal {
    type ValueType = Decimal;

    open(crate) spec fn spec_map(&self, value: &Decimal, limit: (i32, i32)) -> i32 {
        crate::numeric::spec_pixel_map(
            self.0.val18(),
            self.1.val18(),
            limit.0 as int,
            limit.1 as int,
            value.val18(),
        ) as i32
    }

    fn map(&self, value: &Decimal, limit: (i32, i32)) -> (r: i32) {
        crate::numeric::map_core(
            self.0.to_wide18(),
            self.1.to_wide18(),
            limit.0,
            limit.1,
            value.to_wide18(),
        )
    }

    open(crate) spec fn key_points_post(&self, max_points: usize, r: Seq<Decimal>) -> bool {
        let maxc: int = if max_points > 1000 {
            1000
        } else {
            max_points as int
        };
        &&& decimal_key_points_post(
            self.0.val18(),
            self.1.val18(),
            maxc,
            r.map_values(|d: Decimal| d.val18()),
        )
        &&& r.len() <= maxc
        &&& ((self.0.val18() < 0 <= self.1.val18() && maxc >= 1) ==> r.len() >= 1)
    }

    fn key_points(&self, max_points: usize) -> (r: Vec<Decimal>) {
        proof {
            use_type_invariant(self);
        }
        let r = compute_decimal_key_points(self.0, self.1, max_points);
        proof {
            assert(r@.map_values(|d: Decimal| d.val18()).len() == r@.len());
        }
        r
    }

    open(crate) spec fn spec_range(&self) -> (Decimal, Decimal) {
        (self.0, self.1)
    }

    fn range(&self) -> (r: core::ops::Range<Decimal>) {
        self.0..self.1
    }

    open(crate) spec fn spec_axis_pixel_range(&self, limit: (i32, i32)) -> (i32, i32) {
        limit
    }

    fn axis_pixel_range(&self, limit: (i32, i32)) -> (r: core::ops::Range<i32>) {
        limit.0..limit.1
    }
}

impl crate::ranged::ReversibleRanged for RangedCoordDecimal {
    open(crate) spec fn spec_unmap(&self, input: i32, limit: (i32, i32)) -> Option<Decimal> {
        match crate::numeric::spec_pixel_unmap(
            self.0.val18(),
            self.1.val18(),
            limit.0 as int,
            limit.1 as int,
            input as int,
        ) {
            Some(w) => Some(Decimal { mant: trunc_ratio(w, 1000000) as i64, dp: 12 }),
            None => None,
        }
    }

    fn unmap(&self, input: i32, limit: (i32, i32)) -> (r: Option<Decimal>) {
        proof {
            use_type_invariant(self);
        }
        match crate::numeric::unmap_core(
            self.0.to_wide18(),
            self.1.to_wide18(),
            limit.0,
            limit.1,
            input,
        ) {
            Some(w) => {
                proof {
                    crate::numeric::lemma_unmap_within(
                        self.0.val18(),
                        self.1.val18(),
                        limit.0 as int,
                        limit.1 as int,
                        input as int,
                    );
                    lemma_unmap_mant_fits(w as int);
                }
                let mant = crate::arith::trunc_div_i128(w, 1000000);
                Some(Decimal { mant: mant as i64, dp: 12 })
            },
            None => None,
        }
    }
}

/// The round trip of the decimal mapping: a value inside the range maps to
/// a pixel inside the limit, recovering a value from that pixel succeeds,
/// and the recovered value sits within one pixel's worth of quantisation
/// of the value mapped, plus the sliver lost to twelve-place truncation.
pub proof fn lemma_decimal_round_trip(coord: RangedCoordDecimal, v: Decimal, limit: (i32, i32))
    requires
        coord.spec_start().wf(),
        coord.spec_end().wf(),
        coord.spec_start().val18() < coord.spec_end().val18(),
        coord.spec_start().val18() <= v.val18() <= coord.spec_end().val18(),
        limit.0 < limit.1,
    ensures
        ({
            let p = crate::ranged::Ranged::spec_map(&coord, &v, limit);
            let w = crate::ranged::ReversibleRanged::spec_unmap(&coord, p, limit);
            &&& limit.0 <= p <= limit.1
            &&& w is Some
            &&& abs_int(w->Some_0.val18() - v.val18()) <= crate::arith::ceil_ratio(
                coord.spec_end().val18() - coord.spec_start().val18(),
                limit.1 - limit.0,
            ) + 1000000
        }),
{
    let a18 = coord.0.val18();
    let b18 = coord.1.val18();
    crate::numeric::lemma_map_unmap_round_trip(
        a18,
        b18,
        limit.0 as int,
        limit.1 as int,
        v.val18(),
    );
    let p = crate::ranged::Ranged::spec_map(&coord, &v, limit);
    let wraw = crate::numeric::spec_pixel_unmap(
        a18,
        b18,
        limit.0 as int,
        limit.1 as int,
        p as int,
    )->Some_0;
    crate::numeric::lemma_unmap_within(a18, b18, limit.0 as int, limit.1 as int, p as int);
    lemma_val18_bound(coord.0);
    lemma_val18_bound(coord.1);
    lemma_unmap_mant_fits(wraw);
    let mant = trunc_ratio(wraw, 1000000);
    let wd = Decimal { mant: mant as i64, dp: 12 };
    assert(wd.val18() == mant * pow10(6nat));
    assert(pow10(6nat) == 1000000) by {
        reveal_with_fuel(pow10, 8);
    }
    // Truncating to twelve places moves the scaled value by under a step.
    assert(abs_int(mant * 1000000 - wraw) <= 999999) by {
        if wraw >= 0 {
            assert(mant == wraw / 1000000);
            lemma_floor_div_bounds(wraw, 1000000);
            assert(1000000 * mant == mant * 1000000) by (nonlinear_arith);
        } else {
            let u = (-wraw) / 1000000;
            assert(mant == -u);
            lemma_floor_div_bounds(-wraw, 1000000);
            assert(mant * 1000000 == -(1000000 * u)) by (nonlinear_arith)
                requires
                    mant == -u,
            ;
        }
    }
}

/// A recovered scaled value truncates to a mantissa the decimal can hold.
proof fn lemma_unmap_mant_fits(w: int)
    requires
        -1000000000000000000000000 <= w <= 1000000000000000000000000,
    ensures
        -1000000000000000000 <= trunc_ratio(w, 1000000) <= 1000000000000000000,
        -1000000 * pow10(12nat) <= trunc_ratio(w, 1000000) <= 1000000 * pow10(12nat),
{
    assert(pow10(12nat) == 1000000000000) by {
        reveal_with_fuel(pow10, 14);
    }
    let q = abs_int(w) / 1000000;
    assert(q <= 1000000000000000000000000int / 1000000int) by {
        lemma_floor_div_ordered(abs_int(w), 1000000000000000000000000, 1000000);
    }
    assert(1000000000000000000000000int / 1000000int == 1000000000000000000) by {
        vstd::arithmetic::div_mod::lemma_fundamental_div_mod_converse(
            1000000000000000000000000,
            1000000,
            1000000000000000000,
            0,
        );
    }
    assert(q >= 0) by {
        lemma_floor_div_ordered(0, abs_int(w), 1000000);
    }
}

} // verus!
