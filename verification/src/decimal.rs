//! Fixed-point decimal numbers for the simulation engine.
//!
//! A [`Dec`] holds a sign, a magnitude below `2^96` and a scale of at most 28
//! fractional digits, so every value is an integer multiple of `10^-28`. The
//! mathematical model of a value is [`units`]: the value expressed in whole
//! multiples of `10^-28`. All rounding is round-half-to-even on the chosen
//! number of fractional digits.

use vstd::prelude::*;
use vstd::arithmetic::power::{
    pow, lemma_pow0, lemma_pow1, lemma_pow_adds, lemma_pow_positive, lemma_pow_increases,
};
use vstd::arithmetic::div_mod::{
    lemma_fundamental_div_mod, lemma_fundamental_div_mod_converse, lemma_div_nonincreasing,
};

verus! {

/// Exclusive upper bound on a decimal's magnitude: `2^96`.
pub const MAG_LIMIT: u128 = 79228162514264337593543950336;

/// Largest number of fractional digits a decimal can carry.
pub const MAX_SCALE: u32 = 28;

/// `10^e` as a mathematical integer.
pub open spec fn pow10(e: nat) -> int {
    pow(10, e)
}

/// A fixed-point decimal: `(-1)^neg * mag * 10^(-scale)`.
#[derive(Clone, Copy, Debug)]
pub struct Dec {
    /// True when the value is negative (a magnitude of zero may carry either
    /// sign; the two encodings denote the same value).
    pub neg: bool,
    /// Magnitude of the value, scaled by `10^scale`.
    pub mag: u128,
    /// Number of fractional digits.
    pub scale: u32,
}

/// Well-formedness: the scale and magnitude stay within the representable range.
pub open spec fn dec_wf(d: Dec) -> bool {
    d.scale <= MAX_SCALE && d.mag < MAG_LIMIT
}

/// The value of `d` in whole multiples of `10^-28`.
pub open spec fn units(d: Dec) -> int {
    if d.neg {
        -(d.mag as int) * pow10((MAX_SCALE - d.scale) as nat)
    } else {
        (d.mag as int) * pow10((MAX_SCALE - d.scale) as nat)
    }
}

/// Round-half-to-even of `n / d` for `n >= 0`, `d > 0`.
pub open spec fn rhe(n: int, d: int) -> int
    recommends
        0 <= n,
        0 < d,
{
    let q = n / d;
    let r = n % d;
    if 2 * r < d {
        q
    } else if 2 * r > d {
        q + 1
    } else if q % 2 == 0 {
        q
    } else {
        q + 1
    }
}

/// Round-half-to-even of `n / d` for any `n`, `d > 0`; symmetric in the sign
/// of `n`.
pub open spec fn rhe_s(n: int, d: int) -> int
    recommends
        0 < d,
{
    if n >= 0 {
        rhe(n, d)
    } else {
        -rhe(-n, d)
    }
}

/// Round-half-to-even of the fraction `n / d` for any `n` and any `d != 0`.
pub open spec fn rhe_frac(n: int, d: int) -> int
    recommends
        d != 0,
{
    if d > 0 {
        rhe_s(n, d)
    } else {
        rhe_s(-n, -d)
    }
}

/// The units of `a * b / c` rounded half-to-even at `dp` fractional digits,
/// where `ua`, `ub`, `uc` are the units of the operands.
pub open spec fn mdr_units(ua: int, ub: int, uc: int, dp: u32) -> int
    recommends
        uc != 0,
        dp <= MAX_SCALE,
{
    rhe_frac(ua * ub * pow10(dp as nat), uc * pow10(MAX_SCALE as nat)) * pow10(
        (MAX_SCALE - dp) as nat,
    )
}

/// The units of `ua / uc` rounded half-to-even at `dp` fractional digits.
pub open spec fn div_units(ua: int, uc: int, dp: u32) -> int
    recommends
        uc != 0,
        dp <= MAX_SCALE,
{
    rhe_frac(ua * pow10(dp as nat), uc) * pow10((MAX_SCALE - dp) as nat)
}

/// The units of `u` rounded half-to-even at `dp` fractional digits.
pub open spec fn round_units(u: int, dp: u32) -> int
    recommends
        dp <= MAX_SCALE,
{
    rhe_s(u, pow10((MAX_SCALE - dp) as nat)) * pow10((MAX_SCALE - dp) as nat)
}

pub proof fn lemma_pow10_pos(e: nat)
    ensures
        pow10(e) >= 1,
{
    lemma_pow_positive(10, e);
}

/// Concrete values of the powers of ten at the edges the code relies on.
pub proof fn lemma_pow10_vals()
    ensures
        pow10(0) == 1,
        pow10(28) == 10000000000000000000000000000,
        pow10(38) == 100000000000000000000000000000000000000,
        pow10(39) == 1000000000000000000000000000000000000000,
{
    reveal_with_fuel(pow, 40);
}

/// Rounding an exact multiple of the divisor returns the multiplier.
pub proof fn lemma_rhe_exact(m: int, d: int)
    requires
        0 <= m,
        0 < d,
    ensures
        rhe(m * d, d) == m,
{
    lemma_fundamental_div_mod_converse(m * d, d, m, 0);
}

/// Round-half-to-even is unchanged by scaling numerator and denominator by
/// the same positive factor.
pub proof fn lemma_rhe_common_factor(n: int, d: int, k: int)
    requires
        0 <= n,
        0 < d,
        0 < k,
    ensures
        rhe(n * k, d * k) == rhe(n, d),
{
    let q = n / d;
    let r = n % d;
    lemma_fundamental_div_mod(n, d);
    assert(0 <= r < d);
    assert(n * k == q * (d * k) + r * k) by (nonlinear_arith)
        requires
            n == q * d + r,
    ;
    assert(0 <= r * k < d * k) by (nonlinear_arith)
        requires
            0 <= r < d,
            0 < k,
    ;
    lemma_fundamental_div_mod_converse(n * k, d * k, q, r * k);
    assert((n * k) / (d * k) == q);
    assert((n * k) % (d * k) == r * k);
    assert((2 * (r * k) < d * k) == (2 * r < d)) by (nonlinear_arith)
        requires
            0 < k,
    ;
    assert((2 * (r * k) > d * k) == (2 * r > d)) by (nonlinear_arith)
        requires
            0 < k,
    ;
}

/// The rounded quotient is within half a divisor of the exact quotient:
/// `|2 * rhe(n, d) * d - 2 * n| <= d`.
pub proof fn lemma_rhe_error(n: int, d: int)
    requires
        0 <= n,
        0 < d,
    ensures
        -d <= 2 * rhe(n, d) * d - 2 * n <= d,
{
    let q = n / d;
    let r = n % d;
    lemma_fundamental_div_mod(n, d);
    assert(0 <= r < d);
    assert(2 * q * d - 2 * n == -2 * r) by (nonlinear_arith)
        requires
            n == q * d + r,
    ;
    assert(2 * (q + 1) * d - 2 * n == 2 * d - 2 * r) by (nonlinear_arith)
        requires
            n == q * d + r,
    ;
    if 2 * r < d {
        assert(rhe(n, d) == q);
    } else if 2 * r > d {
        assert(rhe(n, d) == q + 1);
    } else {
        assert(rhe(n, d) == q || rhe(n, d) == q + 1);
    }
}

/// The rounded quotient never exceeds the numerator (for divisors at least 1).
pub proof fn lemma_rhe_le_n(n: int, d: int)
    requires
        0 <= n,
        1 <= d,
    ensures
        0 <= rhe(n, d) <= n,
{
    let q = n / d;
    let r = n % d;
    lemma_fundamental_div_mod(n, d);
    vstd::arithmetic::div_mod::lemma_div_pos_is_pos(n, d);
    lemma_div_nonincreasing(n, d);
    if !(2 * r < d) {
        // The quotient is rounded up, so the remainder is positive and d >= 2.
        assert(r >= 1);
        assert(d >= 2);
        assert(q + 1 <= n) by (nonlinear_arith)
            requires
                n == q * d + r,
                r >= 1,
                d >= 2,
                q >= 0,
        ;
    }
}

/// `10^e` as a `u128`, for exponents up to 38.
pub fn pow10_u128(e: u32) -> (r: u128)
    requires
        e <= 38,
    ensures
        r as int == pow10(e as nat),
        r >= 1,
{
    proof {
        lemma_pow10_vals();
    }
    let mut r: u128 = 1;
    let mut i: u32 = 0;
    proof {
        lemma_pow0(10);
    }
    while i < e
        invariant
            i <= e,
            e <= 38,
            r as int == pow10(i as nat),
            r >= 1,
        decreases e - i,
    {
        proof {
            lemma_pow1(10);
            lemma_pow_adds(10, 1nat, i as nat);
            assert(pow10((i + 1) as nat) == 10 * pow10(i as nat));
            lemma_pow_increases(10, (i + 1) as nat, 38nat);
            lemma_pow10_vals();
            assert(10 * (r as int) <= pow10(38));
        }
        r = r * 10;
        i = i + 1;
    }
    r
}

/// Sign facts about the model of a decimal.
pub proof fn lemma_units_facts(d: Dec)
    ensures
        d.neg ==> units(d) == -((d.mag as int) * pow10((MAX_SCALE - d.scale) as nat)),
        !d.neg ==> units(d) == (d.mag as int) * pow10((MAX_SCALE - d.scale) as nat),
        d.mag == 0 ==> units(d) == 0,
        d.mag >= 1 && !d.neg ==> units(d) > 0,
        d.mag >= 1 && d.neg ==> units(d) < 0,
{
    let p = pow10((MAX_SCALE - d.scale) as nat);
    lemma_pow10_pos((MAX_SCALE - d.scale) as nat);
    assert((-(d.mag as int)) * p == -((d.mag as int) * p)) by (nonlinear_arith);
    if d.mag >= 1 {
        assert((d.mag as int) * p >= 1) by (nonlinear_arith)
            requires
                (d.mag as int) >= 1,
                p >= 1,
        ;
    }
    if d.mag == 0 {
        assert((0int) * p == 0) by (nonlinear_arith);
    }
}

/// A magnitude at scale `s` decomposes into integer and fractional digits:
/// `m * 10^(28-s) == (m / 10^s) * 10^28 + (m % 10^s) * 10^(28-s)`.
proof fn lemma_units_decompose(m: int, s: nat)
    requires
        0 <= m,
        s <= 28,
    ensures
        m * pow10((28 - s) as nat) == (m / pow10(s)) * pow10(28) + (m % pow10(s)) * pow10(
            (28 - s) as nat,
        ),
        0 <= m % pow10(s) < pow10(s),
        0 <= m / pow10(s),
{
    let p = pow10(s);
    lemma_pow10_pos(s);
    lemma_fundamental_div_mod(m, p);
    vstd::arithmetic::div_mod::lemma_div_pos_is_pos(m, p);
    let q = m / p;
    let r = m % p;
    lemma_pow_adds(10, s, (28 - s) as nat);
    assert(m * pow10((28 - s) as nat) == q * (pow10(s) * pow10((28 - s) as nat)) + r * pow10(
        (28 - s) as nat,
    )) by (nonlinear_arith)
        requires
            m == q * pow10(s) + r,
    ;
    assert(q * (pow10(s) * pow10((28 - s) as nat)) == q * pow10(28)) by (nonlinear_arith)
        requires
            pow10(s) * pow10((28 - s) as nat) == pow10(28),
    ;
}

/// Compares `am * 10^(-as_)` with `bm * 10^(-bs)` for nonnegative magnitudes.
fn mag_val_le(am: u128, as_: u32, bm: u128, bs: u32) -> (r: bool)
    requires
        as_ <= MAX_SCALE,
        bs <= MAX_SCALE,
    ensures
        r == ((am as int) * pow10((MAX_SCALE - as_) as nat) <= (bm as int) * pow10(
            (MAX_SCALE - bs) as nat,
        )),
{
    proof {
        lemma_pow10_vals();
        lemma_units_decompose(am as int, as_ as nat);
        lemma_units_decompose(bm as int, bs as nat);
    }
    let pa = pow10_u128(as_);
    let pb = pow10_u128(bs);
    let ai = am / pa;
    let af = am % pa;
    let bi = bm / pb;
    let bf = bm % pb;
    let smax: u32 = if as_ >= bs {
        as_
    } else {
        bs
    };
    let ghost ua = (am as int) * pow10((MAX_SCALE - as_) as nat);
    let ghost ub = (bm as int) * pow10((MAX_SCALE - bs) as nat);
    proof {
        lemma_pow_adds(10, (smax - as_) as nat, (28 - smax) as nat);
        lemma_pow_adds(10, (smax - bs) as nat, (28 - smax) as nat);
        lemma_pow_adds(10, as_ as nat, (smax - as_) as nat);
        lemma_pow_adds(10, bs as nat, (smax - bs) as nat);
        lemma_pow_adds(10, smax as nat, (28 - smax) as nat);
        lemma_pow10_pos((smax - as_) as nat);
        lemma_pow10_pos((smax - bs) as nat);
        lemma_pow_increases(10, smax as nat, 28nat);
        // The rescaled fractional parts stay below 10^smax <= 10^28.
        assert((af as int) * pow10((smax - as_) as nat) < pow10(smax as nat)) by (nonlinear_arith)
            requires
                0 <= (af as int) && (af as int) < pow10(as_ as nat),
                pow10((smax - as_) as nat) >= 1,
                pow10(as_ as nat) * pow10((smax - as_) as nat) == pow10(smax as nat),
        ;
        assert((bf as int) * pow10((smax - bs) as nat) < pow10(smax as nat)) by (nonlinear_arith)
            requires
                0 <= (bf as int) && (bf as int) < pow10(bs as nat),
                pow10((smax - bs) as nat) >= 1,
                pow10(bs as nat) * pow10((smax - bs) as nat) == pow10(smax as nat),
        ;
    }
    let fa = af * pow10_u128(smax - as_);
    let fb = bf * pow10_u128(smax - bs);
    let ghost g = pow10((28 - smax) as nat);
    proof {
        lemma_pow10_pos((28 - smax) as nat);
        lemma_pow_adds(10, smax as nat, (28 - smax) as nat);
        // ua == ai * 10^28 + fa * g, and fa * g < 10^28; same for b.
        assert((af as int) * pow10((28 - as_) as nat) == (fa as int) * g) by (nonlinear_arith)
            requires
                (fa as int) == (af as int) * pow10((smax - as_) as nat),
                pow10((smax - as_) as nat) * pow10((28 - smax) as nat) == pow10((28 - as_) as nat),
                g == pow10((28 - smax) as nat),
        ;
        assert((bf as int) * pow10((28 - bs) as nat) == (fb as int) * g) by (nonlinear_arith)
            requires
                (fb as int) == (bf as int) * pow10((smax - bs) as nat),
                pow10((smax - bs) as nat) * pow10((28 - smax) as nat) == pow10((28 - bs) as nat),
                g == pow10((28 - smax) as nat),
        ;
        assert(ua == (ai as int) * pow10(28) + (fa as int) * g);
        assert(ub == (bi as int) * pow10(28) + (fb as int) * g);
        assert((fa as int) * g < pow10(28)) by (nonlinear_arith)
            requires
                (fa as int) < pow10(smax as nat),
                g >= 1,
                pow10(smax as nat) * g == pow10(28),
        ;
        assert((fb as int) * g < pow10(28)) by (nonlinear_arith)
            requires
                (fb as int) < pow10(smax as nat),
                g >= 1,
                pow10(smax as nat) * g == pow10(28),
        ;
        assert(0 <= (fa as int) * g) by (nonlinear_arith)
            requires
                0 <= (fa as int),
                g >= 1,
        ;
        assert(0 <= (fb as int) * g) by (nonlinear_arith)
            requires
                0 <= (fb as int),
                g >= 1,
        ;
    }
    if ai < bi {
        proof {
            assert(ua < ub) by (nonlinear_arith)
                requires
                    ua == (ai as int) * pow10(28) + (fa as int) * g,
                    ub == (bi as int) * pow10(28) + (fb as int) * g,
                    (ai as int) + 1 <= (bi as int),
                    0 <= (fa as int) * g < pow10(28),
                    0 <= (fb as int) * g,
            ;
        }
        true
    } else if ai > bi {
        proof {
            assert(ub < ua) by (nonlinear_arith)
                requires
                    ua == (ai as int) * pow10(28) + (fa as int) * g,
                    ub == (bi as int) * pow10(28) + (fb as int) * g,
                    (bi as int) + 1 <= (ai as int),
                    0 <= (fb as int) * g < pow10(28),
                    0 <= (fa as int) * g,
            ;
        }
        false
    } else {
        proof {
            assert((fa <= fb) == (ua <= ub)) by (nonlinear_arith)
                requires
                    ua == (ai as int) * pow10(28) + (fa as int) * g,
                    ub == (ai as int) * pow10(28) + (fb as int) * g,
                    g >= 1,
            ;
        }
        fa <= fb
    }
}

impl Dec {
    /// Builds the decimal `num * 10^(-scale)`, as `Dec::new(202, 2)` for `2.02`.
    pub fn new(num: i64, scale: u32) -> (r: Dec)
        requires
            scale <= MAX_SCALE,
        ensures
            dec_wf(r),
            units(r) == num * pow10((MAX_SCALE - scale) as nat),
            r.scale == scale,
            r.neg == (num < 0),
            r.mag == (if num < 0 {
                -(num as int)
            } else {
                num as int
            }),
    {
        proof {
            lemma_pow10_pos((MAX_SCALE - scale) as nat);
        }
        if num < 0 {
            let mag = (-(num as i128)) as u128;
            proof {
                lemma_units_facts(Dec { neg: true, mag, scale });
                assert(-((mag as int) * pow10((MAX_SCALE - scale) as nat)) == num * pow10(
                    (MAX_SCALE - scale) as nat,
                )) by (nonlinear_arith)
                    requires
                        (mag as int) == -(num as int),
                ;
            }
            Dec { neg: true, mag, scale }
        } else {
            Dec { neg: false, mag: num as u128, scale }
        }
    }

    /// The decimal value of a whole unsigned number.
    pub fn from_u64(num: u64) -> (r: Dec)
        ensures
            dec_wf(r),
            units(r) == num * pow10(MAX_SCALE as nat),
            r == (Dec { neg: false, mag: num as u128, scale: 0 }),
    {
        Dec { neg: false, mag: num as u128, scale: 0 }
    }

    /// Builds a decimal from raw parts; `None` when the magnitude or scale is
    /// out of range.
    pub fn from_parts(neg: bool, mag: u128, scale: u32) -> (r: Option<Dec>)
        ensures
            r is Some <==> (mag < MAG_LIMIT && scale <= MAX_SCALE),
            r matches Some(v) ==> dec_wf(v) && v == (Dec { neg, mag, scale }),
    {
        if mag < MAG_LIMIT && scale <= MAX_SCALE {
            Some(Dec { neg, mag, scale })
        } else {
            None
        }
    }

    /// Zero.
    pub fn zero() -> (r: Dec)
        ensures
            dec_wf(r),
            units(r) == 0,
            r == (Dec { neg: false, mag: 0, scale: 0 }),
    {
        Dec { neg: false, mag: 0, scale: 0 }
    }

    /// One.
    pub fn one() -> (r: Dec)
        ensures
            dec_wf(r),
            units(r) == pow10(MAX_SCALE as nat),
            r == (Dec { neg: false, mag: 1, scale: 0 }),
    {
        proof {
            lemma_pow10_vals();
        }
        Dec { neg: false, mag: 1, scale: 0 }
    }

    /// One hundred.
    pub fn hundred() -> (r: Dec)
        ensures
            dec_wf(r),
            units(r) == 100 * pow10(MAX_SCALE as nat),
            r == (Dec { neg: false, mag: 100, scale: 0 }),
    {
        Dec { neg: false, mag: 100, scale: 0 }
    }

    /// True when the value is zero.
    pub fn is_zero(&self) -> (r: bool)
        ensures
            r == (units(*self) == 0),
    {
        proof {
            lemma_units_facts(*self);
        }
        self.mag == 0
    }

    /// True when the value is at most `other`.
    pub fn le(&self, other: &Dec) -> (r: bool)
        requires
            dec_wf(*self),
            dec_wf(*other),
        ensures
            r == (units(*self) <= units(*other)),
    {
        let a = *self;
        let b = *other;
        proof {
            lemma_units_facts(a);
            lemma_units_facts(b);
        }
        if a.mag == 0 {
            // 0 <= b  <=>  b is not strictly negative.
            !b.neg || b.mag == 0
        } else if b.mag == 0 {
            // a <= 0  <=>  a is strictly negative.
            a.neg
        } else if a.neg && !b.neg {
            true
        } else if !a.neg && b.neg {
            false
        } else if !a.neg {
            mag_val_le(a.mag, a.scale, b.mag, b.scale)
        } else {
            mag_val_le(b.mag, b.scale, a.mag, a.scale)
        }
    }

    /// The smaller of the two values (`self` when they are equal in value).
    pub fn min_dec(&self, other: &Dec) -> (r: Dec)
        requires
            dec_wf(*self),
            dec_wf(*other),
        ensures
            dec_wf(r),
            r == *self || r == *other,
            units(r) == if units(*self) <= units(*other) {
                units(*self)
            } else {
                units(*other)
            },
    {
        if self.le(other) {
            *self
        } else {
            *other
        }
    }

    /// The value with the opposite sign.
    pub fn neg_dec(&self) -> (r: Dec)
        ensures
            units(r) == -units(*self),
            r.mag == self.mag,
            r.scale == self.scale,
            r.neg == !self.neg,
            dec_wf(*self) ==> dec_wf(r),
    {
        proof {
            lemma_units_facts(*self);
            lemma_units_facts(Dec { neg: !self.neg, mag: self.mag, scale: self.scale });
        }
        Dec { neg: !self.neg, mag: self.mag, scale: self.scale }
    }
}

/// The absolute value of an integer.
pub open spec fn abs_val(x: int) -> int {
    if x >= 0 {
        x
    } else {
        -x
    }
}

/// The larger of two scales.
pub open spec fn scale_max(a: u32, b: u32) -> u32 {
    if a >= b {
        a
    } else {
        b
    }
}

/// Whether the exact sum of `a` and `b` is representable at the common scale.
/// The operands are first rescaled to the larger scale; the sum fits when the
/// rescaled magnitudes fit in a `u128` and the resulting magnitude stays
/// below `MAG_LIMIT`.
pub open spec fn add_fits(a: Dec, b: Dec) -> bool {
    let smax = scale_max(a.scale, b.scale);
    let ra = (a.mag as int) * pow10((smax - a.scale) as nat);
    let rb = (b.mag as int) * pow10((smax - b.scale) as nat);
    let ea = if a.neg {
        -ra
    } else {
        ra
    };
    let eb = if b.neg {
        -rb
    } else {
        rb
    };
    ra <= u128::MAX && rb <= u128::MAX && -(MAG_LIMIT as int) < ea + eb < MAG_LIMIT as int
}

/// Rescaling to a larger scale and back to 28 digits is the same as scaling
/// straight to 28 digits.
proof fn lemma_rescale(mag: int, s: u32, smax: u32)
    requires
        s <= smax <= MAX_SCALE,
    ensures
        (mag * pow10((smax - s) as nat)) * pow10((MAX_SCALE - smax) as nat) == mag * pow10(
            (MAX_SCALE - s) as nat,
        ),
{
    lemma_pow_adds(10, (smax - s) as nat, (28 - smax) as nat);
    assert((mag * pow10((smax - s) as nat)) * pow10((28 - smax) as nat) == mag * (pow10(
        (smax - s) as nat,
    ) * pow10((28 - smax) as nat))) by (nonlinear_arith);
}

impl Dec {
    /// The exact sum of two decimals at the common scale; `None` when the sum
    /// is not representable.
    pub fn checked_add(&self, other: &Dec) -> (r: Option<Dec>)
        requires
            dec_wf(*self),
            dec_wf(*other),
        ensures
            r is Some <==> add_fits(*self, *other),
            r matches Some(v) ==> dec_wf(v) && v.scale == scale_max(self.scale, other.scale)
                && units(v) == units(*self) + units(*other),
    {
        let a = *self;
        let b = *other;
        let smax: u32 = if a.scale >= b.scale {
            a.scale
        } else {
            b.scale
        };
        let ghost g = pow10((MAX_SCALE - smax) as nat);
        let ghost ra_i = (a.mag as int) * pow10((smax - a.scale) as nat);
        let ghost rb_i = (b.mag as int) * pow10((smax - b.scale) as nat);
        let ghost ea = if a.neg {
            -ra_i
        } else {
            ra_i
        };
        let ghost eb = if b.neg {
            -rb_i
        } else {
            rb_i
        };
        proof {
            lemma_units_facts(a);
            lemma_units_facts(b);
            lemma_rescale(a.mag as int, a.scale, smax);
            lemma_rescale(b.mag as int, b.scale, smax);
            lemma_pow10_pos((MAX_SCALE - smax) as nat);
            lemma_pow10_pos((smax - a.scale) as nat);
            lemma_pow10_pos((smax - b.scale) as nat);
            assert(units(a) == ea * g && units(b) == eb * g) by (nonlinear_arith)
                requires
                    units(a) == if a.neg {
                        -(ra_i * g)
                    } else {
                        (ra_i * g)
                    },
                    units(b) == if b.neg {
                        -(rb_i * g)
                    } else {
                        (rb_i * g)
                    },
                    ea == if a.neg {
                        -ra_i
                    } else {
                        ra_i
                    },
                    eb == if b.neg {
                        -rb_i
                    } else {
                        rb_i
                    },
            ;
            assert(0 <= ra_i) by (nonlinear_arith)
                requires
                    ra_i == (a.mag as int) * pow10((smax - a.scale) as nat),
                    0 <= (a.mag as int),
                    pow10((smax - a.scale) as nat) >= 1,
            ;
            assert(0 <= rb_i) by (nonlinear_arith)
                requires
                    rb_i == (b.mag as int) * pow10((smax - b.scale) as nat),
                    0 <= (b.mag as int),
                    pow10((smax - b.scale) as nat) >= 1,
            ;
        }
        let pa = pow10_u128(smax - a.scale);
        let pb = pow10_u128(smax - b.scale);
        let ra = match a.mag.checked_mul(pa) {
            Some(v) => v,
            None => {
                return None;
            },
        };
        let rb = match b.mag.checked_mul(pb) {
            Some(v) => v,
            None => {
                return None;
            },
        };
        if a.neg == b.neg {
            let s = match ra.checked_add(rb) {
                Some(v) => v,
                None => {
                    proof {
                        assert(!add_fits(a, b));
                    }
                    return None;
                },
            };
            if s >= MAG_LIMIT {
                proof {
                    assert(!add_fits(a, b));
                }
                return None;
            }
            let v = Dec { neg: a.neg, mag: s, scale: smax };
            proof {
                lemma_units_facts(v);
                assert(units(v) == ea * g + eb * g) by (nonlinear_arith)
                    requires
                        units(v) == if v.neg {
                            -((s as int) * g)
                        } else {
                            (s as int) * g
                        },
                        s as int == ra_i + rb_i,
                        v.neg == a.neg && a.neg == b.neg,
                        ea == if a.neg {
                            -ra_i
                        } else {
                            ra_i
                        },
                        eb == if b.neg {
                            -rb_i
                        } else {
                            rb_i
                        },
                ;
            }
            Some(v)
        } else {
            let (m, neg) = if ra >= rb {
                (ra - rb, a.neg)
            } else {
                (rb - ra, b.neg)
            };
            if m >= MAG_LIMIT {
                proof {
                    assert(!add_fits(a, b));
                }
                return None;
            }
            let v = Dec { neg, mag: m, scale: smax };
            proof {
                lemma_units_facts(v);
                assert(units(v) == ea * g + eb * g) by (nonlinear_arith)
                    requires
                        units(v) == if v.neg {
                            -((m as int) * g)
                        } else {
                            (m as int) * g
                        },
                        a.neg != b.neg,
                        v.neg == if ra_i >= rb_i {
                            a.neg
                        } else {
                            b.neg
                        },
                        m as int == if ra_i >= rb_i {
                            ra_i - rb_i
                        } else {
                            rb_i - ra_i
                        },
                        ea == if a.neg {
                            -ra_i
                        } else {
                            ra_i
                        },
                        eb == if b.neg {
                            -rb_i
                        } else {
                            rb_i
                        },
                ;
            }
            Some(v)
        }
    }

    /// The exact difference `self - other` at the common scale; `None` when it
    /// is not representable.
    pub fn checked_sub(&self, other: &Dec) -> (r: Option<Dec>)
        requires
            dec_wf(*self),
            dec_wf(*other),
        ensures
            r is Some <==> add_fits(
                *self,
                (Dec { neg: !other.neg, mag: other.mag, scale: other.scale }),
            ),
            r matches Some(v) ==> dec_wf(v) && v.scale == scale_max(self.scale, other.scale)
                && units(v) == units(*self) - units(*other),
    {
        let flipped = other.neg_dec();
        self.checked_add(&flipped)
    }
}

/// Rounding zero gives zero.
pub proof fn lemma_rhe_zero(d: int)
    requires
        1 <= d,
    ensures
        rhe(0, d) == 0,
{
    vstd::arithmetic::div_mod::lemma_div_of0(d);
    vstd::arithmetic::div_mod::lemma_small_mod(0, d as nat);
}

/// Evaluates `rhe_frac` on a numerator and denominator given by sign and
/// magnitude.
pub proof fn lemma_rhe_frac_eval(n_abs: int, d_abs: int, n_neg: bool, d_neg: bool)
    requires
        0 <= n_abs,
        1 <= d_abs,
    ensures
        rhe_frac(
            if n_neg {
                -n_abs
            } else {
                n_abs
            },
            if d_neg {
                -d_abs
            } else {
                d_abs
            },
        ) == if n_neg == d_neg {
            rhe(n_abs, d_abs)
        } else {
            -rhe(n_abs, d_abs)
        },
{
    lemma_rhe_zero(d_abs);
}

/// Whether `a * b / c` rounded at `dp` digits is representable. The product
/// of the magnitudes, the power-of-ten rescaling and the rounded quotient
/// must each stay within range.
pub open spec fn mdr_fits(a: Dec, b: Dec, c: Dec, dp: u32) -> bool
    recommends
        c.mag >= 1,
        dp <= MAX_SCALE,
{
    let nm = (a.mag as int) * (b.mag as int);
    let e = dp + c.scale - a.scale - b.scale;
    if nm == 0 {
        true
    } else if e >= 0 {
        nm * pow10(e as nat) <= u128::MAX && rhe(nm * pow10(e as nat), c.mag as int) < MAG_LIMIT
            as int
    } else {
        nm <= u128::MAX && (c.mag as int) * pow10((-e) as nat) <= u128::MAX && rhe(
            nm,
            (c.mag as int) * pow10((-e) as nat),
        ) < MAG_LIMIT as int
    }
}

/// Relates the model-level numerator and denominator of `a * b / c` to the
/// magnitudes the implementation works with.
proof fn lemma_mdr_bridge(a: Dec, b: Dec, c: Dec, dp: u32)
    requires
        dec_wf(a),
        dec_wf(b),
        dec_wf(c),
        c.mag >= 1,
        dp <= MAX_SCALE,
    ensures
        units(a) * units(b) * pow10(dp as nat) == (
        if a.neg == b.neg {
            ((a.mag as int) * (b.mag as int)) * pow10((56 + dp - a.scale - b.scale) as nat)
        } else {
            -(((a.mag as int) * (b.mag as int)) * pow10((56 + dp - a.scale - b.scale) as nat))
        }),
        units(c) * pow10(MAX_SCALE as nat) == (
        if c.neg {
            -((c.mag as int) * pow10((56 - c.scale) as nat))
        } else {
            (c.mag as int) * pow10((56 - c.scale) as nat)
        }),
        (c.mag as int) * pow10((56 - c.scale) as nat) >= 1,
{
    let pa = pow10((MAX_SCALE - a.scale) as nat);
    let pb = pow10((MAX_SCALE - b.scale) as nat);
    let pd = pow10(dp as nat);
    let pc = pow10((MAX_SCALE - c.scale) as nat);
    let nm = (a.mag as int) * (b.mag as int);
    lemma_units_facts(a);
    lemma_units_facts(b);
    lemma_units_facts(c);
    lemma_pow10_pos((MAX_SCALE - a.scale) as nat);
    lemma_pow10_pos((MAX_SCALE - b.scale) as nat);
    lemma_pow10_pos((MAX_SCALE - c.scale) as nat);
    lemma_pow10_pos(dp as nat);
    lemma_pow_adds(10, (28 - a.scale) as nat, (28 - b.scale) as nat);
    lemma_pow_adds(10, (56 - a.scale - b.scale) as nat, dp as nat);
    assert(pa * pb * pd == pow10((56 + dp - a.scale - b.scale) as nat)) by (nonlinear_arith)
        requires
            pa * pb == pow10((56 - a.scale - b.scale) as nat),
            pow10((56 - a.scale - b.scale) as nat) * pd == pow10(
                (56 + dp - a.scale - b.scale) as nat,
            ),
    ;
    assert(((a.mag as int) * pa) * ((b.mag as int) * pb) * pd == nm * (pa * pb * pd))
        by (nonlinear_arith)
        requires
            nm == (a.mag as int) * (b.mag as int),
    ;
    if a.neg == b.neg {
        assert(units(a) * units(b) * pd == nm * (pa * pb * pd)) by (nonlinear_arith)
            requires
                units(a) == if a.neg {
                    -((a.mag as int) * pa)
                } else {
                    (a.mag as int) * pa
                },
                units(b) == if b.neg {
                    -((b.mag as int) * pb)
                } else {
                    (b.mag as int) * pb
                },
                a.neg == b.neg,
                nm == (a.mag as int) * (b.mag as int),
        ;
    } else {
        assert(units(a) * units(b) * pd == -(nm * (pa * pb * pd))) by (nonlinear_arith)
            requires
                units(a) == if a.neg {
                    -((a.mag as int) * pa)
                } else {
                    (a.mag as int) * pa
                },
                units(b) == if b.neg {
                    -((b.mag as int) * pb)
                } else {
                    (b.mag as int) * pb
                },
                a.neg != b.neg,
                nm == (a.mag as int) * (b.mag as int),
        ;
    }
    lemma_pow_adds(10, (28 - c.scale) as nat, 28nat);
    assert(((c.mag as int) * pc) * pow10(28) == (c.mag as int) * pow10((56 - c.scale) as nat))
        by (nonlinear_arith)
        requires
            pc * pow10(28) == pow10((56 - c.scale) as nat),
    ;
    if c.neg {
        assert((-((c.mag as int) * pc)) * pow10(28) == -(((c.mag as int) * pc) * pow10(28)))
            by (nonlinear_arith);
    }
    lemma_pow10_pos((56 - c.scale) as nat);
    assert((c.mag as int) * pow10((56 - c.scale) as nat) >= 1) by (nonlinear_arith)
        requires
            (c.mag as int) >= 1,
            pow10((56 - c.scale) as nat) >= 1,
    ;
}

impl Dec {
    /// `self * b / c`, rounded half-to-even at `dp` fractional digits; `None`
    /// when any step of the computation is not representable.
    pub fn mul_div_round(&self, b: &Dec, c: &Dec, dp: u32) -> (r: Option<Dec>)
        requires
            dec_wf(*self),
            dec_wf(*b),
            dec_wf(*c),
            c.mag >= 1,
            dp <= MAX_SCALE,
        ensures
            r is Some <==> mdr_fits(*self, *b, *c, dp),
            r matches Some(v) ==> dec_wf(v) && v.scale == dp && units(v) == mdr_units(
                units(*self),
                units(*b),
                units(*c),
                dp,
            ) && (v.neg ==> ((self.neg != b.neg) != c.neg)),
    {
        let a = *self;
        let b = *b;
        let c = *c;
        let ghost uaa = units(a);
        let ghost ubb = units(b);
        let ghost ucc = units(c);
        let ghost nspec = uaa * ubb * pow10(dp as nat);
        let ghost dspec = ucc * pow10(MAX_SCALE as nat);
        let ghost absd = (c.mag as int) * pow10((56 - c.scale) as nat);
        proof {
            lemma_mdr_bridge(a, b, c, dp);
            lemma_pow10_vals();
        }
        let nm = match a.mag.checked_mul(b.mag) {
            Some(v) => v,
            None => {
                // The magnitude product overflows; the result cannot fit
                // either, since rescaling only enlarges the numerator.
                proof {
                    let nmi = (a.mag as int) * (b.mag as int);
                    let e = dp + c.scale - a.scale - b.scale;
                    assert(nmi > u128::MAX);
                    if e >= 0 {
                        lemma_pow10_pos(e as nat);
                        assert(nmi * pow10(e as nat) >= nmi) by (nonlinear_arith)
                            requires
                                nmi >= 1,
                                pow10(e as nat) >= 1,
                        ;
                    }
                }
                return None;
            },
        };
        if nm == 0 {
            let v = Dec { neg: false, mag: 0, scale: dp };
            proof {
                lemma_units_facts(v);
                assert((a.mag as int) * (b.mag as int) == 0);
                assert(a.mag == 0 || b.mag == 0) by (nonlinear_arith)
                    requires
                        (a.mag as int) * (b.mag as int) == 0,
                ;
                lemma_units_facts(a);
                lemma_units_facts(b);
                assert(nspec == 0) by (nonlinear_arith)
                    requires
                        uaa == 0 || ubb == 0,
                        nspec == uaa * ubb * pow10(dp as nat),
                ;
                assert(absd >= 1);
                lemma_rhe_frac_eval(0, absd, false, c.neg);
                lemma_rhe_zero(absd);
                assert(rhe_frac(nspec, dspec) == 0);
                assert(mdr_units(uaa, ubb, ucc, dp) == 0 * pow10((MAX_SCALE - dp) as nat));
                assert(0 * pow10((MAX_SCALE - dp) as nat) == 0) by (nonlinear_arith);
            }
            return Some(v);
        }
        // Exponent that aligns the magnitude product with the target scale.
        let e: i64 = dp as i64 + c.scale as i64 - a.scale as i64 - b.scale as i64;
        let ghost absn = (nm as int) * pow10((56 + dp - a.scale - b.scale) as nat);
        let (num, den): (u128, u128) = if e >= 0 {
            if e > 38 {
                proof {
                    lemma_pow_increases(10, 39nat, e as nat);
                    assert((nm as int) * pow10(e as nat) > u128::MAX) by (nonlinear_arith)
                        requires
                            (nm as int) >= 1,
                            pow10(e as nat) >= pow10(39),
                            pow10(39) > u128::MAX,
                    ;
                }
                return None;
            }
            let p = pow10_u128(e as u32);
            let num = match nm.checked_mul(p) {
                Some(v) => v,
                None => {
                    return None;
                },
            };
            (num, c.mag)
        } else {
            let f = -e;
            if f > 38 {
                proof {
                    lemma_pow_increases(10, 39nat, (-(e as int)) as nat);
                    assert((c.mag as int) * pow10((-(e as int)) as nat) > u128::MAX)
                        by (nonlinear_arith)
                        requires
                            (c.mag as int) >= 1,
                            pow10((-(e as int)) as nat) >= pow10(39),
                            pow10(39) > u128::MAX,
                    ;
                }
                return None;
            }
            let p = pow10_u128(f as u32);
            let den = match c.mag.checked_mul(p) {
                Some(v) => v,
                None => {
                    return None;
                },
            };
            proof {
                assert((c.mag as int) * (p as int) >= 1) by (nonlinear_arith)
                    requires
                        (c.mag as int) >= 1,
                        (p as int) >= 1,
                ;
            }
            (nm, den)
        };
        let q = rhe_div_u128(num, den);
        if q >= MAG_LIMIT {
            return None;
        }
        let neg_r = (a.neg != b.neg) != c.neg;
        let v = Dec { neg: neg_r, mag: q, scale: dp };
        proof {
            // Cancel the common power of ten between the model-level and the
            // implementation-level fraction.
            let ei = dp + c.scale - a.scale - b.scale;
            if ei >= 0 {
                let k = pow10((56 - c.scale) as nat);
                lemma_pow_adds(10, ei as nat, (56 - c.scale) as nat);
                assert(((nm as int) * pow10(ei as nat)) * k == (nm as int) * pow10(
                    (56 + dp - a.scale - b.scale) as nat,
                )) by (nonlinear_arith)
                    requires
                        pow10(ei as nat) * k == pow10((ei + 56 - c.scale) as nat),
                        ei + 56 - c.scale == 56 + dp - a.scale - b.scale,
                ;
                lemma_pow10_pos((56 - c.scale) as nat);
                lemma_rhe_common_factor((nm as int) * pow10(ei as nat), c.mag as int, k);
                assert(rhe(absn, absd) == q);
            } else {
                let k = pow10((56 - c.scale + ei) as nat);
                lemma_pow_adds(10, (-ei) as nat, (56 - c.scale + ei) as nat);
                assert(((c.mag as int) * pow10((-ei) as nat)) * k == (c.mag as int) * pow10(
                    (56 - c.scale) as nat,
                )) by (nonlinear_arith)
                    requires
                        pow10((-ei) as nat) * k == pow10((56 - c.scale) as nat),
                ;
                assert((nm as int) * k == absn) by (nonlinear_arith)
                    requires
                        k == pow10((56 - c.scale + ei) as nat),
                        absn == (nm as int) * pow10((56 + dp - a.scale - b.scale) as nat),
                        56 - c.scale + ei == 56 + dp - a.scale - b.scale,
                ;
                lemma_pow10_pos((56 - c.scale + ei) as nat);
                lemma_pow10_pos((-ei) as nat);
                assert((c.mag as int) * pow10((-ei) as nat) >= 1) by (nonlinear_arith)
                    requires
                        (c.mag as int) >= 1,
                        pow10((-ei) as nat) >= 1,
                ;
                lemma_rhe_common_factor(nm as int, (c.mag as int) * pow10((-ei) as nat), k);
                assert(rhe(absn, absd) == q);
            }
            lemma_rhe_frac_eval(absn, absd, a.neg != b.neg, c.neg);
            lemma_units_facts(v);
            assert(units(v) == rhe_frac(nspec, dspec) * pow10((MAX_SCALE - dp) as nat))
                by (nonlinear_arith)
                requires
                    units(v) == if v.neg {
                        -((q as int) * pow10((MAX_SCALE - dp) as nat))
                    } else {
                        (q as int) * pow10((MAX_SCALE - dp) as nat)
                    },
                    v.neg == ((a.neg != b.neg) != c.neg),
                    rhe_frac(nspec, dspec) == if (a.neg != b.neg) == c.neg {
                        rhe(absn, absd)
                    } else {
                        -rhe(absn, absd)
                    },
                    rhe(absn, absd) == q as int,
            ;
        }
        Some(v)
    }
}

/// Signs distribute over an equality of products: from `z * c == x * y`
/// follows the same equality with `x` and `y` independently negated and the
/// sign collected on `z`.
proof fn lemma_signed_product(x: int, y: int, z: int, c: int, xn: bool, yn: bool)
    requires
        z * c == x * y,
    ensures
        (if xn {
            -x
        } else {
            x
        }) * (if yn {
            -y
        } else {
            y
        }) == (if xn != yn {
            -z
        } else {
            z
        }) * c,
{
    assert((-x) * y == -(x * y) && x * (-y) == -(x * y) && (-x) * (-y) == x * y && (-z) * c == -(z
        * c)) by (nonlinear_arith);
}

/// The units of the exact product `ua * ub` rounded at `dp` fractional
/// digits.
pub open spec fn mul_units(ua: int, ub: int, dp: u32) -> int
    recommends
        dp <= MAX_SCALE,
{
    rhe_frac(ua * ub * pow10(dp as nat), pow10(56)) * pow10((MAX_SCALE - dp) as nat)
}

/// Rounding an exact signed multiple of the divisor returns the multiplier.
pub proof fn lemma_rhe_s_exact(m: int, d: int)
    requires
        1 <= d,
    ensures
        rhe_s(m * d, d) == m,
{
    if m >= 0 {
        lemma_rhe_exact(m, d);
    } else {
        assert(m * d == -((-m) * d)) by (nonlinear_arith);
        assert((-m) * d >= 1 * d) by (nonlinear_arith)
            requires
                -m >= 1,
                d >= 1,
        ;
        lemma_rhe_exact(-m, d);
    }
}

/// `rhe_frac` is unchanged by scaling numerator and denominator by the same
/// positive factor.
pub proof fn lemma_rhe_frac_common_factor(n: int, d: int, k: int)
    requires
        d != 0,
        1 <= k,
    ensures
        rhe_frac(n * k, d * k) == rhe_frac(n, d),
{
    assert((-n) * k == -(n * k) && (-d) * k == -(d * k)) by (nonlinear_arith);
    assert((d > 0) == (d * k > 0)) by (nonlinear_arith)
        requires
            k >= 1,
    ;
    if d > 0 {
        if n >= 0 {
            assert(n * k >= 0) by (nonlinear_arith)
                requires
                    n >= 0,
                    k >= 1,
            ;
            lemma_rhe_common_factor(n, d, k);
        } else {
            assert(n * k < 0) by (nonlinear_arith)
                requires
                    n < 0,
                    k >= 1,
            ;
            lemma_rhe_common_factor(-n, d, k);
        }
    } else {
        if -n >= 0 {
            assert((-n) * k >= 0) by (nonlinear_arith)
                requires
                    -n >= 0,
                    k >= 1,
            ;
            lemma_rhe_common_factor(-n, -d, k);
        } else {
            assert((-n) * k < 0) by (nonlinear_arith)
                requires
                    -n < 0,
                    k >= 1,
            ;
            lemma_rhe_common_factor(n, -d, k);
        }
    }
}

/// With a divisor of one, the three-operand rounding reduces to a plain
/// rounded division.
pub proof fn lemma_mdr_one_is_div(ua: int, uc: int, dp: u32)
    requires
        uc != 0,
        dp <= MAX_SCALE,
    ensures
        mdr_units(ua, pow10(MAX_SCALE as nat), uc, dp) == div_units(ua, uc, dp),
{
    lemma_pow10_vals();
    assert(ua * pow10(28) * pow10(dp as nat) == (ua * pow10(dp as nat)) * pow10(28))
        by (nonlinear_arith);
    lemma_rhe_frac_common_factor(ua * pow10(dp as nat), uc, pow10(28));
}

impl Dec {
    /// The value rounded half-to-even at `dp` fractional digits. Values that
    /// already have at most `dp` fractional digits are returned unchanged.
    pub fn round_dp(&self, dp: u32) -> (r: Dec)
        requires
            dec_wf(*self),
            dp <= MAX_SCALE,
        ensures
            dec_wf(r),
            r.scale <= MAX_SCALE,
            units(r) == round_units(units(*self), dp),
    {
        let a = *self;
        let ghost g = pow10((MAX_SCALE - dp) as nat);
        proof {
            lemma_units_facts(a);
            lemma_pow10_pos((MAX_SCALE - dp) as nat);
        }
        if a.scale <= dp {
            proof {
                let m = if a.neg {
                    -((a.mag as int) * pow10((dp - a.scale) as nat))
                } else {
                    (a.mag as int) * pow10((dp - a.scale) as nat)
                };
                lemma_pow_adds(10, (dp - a.scale) as nat, (MAX_SCALE - dp) as nat);
                assert(units(a) == m * g) by (nonlinear_arith)
                    requires
                        units(a) == if a.neg {
                            -((a.mag as int) * pow10((MAX_SCALE - a.scale) as nat))
                        } else {
                            (a.mag as int) * pow10((MAX_SCALE - a.scale) as nat)
                        },
                        m == if a.neg {
                            -((a.mag as int) * pow10((dp - a.scale) as nat))
                        } else {
                            (a.mag as int) * pow10((dp - a.scale) as nat)
                        },
                        pow10((dp - a.scale) as nat) * g == pow10((MAX_SCALE - a.scale) as nat),
                        g == pow10((MAX_SCALE - dp) as nat),
                ;
                lemma_rhe_s_exact(m, g);
            }
            a
        } else {
            let p = pow10_u128(a.scale - dp);
            let q = rhe_div_u128(a.mag, p);
            let v = Dec { neg: a.neg, mag: q, scale: dp };
            proof {
                lemma_units_facts(v);
                let k = pow10((MAX_SCALE - a.scale) as nat);
                lemma_pow10_pos((MAX_SCALE - a.scale) as nat);
                lemma_pow_adds(10, (a.scale - dp) as nat, (MAX_SCALE - a.scale) as nat);
                lemma_rhe_common_factor(a.mag as int, p as int, k);
                assert((a.mag as int) * k == if a.neg {
                    -units(a)
                } else {
                    units(a)
                }) by (nonlinear_arith)
                    requires
                        units(a) == if a.neg {
                            -((a.mag as int) * k)
                        } else {
                            (a.mag as int) * k
                        },
                ;
                assert((p as int) * k == g);
                assert(rhe((a.mag as int) * k, g) == q as int);
                if a.neg && a.mag != 0 {
                    assert(units(a) < 0);
                    assert(rhe_s(units(a), g) == -rhe(-units(a), g));
                    assert(units(v) == rhe_s(units(a), g) * g) by (nonlinear_arith)
                        requires
                            units(v) == -((q as int) * g),
                            rhe_s(units(a), g) == -(q as int),
                    ;
                } else if a.mag == 0 {
                    lemma_rhe_zero(g);
                    assert((0int) * k == 0) by (nonlinear_arith);
                    assert(units(a) == 0);
                    assert(rhe((a.mag as int) * k, g) == 0);
                    assert(q == 0);
                    assert(units(v) == 0);
                    assert(rhe_s(0, g) * g == 0) by (nonlinear_arith)
                        requires
                            rhe_s(0, g) == 0,
                    ;
                } else {
                    assert(units(v) == rhe_s(units(a), g) * g);
                }
            }
            v
        }
    }

    /// The product `self * other`, kept exact while the combined scale fits
    /// and rounded half-to-even at 28 digits otherwise; `None` when the
    /// magnitude is not representable.
    pub fn checked_mul(&self, other: &Dec) -> (r: Option<Dec>)
        requires
            dec_wf(*self),
            dec_wf(*other),
        ensures
            self.scale + other.scale <= MAX_SCALE ==> {
                &&& (r is Some <==> (self.mag as int) * (other.mag as int) < MAG_LIMIT as int)
                &&& (r matches Some(v) ==> dec_wf(v) && v.scale == self.scale + other.scale
                    && units(v) * pow10(MAX_SCALE as nat) == units(*self) * units(*other))
            },
            self.scale + other.scale > MAX_SCALE ==> {
                &&& (r is Some <==> mdr_fits(*self, *other, (Dec { neg: false, mag: 1, scale: 0 }), MAX_SCALE))
                &&& (r matches Some(v) ==> dec_wf(v) && units(v) == mul_units(
                    units(*self),
                    units(*other),
                    MAX_SCALE,
                ))
            },
    {
        let a = *self;
        let b = *other;
        if a.scale + b.scale <= MAX_SCALE {
            let s = a.scale + b.scale;
            match a.mag.checked_mul(b.mag) {
                Some(m) => {
                    if m < MAG_LIMIT {
                        let v = Dec { neg: a.neg != b.neg, mag: m, scale: s };
                        proof {
                            lemma_units_facts(a);
                            lemma_units_facts(b);
                            lemma_units_facts(v);
                            lemma_pow_adds(10, (MAX_SCALE - a.scale) as nat, (MAX_SCALE - b.scale) as nat);
                            lemma_pow_adds(10, (MAX_SCALE - s) as nat, MAX_SCALE as nat);
                            let x = (a.mag as int) * pow10((MAX_SCALE - a.scale) as nat);
                            let y = (b.mag as int) * pow10((MAX_SCALE - b.scale) as nat);
                            let z = (m as int) * pow10((MAX_SCALE - s) as nat);
                            let p28 = pow10(MAX_SCALE as nat);
                            assert(z * p28 == x * y) by (nonlinear_arith)
                                requires
                                    m as int == (a.mag as int) * (b.mag as int),
                                    x == (a.mag as int) * pow10((MAX_SCALE - a.scale) as nat),
                                    y == (b.mag as int) * pow10((MAX_SCALE - b.scale) as nat),
                                    z == (m as int) * pow10((MAX_SCALE - s) as nat),
                                    p28 == pow10(MAX_SCALE as nat),
                                    pow10((MAX_SCALE - a.scale) as nat) * pow10(
                                        (MAX_SCALE - b.scale) as nat,
                                    ) == pow10((56 - a.scale - b.scale) as nat),
                                    pow10((MAX_SCALE - s) as nat) * pow10(MAX_SCALE as nat)
                                        == pow10((56 - s) as nat),
                                    s == a.scale + b.scale,
                            ;
                            lemma_signed_product(x, y, z, p28, a.neg, b.neg);
                        }
                        Some(v)
                    } else {
                        None
                    }
                },
                None => {
                    proof {
                        lemma_pow10_vals();
                    }
                    None
                },
            }
        } else {
            let one = Dec { neg: false, mag: 1, scale: 0 };
            let r = a.mul_div_round(&b, &one, MAX_SCALE);
            proof {
                if r is Some {
                    lemma_units_facts(one);
                    lemma_pow_adds(10, MAX_SCALE as nat, MAX_SCALE as nat);
                    lemma_pow10_vals();
                    assert(units(one) == pow10(MAX_SCALE as nat));
                    assert(mdr_units(units(a), units(b), units(one), MAX_SCALE) == mul_units(
                        units(a),
                        units(b),
                        MAX_SCALE,
                    ));
                }
            }
            r
        }
    }

    /// `self / other`, rounded half-to-even at `dp` fractional digits; `None`
    /// when the result is not representable.
    pub fn div_round(&self, other: &Dec, dp: u32) -> (r: Option<Dec>)
        requires
            dec_wf(*self),
            dec_wf(*other),
            other.mag >= 1,
            dp <= MAX_SCALE,
        ensures
            r is Some <==> mdr_fits(*self, (Dec { neg: false, mag: 1, scale: 0 }), *other, dp),
            r matches Some(v) ==> dec_wf(v) && v.scale == dp && units(v) == div_units(
                units(*self),
                units(*other),
                dp,
            ),
    {
        let a = *self;
        let one = Dec { neg: false, mag: 1, scale: 0 };
        let r = a.mul_div_round(&one, other, dp);
        proof {
            lemma_units_facts(*other);
            if r is Some {
                lemma_units_facts(one);
                lemma_units_facts(a);
                lemma_pow10_vals();
                assert(units(one) == pow10(MAX_SCALE as nat));
                assert(units(a) * units(one) * pow10(dp as nat) == units(a) * pow10(
                    MAX_SCALE as nat,
                ) * pow10(dp as nat)) by (nonlinear_arith)
                    requires
                        units(one) == pow10(MAX_SCALE as nat),
                ;
                lemma_mdr_one_is_div(units(a), units(*other), dp);
                assert(units(a) * pow10(MAX_SCALE as nat) * pow10(dp as nat) == units(a) * pow10(
                    28,
                ) * pow10(dp as nat));
            }
        }
        r
    }
}

/// Two well-formed decimals at the same scale can be added exactly whenever
/// the sum of their absolute values stays below the magnitude limit.
pub proof fn lemma_same_scale_add_fits(a: Dec, b: Dec)
    requires
        dec_wf(a),
        dec_wf(b),
        a.scale == b.scale,
        abs_val(units(a)) + abs_val(units(b)) < (MAG_LIMIT as int) * pow10(
            (MAX_SCALE - a.scale) as nat,
        ),
    ensures
        add_fits(a, b),
{
    let g = pow10((MAX_SCALE - a.scale) as nat);
    lemma_pow10_pos((MAX_SCALE - a.scale) as nat);
    lemma_pow10_vals();
    lemma_units_facts(a);
    lemma_units_facts(b);
    let ra = (a.mag as int) * pow10(0);
    let rb = (b.mag as int) * pow10(0);
    assert(ra == a.mag as int && rb == b.mag as int) by (nonlinear_arith)
        requires
            ra == (a.mag as int) * pow10(0),
            rb == (b.mag as int) * pow10(0),
            pow10(0) == 1,
    ;
    assert(abs_val(units(a)) == (a.mag as int) * g && abs_val(units(b)) == (b.mag as int) * g)
        by (nonlinear_arith)
        requires
            units(a) == if a.neg {
                -((a.mag as int) * g)
            } else {
                (a.mag as int) * g
            },
            units(b) == if b.neg {
                -((b.mag as int) * g)
            } else {
                (b.mag as int) * g
            },
            0 <= a.mag as int,
            0 <= b.mag as int,
            g >= 1,
    ;
    assert((a.mag as int) + (b.mag as int) < MAG_LIMIT as int) by (nonlinear_arith)
        requires
            (a.mag as int) * g + (b.mag as int) * g < (MAG_LIMIT as int) * g,
            g >= 1,
    ;
}

/// A well-formed decimal at the target scale divides by a whole-number,
/// nonzero count at that same scale: the rounded quotient never exceeds the
/// dividend's magnitude.
pub proof fn lemma_same_scale_div_fits(a: Dec, cnt: Dec, dp: u32)
    requires
        dec_wf(a),
        a.scale == dp,
        dp <= MAX_SCALE,
        cnt.scale == 0,
        1 <= cnt.mag,
    ensures
        mdr_fits(a, (Dec { neg: false, mag: 1, scale: 0 }), cnt, dp),
{
    lemma_pow10_vals();
    let nm = (a.mag as int) * 1;
    assert(nm == a.mag as int) by (nonlinear_arith)
        requires
            nm == (a.mag as int) * 1,
    ;
    if nm != 0 {
        assert(nm * pow10(0) == nm) by (nonlinear_arith)
            requires
                pow10(0) == 1,
        ;
        lemma_rhe_le_n(nm, cnt.mag as int);
    }
}

impl PartialEq for Dec {
    /// Two well-formed decimals are equal when they denote the same value,
    /// whatever their scales; out-of-range decimals compare field by field.
    fn eq(&self, other: &Dec) -> (r: bool) {
        if self.scale <= MAX_SCALE && self.mag < MAG_LIMIT && other.scale <= MAX_SCALE && other.mag
            < MAG_LIMIT {
            self.le(other) && other.le(self)
        } else {
            self.neg == other.neg && self.mag == other.mag && self.scale == other.scale
        }
    }
}

impl vstd::std_specs::cmp::PartialEqSpecImpl for Dec {
    open spec fn obeys_eq_spec() -> bool {
        true
    }

    open spec fn eq_spec(&self, other: &Dec) -> bool {
        if dec_wf(*self) && dec_wf(*other) {
            units(*self) == units(*other)
        } else {
            self.neg == other.neg && self.mag == other.mag && self.scale == other.scale
        }
    }
}

/// Rounded division of magnitudes: `rhe(n, d)` computed on `u128` values.
pub fn rhe_div_u128(n: u128, d: u128) -> (r: u128)
    requires
        d >= 1,
    ensures
        r as int == rhe(n as int, d as int),
        r <= n,
{
    proof {
        lemma_rhe_le_n(n as int, d as int);
    }
    let q = n / d;
    let rem = n % d;
    proof {
        lemma_fundamental_div_mod(n as int, d as int);
    }
    if rem < d - rem {
        q
    } else if rem > d - rem {
        q + 1
    } else if q % 2 == 0 {
        q
    } else {
        q + 1
    }
}

} // verus!
