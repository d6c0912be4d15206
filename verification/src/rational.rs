//! Exact rational arithmetic.
//!
//! A [`Rat`] is a fraction of two `i64`s with a positive denominator. Results
//! are produced without reduction, exactly as the defining formulas state, and
//! every operation reports failure instead of overflowing: an operation
//! returns `None` exactly when the mathematical result does not fit the
//! machine representation.

use vstd::prelude::*;

verus! {

/// Mathematical value of a rational number: a numerator / denominator pair of
/// unbounded integers. The denominator of a well-formed value is positive.
pub struct RatV {
    pub n: int,
    pub d: int,
}

/// A well-formed rational value has a positive denominator.
pub open spec fn rat_wf_v(r: RatV) -> bool {
    r.d > 0
}

/// Two rational values denote the same number: cross multiplication.
pub open spec fn rat_eq_v(a: RatV, b: RatV) -> bool {
    a.n * b.d == b.n * a.d
}

pub open spec fn rat_add_v(a: RatV, b: RatV) -> RatV {
    RatV { n: a.n * b.d + b.n * a.d, d: a.d * b.d }
}

pub open spec fn rat_sub_v(a: RatV, b: RatV) -> RatV {
    RatV { n: a.n * b.d - b.n * a.d, d: a.d * b.d }
}

pub open spec fn rat_mul_v(a: RatV, b: RatV) -> RatV {
    RatV { n: a.n * b.n, d: a.d * b.d }
}

pub open spec fn rat_neg_v(a: RatV) -> RatV {
    RatV { n: -a.n, d: a.d }
}

/// Division, with the sign moved into the numerator so that the result is
/// well-formed whenever both operands are and the divisor is not zero.
pub open spec fn rat_div_v(a: RatV, b: RatV) -> RatV {
    if b.n >= 0 {
        RatV { n: a.n * b.d, d: a.d * b.n }
    } else {
        RatV { n: -(a.n * b.d), d: -(a.d * b.n) }
    }
}

/// The value denotes zero.
pub open spec fn rat_is_zero_v(a: RatV) -> bool {
    a.n == 0
}

/// Strict order on rational values (well-formed operands).
pub open spec fn rat_lt_v(a: RatV, b: RatV) -> bool {
    a.n * b.d < b.n * a.d
}

pub open spec fn fits_i64(x: int) -> bool {
    i64::MIN <= x <= i64::MAX
}

/// The pair itself is representable by the machine type.
pub open spec fn rat_fits(r: RatV) -> bool {
    fits_i64(r.n) && fits_i64(r.d)
}

/// Checked counterparts: the exact result when it is representable, `None`
/// when it is not. These are the one-step specifications that the executable
/// operations are proved to match.
pub open spec fn rat_add_c(a: RatV, b: RatV) -> Option<RatV> {
    if rat_fits(rat_add_v(a, b)) {
        Some(rat_add_v(a, b))
    } else {
        None
    }
}

pub open spec fn rat_sub_c(a: RatV, b: RatV) -> Option<RatV> {
    if rat_fits(rat_sub_v(a, b)) {
        Some(rat_sub_v(a, b))
    } else {
        None
    }
}

pub open spec fn rat_mul_c(a: RatV, b: RatV) -> Option<RatV> {
    if rat_fits(rat_mul_v(a, b)) {
        Some(rat_mul_v(a, b))
    } else {
        None
    }
}

pub open spec fn rat_neg_c(a: RatV) -> Option<RatV> {
    if rat_fits(rat_neg_v(a)) {
        Some(rat_neg_v(a))
    } else {
        None
    }
}

pub open spec fn rat_div_c(a: RatV, b: RatV) -> Option<RatV> {
    if rat_fits(rat_div_v(a, b)) {
        Some(rat_div_v(a, b))
    } else {
        None
    }
}

/// s is the integer square root of t.
pub open spec fn is_int_sqrt(s: int, t: int) -> bool {
    0 <= s && s * s <= t && t < (s + 1) * (s + 1)
}

/// The integer square root, where one exists in range; integer square roots
/// are unique, so this pins the value.
pub open spec fn int_sqrt(t: int) -> int {
    choose|s: int| is_int_sqrt(s, t)
}

/// Exact square root of a nonnegative rational, when the value has one:
/// sqrt(n / d) = sqrt(n * d) / d.
pub open spec fn rat_sqrt_c(a: RatV) -> Option<RatV> {
    if exists|s: int| 0 <= s && #[trigger] (s * s) == a.n * a.d {
        Some(RatV { n: int_sqrt(a.n * a.d), d: a.d })
    } else {
        None
    }
}

/// The constant 2, used by the sqrt-2 extension field.
pub open spec fn rat_two_v() -> RatV {
    RatV { n: 2, d: 1 }
}

/// An exact rational: numerator and denominator, denominator positive.
#[derive(Clone, Copy, Debug)]
pub struct Rat {
    pub n: i64,
    pub d: i64,
}

impl View for Rat {
    type V = RatV;

    open spec fn view(&self) -> RatV {
        RatV { n: self.n as int, d: self.d as int }
    }
}

/// Well-formedness of the machine representation.
pub open spec fn rat_ok(r: Rat) -> bool {
    r.d > 0
}

proof fn lemma_i64_prods_bounded(x1: int, y1: int, x2: int, y2: int)
    requires
        i64::MIN <= x1 <= i64::MAX,
        i64::MIN <= x2 <= i64::MAX,
        0 < y1 <= i64::MAX,
        0 < y2 <= i64::MAX,
    ensures
        i128::MIN < x1 * y1 + x2 * y2 < i128::MAX,
        i128::MIN < x1 * y1 - x2 * y2 < i128::MAX,
        i128::MIN < x1 * y1 < i128::MAX,
{
    assert(i128::MIN < x1 * y1 + x2 * y2 < i128::MAX && i128::MIN < x1 * y1 - x2 * y2 < i128::MAX
        && i128::MIN < x1 * y1 < i128::MAX) by (nonlinear_arith)
        requires
            i64::MIN <= x1 <= i64::MAX,
            i64::MIN <= x2 <= i64::MAX,
            0 < y1 <= i64::MAX,
            0 < y2 <= i64::MAX,
    ;
}

proof fn lemma_mul_sign(x: int, y: int)
    requires
        x > 0,
    ensures
        y > 0 ==> x * y > 0,
        y < 0 ==> x * y < 0,
        y == 0 ==> x * y == 0,
{
    assert((y > 0 ==> x * y > 0) && (y < 0 ==> x * y < 0) && (y == 0 ==> x * y == 0))
        by (nonlinear_arith)
        requires
            x > 0,
    ;
}

proof fn lemma_i64_sq_bounded(x1: int, x2: int)
    requires
        i64::MIN <= x1 <= i64::MAX,
        i64::MIN <= x2 <= i64::MAX,
    ensures
        i128::MIN < x1 * x2 < i128::MAX,
{
    assert(i128::MIN < x1 * x2 < i128::MAX) by (nonlinear_arith)
        requires
            i64::MIN <= x1 <= i64::MAX,
            i64::MIN <= x2 <= i64::MAX,
    ;
}

proof fn lemma_sq_mono(a: int, b: int)
    requires
        0 <= a <= b,
    ensures
        a * a <= b * b,
{
    assert(a * a <= b * b) by (nonlinear_arith)
        requires
            0 <= a <= b,
    ;
}

proof fn lemma_int_sqrt_unique(s: int, t: int)
    requires
        is_int_sqrt(s, t),
    ensures
        int_sqrt(t) == s,
{
    let s2 = choose|s2: int| is_int_sqrt(s2, t);
    assert(is_int_sqrt(s2, t));
    if s2 < s {
        lemma_sq_mono(s2 + 1, s);
    }
    if s2 > s {
        lemma_sq_mono(s + 1, s2);
    }
}

proof fn lemma_isqrt_bound(s: int, t: int)
    requires
        0 <= s,
        s * s <= t,
        t < (s + 1) * (s + 1),
        t <= (i64::MAX as int) * (i64::MAX as int),
    ensures
        s <= i64::MAX,
{
    if s > i64::MAX {
        lemma_sq_mono(i64::MAX as int + 1, s);
        assert((i64::MAX as int) * (i64::MAX as int) < (i64::MAX as int + 1) * (i64::MAX as int
            + 1)) by (nonlinear_arith);
    }
}

/// Integer square root by bisection: the unique r with r^2 <= x < (r+1)^2.
fn isqrt_u128(x: u128) -> (r: u128)
    ensures
        r < 0x1_0000_0000_0000_0000,
        (r as int) * (r as int) <= x as int,
        (x as int) < (r as int + 1) * (r as int + 1),
{
    let mut lo: u128 = 0;
    let mut hi: u128 = 0x1_0000_0000_0000_0000;
    proof {
        assert((0x1_0000_0000_0000_0000 as int) * (0x1_0000_0000_0000_0000 as int) > u128::MAX
            as int) by (nonlinear_arith);
    }
    while lo + 1 < hi
        invariant
            lo < hi,
            hi <= 0x1_0000_0000_0000_0000,
            (lo as int) * (lo as int) <= x as int,
            (x as int) < (hi as int) * (hi as int),
        decreases hi - lo,
    {
        let mid = lo + (hi - lo) / 2;
        proof {
            assert((mid as int) * (mid as int) <= (0xFFFF_FFFF_FFFF_FFFF as int)
                * (0xFFFF_FFFF_FFFF_FFFF as int) < u128::MAX as int) by (nonlinear_arith)
                requires
                    0 <= mid as int,
                    (mid as int) <= (0xFFFF_FFFF_FFFF_FFFF as int),
            ;
        }
        if mid * mid <= x {
            lo = mid;
        } else {
            hi = mid;
        }
    }
    lo
}

impl Rat {
    /// The rational n / 1.
    pub fn from_int(n: i64) -> (r: Rat)
        ensures
            rat_ok(r),
            r@ == (RatV { n: n as int, d: 1 }),
    {
        Rat { n, d: 1 }
    }

    /// The rational n / d for a caller-supplied positive denominator.
    pub fn from_fraction(n: i64, d: i64) -> (r: Rat)
        requires
            d > 0,
        ensures
            rat_ok(r),
            r@ == (RatV { n: n as int, d: d as int }),
    {
        Rat { n, d }
    }

    /// Exact sum; `None` exactly when the resulting pair leaves `i64`.
    pub fn add(&self, rhs: &Rat) -> (r: Option<Rat>)
        requires
            rat_ok(*self),
            rat_ok(*rhs),
        ensures
            match r {
                Some(c) => rat_ok(c) && c@ == rat_add_v(self@, rhs@) && rat_fits(rat_add_v(
                    self@,
                    rhs@,
                )),
                None => !rat_fits(rat_add_v(self@, rhs@)),
            },
    {
        proof {
            lemma_i64_prods_bounded(self.n as int, rhs.d as int, rhs.n as int, self.d as int);
            lemma_i64_prods_bounded(self.d as int, rhs.d as int, 1, 1);
            lemma_mul_sign(self.d as int, rhs.d as int);
        }
        let n: i128 = (self.n as i128) * (rhs.d as i128) + (rhs.n as i128) * (self.d as i128);
        let d: i128 = (self.d as i128) * (rhs.d as i128);
        Rat::pack(n, d)
    }

    /// Exact difference; `None` exactly when the resulting pair leaves `i64`.
    pub fn sub(&self, rhs: &Rat) -> (r: Option<Rat>)
        requires
            rat_ok(*self),
            rat_ok(*rhs),
        ensures
            match r {
                Some(c) => rat_ok(c) && c@ == rat_sub_v(self@, rhs@) && rat_fits(rat_sub_v(
                    self@,
                    rhs@,
                )),
                None => !rat_fits(rat_sub_v(self@, rhs@)),
            },
    {
        proof {
            lemma_i64_prods_bounded(self.n as int, rhs.d as int, rhs.n as int, self.d as int);
            lemma_i64_prods_bounded(self.d as int, rhs.d as int, 1, 1);
            lemma_mul_sign(self.d as int, rhs.d as int);
        }
        let n: i128 = (self.n as i128) * (rhs.d as i128) - (rhs.n as i128) * (self.d as i128);
        let d: i128 = (self.d as i128) * (rhs.d as i128);
        Rat::pack(n, d)
    }

    /// Exact product; `None` exactly when the resulting pair leaves `i64`.
    pub fn mul(&self, rhs: &Rat) -> (r: Option<Rat>)
        requires
            rat_ok(*self),
            rat_ok(*rhs),
        ensures
            match r {
                Some(c) => rat_ok(c) && c@ == rat_mul_v(self@, rhs@) && rat_fits(rat_mul_v(
                    self@,
                    rhs@,
                )),
                None => !rat_fits(rat_mul_v(self@, rhs@)),
            },
    {
        proof {
            lemma_i64_sq_bounded(self.n as int, rhs.n as int);
            lemma_i64_prods_bounded(self.d as int, rhs.d as int, 1, 1);
            lemma_mul_sign(self.d as int, rhs.d as int);
        }
        let n: i128 = (self.n as i128) * (rhs.n as i128);
        let d: i128 = (self.d as i128) * (rhs.d as i128);
        Rat::pack(n, d)
    }

    /// Exact negation; `None` exactly when the negated numerator leaves `i64`.
    pub fn neg(&self) -> (r: Option<Rat>)
        requires
            rat_ok(*self),
        ensures
            match r {
                Some(c) => rat_ok(c) && c@ == rat_neg_v(self@) && rat_fits(rat_neg_v(self@)),
                None => !rat_fits(rat_neg_v(self@)),
            },
    {
        let n: i128 = -(self.n as i128);
        Rat::pack(n, self.d as i128)
    }

    /// Exact quotient; requires a divisor that does not denote zero, and
    /// returns `None` exactly when the resulting pair leaves `i64`.
    pub fn div(&self, rhs: &Rat) -> (r: Option<Rat>)
        requires
            rat_ok(*self),
            rat_ok(*rhs),
            !rat_is_zero_v(rhs@),
        ensures
            match r {
                Some(c) => rat_ok(c) && c@ == rat_div_v(self@, rhs@) && rat_fits(rat_div_v(
                    self@,
                    rhs@,
                )),
                None => !rat_fits(rat_div_v(self@, rhs@)),
            },
    {
        proof {
            lemma_i64_prods_bounded(self.n as int, rhs.d as int, 1, 1);
            lemma_i64_sq_bounded(self.d as int, rhs.n as int);
            lemma_mul_sign(self.d as int, rhs.n as int);
        }
        let n: i128 = (self.n as i128) * (rhs.d as i128);
        let d: i128 = (self.d as i128) * (rhs.n as i128);
        if d < 0 {
            Rat::pack(-n, -d)
        } else {
            Rat::pack(n, d)
        }
    }

    /// Whether the value is zero.
    pub fn is_zero(&self) -> (r: bool)
        requires
            rat_ok(*self),
        ensures
            r == rat_is_zero_v(self@),
    {
        self.n == 0
    }

    /// Whether the two representations denote the same number.
    pub fn eq_value(&self, rhs: &Rat) -> (r: bool)
        requires
            rat_ok(*self),
            rat_ok(*rhs),
        ensures
            r == rat_eq_v(self@, rhs@),
    {
        proof {
            lemma_i64_prods_bounded(self.n as int, rhs.d as int, rhs.n as int, self.d as int);
        }
        (self.n as i128) * (rhs.d as i128) == (rhs.n as i128) * (self.d as i128)
    }

    /// Strict comparison of the denoted numbers.
    pub fn lt(&self, rhs: &Rat) -> (r: bool)
        requires
            rat_ok(*self),
            rat_ok(*rhs),
        ensures
            r == rat_lt_v(self@, rhs@),
    {
        proof {
            lemma_i64_prods_bounded(self.n as int, rhs.d as int, rhs.n as int, self.d as int);
        }
        (self.n as i128) * (rhs.d as i128) < (rhs.n as i128) * (self.d as i128)
    }

    /// Exact square root of a nonnegative rational, when one exists.
    ///
    /// sqrt(n / d) = sqrt(n * d) / d, so the value has a rational square root
    /// exactly when n * d is a perfect square; the result is pinned up to
    /// value equality by being nonnegative and squaring back to the input.
    pub fn sqrt(&self) -> (r: Option<Rat>)
        requires
            rat_ok(*self),
            self@.n >= 0,
        ensures
            match r {
                Some(c) => rat_ok(c) && c@.n >= 0 && rat_eq_v(rat_mul_v(c@, c@), self@)
                    && rat_sqrt_c(self@) == Some(c@),
                None => rat_sqrt_c(self@) is None,
            },
            r is Some <==> exists|s: int| 0 <= s && #[trigger] (s * s) == self@.n * self@.d,
    {
        proof {
            lemma_i64_sq_bounded(self.n as int, self.d as int);
            lemma_mul_sign(self.d as int, self.n as int);
        }
        let t: u128 = (self.n as u128) * (self.d as u128);
        let s = isqrt_u128(t);
        proof {
            assert((self.n as int) * (self.d as int) <= (i64::MAX as int) * (i64::MAX as int))
                by (nonlinear_arith)
                requires
                    0 <= self.n as int <= i64::MAX as int,
                    0 < self.d as int <= i64::MAX as int,
            ;
            lemma_isqrt_bound(s as int, t as int);
            assert((s as int) * (s as int) < u128::MAX as int) by (nonlinear_arith)
                requires
                    0 <= s as int,
                    (s as int) < (0x1_0000_0000_0000_0000 as int),
            ;
        }
        if s * s == t {
            proof {
                let c = RatV { n: s as int, d: self.d as int };
                assert(rat_eq_v(rat_mul_v(c, c), self@)) by (nonlinear_arith)
                    requires
                        (s as int) * (s as int) == (self.n as int) * (self.d as int),
                        c == (RatV { n: s as int, d: self.d as int }),
                        self@ == (RatV { n: self.n as int, d: self.d as int }),
                ;
                lemma_int_sqrt_unique(s as int, t as int);
            }
            Some(Rat { n: s as i64, d: self.d })
        } else {
            proof {
                assert forall|s2: int| 0 <= s2 implies #[trigger] (s2 * s2) != self@.n * self@.d by {
                    if s2 <= s as int {
                        lemma_sq_mono(s2, s as int);
                    } else {
                        lemma_sq_mono(s as int + 1, s2);
                    }
                }
            }
            None
        }
    }

    /// Final range check shared by the arithmetic operations: accepts the
    /// exact result as an `i128` pair with a positive denominator.
    fn pack(n: i128, d: i128) -> (r: Option<Rat>)
        requires
            d > 0,
        ensures
            match r {
                Some(c) => rat_ok(c) && c@ == (RatV { n: n as int, d: d as int }) && rat_fits(
                    RatV { n: n as int, d: d as int },
                ),
                None => !rat_fits(RatV { n: n as int, d: d as int }),
            },
    {
        if n >= i64::MIN as i128 && n <= i64::MAX as i128 && d <= i64::MAX as i128 {
            Some(Rat { n: n as i64, d: d as i64 })
        } else {
            None
        }
    }
}

} // verus!
