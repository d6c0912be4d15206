//! Exact scalars: the field Q(i, sqrt 2).
//!
//! A [`Q2`] is a real number a + b*sqrt(2) with rational a, b; a [`Cx`] is a
//! complex number whose real and imaginary parts are such reals. The field is
//! closed under every operation the tensor engine performs, including the
//! basis amplitudes 1/sqrt(2), so evaluation is exact end to end. Each
//! operation either returns the exact result or reports that it left the
//! machine range.

use crate::errors::EvalError;
use crate::rational::{
    fits_i64, rat_add_c, rat_add_v, rat_div_c, rat_eq_v, rat_is_zero_v, rat_mul_c, rat_mul_v,
    rat_neg_c, rat_ok, rat_sqrt_c, rat_sub_c, rat_two_v, rat_wf_v, Rat, RatV,
};
use vstd::prelude::*;

verus! {

/// Mathematical value of a real in Q(sqrt 2): the pair (a, b) denoting
/// a + b*sqrt(2).
pub struct Q2V {
    pub a: RatV,
    pub b: RatV,
}

/// Mathematical value of a complex scalar: real and imaginary parts in
/// Q(sqrt 2).
pub struct CxV {
    pub re: Q2V,
    pub im: Q2V,
}

pub open spec fn q2_wf_v(x: Q2V) -> bool {
    rat_wf_v(x.a) && rat_wf_v(x.b)
}

pub open spec fn cx_wf_v(x: CxV) -> bool {
    q2_wf_v(x.re) && q2_wf_v(x.im)
}

/// The two pairs denote the same real number. sqrt(2) is irrational, so the
/// coordinates over (1, sqrt 2) are unique and componentwise rational
/// equality is value equality.
pub open spec fn q2_eq_v(x: Q2V, y: Q2V) -> bool {
    rat_eq_v(x.a, y.a) && rat_eq_v(x.b, y.b)
}

pub open spec fn cx_eq_v(x: CxV, y: CxV) -> bool {
    q2_eq_v(x.re, y.re) && q2_eq_v(x.im, y.im)
}

pub open spec fn q2_is_zero_v(x: Q2V) -> bool {
    rat_is_zero_v(x.a) && rat_is_zero_v(x.b)
}

pub open spec fn cx_is_zero_v(x: CxV) -> bool {
    q2_is_zero_v(x.re) && q2_is_zero_v(x.im)
}

/// Componentwise nonnegativity; it implies the denoted real is nonnegative.
pub open spec fn q2_nonneg_v(x: Q2V) -> bool {
    x.a.n >= 0 && x.b.n >= 0
}

pub open spec fn q2_add_c(x: Q2V, y: Q2V) -> Option<Q2V> {
    match (rat_add_c(x.a, y.a), rat_add_c(x.b, y.b)) {
        (Some(a), Some(b)) => Some(Q2V { a, b }),
        _ => None,
    }
}

pub open spec fn q2_sub_c(x: Q2V, y: Q2V) -> Option<Q2V> {
    match (rat_sub_c(x.a, y.a), rat_sub_c(x.b, y.b)) {
        (Some(a), Some(b)) => Some(Q2V { a, b }),
        _ => None,
    }
}

pub open spec fn q2_neg_c(x: Q2V) -> Option<Q2V> {
    match (rat_neg_c(x.a), rat_neg_c(x.b)) {
        (Some(a), Some(b)) => Some(Q2V { a, b }),
        _ => None,
    }
}

/// (a1 + b1 s)(a2 + b2 s) = (a1 a2 + 2 b1 b2) + (a1 b2 + b1 a2) s, for
/// s = sqrt(2).
pub open spec fn q2_mul_c(x: Q2V, y: Q2V) -> Option<Q2V> {
    match (rat_mul_c(x.a, y.a), rat_mul_c(x.b, y.b), rat_mul_c(x.a, y.b), rat_mul_c(x.b, y.a)) {
        (Some(p1), Some(p2), Some(q1), Some(q2)) => match rat_mul_c(rat_two_v(), p2) {
            Some(p2t) => match (rat_add_c(p1, p2t), rat_add_c(q1, q2)) {
                (Some(a), Some(b)) => Some(Q2V { a, b }),
                _ => None,
            },
            None => None,
        },
        _ => None,
    }
}

pub open spec fn cx_add_c(x: CxV, y: CxV) -> Option<CxV> {
    match (q2_add_c(x.re, y.re), q2_add_c(x.im, y.im)) {
        (Some(re), Some(im)) => Some(CxV { re, im }),
        _ => None,
    }
}

pub open spec fn cx_sub_c(x: CxV, y: CxV) -> Option<CxV> {
    match (q2_sub_c(x.re, y.re), q2_sub_c(x.im, y.im)) {
        (Some(re), Some(im)) => Some(CxV { re, im }),
        _ => None,
    }
}

pub open spec fn cx_neg_c(x: CxV) -> Option<CxV> {
    match (q2_neg_c(x.re), q2_neg_c(x.im)) {
        (Some(re), Some(im)) => Some(CxV { re, im }),
        _ => None,
    }
}

/// Complex conjugate: the imaginary part is negated.
pub open spec fn cx_conj_c(x: CxV) -> Option<CxV> {
    match q2_neg_c(x.im) {
        Some(im) => Some(CxV { re: x.re, im }),
        None => None,
    }
}

/// (r1 + i m1)(r2 + i m2) = (r1 r2 - m1 m2) + i (r1 m2 + m1 r2).
pub open spec fn cx_mul_c(x: CxV, y: CxV) -> Option<CxV> {
    match (q2_mul_c(x.re, y.re), q2_mul_c(x.im, y.im), q2_mul_c(x.re, y.im), q2_mul_c(
        x.im,
        y.re,
    )) {
        (Some(p), Some(q), Some(s), Some(t)) => match (q2_sub_c(p, q), q2_add_c(s, t)) {
            (Some(re), Some(im)) => Some(CxV { re, im }),
            _ => None,
        },
        _ => None,
    }
}

/// Squared magnitude re^2 + im^2, a real in Q(sqrt 2).
pub open spec fn cx_abs2_c(x: CxV) -> Option<Q2V> {
    match (q2_mul_c(x.re, x.re), q2_mul_c(x.im, x.im)) {
        (Some(p), Some(q)) => q2_add_c(p, q),
        _ => None,
    }
}

/// The rational a^2 - 2 b^2, by which one divides to invert a + b*sqrt(2).
pub open spec fn q2_denom_c(s: Q2V) -> Option<RatV> {
    match (rat_mul_c(s.a, s.a), rat_mul_c(s.b, s.b)) {
        (Some(p), Some(q)) => match rat_mul_c(rat_two_v(), q) {
            Some(qt) => rat_sub_c(p, qt),
            None => None,
        },
        _ => None,
    }
}

/// Division of a real in Q(sqrt 2) by a nonzero rational, coordinatewise.
pub open spec fn q2_div_rat_c(u: Q2V, d: RatV) -> Option<Q2V> {
    match (rat_div_c(u.a, d), rat_div_c(u.b, d)) {
        (Some(a), Some(b)) => Some(Q2V { a, b }),
        _ => None,
    }
}

/// Staged specification of complex division z / w, mirroring the evaluation:
/// multiply z by the conjugate of w, then divide by |w|^2 via the rational
/// denominator of its inverse. Reports division by an exact zero apart from
/// range failures.
pub open spec fn cx_div_s(z: CxV, w: CxV) -> Result<CxV, EvalError> {
    match cx_conj_c(w) {
        None => Err(EvalError::Overflow),
        Some(wc) => match cx_mul_c(z, wc) {
            None => Err(EvalError::Overflow),
            Some(m) => match cx_abs2_c(w) {
                None => Err(EvalError::Overflow),
                Some(s) => match q2_denom_c(s) {
                    None => Err(EvalError::Overflow),
                    Some(dd) => if rat_is_zero_v(dd) {
                        Err(EvalError::DivisionByZero)
                    } else {
                        match rat_neg_c(s.b) {
                            None => Err(EvalError::Overflow),
                            Some(nb) => match (q2_mul_c(m.re, Q2V { a: s.a, b: nb }), q2_mul_c(
                                m.im,
                                Q2V { a: s.a, b: nb },
                            )) {
                                (Some(u), Some(v)) => match (q2_div_rat_c(u, dd), q2_div_rat_c(
                                    v,
                                    dd,
                                )) {
                                    (Some(re), Some(im)) => Ok(CxV { re, im }),
                                    _ => Err(EvalError::Overflow),
                                },
                                _ => Err(EvalError::Overflow),
                            },
                        }
                    },
                },
            },
        },
    }
}

/// Unchecked product of two reals in Q(sqrt 2): the exact value, used to
/// state what a square root squares back to.
pub open spec fn q2_mul_vv(x: Q2V, y: Q2V) -> Q2V {
    Q2V {
        a: rat_add_v(rat_mul_v(x.a, y.a), rat_mul_v(rat_two_v(), rat_mul_v(x.b, y.b))),
        b: rat_add_v(rat_mul_v(x.a, y.b), rat_mul_v(x.b, y.a)),
    }
}

/// The values whose exact square root this library finds: nonnegative
/// rationals (no sqrt(2) part) r such that either r or r/2 is the square of a
/// rational. A square root with both a rational and a sqrt(2) coordinate is
/// never produced and is reported as inexact.
pub open spec fn q2_has_sqrt_v(v: Q2V) -> bool {
    rat_is_zero_v(v.b) && v.a.n >= 0 && ((exists|s: int|
        0 <= s && #[trigger] (s * s) == v.a.n * v.a.d) || (fits_i64(2 * v.a.d) && exists|s: int|
        0 <= s && #[trigger] (s * s) == v.a.n * (2 * v.a.d)))
}

/// Mirror of the executable square root over values: which representation
/// comes back, branch by branch. Beyond [`q2_has_sqrt_v`] this pins the exact
/// result, so that evaluation is a function of the input value alone.
pub open spec fn q2_sqrt_s(v: Q2V) -> Option<Q2V> {
    if !rat_is_zero_v(v.b) {
        None
    } else if v.a.n < 0 {
        None
    } else {
        match rat_sqrt_c(v.a) {
            Some(s) => Some(Q2V { a: s, b: rat_zero_v() }),
            None => if 2 * v.a.d > i64::MAX {
                None
            } else {
                match rat_sqrt_c(RatV { n: v.a.n, d: 2 * v.a.d }) {
                    Some(y) => Some(Q2V { a: rat_zero_v(), b: y }),
                    None => None,
                }
            },
        }
    }
}

pub open spec fn rat_zero_v() -> RatV {
    RatV { n: 0, d: 1 }
}

pub open spec fn rat_one_v() -> RatV {
    RatV { n: 1, d: 1 }
}

pub open spec fn q2_zero_v() -> Q2V {
    Q2V { a: rat_zero_v(), b: rat_zero_v() }
}

pub open spec fn q2_one_v() -> Q2V {
    Q2V { a: rat_one_v(), b: rat_zero_v() }
}

pub open spec fn cx_zero_v() -> CxV {
    CxV { re: q2_zero_v(), im: q2_zero_v() }
}

pub open spec fn cx_one_v() -> CxV {
    CxV { re: q2_one_v(), im: q2_zero_v() }
}

/// An exact real a + b*sqrt(2).
#[derive(Clone, Copy, Debug)]
pub struct Q2 {
    pub a: Rat,
    pub b: Rat,
}

impl View for Q2 {
    type V = Q2V;

    open spec fn view(&self) -> Q2V {
        Q2V { a: self.a@, b: self.b@ }
    }
}

pub open spec fn q2_ok(x: Q2) -> bool {
    rat_ok(x.a) && rat_ok(x.b)
}

/// An exact complex scalar.
#[derive(Clone, Copy, Debug)]
pub struct Cx {
    pub re: Q2,
    pub im: Q2,
}

impl View for Cx {
    type V = CxV;

    open spec fn view(&self) -> CxV {
        CxV { re: self.re@, im: self.im@ }
    }
}

pub open spec fn cx_ok(x: Cx) -> bool {
    q2_ok(x.re) && q2_ok(x.im)
}

impl Q2 {
    pub fn zero() -> (r: Q2)
        ensures
            q2_ok(r),
            r@ == q2_zero_v(),
    {
        Q2 { a: Rat::from_int(0), b: Rat::from_int(0) }
    }

    /// The purely rational real a.
    pub fn from_rat(a: Rat) -> (r: Q2)
        requires
            rat_ok(a),
        ensures
            q2_ok(r),
            r@ == (Q2V { a: a@, b: rat_zero_v() }),
    {
        Q2 { a, b: Rat::from_int(0) }
    }

    pub fn is_zero(&self) -> (r: bool)
        requires
            q2_ok(*self),
        ensures
            r == q2_is_zero_v(self@),
    {
        self.a.is_zero() && self.b.is_zero()
    }

    /// Whether the two representations denote the same real.
    pub fn eq_value(&self, rhs: &Q2) -> (r: bool)
        requires
            q2_ok(*self),
            q2_ok(*rhs),
        ensures
            r == q2_eq_v(self@, rhs@),
    {
        self.a.eq_value(&rhs.a) && self.b.eq_value(&rhs.b)
    }

    pub fn add(&self, rhs: &Q2) -> (r: Option<Q2>)
        requires
            q2_ok(*self),
            q2_ok(*rhs),
        ensures
            match r {
                Some(c) => q2_ok(c) && q2_add_c(self@, rhs@) == Some(c@),
                None => q2_add_c(self@, rhs@) is None,
            },
    {
        match (self.a.add(&rhs.a), self.b.add(&rhs.b)) {
            (Some(a), Some(b)) => Some(Q2 { a, b }),
            _ => None,
        }
    }

    pub fn sub(&self, rhs: &Q2) -> (r: Option<Q2>)
        requires
            q2_ok(*self),
            q2_ok(*rhs),
        ensures
            match r {
                Some(c) => q2_ok(c) && q2_sub_c(self@, rhs@) == Some(c@),
                None => q2_sub_c(self@, rhs@) is None,
            },
    {
        match (self.a.sub(&rhs.a), self.b.sub(&rhs.b)) {
            (Some(a), Some(b)) => Some(Q2 { a, b }),
            _ => None,
        }
    }

    pub fn neg(&self) -> (r: Option<Q2>)
        requires
            q2_ok(*self),
        ensures
            match r {
                Some(c) => q2_ok(c) && q2_neg_c(self@) == Some(c@),
                None => q2_neg_c(self@) is None,
            },
    {
        match (self.a.neg(), self.b.neg()) {
            (Some(a), Some(b)) => Some(Q2 { a, b }),
            _ => None,
        }
    }

    pub fn mul(&self, rhs: &Q2) -> (r: Option<Q2>)
        requires
            q2_ok(*self),
            q2_ok(*rhs),
        ensures
            match r {
                Some(c) => q2_ok(c) && q2_mul_c(self@, rhs@) == Some(c@),
                None => q2_mul_c(self@, rhs@) is None,
            },
    {
        match (self.a.mul(&rhs.a), self.b.mul(&rhs.b), self.a.mul(&rhs.b), self.b.mul(&rhs.a)) {
            (Some(p1), Some(p2), Some(q1), Some(qq)) => {
                let two = Rat::from_int(2);
                match two.mul(&p2) {
                    Some(p2t) => match (p1.add(&p2t), q1.add(&qq)) {
                        (Some(a), Some(b)) => Some(Q2 { a, b }),
                        _ => None,
                    },
                    None => None,
                }
            },
            _ => None,
        }
    }

    /// Exact nonnegative square root, for the values of [`q2_has_sqrt_v`]:
    /// the result squares back to the input and is pinned by that together
    /// with nonnegativity.
    pub fn sqrt(&self) -> (r: Option<Q2>)
        requires
            q2_ok(*self),
        ensures
            match r {
                Some(t) => q2_ok(t) && q2_nonneg_v(t@) && q2_eq_v(q2_mul_vv(t@, t@), self@)
                    && q2_sqrt_s(self@) == Some(t@),
                None => q2_sqrt_s(self@) is None,
            },
            r is Some <==> q2_has_sqrt_v(self@),
    {
        if !self.b.is_zero() {
            return None;
        }
        if self.a.n < 0 {
            return None;
        }
        match self.a.sqrt() {
            Some(s) => {
                let t = Q2 { a: s, b: Rat::from_int(0) };
                proof {
                    let sq = q2_mul_vv(t@, t@);
                    assert(rat_eq_v(sq.a, self@.a)) by (nonlinear_arith)
                        requires
                            rat_eq_v(rat_mul_v(s@, s@), self.a@),
                            sq.a == rat_add_v(
                                rat_mul_v(s@, s@),
                                rat_mul_v(rat_two_v(), rat_mul_v(RatV { n: 0, d: 1 }, RatV { n: 0, d: 1 })),
                            ),
                            self@.a == self.a@,
                    ;
                    assert(rat_eq_v(sq.b, self@.b)) by (nonlinear_arith)
                        requires
                            self@.b.n == 0,
                            sq.b == rat_add_v(
                                rat_mul_v(s@, RatV { n: 0, d: 1 }),
                                rat_mul_v(RatV { n: 0, d: 1 }, s@),
                            ),
                    ;
                }
                Some(t)
            },
            None => {
                if self.a.d > i64::MAX / 2 {
                    return None;
                }
                let half = Rat::from_fraction(self.a.n, 2 * self.a.d);
                match half.sqrt() {
                    Some(y) => {
                        let t = Q2 { a: Rat::from_int(0), b: y };
                        proof {
                            let sq = q2_mul_vv(t@, t@);
                            assert(rat_eq_v(sq.a, self@.a)) by (nonlinear_arith)
                                requires
                                    rat_eq_v(rat_mul_v(y@, y@), half@),
                                    half@ == (RatV { n: self@.a.n, d: 2 * self@.a.d }),
                                    sq.a == rat_add_v(
                                        rat_mul_v(RatV { n: 0, d: 1 }, RatV { n: 0, d: 1 }),
                                        rat_mul_v(rat_two_v(), rat_mul_v(y@, y@)),
                                    ),
                                    self@.a.d > 0,
                                    y@.d > 0,
                            ;
                            assert(rat_eq_v(sq.b, self@.b)) by (nonlinear_arith)
                                requires
                                    self@.b.n == 0,
                                    sq.b == rat_add_v(
                                        rat_mul_v(RatV { n: 0, d: 1 }, y@),
                                        rat_mul_v(y@, RatV { n: 0, d: 1 }),
                                    ),
                            ;
                        }
                        Some(t)
                    },
                    None => None,
                }
            },
        }
    }

    /// Coordinatewise division by a nonzero rational.
    pub fn div_rat(&self, d: &Rat) -> (r: Option<Q2>)
        requires
            q2_ok(*self),
            rat_ok(*d),
            !rat_is_zero_v(d@),
        ensures
            match r {
                Some(c) => q2_ok(c) && q2_div_rat_c(self@, d@) == Some(c@),
                None => q2_div_rat_c(self@, d@) is None,
            },
    {
        match (self.a.div(d), self.b.div(d)) {
            (Some(a), Some(b)) => Some(Q2 { a, b }),
            _ => None,
        }
    }
}

impl Cx {
    pub fn zero() -> (r: Cx)
        ensures
            cx_ok(r),
            r@ == cx_zero_v(),
    {
        Cx { re: Q2::zero(), im: Q2::zero() }
    }

    pub fn one() -> (r: Cx)
        ensures
            cx_ok(r),
            r@ == cx_one_v(),
    {
        Cx { re: Q2::from_rat(Rat::from_int(1)), im: Q2::zero() }
    }

    /// The real rational scalar a.
    pub fn from_rat(a: Rat) -> (r: Cx)
        requires
            rat_ok(a),
        ensures
            cx_ok(r),
            r@ == (CxV { re: Q2V { a: a@, b: rat_zero_v() }, im: q2_zero_v() }),
    {
        Cx { re: Q2::from_rat(a), im: Q2::zero() }
    }

    /// The purely imaginary rational scalar a*i.
    pub fn from_imag_rat(a: Rat) -> (r: Cx)
        requires
            rat_ok(a),
        ensures
            cx_ok(r),
            r@ == (CxV { re: q2_zero_v(), im: Q2V { a: a@, b: rat_zero_v() } }),
    {
        Cx { re: Q2::zero(), im: Q2::from_rat(a) }
    }

    /// The real scalar carried by a Q(sqrt 2) value.
    pub fn from_q2(a: Q2) -> (r: Cx)
        requires
            q2_ok(a),
        ensures
            cx_ok(r),
            r@ == (CxV { re: a@, im: q2_zero_v() }),
    {
        Cx { re: a, im: Q2::zero() }
    }

    /// The real scalar -1.
    pub fn neg_one() -> (r: Cx)
        ensures
            cx_ok(r),
            r@ == (CxV {
                re: Q2V { a: RatV { n: -1, d: 1 }, b: RatV { n: 0, d: 1 } },
                im: q2_zero_v(),
            }),
    {
        Cx { re: Q2 { a: Rat::from_int(-1), b: Rat::from_int(0) }, im: Q2::zero() }
    }

    /// The amplitude (1/2) sqrt(2), i.e. 1/sqrt(2).
    pub fn half_sqrt2() -> (r: Cx)
        ensures
            cx_ok(r),
            r@ == (CxV {
                re: Q2V { a: RatV { n: 0, d: 1 }, b: RatV { n: 1, d: 2 } },
                im: q2_zero_v(),
            }),
    {
        Cx { re: Q2 { a: Rat::from_int(0), b: Rat::from_fraction(1, 2) }, im: Q2::zero() }
    }

    /// The amplitude -(1/2) sqrt(2) * i, i.e. -i/sqrt(2).
    pub fn neg_half_sqrt2_i() -> (r: Cx)
        ensures
            cx_ok(r),
            r@ == (CxV {
                re: q2_zero_v(),
                im: Q2V { a: RatV { n: 0, d: 1 }, b: RatV { n: -1, d: 2 } },
            }),
    {
        Cx { re: Q2::zero(), im: Q2 { a: Rat::from_int(0), b: Rat::from_fraction(-1, 2) } }
    }

    pub fn is_zero(&self) -> (r: bool)
        requires
            cx_ok(*self),
        ensures
            r == cx_is_zero_v(self@),
    {
        self.re.is_zero() && self.im.is_zero()
    }

    /// Whether the two representations denote the same complex number.
    pub fn eq_value(&self, rhs: &Cx) -> (r: bool)
        requires
            cx_ok(*self),
            cx_ok(*rhs),
        ensures
            r == cx_eq_v(self@, rhs@),
    {
        self.re.eq_value(&rhs.re) && self.im.eq_value(&rhs.im)
    }

    pub fn add(&self, rhs: &Cx) -> (r: Option<Cx>)
        requires
            cx_ok(*self),
            cx_ok(*rhs),
        ensures
            match r {
                Some(c) => cx_ok(c) && cx_add_c(self@, rhs@) == Some(c@),
                None => cx_add_c(self@, rhs@) is None,
            },
    {
        match (self.re.add(&rhs.re), self.im.add(&rhs.im)) {
            (Some(re), Some(im)) => Some(Cx { re, im }),
            _ => None,
        }
    }

    pub fn sub(&self, rhs: &Cx) -> (r: Option<Cx>)
        requires
            cx_ok(*self),
            cx_ok(*rhs),
        ensures
            match r {
                Some(c) => cx_ok(c) && cx_sub_c(self@, rhs@) == Some(c@),
                None => cx_sub_c(self@, rhs@) is None,
            },
    {
        match (self.re.sub(&rhs.re), self.im.sub(&rhs.im)) {
            (Some(re), Some(im)) => Some(Cx { re, im }),
            _ => None,
        }
    }

    pub fn neg(&self) -> (r: Option<Cx>)
        requires
            cx_ok(*self),
        ensures
            match r {
                Some(c) => cx_ok(c) && cx_neg_c(self@) == Some(c@),
                None => cx_neg_c(self@) is None,
            },
    {
        match (self.re.neg(), self.im.neg()) {
            (Some(re), Some(im)) => Some(Cx { re, im }),
            _ => None,
        }
    }

    /// Complex conjugate.
    pub fn conj(&self) -> (r: Option<Cx>)
        requires
            cx_ok(*self),
        ensures
            match r {
                Some(c) => cx_ok(c) && cx_conj_c(self@) == Some(c@),
                None => cx_conj_c(self@) is None,
            },
    {
        match self.im.neg() {
            Some(im) => Some(Cx { re: self.re, im }),
            None => None,
        }
    }

    pub fn mul(&self, rhs: &Cx) -> (r: Option<Cx>)
        requires
            cx_ok(*self),
            cx_ok(*rhs),
        ensures
            match r {
                Some(c) => cx_ok(c) && cx_mul_c(self@, rhs@) == Some(c@),
                None => cx_mul_c(self@, rhs@) is None,
            },
    {
        match (self.re.mul(&rhs.re), self.im.mul(&rhs.im), self.re.mul(&rhs.im), self.im.mul(
            &rhs.re,
        )) {
            (Some(p), Some(q), Some(s), Some(t)) => match (p.sub(&q), s.add(&t)) {
                (Some(re), Some(im)) => Some(Cx { re, im }),
                _ => None,
            },
            _ => None,
        }
    }

    /// Squared magnitude, an exact real.
    pub fn abs2(&self) -> (r: Option<Q2>)
        requires
            cx_ok(*self),
        ensures
            match r {
                Some(c) => q2_ok(c) && cx_abs2_c(self@) == Some(c@),
                None => cx_abs2_c(self@) is None,
            },
    {
        match (self.re.mul(&self.re), self.im.mul(&self.im)) {
            (Some(p), Some(q)) => p.add(&q),
            _ => None,
        }
    }

    /// Exact complex division; fails on a divisor that denotes zero, or when
    /// an intermediate value leaves the machine range.
    pub fn div(&self, rhs: &Cx) -> (r: Result<Cx, EvalError>)
        requires
            cx_ok(*self),
            cx_ok(*rhs),
        ensures
            match r {
                Ok(c) => cx_ok(c) && cx_div_s(self@, rhs@) == Ok::<CxV, EvalError>(c@),
                Err(e) => cx_div_s(self@, rhs@) == Err::<CxV, EvalError>(e),
            },
    {
        let wc = match rhs.conj() {
            Some(wc) => wc,
            None => {
                return Err(EvalError::Overflow);
            },
        };
        let m = match self.mul(&wc) {
            Some(m) => m,
            None => {
                return Err(EvalError::Overflow);
            },
        };
        let s = match rhs.abs2() {
            Some(s) => s,
            None => {
                return Err(EvalError::Overflow);
            },
        };
        let dd = match Cx::q2_denom(&s) {
            Some(dd) => dd,
            None => {
                return Err(EvalError::Overflow);
            },
        };
        if dd.is_zero() {
            return Err(EvalError::DivisionByZero);
        }
        let nb = match s.b.neg() {
            Some(nb) => nb,
            None => {
                return Err(EvalError::Overflow);
            },
        };
        let inv_num = Q2 { a: s.a, b: nb };
        match (m.re.mul(&inv_num), m.im.mul(&inv_num)) {
            (Some(u), Some(v)) => match (u.div_rat(&dd), v.div_rat(&dd)) {
                (Some(re), Some(im)) => Ok(Cx { re, im }),
                _ => Err(EvalError::Overflow),
            },
            _ => Err(EvalError::Overflow),
        }
    }

    /// The rational a^2 - 2 b^2 for a real a + b*sqrt(2).
    fn q2_denom(s: &Q2) -> (r: Option<Rat>)
        requires
            q2_ok(*s),
        ensures
            match r {
                Some(c) => rat_ok(c) && q2_denom_c(s@) == Some(c@),
                None => q2_denom_c(s@) is None,
            },
    {
        match (s.a.mul(&s.a), s.b.mul(&s.b)) {
            (Some(p), Some(q)) => {
                let two = Rat::from_int(2);
                match two.mul(&q) {
                    Some(qt) => p.sub(&qt),
                    None => None,
                }
            },
            _ => None,
        }
    }
}

} // verus!
