//! The notation parser: recursive descent with precedence climbing.
//!
//! Binding order, tightest first: atom, trailing dagger `'`, leading additive
//! inverse `-`, one multiplicative level for `*`, `/`, `x`, `.` and bare
//! juxtaposition, then `+` and `-`. Whitespace is insignificant around
//! tokens. The whole grammar is stated as specification functions over the
//! character sequence; each executable parser is proved to return exactly
//! what its specification says, so parsing is a function of the input value.

use crate::basis::{tensor_basis, tensor_basis_s, AsTensor};
use crate::expression::{expr_v, expr_wf, ExprS, Expression};
use crate::rational::{fits_i64, Rat, RatV};
use crate::scalar::{q2_zero_v, Cx, CxV, Q2V};
use crate::tensor::{tensor_wf_v, Tensor, TensorV};
use vstd::prelude::*;

verus! {

/// What the parser expected at the position where it stopped.
#[derive(Clone, Copy, Debug, PartialEq, Eq, Structural)]
pub enum Expected {
    /// An atom: a scalar literal, bra, ket, bracket pair, parenthesized or
    /// norm expression.
    Atom,
    /// At least one basis character 0, 1, + or -.
    Basis,
    /// A scalar literal convertible to an exact rational.
    Number,
    /// One specific delimiter character.
    Delim(char),
    /// The end of the input: everything must be consumed.
    End,
    /// A basis ket whose amplitudes stay inside the machine range.
    Representable,
}

/// A recoverable parse failure: the position of the unconsumed remainder and
/// what was expected there.
#[derive(Clone, Copy, Debug, PartialEq, Eq, Structural)]
pub struct ParseError {
    pub at: usize,
    pub expected: Expected,
}

pub open spec fn perr(pos: int, expected: Expected) -> ParseError {
    ParseError { at: pos as usize, expected }
}

/// The whitespace the grammar ignores.
pub open spec fn is_space_c(c: char) -> bool {
    c == ' ' || c == '\t' || c == '\n' || c == '\r'
}

/// First position at or after pos that does not hold whitespace.
pub open spec fn skip_ws_s(s: Seq<char>, pos: int) -> int
    decreases s.len() - pos,
{
    if 0 <= pos < s.len() && is_space_c(s[pos]) {
        skip_ws_s(s, pos + 1)
    } else {
        pos
    }
}

/// A basis character.
pub open spec fn is_basis_c(c: char) -> bool {
    c == '0' || c == '1' || c == '+' || c == '-'
}

/// End of the maximal run of basis characters starting at pos.
pub open spec fn basis_end_s(s: Seq<char>, pos: int) -> int
    decreases s.len() - pos,
{
    if 0 <= pos < s.len() && is_basis_c(s[pos]) {
        basis_end_s(s, pos + 1)
    } else {
        pos
    }
}

pub proof fn lemma_basis_end(s: Seq<char>, pos: int)
    requires
        0 <= pos <= s.len(),
    ensures
        pos <= basis_end_s(s, pos) <= s.len(),
        basis_end_s(s, pos) == s.len() || !is_basis_c(s[basis_end_s(s, pos)]),
        forall|m: int| pos <= m < basis_end_s(s, pos) ==> is_basis_c(#[trigger] s[m]),
    decreases s.len() - pos,
{
    if pos < s.len() && is_basis_c(s[pos]) {
        lemma_basis_end(s, pos + 1);
    }
}

/// A character of a scalar literal: a decimal digit, a dot, or i.
pub open spec fn is_num_c(c: char) -> bool {
    ('0' <= c && c <= '9') || c == '.' || c == 'i'
}

/// End of the maximal run of literal characters starting at pos.
pub open spec fn num_end_s(s: Seq<char>, pos: int) -> int
    decreases s.len() - pos,
{
    if 0 <= pos < s.len() && is_num_c(s[pos]) {
        num_end_s(s, pos + 1)
    } else {
        pos
    }
}

pub proof fn lemma_num_end(s: Seq<char>, pos: int)
    requires
        0 <= pos <= s.len(),
    ensures
        pos <= num_end_s(s, pos) <= s.len(),
        num_end_s(s, pos) == s.len() || !is_num_c(s[num_end_s(s, pos)]),
        forall|m: int| pos <= m < num_end_s(s, pos) ==> is_num_c(#[trigger] s[m]),
    decreases s.len() - pos,
{
    if pos < s.len() && is_num_c(s[pos]) {
        lemma_num_end(s, pos + 1);
    }
}

pub open spec fn is_digit_c(c: char) -> bool {
    '0' <= c && c <= '9'
}

pub open spec fn digit_val(c: char) -> int {
    (c as u32) - 48
}

/// The exact decimal scan, character by character from the left: the
/// accumulated numerator, the denominator (a power of ten once a dot was
/// seen), whether a dot was seen, and whether any digit was seen. `None` on a
/// second dot, a stray character, or a value leaving the machine range.
pub open spec fn dec_state_s(s: Seq<char>, k: int) -> Option<(int, int, bool, bool)>
    decreases k,
{
    if k <= 0 {
        Some((0, 1, false, false))
    } else {
        match dec_state_s(s, k - 1) {
            None => None,
            Some((num, den, dot, any)) => {
                let c = s[k - 1];
                if c == '.' {
                    if dot {
                        None
                    } else {
                        Some((num, den, true, any))
                    }
                } else if is_digit_c(c) {
                    let num2 = num * 10 + digit_val(c);
                    let den2 = if dot {
                        den * 10
                    } else {
                        den
                    };
                    if fits_i64(num2) && fits_i64(den2) {
                        Some((num2, den2, dot, true))
                    } else {
                        None
                    }
                } else {
                    None
                }
            },
        }
    }
}

/// The exact rational a decimal literal denotes, when it is well-formed and
/// representable.
pub open spec fn parse_decimal_s(s: Seq<char>) -> Option<RatV> {
    match dec_state_s(s, s.len() as int) {
        None => None,
        Some((num, den, dot, any)) => if any {
            Some(RatV { n: num, d: den })
        } else {
            None
        },
    }
}

/// The scalar a maximal literal token denotes: a trailing or sole i makes it
/// pure imaginary, otherwise it is real.
pub open spec fn number_value_s(tok: Seq<char>) -> Option<CxV> {
    if tok.len() == 0 {
        None
    } else if tok.last() == 'i' {
        if tok.len() == 1 {
            Some(CxV { re: q2_zero_v(), im: Q2V { a: RatV { n: 1, d: 1 }, b: RatV { n: 0, d: 1 } } })
        } else {
            match parse_decimal_s(tok.drop_last()) {
                None => None,
                Some(rv) => Some(
                    CxV { re: q2_zero_v(), im: Q2V { a: rv, b: RatV { n: 0, d: 1 } } },
                ),
            }
        }
    } else {
        match parse_decimal_s(tok) {
            None => None,
            Some(rv) => Some(CxV { re: Q2V { a: rv, b: RatV { n: 0, d: 1 } }, im: q2_zero_v() }),
        }
    }
}

/// Skips whitespace.
fn skip_ws(cs: &Vec<char>, pos: usize) -> (r: usize)
    requires
        pos <= cs@.len(),
    ensures
        r as int == skip_ws_s(cs@, pos as int),
        pos <= r <= cs@.len(),
{
    let mut cur = pos;
    while cur < cs.len() && (cs[cur] == ' ' || cs[cur] == '\t' || cs[cur] == '\n' || cs[cur]
        == '\r')
        invariant
            pos <= cur <= cs@.len(),
            skip_ws_s(cs@, pos as int) == skip_ws_s(cs@, cur as int),
        decreases cs@.len() - cur,
    {
        cur += 1;
    }
    cur
}

/// Scans the maximal basis run.
fn basis_end(cs: &Vec<char>, pos: usize) -> (r: usize)
    requires
        pos <= cs@.len(),
    ensures
        r as int == basis_end_s(cs@, pos as int),
        pos <= r <= cs@.len(),
{
    let mut cur = pos;
    while cur < cs.len() && (cs[cur] == '0' || cs[cur] == '1' || cs[cur] == '+' || cs[cur] == '-')
        invariant
            pos <= cur <= cs@.len(),
            basis_end_s(cs@, pos as int) == basis_end_s(cs@, cur as int),
        decreases cs@.len() - cur,
    {
        cur += 1;
    }
    cur
}

/// Scans the maximal literal run.
fn num_end(cs: &Vec<char>, pos: usize) -> (r: usize)
    requires
        pos <= cs@.len(),
    ensures
        r as int == num_end_s(cs@, pos as int),
        pos <= r <= cs@.len(),
{
    let mut cur = pos;
    while cur < cs.len() && (('0' <= cs[cur] && cs[cur] <= '9') || cs[cur] == '.' || cs[cur]
        == 'i')
        invariant
            pos <= cur <= cs@.len(),
            num_end_s(cs@, pos as int) == num_end_s(cs@, cur as int),
        decreases cs@.len() - cur,
    {
        cur += 1;
    }
    cur
}

/// Converts the decimal literal cs[lo..hi] to an exact rational.
fn parse_decimal(cs: &Vec<char>, lo: usize, hi: usize) -> (r: Option<Rat>)
    requires
        lo <= hi <= cs@.len(),
    ensures
        match r {
            Some(q) => q.d > 0 && parse_decimal_s(cs@.subrange(lo as int, hi as int)) == Some(q@),
            None => parse_decimal_s(cs@.subrange(lo as int, hi as int)) is None,
        },
{
    let ghost tok = cs@.subrange(lo as int, hi as int);
    let mut num: i64 = 0;
    let mut den: i64 = 1;
    let mut dot = false;
    let mut any = false;
    let mut k = lo;
    while k < hi
        invariant
            lo <= k <= hi,
            hi <= cs@.len(),
            tok == cs@.subrange(lo as int, hi as int),
            den > 0,
            num >= 0,
            dec_state_s(tok, k - lo) == Some((num as int, den as int, dot, any)),
        decreases hi - k,
    {
        proof {
            assert(tok[k - lo] == cs@[k as int]);
        }
        let c = cs[k];
        if c == '.' {
            if dot {
                proof {
                    lemma_dec_state_none(tok, k + 1 - lo);
                }
                return None;
            }
            dot = true;
        } else if '0' <= c && c <= '9' {
            let d = (c as u32 - 48) as i64;
            let num2: i128 = (num as i128) * 10 + (d as i128);
            let den2: i128 = if dot {
                (den as i128) * 10
            } else {
                den as i128
            };
            if num2 > i64::MAX as i128 || den2 > i64::MAX as i128 {
                proof {
                    lemma_dec_state_none(tok, k + 1 - lo);
                }
                return None;
            }
            num = num2 as i64;
            den = den2 as i64;
            any = true;
        } else {
            proof {
                lemma_dec_state_none(tok, k + 1 - lo);
            }
            return None;
        }
        k += 1;
    }
    if any {
        Some(Rat { n: num, d: den })
    } else {
        None
    }
}

/// A scalar literal atom: the maximal literal run at pos, converted.
pub open spec fn p_number_s(s: Seq<char>, pos: int) -> Result<(ExprS, int), ParseError> {
    let ne = num_end_s(s, pos);
    if ne <= pos {
        Err(perr(pos, Expected::Number))
    } else {
        match number_value_s(s.subrange(pos, ne)) {
            Some(c) => Ok((ExprS::Scalar(c), ne)),
            None => Err(perr(pos, Expected::Number)),
        }
    }
}

/// A ket `|basis>`: the composite basis tensor and the position after `>`.
pub open spec fn p_ket_raw_s(s: Seq<char>, pos: int) -> Result<(TensorV, int), ParseError> {
    if !(0 <= pos < s.len() && s[pos] == '|') {
        Err(perr(pos, Expected::Delim('|')))
    } else {
        let b0 = skip_ws_s(s, pos + 1);
        let be = basis_end_s(s, b0);
        if be <= b0 {
            Err(perr(b0, Expected::Basis))
        } else {
            let a0 = skip_ws_s(s, be);
            if !(0 <= a0 < s.len() && s[a0] == '>') {
                Err(perr(a0, Expected::Delim('>')))
            } else {
                match tensor_basis_s(s.subrange(b0, be)) {
                    Ok(t) => Ok((t, a0 + 1)),
                    Err(_) => Err(perr(b0, Expected::Representable)),
                }
            }
        }
    }
}

/// A bra `<basis|`.
pub open spec fn p_bra_raw_s(s: Seq<char>, pos: int) -> Result<(TensorV, int), ParseError> {
    if !(0 <= pos < s.len() && s[pos] == '<') {
        Err(perr(pos, Expected::Delim('<')))
    } else {
        let b0 = skip_ws_s(s, pos + 1);
        let be = basis_end_s(s, b0);
        if be <= b0 {
            Err(perr(b0, Expected::Basis))
        } else {
            let a0 = skip_ws_s(s, be);
            if !(0 <= a0 < s.len() && s[a0] == '|') {
                Err(perr(a0, Expected::Delim('|')))
            } else {
                match tensor_basis_s(s.subrange(b0, be)) {
                    Ok(t) => Ok((t, a0 + 1)),
                    Err(_) => Err(perr(b0, Expected::Representable)),
                }
            }
        }
    }
}

/// An outer product: a ket immediately followed by a bra.
pub open spec fn p_outer_s(s: Seq<char>, pos: int) -> Result<(ExprS, int), ParseError> {
    match p_ket_raw_s(s, pos) {
        Err(e) => Err(e),
        Ok((t1, p1)) => match p_bra_raw_s(s, p1) {
            Err(e) => Err(e),
            Ok((t2, p2)) => Ok((ExprS::Outer(t1, t2), p2)),
        },
    }
}

/// A combined inner product `<basis|basis>`, one rule of its own.
pub open spec fn p_inner_s(s: Seq<char>, pos: int) -> Result<(ExprS, int), ParseError> {
    if !(0 <= pos < s.len() && s[pos] == '<') {
        Err(perr(pos, Expected::Delim('<')))
    } else {
        let b0 = skip_ws_s(s, pos + 1);
        let be = basis_end_s(s, b0);
        if be <= b0 {
            Err(perr(b0, Expected::Basis))
        } else {
            let m0 = skip_ws_s(s, be);
            if !(0 <= m0 < s.len() && s[m0] == '|') {
                Err(perr(m0, Expected::Delim('|')))
            } else {
                let k0 = skip_ws_s(s, m0 + 1);
                let ke = basis_end_s(s, k0);
                if ke <= k0 {
                    Err(perr(k0, Expected::Basis))
                } else {
                    let a0 = skip_ws_s(s, ke);
                    if !(0 <= a0 < s.len() && s[a0] == '>') {
                        Err(perr(a0, Expected::Delim('>')))
                    } else {
                        match tensor_basis_s(s.subrange(b0, be)) {
                            Err(_) => Err(perr(b0, Expected::Representable)),
                            Ok(t1) => match tensor_basis_s(s.subrange(k0, ke)) {
                                Err(_) => Err(perr(k0, Expected::Representable)),
                                Ok(t2) => Ok(
                                    (
                                        ExprS::Inner(
                                            Box::new(ExprS::Bra(t1)),
                                            Box::new(ExprS::Ket(t2)),
                                        ),
                                        a0 + 1,
                                    ),
                                ),
                            },
                        }
                    }
                }
            }
        }
    }
}

/// The node a multiplicative operator builds: `*` multiplies, `/` divides,
/// `x` is the Kronecker product, `.` the inner dot product.
pub open spec fn mul_combine(c: char, acc: ExprS, e: ExprS) -> ExprS {
    if c == '*' {
        ExprS::Mul(Box::new(acc), Box::new(e))
    } else if c == '/' {
        ExprS::Div(Box::new(acc), Box::new(e))
    } else if c == 'x' {
        ExprS::Kronecker(Box::new(acc), Box::new(e))
    } else {
        ExprS::Inner(Box::new(acc), Box::new(e))
    }
}

/// An atom, each alternative in order behind insignificant whitespace: a
/// scalar literal, an outer product, a combined inner product, a bra, a ket,
/// a parenthesized expression, a norm expression. A failure to represent a
/// value exactly stops the search; any other failure tries the next
/// alternative.
pub open spec fn p_atom_s(s: Seq<char>, pos: int) -> Result<(ExprS, int), ParseError>
    decreases s.len() - pos, 2int,
{
    if pos < 0 || pos > s.len() {
        Err(perr(pos, Expected::Atom))
    } else {
        let p0 = skip_ws_s(s, pos);
        if !(pos <= p0 <= s.len()) {
            Err(perr(pos, Expected::Atom))
        } else {
            let ne = num_end_s(s, p0);
            if ne > p0 {
                match p_number_s(s, p0) {
                    Ok((e, p1)) => Ok((e, skip_ws_s(s, p1))),
                    Err(e) => Err(e),
                }
            } else {
                match p_outer_s(s, p0) {
                    Ok((e, p1)) => Ok((e, skip_ws_s(s, p1))),
                    Err(oe) => if oe.expected == Expected::Representable {
                        Err(oe)
                    } else {
                        match p_inner_s(s, p0) {
                            Ok((e, p1)) => Ok((e, skip_ws_s(s, p1))),
                            Err(ie) => if ie.expected == Expected::Representable {
                                Err(ie)
                            } else {
                                match p_bra_raw_s(s, p0) {
                                    Ok((t, p1)) => Ok((ExprS::Bra(t), skip_ws_s(s, p1))),
                                    Err(bre) => if bre.expected == Expected::Representable {
                                        Err(bre)
                                    } else {
                                        match p_ket_raw_s(s, p0) {
                                            Ok((t, p1)) => Ok((ExprS::Ket(t), skip_ws_s(s, p1))),
                                            Err(kee) => if kee.expected
                                                == Expected::Representable {
                                                Err(kee)
                                            } else {
                                                if p0 < s.len() && s[p0] == '(' {
                                                    match p_additive_s(s, p0 + 1) {
                                                        Err(e2) => Err(e2),
                                                        Ok((e, p1)) => if 0 <= p1 < s.len()
                                                            && s[p1] == ')' {
                                                            Ok(
                                                                (
                                                                    ExprS::Parenthised(
                                                                        Box::new(e),
                                                                    ),
                                                                    skip_ws_s(s, p1 + 1),
                                                                ),
                                                            )
                                                        } else {
                                                            Err(perr(p1, Expected::Delim(')')))
                                                        },
                                                    }
                                                } else if p0 < s.len() && s[p0] == '|' {
                                                    match p_additive_s(s, p0 + 1) {
                                                        Err(e2) => Err(e2),
                                                        Ok((e, p1)) => if 0 <= p1 < s.len()
                                                            && s[p1] == '|' {
                                                            Ok(
                                                                (
                                                                    ExprS::Norm(Box::new(e)),
                                                                    skip_ws_s(s, p1 + 1),
                                                                ),
                                                            )
                                                        } else {
                                                            Err(perr(p1, Expected::Delim('|')))
                                                        },
                                                    }
                                                } else {
                                                    Err(perr(p0, Expected::Atom))
                                                }
                                            },
                                        }
                                    },
                                }
                            },
                        }
                    },
                }
            }
        }
    }
}

/// An atom with an optional trailing dagger `'`.
pub open spec fn p_dag_s(s: Seq<char>, pos: int) -> Result<(ExprS, int), ParseError>
    decreases s.len() - pos, 3int,
{
    if pos < 0 || pos > s.len() {
        Err(perr(pos, Expected::Atom))
    } else {
        match p_atom_s(s, pos) {
            Err(e) => Err(e),
            Ok((e, p1)) => if 0 <= p1 < s.len() && s[p1] == '\'' {
                Ok((ExprS::Dagger(Box::new(e)), p1 + 1))
            } else {
                Ok((e, p1))
            },
        }
    }
}

/// An optional leading `-`, then a daggered atom with trailing whitespace
/// consumed.
pub open spec fn p_inverse_s(s: Seq<char>, pos: int) -> Result<(ExprS, int), ParseError>
    decreases s.len() - pos, 4int,
{
    if pos < 0 || pos > s.len() {
        Err(perr(pos, Expected::Atom))
    } else if pos < s.len() && s[pos] == '-' {
        match p_dag_s(s, pos + 1) {
            Err(e) => Err(e),
            Ok((e, p2)) => Ok((ExprS::AdditiveInverse(Box::new(e)), skip_ws_s(s, p2))),
        }
    } else {
        match p_dag_s(s, pos) {
            Err(e) => Err(e),
            Ok((e, p2)) => Ok((e, skip_ws_s(s, p2))),
        }
    }
}

/// The multiplicative tail: a left fold of `*`, `/`, `x`, `.` or bare
/// juxtaposition (which multiplies), ending before the first position where
/// no further factor parses.
pub open spec fn p_mul_rest_s(s: Seq<char>, pos: int, acc: ExprS) -> (ExprS, int)
    decreases s.len() - pos, 5int,
{
    if pos < 0 || pos >= s.len() {
        (acc, pos)
    } else {
        let c = s[pos];
        if c == '*' || c == '/' || c == 'x' || c == '.' {
            match p_inverse_s(s, pos + 1) {
                Ok((e, p2)) => if pos < p2 <= s.len() {
                    p_mul_rest_s(s, p2, mul_combine(c, acc, e))
                } else {
                    (acc, pos)
                },
                Err(_) => match p_dag_s(s, pos) {
                    Ok((e, p2)) => {
                        let p3 = skip_ws_s(s, p2);
                        if pos < p3 <= s.len() {
                            p_mul_rest_s(s, p3, ExprS::Mul(Box::new(acc), Box::new(e)))
                        } else {
                            (acc, pos)
                        }
                    },
                    Err(_) => (acc, pos),
                },
            }
        } else {
            match p_dag_s(s, pos) {
                Ok((e, p2)) => {
                    let p3 = skip_ws_s(s, p2);
                    if pos < p3 <= s.len() {
                        p_mul_rest_s(s, p3, ExprS::Mul(Box::new(acc), Box::new(e)))
                    } else {
                        (acc, pos)
                    }
                },
                Err(_) => (acc, pos),
            }
        }
    }
}

/// One multiplicative level, left-associative.
pub open spec fn p_multiplicative_s(s: Seq<char>, pos: int) -> Result<(ExprS, int), ParseError>
    decreases s.len() - pos, 6int,
{
    if pos < 0 || pos > s.len() {
        Err(perr(pos, Expected::Atom))
    } else {
        match p_inverse_s(s, pos) {
            Err(e) => Err(e),
            Ok((first, p1)) => if pos <= p1 <= s.len() {
                Ok(p_mul_rest_s(s, p1, first))
            } else {
                Ok((first, p1))
            },
        }
    }
}

/// The additive tail: a left fold of `+` and `-`.
pub open spec fn p_add_rest_s(s: Seq<char>, pos: int, acc: ExprS) -> (ExprS, int)
    decreases s.len() - pos, 7int,
{
    if pos < 0 || pos >= s.len() {
        (acc, pos)
    } else {
        let c = s[pos];
        if c == '+' || c == '-' {
            match p_multiplicative_s(s, pos + 1) {
                Ok((e, p2)) => if pos < p2 <= s.len() {
                    p_add_rest_s(
                        s,
                        p2,
                        if c == '+' {
                            ExprS::Add(Box::new(acc), Box::new(e))
                        } else {
                            ExprS::Sub(Box::new(acc), Box::new(e))
                        },
                    )
                } else {
                    (acc, pos)
                },
                Err(_) => (acc, pos),
            }
        } else {
            (acc, pos)
        }
    }
}

/// The additive level, left-associative: the whole grammar.
pub open spec fn p_additive_s(s: Seq<char>, pos: int) -> Result<(ExprS, int), ParseError>
    decreases s.len() - pos, 8int,
{
    if pos < 0 || pos > s.len() {
        Err(perr(pos, Expected::Atom))
    } else {
        match p_multiplicative_s(s, pos) {
            Err(e) => Err(e),
            Ok((first, p1)) => if pos <= p1 <= s.len() {
                Ok(p_add_rest_s(s, p1, first))
            } else {
                Ok((first, p1))
            },
        }
    }
}

/// A whole notation string: an additive expression that consumes the entire
/// input.
pub open spec fn p_dirac_s(s: Seq<char>) -> Result<ExprS, ParseError> {
    match p_additive_s(s, 0) {
        Err(e) => Err(e),
        Ok((e, p)) => if p == s.len() {
            Ok(e)
        } else {
            Err(perr(p, Expected::End))
        },
    }
}

proof fn lemma_dec_state_none(s: Seq<char>, k: int)
    requires
        0 <= k <= s.len(),
        dec_state_s(s, k) is None,
    ensures
        dec_state_s(s, s.len() as int) is None,
    decreases s.len() - k,
{
    if k < s.len() {
        lemma_dec_state_none(s, k + 1);
    }
}

/// Matches a scalar literal.
fn number(cs: &Vec<char>, pos: usize) -> (r: Result<(Expression, usize), ParseError>)
    requires
        pos <= cs@.len(),
    ensures
        match r {
            Ok((e, p)) => expr_wf(e) && pos < p <= cs@.len() && p_number_s(cs@, pos as int)
                == Ok::<(ExprS, int), ParseError>((expr_v(e), p as int)),
            Err(pe) => p_number_s(cs@, pos as int) == Err::<(ExprS, int), ParseError>(pe),
        },
{
    let ne = num_end(cs, pos);
    if ne <= pos {
        return Err(ParseError { at: pos, expected: Expected::Number });
    }
    let ghost tok = cs@.subrange(pos as int, ne as int);
    proof {
        lemma_num_end(cs@, pos as int);
    }
    if cs[ne - 1] == 'i' {
        proof {
            assert(tok.last() == cs@[ne - 1]);
        }
        if ne - 1 == pos {
            let e = Expression::Scalar(Cx::from_imag_rat(Rat::from_int(1)));
            return Ok((e, ne));
        }
        match parse_decimal(cs, pos, ne - 1) {
            Some(q) => {
                proof {
                    assert(tok.drop_last() =~= cs@.subrange(pos as int, ne - 1));
                }
                let e = Expression::Scalar(Cx::from_imag_rat(q));
                Ok((e, ne))
            },
            None => {
                proof {
                    assert(tok.drop_last() =~= cs@.subrange(pos as int, ne - 1));
                }
                Err(ParseError { at: pos, expected: Expected::Number })
            },
        }
    } else {
        proof {
            assert(tok.last() == cs@[ne - 1]);
        }
        match parse_decimal(cs, pos, ne) {
            Some(q) => {
                let e = Expression::Scalar(Cx::from_rat(q));
                Ok((e, ne))
            },
            None => Err(ParseError { at: pos, expected: Expected::Number }),
        }
    }
}

/// Matches a ket `|basis>`, returning its tensor.
fn ket_raw(cs: &Vec<char>, pos: usize) -> (r: Result<(Tensor, usize), ParseError>)
    requires
        pos <= cs@.len(),
    ensures
        match r {
            Ok((t, p)) => tensor_wf_v(t@) && pos < p <= cs@.len() && p_ket_raw_s(cs@, pos as int)
                == Ok::<(TensorV, int), ParseError>((t@, p as int)),
            Err(pe) => p_ket_raw_s(cs@, pos as int) == Err::<(TensorV, int), ParseError>(pe),
        },
{
    if !(pos < cs.len() && cs[pos] == '|') {
        return Err(ParseError { at: pos, expected: Expected::Delim('|') });
    }
    let b0 = skip_ws(cs, pos + 1);
    let be = basis_end(cs, b0);
    if be <= b0 {
        return Err(ParseError { at: b0, expected: Expected::Basis });
    }
    let a0 = skip_ws(cs, be);
    if !(a0 < cs.len() && cs[a0] == '>') {
        return Err(ParseError { at: a0, expected: Expected::Delim('>') });
    }
    proof {
        lemma_basis_end(cs@, b0 as int);
        assert(forall|m: int|
            b0 <= m < be ==> (#[trigger] cs@[m]).decodable() == is_basis_c(cs@[m]));
    }
    match tensor_basis(cs, b0, be) {
        Ok(t) => Ok((t, a0 + 1)),
        Err(_) => Err(ParseError { at: b0, expected: Expected::Representable }),
    }
}

/// Matches a bra `<basis|`, returning its tensor.
fn bra_raw(cs: &Vec<char>, pos: usize) -> (r: Result<(Tensor, usize), ParseError>)
    requires
        pos <= cs@.len(),
    ensures
        match r {
            Ok((t, p)) => tensor_wf_v(t@) && pos < p <= cs@.len() && p_bra_raw_s(cs@, pos as int)
                == Ok::<(TensorV, int), ParseError>((t@, p as int)),
            Err(pe) => p_bra_raw_s(cs@, pos as int) == Err::<(TensorV, int), ParseError>(pe),
        },
{
    if !(pos < cs.len() && cs[pos] == '<') {
        return Err(ParseError { at: pos, expected: Expected::Delim('<') });
    }
    let b0 = skip_ws(cs, pos + 1);
    let be = basis_end(cs, b0);
    if be <= b0 {
        return Err(ParseError { at: b0, expected: Expected::Basis });
    }
    let a0 = skip_ws(cs, be);
    if !(a0 < cs.len() && cs[a0] == '|') {
        return Err(ParseError { at: a0, expected: Expected::Delim('|') });
    }
    proof {
        lemma_basis_end(cs@, b0 as int);
        assert(forall|m: int|
            b0 <= m < be ==> (#[trigger] cs@[m]).decodable() == is_basis_c(cs@[m]));
    }
    match tensor_basis(cs, b0, be) {
        Ok(t) => Ok((t, a0 + 1)),
        Err(_) => Err(ParseError { at: b0, expected: Expected::Representable }),
    }
}

/// Matches a ket as an expression.
fn ket(cs: &Vec<char>, pos: usize) -> (r: Result<(Expression, usize), ParseError>)
    requires
        pos <= cs@.len(),
    ensures
        match r {
            Ok((e, p)) => expr_wf(e) && pos < p <= cs@.len() && (p_ket_raw_s(cs@, pos as int)
                matches Ok(x) && expr_v(e) == ExprS::Ket(x.0) && x.1 == p as int),
            Err(pe) => p_ket_raw_s(cs@, pos as int) == Err::<(TensorV, int), ParseError>(pe),
        },
{
    match ket_raw(cs, pos) {
        Ok((t, p)) => Ok((Expression::Ket(t), p)),
        Err(pe) => Err(pe),
    }
}

/// Matches a bra as an expression.
fn bra(cs: &Vec<char>, pos: usize) -> (r: Result<(Expression, usize), ParseError>)
    requires
        pos <= cs@.len(),
    ensures
        match r {
            Ok((e, p)) => expr_wf(e) && pos < p <= cs@.len() && (p_bra_raw_s(cs@, pos as int)
                matches Ok(x) && expr_v(e) == ExprS::Bra(x.0) && x.1 == p as int),
            Err(pe) => p_bra_raw_s(cs@, pos as int) == Err::<(TensorV, int), ParseError>(pe),
        },
{
    match bra_raw(cs, pos) {
        Ok((t, p)) => Ok((Expression::Bra(t), p)),
        Err(pe) => Err(pe),
    }
}

/// Matches an outer product `|ket><bra|`.
fn outer(cs: &Vec<char>, pos: usize) -> (r: Result<(Expression, usize), ParseError>)
    requires
        pos <= cs@.len(),
    ensures
        match r {
            Ok((e, p)) => expr_wf(e) && pos < p <= cs@.len() && p_outer_s(cs@, pos as int)
                == Ok::<(ExprS, int), ParseError>((expr_v(e), p as int)),
            Err(pe) => p_outer_s(cs@, pos as int) == Err::<(ExprS, int), ParseError>(pe),
        },
{
    match ket_raw(cs, pos) {
        Err(pe) => Err(pe),
        Ok((t1, p1)) => match bra_raw(cs, p1) {
            Err(pe) => Err(pe),
            Ok((t2, p2)) => Ok((Expression::Outer(t1, t2), p2)),
        },
    }
}

/// Matches a combined inner product `<bra|ket>`.
fn inner(cs: &Vec<char>, pos: usize) -> (r: Result<(Expression, usize), ParseError>)
    requires
        pos <= cs@.len(),
    ensures
        match r {
            Ok((e, p)) => expr_wf(e) && pos < p <= cs@.len() && p_inner_s(cs@, pos as int)
                == Ok::<(ExprS, int), ParseError>((expr_v(e), p as int)),
            Err(pe) => p_inner_s(cs@, pos as int) == Err::<(ExprS, int), ParseError>(pe),
        },
{
    if !(pos < cs.len() && cs[pos] == '<') {
        return Err(ParseError { at: pos, expected: Expected::Delim('<') });
    }
    let b0 = skip_ws(cs, pos + 1);
    let be = basis_end(cs, b0);
    if be <= b0 {
        return Err(ParseError { at: b0, expected: Expected::Basis });
    }
    let m0 = skip_ws(cs, be);
    if !(m0 < cs.len() && cs[m0] == '|') {
        return Err(ParseError { at: m0, expected: Expected::Delim('|') });
    }
    let k0 = skip_ws(cs, m0 + 1);
    let ke = basis_end(cs, k0);
    if ke <= k0 {
        return Err(ParseError { at: k0, expected: Expected::Basis });
    }
    let a0 = skip_ws(cs, ke);
    if !(a0 < cs.len() && cs[a0] == '>') {
        return Err(ParseError { at: a0, expected: Expected::Delim('>') });
    }
    proof {
        lemma_basis_end(cs@, b0 as int);
        lemma_basis_end(cs@, k0 as int);
        assert(forall|m: int|
            b0 <= m < be ==> (#[trigger] cs@[m]).decodable() == is_basis_c(cs@[m]));
        assert(forall|m: int|
            k0 <= m < ke ==> (#[trigger] cs@[m]).decodable() == is_basis_c(cs@[m]));
    }
    let t1 = match tensor_basis(cs, b0, be) {
        Ok(t1) => t1,
        Err(_) => {
            return Err(ParseError { at: b0, expected: Expected::Representable });
        },
    };
    let t2 = match tensor_basis(cs, k0, ke) {
        Ok(t2) => t2,
        Err(_) => {
            return Err(ParseError { at: k0, expected: Expected::Representable });
        },
    };
    let e = Expression::Inner(
        Box::new(Expression::Bra(t1)),
        Box::new(Expression::Ket(t2)),
    );
    proof {
        assert(expr_wf(Expression::Bra(t1)));
        assert(expr_wf(Expression::Ket(t2)));
        assert(expr_wf(e));
        assert(expr_v(Expression::Bra(t1)) == ExprS::Bra(t1@));
        assert(expr_v(Expression::Ket(t2)) == ExprS::Ket(t2@));
        assert(expr_v(e) == ExprS::Inner(
            Box::new(ExprS::Bra(t1@)),
            Box::new(ExprS::Ket(t2@)),
        ));
    }
    Ok((e, a0 + 1))
}

/// Matches one atom.
fn atom(cs: &Vec<char>, pos: usize) -> (r: Result<(Expression, usize), ParseError>)
    requires
        pos <= cs@.len(),
    ensures
        match r {
            Ok((e, p)) => expr_wf(e) && pos < p <= cs@.len() && p_atom_s(cs@, pos as int)
                == Ok::<(ExprS, int), ParseError>((expr_v(e), p as int)),
            Err(pe) => p_atom_s(cs@, pos as int) == Err::<(ExprS, int), ParseError>(pe),
        },
    decreases cs@.len() - pos, 2int,
{
    let p0 = skip_ws(cs, pos);
    let ne = num_end(cs, p0);
    if ne > p0 {
        return match number(cs, p0) {
            Ok((e, p1)) => Ok((e, skip_ws(cs, p1))),
            Err(pe) => Err(pe),
        };
    }
    match outer(cs, p0) {
        Ok((e, p1)) => {
            return Ok((e, skip_ws(cs, p1)));
        },
        Err(oe) => {
            match oe.expected {
                Expected::Representable => {
                    return Err(oe);
                },
                _ => {},
            }
        },
    }
    match inner(cs, p0) {
        Ok((e, p1)) => {
            return Ok((e, skip_ws(cs, p1)));
        },
        Err(ie) => {
            match ie.expected {
                Expected::Representable => {
                    return Err(ie);
                },
                _ => {},
            }
        },
    }
    match bra_raw(cs, p0) {
        Ok((t, p1)) => {
            return Ok((Expression::Bra(t), skip_ws(cs, p1)));
        },
        Err(bre) => {
            match bre.expected {
                Expected::Representable => {
                    return Err(bre);
                },
                _ => {},
            }
        },
    }
    match ket_raw(cs, p0) {
        Ok((t, p1)) => {
            return Ok((Expression::Ket(t), skip_ws(cs, p1)));
        },
        Err(kee) => {
            match kee.expected {
                Expected::Representable => {
                    return Err(kee);
                },
                _ => {},
            }
        },
    }
    if p0 < cs.len() && cs[p0] == '(' {
        match additive(cs, p0 + 1) {
            Err(e2) => Err(e2),
            Ok((e, p1)) => {
                if p1 < cs.len() && cs[p1] == ')' {
                    let out = Expression::Parenthised(Box::new(e));
                    proof {
                        assert(expr_wf(out));
                        assert(expr_v(out) == ExprS::Parenthised(Box::new(expr_v(e))));
                    }
                    Ok((out, skip_ws(cs, p1 + 1)))
                } else {
                    Err(ParseError { at: p1, expected: Expected::Delim(')') })
                }
            },
        }
    } else if p0 < cs.len() && cs[p0] == '|' {
        match additive(cs, p0 + 1) {
            Err(e2) => Err(e2),
            Ok((e, p1)) => {
                if p1 < cs.len() && cs[p1] == '|' {
                    let out = Expression::Norm(Box::new(e));
                    proof {
                        assert(expr_wf(out));
                        assert(expr_v(out) == ExprS::Norm(Box::new(expr_v(e))));
                    }
                    Ok((out, skip_ws(cs, p1 + 1)))
                } else {
                    Err(ParseError { at: p1, expected: Expected::Delim('|') })
                }
            },
        }
    } else {
        Err(ParseError { at: p0, expected: Expected::Atom })
    }
}

/// Matches an atom with an optional trailing dagger.
fn dag(cs: &Vec<char>, pos: usize) -> (r: Result<(Expression, usize), ParseError>)
    requires
        pos <= cs@.len(),
    ensures
        match r {
            Ok((e, p)) => expr_wf(e) && pos < p <= cs@.len() && p_dag_s(cs@, pos as int)
                == Ok::<(ExprS, int), ParseError>((expr_v(e), p as int)),
            Err(pe) => p_dag_s(cs@, pos as int) == Err::<(ExprS, int), ParseError>(pe),
        },
    decreases cs@.len() - pos, 3int,
{
    match atom(cs, pos) {
        Err(e) => Err(e),
        Ok((e, p1)) => {
            if p1 < cs.len() && cs[p1] == '\'' {
                let out = Expression::Dagger(Box::new(e));
                proof {
                    assert(expr_wf(out));
                    assert(expr_v(out) == ExprS::Dagger(Box::new(expr_v(e))));
                }
                Ok((out, p1 + 1))
            } else {
                Ok((e, p1))
            }
        },
    }
}

/// Matches an optional additive inverse.
fn inverse(cs: &Vec<char>, pos: usize) -> (r: Result<(Expression, usize), ParseError>)
    requires
        pos <= cs@.len(),
    ensures
        match r {
            Ok((e, p)) => expr_wf(e) && pos < p <= cs@.len() && p_inverse_s(cs@, pos as int)
                == Ok::<(ExprS, int), ParseError>((expr_v(e), p as int)),
            Err(pe) => p_inverse_s(cs@, pos as int) == Err::<(ExprS, int), ParseError>(pe),
        },
    decreases cs@.len() - pos, 4int,
{
    if pos < cs.len() && cs[pos] == '-' {
        match dag(cs, pos + 1) {
            Err(e) => Err(e),
            Ok((e, p2)) => {
                let out = Expression::AdditiveInverse(Box::new(e));
                proof {
                    assert(expr_wf(out));
                    assert(expr_v(out) == ExprS::AdditiveInverse(Box::new(expr_v(e))));
                }
                Ok((out, skip_ws(cs, p2)))
            },
        }
    } else {
        match dag(cs, pos) {
            Err(e) => Err(e),
            Ok((e, p2)) => Ok((e, skip_ws(cs, p2))),
        }
    }
}

/// Folds the multiplicative tail onto an accumulated left operand.
fn mul_rest(cs: &Vec<char>, pos: usize, acc: Expression) -> (r: (Expression, usize))
    requires
        pos <= cs@.len(),
        expr_wf(acc),
    ensures
        expr_wf(r.0),
        pos <= r.1 <= cs@.len(),
        p_mul_rest_s(cs@, pos as int, expr_v(acc)) == (expr_v(r.0), r.1 as int),
    decreases cs@.len() - pos, 5int,
{
    if pos >= cs.len() {
        return (acc, pos);
    }
    let c = cs[pos];
    if c == '*' || c == '/' || c == 'x' || c == '.' {
        match inverse(cs, pos + 1) {
            Ok((e, p2)) => {
                let acc2 = if c == '*' {
                    Expression::Mul(Box::new(acc), Box::new(e))
                } else if c == '/' {
                    Expression::Div(Box::new(acc), Box::new(e))
                } else if c == 'x' {
                    Expression::Kronecker(Box::new(acc), Box::new(e))
                } else {
                    Expression::Inner(Box::new(acc), Box::new(e))
                };
                proof {
                    assert(expr_wf(acc2));
                }
                mul_rest(cs, p2, acc2)
            },
            Err(_) => {
                match dag(cs, pos) {
                    Ok((e, p2)) => {
                        let p3 = skip_ws(cs, p2);
                        let acc2 = Expression::Mul(Box::new(acc), Box::new(e));
                        proof {
                            assert(expr_wf(acc2));
                        }
                        mul_rest(cs, p3, acc2)
                    },
                    Err(_) => (acc, pos),
                }
            },
        }
    } else {
        match dag(cs, pos) {
            Ok((e, p2)) => {
                let p3 = skip_ws(cs, p2);
                let acc2 = Expression::Mul(Box::new(acc), Box::new(e));
                proof {
                    assert(expr_wf(acc2));
                }
                mul_rest(cs, p3, acc2)
            },
            Err(_) => (acc, pos),
        }
    }
}

/// Matches one multiplicative level.
fn multiplicative(cs: &Vec<char>, pos: usize) -> (r: Result<(Expression, usize), ParseError>)
    requires
        pos <= cs@.len(),
    ensures
        match r {
            Ok((e, p)) => expr_wf(e) && pos < p <= cs@.len() && p_multiplicative_s(cs@, pos as int)
                == Ok::<(ExprS, int), ParseError>((expr_v(e), p as int)),
            Err(pe) => p_multiplicative_s(cs@, pos as int) == Err::<(ExprS, int), ParseError>(pe),
        },
    decreases cs@.len() - pos, 6int,
{
    match inverse(cs, pos) {
        Err(e) => Err(e),
        Ok((first, p1)) => Ok(mul_rest(cs, p1, first)),
    }
}

/// Folds the additive tail onto an accumulated left operand.
fn add_rest(cs: &Vec<char>, pos: usize, acc: Expression) -> (r: (Expression, usize))
    requires
        pos <= cs@.len(),
        expr_wf(acc),
    ensures
        expr_wf(r.0),
        pos <= r.1 <= cs@.len(),
        p_add_rest_s(cs@, pos as int, expr_v(acc)) == (expr_v(r.0), r.1 as int),
    decreases cs@.len() - pos, 7int,
{
    if pos >= cs.len() {
        return (acc, pos);
    }
    let c = cs[pos];
    if c == '+' || c == '-' {
        match multiplicative(cs, pos + 1) {
            Ok((e, p2)) => {
                let acc2 = if c == '+' {
                    Expression::Add(Box::new(acc), Box::new(e))
                } else {
                    Expression::Sub(Box::new(acc), Box::new(e))
                };
                proof {
                    assert(expr_wf(acc2));
                }
                add_rest(cs, p2, acc2)
            },
            Err(_) => (acc, pos),
        }
    } else {
        (acc, pos)
    }
}

/// Matches the additive level: a whole expression.
fn additive(cs: &Vec<char>, pos: usize) -> (r: Result<(Expression, usize), ParseError>)
    requires
        pos <= cs@.len(),
    ensures
        match r {
            Ok((e, p)) => expr_wf(e) && pos < p <= cs@.len() && p_additive_s(cs@, pos as int)
                == Ok::<(ExprS, int), ParseError>((expr_v(e), p as int)),
            Err(pe) => p_additive_s(cs@, pos as int) == Err::<(ExprS, int), ParseError>(pe),
        },
    decreases cs@.len() - pos, 8int,
{
    match multiplicative(cs, pos) {
        Err(e) => Err(e),
        Ok((first, p1)) => Ok(add_rest(cs, p1, first)),
    }
}

/// Parses a whole notation string into an expression tree, requiring that
/// all input is consumed. On success the tree's value is exactly what the
/// grammar [`p_dirac_s`] assigns to the character sequence, so parsing the
/// same characters always yields the same expression value; on failure the
/// error carries the position of the unconsumed remainder and what was
/// expected there.
pub fn dirac(input: &str) -> (r: Result<Expression, ParseError>)
    ensures
        match r {
            Ok(e) => expr_wf(e) && p_dirac_s(input@) == Ok::<ExprS, ParseError>(expr_v(e)),
            Err(pe) => p_dirac_s(input@) == Err::<ExprS, ParseError>(pe),
        },
{
    let n = input.unicode_len();
    let mut cs: Vec<char> = Vec::new();
    let mut k: usize = 0;
    while k < n
        invariant
            k <= n,
            n == input@.len(),
            cs@.len() == k,
            forall|m: int| 0 <= m < k ==> #[trigger] cs@[m] == input@[m],
        decreases n - k,
    {
        cs.push(input.get_char(k));
        k += 1;
    }
    proof {
        assert(cs@ =~= input@);
    }
    match additive(&cs, 0) {
        Err(pe) => Err(pe),
        Ok((e, p)) => {
            if p == cs.len() {
                Ok(e)
            } else {
                Err(ParseError { at: p, expected: Expected::End })
            }
        },
    }
}

/// Parsing is a function of the character sequence and evaluation is a
/// function of the parsed value: whenever two parses of equal input succeed,
/// computing either tree gives the same exact result. Re-parsing equal input
/// therefore yields an equal computed tensor.
pub proof fn lemma_reparse_equal(s1: Seq<char>, s2: Seq<char>, e1: Expression, e2: Expression)
    requires
        s1 == s2,
        p_dirac_s(s1) == Ok::<ExprS, ParseError>(expr_v(e1)),
        p_dirac_s(s2) == Ok::<ExprS, ParseError>(expr_v(e2)),
    ensures
        crate::expression::eval_s(e1) == crate::expression::eval_s(e2),
{
}

} // verus!
