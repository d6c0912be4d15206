//! Serialization of a final tensor into Rust source text: the shape pair and
//! the row-major entries as constant expressions, each amplitude rendered as
//! an exact rational combination of 1 and sqrt(2).

use crate::rational::RatV;
use crate::scalar::{cx_ok, cx_wf_v, Cx, CxV, Q2, Q2V};
use crate::tensor::{tensor_wf_v, Tensor, TensorV};
use vstd::prelude::*;
use vstd::string::StringExecFns;

verus! {

/// The decimal digit character for d in 0..10.
pub open spec fn digit_char(d: int) -> char {
    ((48 + d) as u8) as char
}

/// The decimal digit sequence of a nonnegative integer, most significant
/// first.
pub open spec fn dec_digits(n: int) -> Seq<char>
    decreases n,
{
    if n < 10 {
        seq![digit_char(n)]
    } else {
        dec_digits(n / 10).push(digit_char(n % 10))
    }
}

/// The decimal rendering of an integer, with a leading minus sign when
/// negative.
pub open spec fn dec_str_of(n: int) -> Seq<char> {
    if n < 0 {
        seq!['-'] + dec_digits(-n)
    } else {
        dec_digits(n)
    }
}

/// Relies on String::push: it appends exactly the one character.
#[verifier::external_body]
fn push_char(s: &mut String, c: char)
    ensures
        final (s)@ == old(s)@.push(c),
{
    s.push(c)
}

/// Appends the decimal digits of m.
fn push_u64_decimal(out: &mut String, m: u64)
    ensures
        final (out)@ == old(out)@ + dec_digits(m as int),
    decreases m,
{
    if m < 10 {
        let c = (48 + (m as u8)) as char;
        push_char(out, c);
        proof {
            assert(final (out)@ =~= old(out)@ + dec_digits(m as int));
        }
    } else {
        push_u64_decimal(out, m / 10);
        let c = (48 + ((m % 10) as u8)) as char;
        push_char(out, c);
        proof {
            assert(final (out)@ =~= old(out)@ + dec_digits(m as int));
        }
    }
}

/// Appends the decimal rendering of n.
fn push_i64_decimal(out: &mut String, n: i64)
    ensures
        final (out)@ == old(out)@ + dec_str_of(n as int),
{
    if n < 0 {
        push_char(out, '-');
        let m = (-(n as i128)) as u64;
        push_u64_decimal(out, m);
        proof {
            assert(m as int == -(n as int));
            assert(final (out)@ =~= old(out)@ + dec_str_of(n as int));
        }
    } else {
        push_u64_decimal(out, n as u64);
    }
}

/// An exact rational as an f64 expression: n f64 / d f64.
pub open spec fn rat_rust_s(r: RatV) -> Seq<char> {
    dec_str_of(r.n) + "f64/"@ + dec_str_of(r.d) + "f64"@
}

/// A real in Q(sqrt 2) as an f64 expression.
pub open spec fn q2_rust_s(q: Q2V) -> Seq<char> {
    "("@ + rat_rust_s(q.a) + " + ("@ + rat_rust_s(q.b) + ")*std::f64::consts::SQRT_2)"@
}

/// A complex amplitude as an (re, im) pair of f64 expressions.
pub open spec fn cx_rust_s(c: CxV) -> Seq<char> {
    "("@ + q2_rust_s(c.re) + ", "@ + q2_rust_s(c.im) + ")"@
}

/// The first k amplitudes, comma separated.
pub open spec fn cx_list_s(data: Seq<CxV>, k: int) -> Seq<char>
    decreases k,
{
    if k <= 0 {
        Seq::empty()
    } else if k == 1 {
        cx_rust_s(data[0])
    } else {
        cx_list_s(data, k - 1) + ", "@ + cx_rust_s(data[k - 1])
    }
}

/// The whole tensor: shape pair, then the flattened row-major amplitudes.
pub open spec fn tensor_rust_s(t: TensorV) -> Seq<char> {
    "(("@ + dec_str_of(t.rows as int) + "usize, "@ + dec_str_of(t.cols as int) + "usize), "@
        + "&["@ + cx_list_s(t.data, t.data.len() as int) + "][..]"@ + ")"@
}

/// Emits a value as Rust source text, with a caller-chosen suffix appended.
pub trait ToRust {
    /// The values the emitter accepts.
    spec fn to_rust_wf(&self) -> bool;

    /// The exact text emitted, before the suffix.
    spec fn to_rust_s(&self) -> Seq<char>;

    fn to_rust(&self, suffix: &str) -> (r: String)
        requires
            self.to_rust_wf(),
        ensures
            r@ == self.to_rust_s() + suffix@,
    ;
}

fn push_rat(out: &mut String, r: &crate::rational::Rat)
    ensures
        final (out)@ == old(out)@ + rat_rust_s(r@),
{
    push_i64_decimal(out, r.n);
    out.append("f64/");
    push_i64_decimal(out, r.d);
    out.append("f64");
    proof {
        assert(final (out)@ =~= old(out)@ + rat_rust_s(r@));
    }
}

fn push_q2(out: &mut String, q: &Q2)
    ensures
        final (out)@ == old(out)@ + q2_rust_s(q@),
{
    out.append("(");
    push_rat(out, &q.a);
    out.append(" + (");
    push_rat(out, &q.b);
    out.append(")*std::f64::consts::SQRT_2)");
    proof {
        assert(final (out)@ =~= old(out)@ + q2_rust_s(q@));
    }
}

impl ToRust for Cx {
    open spec fn to_rust_wf(&self) -> bool {
        cx_ok(*self)
    }

    open spec fn to_rust_s(&self) -> Seq<char> {
        cx_rust_s(self@)
    }

    fn to_rust(&self, suffix: &str) -> (r: String)
    {
        let mut out = String::new();
        out.append("(");
        push_q2(&mut out, &self.re);
        out.append(", ");
        push_q2(&mut out, &self.im);
        out.append(")");
        out.append(suffix);
        proof {
            assert(out@ =~= cx_rust_s(self@) + suffix@);
        }
        out
    }
}

impl ToRust for Vec<Cx> {
    open spec fn to_rust_wf(&self) -> bool {
        forall|k: int| 0 <= k < self@.len() ==> cx_ok(#[trigger] self@[k])
    }

    /// The amplitude slice: the entries comma separated inside `&[..][..]`.
    open spec fn to_rust_s(&self) -> Seq<char> {
        "&["@ + cx_list_s(self@.map_values(|c: Cx| c@), self@.len() as int) + "][..]"@
    }

    fn to_rust(&self, suffix: &str) -> (r: String)
    {
        let mut out = String::new();
        out.append("&[");
        let ghost data = self@.map_values(|c: Cx| c@);
        proof {
            assert(out@ =~= "&["@ + cx_list_s(data, 0));
        }
        let mut k: usize = 0;
        while k < self.len()
            invariant
                k <= self@.len(),
                data == self@.map_values(|c: Cx| c@),
                forall|m: int| 0 <= m < self@.len() ==> cx_ok(#[trigger] self@[m]),
                out@ == "&["@ + cx_list_s(data, k as int),
            decreases self@.len() - k,
        {
            if k > 0 {
                out.append(", ");
            }
            let piece = self[k].to_rust("");
            out.append(piece.as_str());
            proof {
                reveal_strlit("");
                assert(piece@ =~= cx_rust_s(data[k as int]));
                assert(out@ =~= "&["@ + cx_list_s(data, k as int + 1));
            }
            k += 1;
        }
        out.append("][..]");
        out.append(suffix);
        proof {
            assert(out@ =~= self.to_rust_s() + suffix@);
        }
        out
    }
}

impl ToRust for (usize, usize) {
    open spec fn to_rust_wf(&self) -> bool {
        true
    }

    /// The shape pair with usize-typed components.
    open spec fn to_rust_s(&self) -> Seq<char> {
        "("@ + dec_str_of(self.0 as int) + "usize, "@ + dec_str_of(self.1 as int) + "usize)"@
    }

    fn to_rust(&self, suffix: &str) -> (r: String)
    {
        let mut out = String::new();
        out.append("(");
        push_u64_decimal(&mut out, self.0 as u64);
        out.append("usize, ");
        push_u64_decimal(&mut out, self.1 as u64);
        out.append("usize)");
        out.append(suffix);
        proof {
            assert(out@ =~= self.to_rust_s() + suffix@);
        }
        out
    }
}

impl ToRust for Tensor {
    open spec fn to_rust_wf(&self) -> bool {
        tensor_wf_v(self@)
    }

    open spec fn to_rust_s(&self) -> Seq<char> {
        tensor_rust_s(self@)
    }

    fn to_rust(&self, suffix: &str) -> (r: String)
    {
        let mut out = String::new();
        out.append("((");
        push_u64_decimal(&mut out, self.rows as u64);
        out.append("usize, ");
        push_u64_decimal(&mut out, self.cols as u64);
        out.append("usize), ");
        proof {
            assert forall|m: int| 0 <= m < self.data@.len() implies cx_ok(
                #[trigger] self.data@[m],
            ) by {
                assert(self@.data[m] == self.data@[m]@);
                assert(cx_wf_v(self@.data[m]));
            }
        }
        let body = self.data.to_rust("");
        out.append(body.as_str());
        out.append(")");
        out.append(suffix);
        proof {
            reveal_strlit("");
            assert(self@.data =~= self.data@.map_values(|c: Cx| c@));
            assert(out@ =~= tensor_rust_s(self@) + suffix@);
        }
        out
    }
}

} // verus!
