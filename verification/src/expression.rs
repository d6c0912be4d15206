//! The expression tree and its evaluator.
//!
//! An [`Expression`] is the abstract tree the parser produces; `compute`
//! reduces it post-order to one tensor. The specification [`eval_s`] is the
//! denotation: a function from the tree to the exact resulting tensor value
//! or the first evaluation error, and `compute` is proved to return exactly
//! that.

use crate::errors::EvalError;
use crate::rational::RatV;
use crate::scalar::{cx_ok, q2_zero_v, Cx, CxV, Q2V};
use crate::tensor::{
    tensor_dag_s, tensor_div_s, tensor_dot_s, tensor_kron_s, tensor_mul_s, tensor_norm_s,
    tensor_scale_s, tensor_sub_s, tensor_add_s, tensor_wf_v, Tensor, TensorV,
};
use vstd::prelude::*;

verus! {

/// The scalar -1, by which an additive inverse scales its operand.
pub open spec fn neg_one_v() -> CxV {
    CxV { re: Q2V { a: RatV { n: -1, d: 1 }, b: RatV { n: 0, d: 1 } }, im: q2_zero_v() }
}

/// A notation expression: scalars, bras and kets over decoded basis tensors,
/// and the algebraic operators over subexpressions.
#[derive(Debug)]
pub enum Expression {
    Scalar(Cx),
    Bra(Tensor),
    Ket(Tensor),
    AdditiveInverse(Box<Expression>),
    Dagger(Box<Expression>),
    Mul(Box<Expression>, Box<Expression>),
    Div(Box<Expression>, Box<Expression>),
    Add(Box<Expression>, Box<Expression>),
    Sub(Box<Expression>, Box<Expression>),
    Kronecker(Box<Expression>, Box<Expression>),
    Inner(Box<Expression>, Box<Expression>),
    Outer(Tensor, Tensor),
    Parenthised(Box<Expression>),
    Norm(Box<Expression>),
}

/// The mathematical value of an expression tree: the same shape with every
/// embedded tensor and scalar replaced by its value.
pub enum ExprS {
    Scalar(CxV),
    Bra(TensorV),
    Ket(TensorV),
    AdditiveInverse(Box<ExprS>),
    Dagger(Box<ExprS>),
    Mul(Box<ExprS>, Box<ExprS>),
    Div(Box<ExprS>, Box<ExprS>),
    Add(Box<ExprS>, Box<ExprS>),
    Sub(Box<ExprS>, Box<ExprS>),
    Kronecker(Box<ExprS>, Box<ExprS>),
    Inner(Box<ExprS>, Box<ExprS>),
    Outer(TensorV, TensorV),
    Parenthised(Box<ExprS>),
    Norm(Box<ExprS>),
}

/// The value of an expression tree.
pub open spec fn expr_v(e: Expression) -> ExprS
    decreases e,
{
    match e {
        Expression::Scalar(c) => ExprS::Scalar(c@),
        Expression::Bra(t) => ExprS::Bra(t@),
        Expression::Ket(t) => ExprS::Ket(t@),
        Expression::AdditiveInverse(b) => ExprS::AdditiveInverse(Box::new(expr_v(*b))),
        Expression::Dagger(b) => ExprS::Dagger(Box::new(expr_v(*b))),
        Expression::Mul(a, b) => ExprS::Mul(Box::new(expr_v(*a)), Box::new(expr_v(*b))),
        Expression::Div(a, b) => ExprS::Div(Box::new(expr_v(*a)), Box::new(expr_v(*b))),
        Expression::Add(a, b) => ExprS::Add(Box::new(expr_v(*a)), Box::new(expr_v(*b))),
        Expression::Sub(a, b) => ExprS::Sub(Box::new(expr_v(*a)), Box::new(expr_v(*b))),
        Expression::Kronecker(a, b) => ExprS::Kronecker(Box::new(expr_v(*a)), Box::new(expr_v(*b))),
        Expression::Inner(a, b) => ExprS::Inner(Box::new(expr_v(*a)), Box::new(expr_v(*b))),
        Expression::Outer(a, b) => ExprS::Outer(a@, b@),
        Expression::Parenthised(b) => ExprS::Parenthised(Box::new(expr_v(*b))),
        Expression::Norm(b) => ExprS::Norm(Box::new(expr_v(*b))),
    }
}

/// Every tensor and scalar embedded in the tree is well-formed.
pub open spec fn expr_wf(e: Expression) -> bool
    decreases e,
{
    match e {
        Expression::Scalar(c) => cx_ok(c),
        Expression::Bra(t) => tensor_wf_v(t@),
        Expression::Ket(t) => tensor_wf_v(t@),
        Expression::AdditiveInverse(b) => expr_wf(*b),
        Expression::Dagger(b) => expr_wf(*b),
        Expression::Mul(a, b) => expr_wf(*a) && expr_wf(*b),
        Expression::Div(a, b) => expr_wf(*a) && expr_wf(*b),
        Expression::Add(a, b) => expr_wf(*a) && expr_wf(*b),
        Expression::Sub(a, b) => expr_wf(*a) && expr_wf(*b),
        Expression::Kronecker(a, b) => expr_wf(*a) && expr_wf(*b),
        Expression::Inner(a, b) => expr_wf(*a) && expr_wf(*b),
        Expression::Outer(a, b) => tensor_wf_v(a@) && tensor_wf_v(b@),
        Expression::Parenthised(b) => expr_wf(*b),
        Expression::Norm(b) => expr_wf(*b),
    }
}

/// A 1-by-1 tensor holding one scalar.
pub open spec fn scalar_tensor_v(c: CxV) -> TensorV {
    TensorV { rows: 1, cols: 1, data: seq![c] }
}

/// The denotation of an expression value: strictly post-order reduction,
/// left subtree before right, each node by the engine operation it encodes.
pub open spec fn eval_sv(e: ExprS) -> Result<TensorV, EvalError>
    decreases e,
{
    match e {
        ExprS::Scalar(c) => Ok(scalar_tensor_v(c)),
        ExprS::Bra(t) => tensor_dag_s(t),
        ExprS::Ket(t) => Ok(t),
        ExprS::AdditiveInverse(b) => match eval_sv(*b) {
            Err(e2) => Err(e2),
            Ok(t) => tensor_scale_s(t, neg_one_v()),
        },
        ExprS::Dagger(b) => match eval_sv(*b) {
            Err(e2) => Err(e2),
            Ok(t) => tensor_dag_s(t),
        },
        ExprS::Mul(a, b) => match eval_sv(*a) {
            Err(e2) => Err(e2),
            Ok(ta) => match eval_sv(*b) {
                Err(e2) => Err(e2),
                Ok(tb) => tensor_mul_s(ta, tb),
            },
        },
        ExprS::Div(a, b) => match eval_sv(*a) {
            Err(e2) => Err(e2),
            Ok(ta) => match eval_sv(*b) {
                Err(e2) => Err(e2),
                Ok(tb) => tensor_div_s(ta, tb),
            },
        },
        ExprS::Add(a, b) => match eval_sv(*a) {
            Err(e2) => Err(e2),
            Ok(ta) => match eval_sv(*b) {
                Err(e2) => Err(e2),
                Ok(tb) => tensor_add_s(ta, tb),
            },
        },
        ExprS::Sub(a, b) => match eval_sv(*a) {
            Err(e2) => Err(e2),
            Ok(ta) => match eval_sv(*b) {
                Err(e2) => Err(e2),
                Ok(tb) => tensor_sub_s(ta, tb),
            },
        },
        ExprS::Kronecker(a, b) => match eval_sv(*a) {
            Err(e2) => Err(e2),
            Ok(ta) => match eval_sv(*b) {
                Err(e2) => Err(e2),
                Ok(tb) => tensor_kron_s(ta, tb),
            },
        },
        ExprS::Inner(a, b) => match eval_sv(*a) {
            Err(e2) => Err(e2),
            Ok(ta) => match eval_sv(*b) {
                Err(e2) => Err(e2),
                Ok(tb) => match tensor_dot_s(ta, tb) {
                    None => Err(EvalError::Overflow),
                    Some(c) => Ok(scalar_tensor_v(c)),
                },
            },
        },
        ExprS::Outer(a, b) => match tensor_dag_s(b) {
            Err(e2) => Err(e2),
            Ok(bd) => tensor_mul_s(a, bd),
        },
        ExprS::Parenthised(b) => eval_sv(*b),
        ExprS::Norm(b) => match eval_sv(*b) {
            Err(e2) => Err(e2),
            Ok(t) => match tensor_norm_s(t) {
                Err(e2) => Err(e2),
                Ok(q) => Ok(scalar_tensor_v(CxV { re: q, im: q2_zero_v() })),
            },
        },
    }
}

/// A bra evaluates to exactly what a dagger applied to the matching ket
/// evaluates to, so a daggered ket minus the matching bra subtracts a tensor
/// from itself and the difference is the zero tensor.
pub proof fn lemma_bra_is_daggered_ket(t: TensorV)
    ensures
        eval_sv(ExprS::Bra(t)) == eval_sv(ExprS::Dagger(Box::new(ExprS::Ket(t)))),
{
    assert(eval_sv(ExprS::Ket(t)) == Ok::<TensorV, EvalError>(t));
    assert(eval_sv(ExprS::Dagger(Box::new(ExprS::Ket(t)))) == tensor_dag_s(t));
}

/// The denotation of an expression tree: a function of its value alone.
pub open spec fn eval_s(e: Expression) -> Result<TensorV, EvalError> {
    eval_sv(expr_v(e))
}

impl Expression {
    /// Reduces the expression to one tensor: exactly the value of
    /// [`eval_s`], or its first error.
    pub fn compute(&self) -> (r: Result<Tensor, EvalError>)
        requires
            expr_wf(*self),
        ensures
            match r {
                Ok(t) => tensor_wf_v(t@) && eval_s(*self) == Ok::<TensorV, EvalError>(t@),
                Err(e) => eval_s(*self) == Err::<TensorV, EvalError>(e),
            },
        decreases *self,
    {
        match self {
            Expression::Scalar(c) => {
                let mut data: Vec<Cx> = Vec::new();
                data.push(*c);
                let t = Tensor::new(data, (1, 1));
                proof {
                    assert(t@.data =~= scalar_tensor_v(c@).data);
                    assert(t@ =~= scalar_tensor_v(c@));
                }
                Ok(t)
            },
            Expression::Bra(t) => t.dag(),
            Expression::Ket(t) => Ok(t.duplicate()),
            Expression::AdditiveInverse(b) => {
                let t = b.compute()?;
                t.scale(&Cx::neg_one())
            },
            Expression::Dagger(b) => {
                let t = b.compute()?;
                t.dag()
            },
            Expression::Mul(a, b) => {
                let ta = a.compute()?;
                let tb = b.compute()?;
                ta.mul(&tb)
            },
            Expression::Div(a, b) => {
                let ta = a.compute()?;
                let tb = b.compute()?;
                ta.div(&tb)
            },
            Expression::Add(a, b) => {
                let ta = a.compute()?;
                let tb = b.compute()?;
                ta.add(&tb)
            },
            Expression::Sub(a, b) => {
                let ta = a.compute()?;
                let tb = b.compute()?;
                ta.sub(&tb)
            },
            Expression::Kronecker(a, b) => {
                let ta = a.compute()?;
                let tb = b.compute()?;
                ta.prod(&tb)
            },
            Expression::Inner(a, b) => {
                let ta = a.compute()?;
                let tb = b.compute()?;
                let c = ta.dot(&tb)?;
                let mut data: Vec<Cx> = Vec::new();
                data.push(c);
                let t = Tensor::new(data, (1, 1));
                proof {
                    assert(t@.data =~= scalar_tensor_v(c@).data);
                    assert(t@ =~= scalar_tensor_v(c@));
                }
                Ok(t)
            },
            Expression::Outer(a, b) => {
                let bd = b.dag()?;
                a.mul(&bd)
            },
            Expression::Parenthised(b) => b.compute(),
            Expression::Norm(b) => {
                let t = b.compute()?;
                let q = t.norm()?;
                let c = Cx::from_q2(q);
                let mut data: Vec<Cx> = Vec::new();
                data.push(c);
                let out = Tensor::new(data, (1, 1));
                proof {
                    assert(out@.data =~= scalar_tensor_v(c@).data);
                    assert(out@ =~= scalar_tensor_v(c@));
                }
                Ok(out)
            },
        }
    }
}

} // verus!
