//! Failure conditions of evaluation.
//!
//! Parse failures are a separate type ([`crate::parser::ParseError`]): a
//! shape-mismatched evaluation aborts distinctly from a parse failure.

use vstd::prelude::*;

verus! {

/// Why an evaluation step could not produce a tensor.
///
/// `ShapeMismatch` reproduces the engine's fail-fast conditions: elementwise
/// size mismatch, incompatible matrix-multiply dimensions, division by a
/// non-scalar. The remaining variants surface as explicit errors what exact
/// arithmetic cannot silently absorb the way floating point does: a value
/// leaving the machine range, a division by an exact zero, and a norm whose
/// square root has no representation in the scalar field.
#[derive(Clone, Copy, Debug, PartialEq, Eq, Structural)]
pub enum EvalError {
    ShapeMismatch,
    Overflow,
    DivisionByZero,
    InexactNorm,
}

} // verus!
