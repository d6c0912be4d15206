//! A Dirac bra-ket notation calculator: a precedence-climbing parser for
//! notation strings and an exact dense tensor-algebra engine (Kronecker
//! product, matrix product, conjugate transpose, addition, scalar algebra,
//! inner/outer product, norm) that reduces a parsed expression to one tensor.
//!
//! Scalars are elements of the field Q(i, sqrt 2): each component is an exact
//! rational, so every algebraic identity the engine promises holds exactly,
//! with arithmetic overflow and inexpressible square roots surfaced as
//! explicit evaluation errors.

pub mod basis;
pub mod codegen;
pub mod errors;
pub mod expression;
pub mod parser;
pub mod rational;
pub mod scalar;
pub mod tensor;
