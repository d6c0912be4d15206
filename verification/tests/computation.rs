use dirac::errors::EvalError;
use dirac::parser;
use dirac::scalar::Cx;
use dirac::tensor::Tensor;

const EPSILON: f64 = 0.01;

fn compute_tensor(expression: &str) -> Tensor {
    parser::dirac(expression).unwrap().compute().unwrap()
}

fn compute_complex(expression: &str) -> Cx {
    compute_tensor(expression).item().unwrap()
}

fn rat_f(n: i64, d: i64) -> f64 {
    n as f64 / d as f64
}

fn q2_f(q: dirac::scalar::Q2) -> f64 {
    rat_f(q.a.n, q.a.d) + rat_f(q.b.n, q.b.d) * 2f64.sqrt()
}

/// Distance from a complex value to the expected (re, im) pair.
fn cdist(c: Cx, re: f64, im: f64) -> f64 {
    let dr = q2_f(c.re) - re;
    let di = q2_f(c.im) - im;
    (dr * dr + di * di).sqrt()
}

/// Norm of the difference between a tensor and expected row-major (re, im)
/// entries of the given shape.
fn tdist(t: &Tensor, rows: usize, cols: usize, expected: &[(f64, f64)]) -> f64 {
    assert_eq!(t.shape(), (rows, cols));
    assert_eq!(t.data.len(), expected.len());
    let mut sum = 0f64;
    for (k, e) in expected.iter().enumerate() {
        let c = t.data[k];
        let d = cdist(c, e.0, e.1);
        sum += d * d;
    }
    sum.sqrt()
}

/// Norm of the difference of two equally shaped tensors.
fn tdiff(a: &Tensor, b: &Tensor) -> f64 {
    assert_eq!(a.shape(), b.shape());
    assert_eq!(a.data.len(), b.data.len());
    let mut sum = 0f64;
    for k in 0..a.data.len() {
        let d = cdist(a.data[k], q2_f(b.data[k].re), q2_f(b.data[k].im));
        sum += d * d;
    }
    sum.sqrt()
}

/// Norm of a tensor itself.
fn tnorm(t: &Tensor) -> f64 {
    let mut sum = 0f64;
    for k in 0..t.data.len() {
        let d = cdist(t.data[k], 0.0, 0.0);
        sum += d * d;
    }
    sum.sqrt()
}

#[test]
fn computation() {
    assert!(cdist(compute_complex("12"), 12.0, 0.0) < EPSILON);
    assert!(cdist(compute_complex("3(3)"), 9.0, 0.0) < EPSILON);
    assert!(cdist(compute_complex("2 + 2"), 4.0, 0.0) < EPSILON);
    assert!(cdist(compute_complex("2 / 2"), 1.0, 0.0) < EPSILON);
    assert!(cdist(compute_complex("(2 + 2) * 3"), 12.0, 0.0) < EPSILON);
    assert!(cdist(compute_complex("2 + 2 * 3"), 8.0, 0.0) < EPSILON);
    assert!(cdist(compute_complex("2 + 1i"), 2.0, 1.0) < EPSILON);
    assert!(cdist(compute_complex("1i + 2"), 2.0, 1.0) < EPSILON);
    assert!(cdist(compute_complex("3 * (1 + i)"), 3.0, 3.0) < EPSILON);
    assert!(cdist(compute_complex("3 * 1+i"), 3.0, 1.0) < EPSILON);

    assert!(tdist(&compute_tensor("|0>"), 2, 1, &[(1.0, 0.0), (0.0, 0.0)]) < EPSILON);
    assert!(tdist(&compute_tensor("|1>"), 2, 1, &[(0.0, 0.0), (1.0, 0.0)]) < EPSILON);

    assert!(cdist(compute_complex("<0|0>"), 1.0, 0.0) < EPSILON);
    assert!(cdist(compute_complex("<0|1>"), 0.0, 0.0) < EPSILON);

    assert!(
        tdist(
            &compute_tensor("|1><1|"),
            2,
            2,
            &[(0.0, 0.0), (0.0, 0.0), (0.0, 0.0), (1.0, 0.0)],
        ) < EPSILON
    );

    assert!(
        tdist(
            &compute_tensor("|0><0|"),
            2,
            2,
            &[(1.0, 0.0), (0.0, 0.0), (0.0, 0.0), (0.0, 0.0)],
        ) < EPSILON
    );

    assert!(tdist(&compute_tensor("|0>3"), 2, 1, &[(3.0, 0.0), (0.0, 0.0)]) < EPSILON);

    assert!(tdist(&compute_tensor("3|0>"), 2, 1, &[(3.0, 0.0), (0.0, 0.0)]) < EPSILON);

    assert!(tdiff(&compute_tensor("|1> x |0>"), &compute_tensor("|10>")) < EPSILON);

    assert!(tnorm(&compute_tensor("|0>' - <0|")) < EPSILON);
    assert!(tnorm(&compute_tensor("|0> - <0|'")) < EPSILON);
    assert!(tnorm(&compute_tensor("<0|' - |0>")) < EPSILON);
    assert!(tnorm(&compute_tensor("<0| - |0>'")) < EPSILON);

    assert!(cdist(compute_complex("||1>|"), 1.0, 0.0) < EPSILON);

    assert!(cdist(compute_complex("||1>| - |<1||"), 0.0, 0.0) < EPSILON);
}

#[test]
fn kronecker_association() {
    let plain = compute_tensor("|1>x|0>x|1>");
    let left = compute_tensor("(|1>x|0>)x|1>");
    let right = compute_tensor("|1>x(|0>x|1>)");
    assert!(tdiff(&plain, &left) < EPSILON);
    assert!(tdiff(&plain, &right) < EPSILON);
}

#[test]
fn plus_minus_basis() {
    let h = 1.0 / 2f64.sqrt();
    assert!(tdist(&compute_tensor("|+>"), 2, 1, &[(h, 0.0), (h, 0.0)]) < EPSILON);
    assert!(tdist(&compute_tensor("|->"), 2, 1, &[(h, 0.0), (0.0, -h)]) < EPSILON);
    assert!(cdist(compute_complex("<+|+>"), 1.0, 0.0) < EPSILON);
}

#[test]
fn exact_scalar_values() {
    let half = compute_complex("2/4");
    assert!(half.eq_value(&compute_complex("1/2")));
    let twelve = compute_complex("(2+2)*3");
    assert!(twelve.eq_value(&compute_complex("12")));
    assert!(!half.eq_value(&twelve));
}

#[test]
fn shape_mismatch_is_an_evaluation_error() {
    // The string parses, so the failure is distinct from a parse failure.
    let expr = parser::dirac("|0> + <0|").unwrap();
    assert_eq!(expr.compute().unwrap_err(), EvalError::ShapeMismatch);
    assert!(parser::dirac("(|0>").is_err());
}

#[test]
fn division_by_zero_is_reported() {
    let expr = parser::dirac("1/0").unwrap();
    assert_eq!(expr.compute().unwrap_err(), EvalError::DivisionByZero);
}

#[test]
fn overflow_is_reported() {
    let expr = parser::dirac("9223372036854775807 * 9223372036854775807").unwrap();
    assert_eq!(expr.compute().unwrap_err(), EvalError::Overflow);
}

#[test]
fn inexact_norm_is_reported() {
    let expr = parser::dirac("||0>+|1>+|1>|").unwrap();
    assert_eq!(expr.compute().unwrap_err(), EvalError::InexactNorm);
}

#[test]
fn norm_of_sqrt_two() {
    // |0> + |1> has norm sqrt(2), which the scalar field represents exactly.
    let t = compute_tensor("||0>+|1>|");
    let c = t.item().unwrap();
    assert!(cdist(c, 2f64.sqrt(), 0.0) < EPSILON);
    // the sqrt(2) coordinate is exactly 1, whatever its representation
    assert_eq!(c.re.b.n, c.re.b.d);
    assert!(c.re.b.n > 0);
    assert_eq!(c.re.a.n, 0);
    assert_eq!(c.im.a.n, 0);
    assert_eq!(c.im.b.n, 0);
}

#[test]
fn dagger_of_complex_conjugates() {
    // (2+1i)' has its imaginary part negated.
    let c = compute_complex("(2+1i)'");
    assert!(cdist(c, 2.0, -1.0) < EPSILON);
}

#[test]
fn precedence_binds_dagger_before_minus() {
    // -|0>' is the additive inverse of the dagger: a bra row vector.
    let t = compute_tensor("-|0>'");
    assert!(tdist(&t, 1, 2, &[(-1.0, 0.0), (0.0, 0.0)]) < EPSILON);
}

#[test]
fn juxtaposition_multiplies_anything() {
    assert!(cdist(compute_complex("<0|0> <0|0>"), 1.0, 0.0) < EPSILON);
    assert!(tdist(&compute_tensor("2 |1> 3"), 2, 1, &[(0.0, 0.0), (6.0, 0.0)]) < EPSILON);
}

#[test]
fn inner_dot_operator_matches_combined_rule() {
    let combined = compute_complex("<0|0>");
    let spelled = compute_complex("<0| . |0>");
    assert!(combined.eq_value(&spelled));
}

#[test]
fn reparse_is_deterministic() {
    let a = compute_tensor("|1>x|0>+|1>x|1>");
    let b = compute_tensor("|1>x|0>+|1>x|1>");
    assert_eq!(a.shape(), b.shape());
    for k in 0..a.data.len() {
        assert!(a.data[k].eq_value(&b.data[k]));
    }
}

#[test]
fn empty_and_malformed_inputs_fail() {
    assert!(parser::dirac("").is_err());
    assert!(parser::dirac("   ").is_err());
    assert!(parser::dirac("|>").is_err());
    assert!(parser::dirac("<|").is_err());
    assert!(parser::dirac("|2>").is_err());
    assert!(parser::dirac("1..2").is_err());
}
