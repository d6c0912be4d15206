use dirac::codegen::ToRust;
use dirac::parser;

#[test]
fn scalar_tensor_text() {
    let t = parser::dirac("3").unwrap().compute().unwrap();
    let text = t.to_rust("");
    assert_eq!(
        text,
        "((1usize, 1usize), &[((3f64/1f64 + (0f64/1f64)*std::f64::consts::SQRT_2), \
         (0f64/1f64 + (0f64/1f64)*std::f64::consts::SQRT_2))][..])"
    );
}

#[test]
fn ket_tensor_text_with_suffix() {
    let t = parser::dirac("|1>").unwrap().compute().unwrap();
    let text = t.to_rust(".to_tensor()");
    assert_eq!(
        text,
        "((2usize, 1usize), &[((0f64/1f64 + (0f64/1f64)*std::f64::consts::SQRT_2), \
         (0f64/1f64 + (0f64/1f64)*std::f64::consts::SQRT_2)), \
         ((1f64/1f64 + (0f64/1f64)*std::f64::consts::SQRT_2), \
         (0f64/1f64 + (0f64/1f64)*std::f64::consts::SQRT_2))][..]).to_tensor()"
    );
}

#[test]
fn negative_and_sqrt2_amplitudes() {
    // The second amplitude of |-> is -i/sqrt(2): an exact -1/2 coordinate on
    // sqrt(2) in the imaginary part.
    let t = parser::dirac("|->").unwrap().compute().unwrap();
    let text = t.to_rust("");
    assert!(text.contains("(0f64/1f64 + (-1f64/2f64)*std::f64::consts::SQRT_2)"));
    assert!(text.contains("(0f64/1f64 + (1f64/2f64)*std::f64::consts::SQRT_2)"));
}

#[test]
fn shape_pair_text() {
    let shape: (usize, usize) = (12, 305);
    assert_eq!(shape.to_rust(""), "(12usize, 305usize)");
}
