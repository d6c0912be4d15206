use dirac::parser::dirac;

#[test]
fn spaced() {
    assert!(dirac("| 0 > + | 1 >").is_ok());
}

#[test]
fn debug() {
    let expression = dirac("<1| . |0> x |1> * (8 + 3i)").unwrap();
    println!("{:?}", expression);
}

#[test]
fn nested() {
    assert!(dirac("(0+(0+3)*5+(8+8*(3+2)))").is_ok());
}

#[test]
fn numbers() {
    assert!(dirac("0*1").is_ok());
    assert!(dirac("1+1+100").is_ok());
    assert!(dirac("-12391.3").is_ok());
    assert!(dirac("1+8i").is_ok());
    assert!(dirac("-1-8i").is_ok());
}

#[test]
fn spaces() {
    assert!(dirac("|0> x |0> + 3 * 7").is_ok());
}

#[test]
fn kronecker() {
    assert!(dirac("|0>x|0>").is_ok());
}

#[test]
fn outer() {
    assert!(dirac("|0><0|").is_ok());
    assert!(dirac("3*|0><0|").is_ok());
    assert!(dirac("|0><0|*3").is_ok());
    assert!(dirac("|0><0|+2").is_ok());
    assert!(dirac("(|0><0|+2)*3").is_ok());
    assert!(dirac("3*|0><0|*2").is_ok());
}

#[test]
fn inner() {
    assert!(dirac("<0|0>").is_ok());
    assert!(dirac("3*<0|0>").is_ok());
    assert!(dirac("<0|0>/3").is_ok());
    assert!(dirac("<0|0>+|1>*<01|++>").is_ok());
    assert!(dirac("(<0|0>+<1|)*<01|++>").is_ok());
}

#[test]
fn brakets() {
    assert!(dirac("|0>").is_ok());
    assert!(dirac("<0|").is_ok());
}

#[test]
fn multiplicative() {
    assert!(dirac("|0>*|0>").is_ok());
    assert!(dirac("|0>*|0>*|0>").is_ok());
    assert!(dirac("|0>/|0>/|0>").is_ok());
    assert!(dirac("|0>/|0>*|0>").is_ok());

    assert!(dirac("|0>/|0>*").is_err());
}

#[test]
fn additive() {
    assert!(dirac("|0>+|0>").is_ok());
}

#[test]
fn parenthised() {
    assert!(dirac("(|0>)").is_ok());
    assert!(dirac("(|0>+|0>)").is_ok());
    assert!(dirac("(|0>*|0>)").is_ok());
    assert!(dirac("(|0>*|0>+|0>/|0>)").is_ok());

    assert!(dirac("(|0>*|0>)").is_ok());
    assert!(dirac("|0>*(|0>+|0>/|0>)").is_ok());

    assert!(dirac("(").is_err());
    assert!(dirac(")").is_err());
    assert!(dirac("()").is_err());
    assert!(dirac("(|0>").is_err());
    assert!(dirac("|0>)").is_err());
}

#[test]
fn inverse() {
    assert!(dirac("-|0>").is_ok());
    assert!(dirac("-<0|").is_ok());
    assert!(dirac("<0|-").is_err());
    assert!(dirac("|0>-").is_err());
}

#[test]
fn mixed() {
    assert!(dirac("|0>+|0>-|1>/|1>").is_ok());
}
