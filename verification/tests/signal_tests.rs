use logical::signal::{and, or, xor, Function, Signal};

use Signal::{High, Low, Undefined};

#[test]
fn default_signal_is_undefined() {
    assert_eq!(Signal::default(), Undefined);
}

#[test]
fn not_truth_table() {
    assert_eq!(High.not(), Low);
    assert_eq!(Low.not(), High);
    assert_eq!(Undefined.not(), Undefined);
}

#[test]
fn and_truth_table() {
    assert_eq!(High.bitand(High), High);
    assert_eq!(High.bitand(Low), Low);
    assert_eq!(High.bitand(Undefined), Undefined);
    assert_eq!(Low.bitand(High), Low);
    assert_eq!(Low.bitand(Low), Low);
    assert_eq!(Low.bitand(Undefined), Low);
    assert_eq!(Undefined.bitand(High), Undefined);
    assert_eq!(Undefined.bitand(Low), Low);
    assert_eq!(Undefined.bitand(Undefined), Undefined);
}

#[test]
fn or_truth_table() {
    assert_eq!(High.bitor(High), High);
    assert_eq!(High.bitor(Low), High);
    assert_eq!(High.bitor(Undefined), High);
    assert_eq!(Low.bitor(High), High);
    assert_eq!(Low.bitor(Low), Low);
    assert_eq!(Low.bitor(Undefined), Undefined);
    assert_eq!(Undefined.bitor(High), High);
    assert_eq!(Undefined.bitor(Low), Undefined);
    assert_eq!(Undefined.bitor(Undefined), Undefined);
}

#[test]
fn xor_truth_table() {
    assert_eq!(High.bitxor(High), Low);
    assert_eq!(High.bitxor(Low), High);
    assert_eq!(High.bitxor(Undefined), Undefined);
    assert_eq!(Low.bitxor(High), High);
    assert_eq!(Low.bitxor(Low), Low);
    assert_eq!(Low.bitxor(Undefined), Undefined);
    assert_eq!(Undefined.bitxor(High), Undefined);
    assert_eq!(Undefined.bitxor(Low), Undefined);
    assert_eq!(Undefined.bitxor(Undefined), Undefined);
}

#[test]
fn complement_gates_match_base_gates_on_every_pair() {
    let values = [High, Low, Undefined];
    for &a in values.iter() {
        for &b in values.iter() {
            let base_and = Function::And.calculate(vec![a, b]);
            let base_or = Function::Or.calculate(vec![a, b]);
            let base_xor = Function::XOr.calculate(vec![a, b]);
            assert_eq!(Function::NAnd.calculate(vec![a, b]), base_and.not());
            assert_eq!(Function::NOr.calculate(vec![a, b]), base_or.not());
            assert_eq!(Function::XNOr.calculate(vec![a, b]), base_xor.not());
        }
    }
}

#[test]
fn binary_calculate_matches_truth_tables() {
    let values = [High, Low, Undefined];
    for &a in values.iter() {
        for &b in values.iter() {
            assert_eq!(Function::And.calculate(vec![a, b]), a.bitand(b));
            assert_eq!(Function::Or.calculate(vec![a, b]), a.bitor(b));
            assert_eq!(Function::XOr.calculate(vec![a, b]), a.bitxor(b));
        }
    }
}

#[test]
fn reductions_exact_values() {
    assert_eq!(and(vec![]), High);
    assert_eq!(or(vec![]), Low);
    assert_eq!(xor(vec![]), Low);
    assert_eq!(and(vec![High, High, High]), High);
    assert_eq!(and(vec![High, Undefined, Low]), Low);
    assert_eq!(and(vec![High, Undefined, High]), Undefined);
    assert_eq!(or(vec![Low, Low, Low]), Low);
    assert_eq!(or(vec![Low, Undefined, High]), High);
    assert_eq!(or(vec![Low, Undefined, Low]), Undefined);
    assert_eq!(xor(vec![High, High, High]), High);
    assert_eq!(xor(vec![High, High, Low]), Low);
    assert_eq!(xor(vec![High, Undefined, Low]), Undefined);
}

#[test]
fn reductions_are_commutative() {
    let a = vec![High, Low, Undefined, High];
    let b = vec![Undefined, High, High, Low];
    assert_eq!(and(a.clone()), and(b.clone()));
    assert_eq!(or(a.clone()), or(b.clone()));
    assert_eq!(xor(a.clone()), xor(b.clone()));
    let c = vec![High, High, Low, Low];
    let d = vec![Low, High, Low, High];
    assert_eq!(and(c.clone()), and(d.clone()));
    assert_eq!(or(c.clone()), or(d.clone()));
    assert_eq!(xor(c.clone()), xor(d.clone()));
}
