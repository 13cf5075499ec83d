use logical::components::{Input, Logic, Operation, Wire};
use logical::signal::{Function, Signal};

use Signal::{High, Low, Undefined};

#[test]
fn wire_keeps_its_pins() {
    let wire = Wire::new(3, 7);
    assert_eq!(wire.input(), 3);
    assert_eq!(wire.output(), 7);
}

#[test]
fn input_starts_low_and_reads_back() {
    let input = Input::new();
    assert_eq!(input.get_value(), Low);
}

#[test]
fn operation_arity_mismatch_always_fails() {
    let op = Operation::And(vec![0, 1]);
    assert_eq!(op.checked_execute(vec![High]), None);
    assert_eq!(op.checked_execute(vec![High, High, High]), None);
    assert_eq!(op.checked_execute(vec![]), None);
    assert_eq!(op.checked_execute(vec![High, High]), Some(High));
    let nand = Operation::Nand(vec![0, 1, 2]);
    assert_eq!(nand.checked_execute(vec![High, High]), None);
    assert_eq!(nand.checked_execute(vec![High, High, High]), Some(Low));
}

#[test]
fn operation_execute_reduces_supplied_values() {
    let op = Operation::Or(vec![0, 1, 2]);
    assert_eq!(op.execute(vec![Low, Undefined, High]), High);
    let op = Operation::Xnor(vec![0, 1]);
    assert_eq!(op.execute(vec![High, Low]), Low);
}

#[test]
fn evaluate_outputs_reports_change_only_once() {
    let mut gate = Logic::new_and(2);
    gate.set_input(0, High);
    gate.set_input(1, High);
    let first = gate.evaluate_outputs(0);
    assert_eq!(first, vec![0]);
    assert_eq!(gate.get_output(0), High);
    let second = gate.evaluate_outputs(0);
    assert_eq!(second, Vec::<usize>::new());
    assert_eq!(gate.get_output(0), High);
}

#[test]
fn evaluate_outputs_no_change_when_result_is_stored_value() {
    let mut gate = Logic::new_and(2);
    gate.set_input(0, High);
    // AND(High, Low) is Low, the stored initial output: nothing to report.
    let events = gate.evaluate_outputs(0);
    assert_eq!(events, Vec::<usize>::new());
    assert_eq!(gate.get_output(0), Low);
}

#[test]
fn logic_new_builds_each_kind() {
    let mut nor = Logic::new(Function::NOr, 2);
    assert_eq!(nor.get_output(0), Low);
    let events = nor.evaluate_outputs(0);
    // NOR(Low, Low) is High: the output flips and pin 0 is reported.
    assert_eq!(events, vec![0]);
    assert_eq!(nor.get_output(0), High);

    let mut xor_gate = Logic::new(Function::XOr, 2);
    xor_gate.set_input(1, High);
    let events = xor_gate.evaluate_outputs(1);
    assert_eq!(events, vec![0]);
    assert_eq!(xor_gate.get_output(0), High);
}

#[test]
fn nand_gate_from_low_inputs_reads_high() {
    let mut gate = Logic::new_nand(2);
    let events = gate.evaluate_outputs(0);
    assert_eq!(events, vec![0]);
    assert_eq!(gate.get_output(0), High);
}
