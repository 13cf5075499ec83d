use logical::components::{Component, Input, Logic, Wire};
use logical::signal::Signal;
use logical::simulator::Simulator;

use Signal::{High, Low};

#[test]
fn and_gate_settles_high_then_low() {
    let mut simulator = Simulator::new();
    let in0 = simulator.add_component(Component::Input(Input::new()));
    let in1 = simulator.add_component(Component::Input(Input::new()));
    let gate = simulator.add_component(Component::Logic(Logic::new_and(2)));
    simulator.add_wire(in0, gate, Wire::new(0, 0));
    simulator.add_wire(in1, gate, Wire::new(0, 1));

    simulator.set_input(in0, High);
    simulator.set_input(in1, High);
    let result = simulator.step_until_stable(100);
    assert!(result.is_ok());
    assert_eq!(simulator.get_output(gate, 0), High);

    simulator.set_input(in1, Low);
    let result = simulator.step_until_stable(100);
    assert!(result.is_ok());
    assert_eq!(simulator.get_output(gate, 0), Low);
}

#[test]
fn nand_feedback_loop_is_unstable() {
    let mut simulator = Simulator::new();
    let input = simulator.add_component(Component::Input(Input::new()));
    let nand_gate = simulator.add_component(Component::new_nand(2));
    simulator.add_wire(input, nand_gate, Wire::new(0, 0));
    simulator.add_wire(nand_gate, nand_gate, Wire::new(0, 1));

    simulator.set_input(input, High);
    let result = simulator.step_until_stable(20);
    assert!(result.is_err());
}

#[test]
fn two_input_events_need_exactly_two_steps() {
    let mut simulator = Simulator::new();
    let in0 = simulator.add_component(Component::Input(Input::new()));
    let in1 = simulator.add_component(Component::Input(Input::new()));
    let gate = simulator.add_component(Component::Logic(Logic::new_and(2)));
    simulator.add_wire(in0, gate, Wire::new(0, 0));
    simulator.add_wire(in1, gate, Wire::new(0, 1));

    simulator.set_input(in0, High);
    simulator.set_input(in1, High);
    simulator.step();
    // after a single event, only one of the two drives has arrived
    assert_eq!(simulator.get_output(gate, 0), Low);
    simulator.step();
    assert_eq!(simulator.get_output(gate, 0), High);
}

#[test]
fn redundant_drive_enqueues_nothing() {
    let mut simulator = Simulator::new();
    let input = simulator.add_component(Component::Input(Input::new()));
    simulator.set_input(input, High);
    simulator.set_input(input, High);
    // only the first drive changed the value, so exactly one event drains
    let result = simulator.step_until_stable(10);
    assert_eq!(result.unwrap(), 1);
}

#[test]
fn step_on_empty_queue_is_a_no_op() {
    let mut simulator = Simulator::new();
    let input = simulator.add_component(Component::Input(Input::new()));
    simulator.step();
    assert_eq!(simulator.get_output(input, 0), Low);
    let result = simulator.step_until_stable(0);
    assert_eq!(result.unwrap(), 0);
}

#[test]
fn handles_stay_usable_after_many_steps() {
    let mut simulator = Simulator::new();
    let in0 = simulator.add_component(Component::Input(Input::new()));
    let gate = simulator.add_component(Component::new_and(2));
    simulator.add_wire(in0, gate, Wire::new(0, 0));

    simulator.set_input(in0, High);
    for _ in 0..50 {
        simulator.step();
    }
    // the old handles still work for wiring, driving, and reading
    let in1 = simulator.add_component(Component::Input(Input::new()));
    simulator.add_wire(in1, gate, Wire::new(0, 1));
    simulator.set_input(in1, High);
    simulator.set_input(in0, Low);
    let result = simulator.step_until_stable(100);
    assert!(result.is_ok());
    assert_eq!(simulator.get_output(gate, 0), Low);
    assert_eq!(simulator.get_output(in0, 0), Low);
    assert_eq!(simulator.get_output(in1, 0), High);
}

#[test]
fn fan_out_follows_wire_insertion_order() {
    let mut simulator = Simulator::new();
    let input = simulator.add_component(Component::Input(Input::new()));
    let first = simulator.add_component(Component::new_and(1));
    let second = simulator.add_component(Component::new_and(1));
    simulator.add_wire(input, first, Wire::new(0, 0));
    simulator.add_wire(input, second, Wire::new(0, 0));

    simulator.set_input(input, High);
    simulator.step();
    // one step resolves the single input event across both wires
    assert_eq!(simulator.get_output(first, 0), High);
    assert_eq!(simulator.get_output(second, 0), High);
    let result = simulator.step_until_stable(10);
    assert!(result.is_ok());
}
