//! Circuit components: wires, gate operations, logic components, and input
//! sources, together with the mathematical models their contracts speak of.

use vstd::prelude::*;

use crate::signal::{spec_calculate, Function, Signal};

verus! {

/// A directed connection between two pins. `input` is the index of the
/// source component's output pin being read; `output` is the index of the
/// target component's input pin being driven. Both index fixed-size pin
/// arrays local to their endpoints.
#[derive(Clone, Copy, Debug)]
pub struct Wire {
    source_pin: usize,
    target_pin: usize,
}

impl Wire {
    /// The source output-pin index this wire reads.
    pub closed spec fn spec_input(&self) -> usize {
        self.source_pin
    }

    /// The target input-pin index this wire drives.
    pub closed spec fn spec_output(&self) -> usize {
        self.target_pin
    }

    /// Builds a wire from a source output-pin index to a target input-pin index.
    pub fn new(input: usize, output: usize) -> (r: Self)
        ensures
            r.spec_input() == input,
            r.spec_output() == output,
    {
        Self { source_pin: input, target_pin: output }
    }

    /// The source output-pin index this wire reads.
    pub fn input(&self) -> (r: usize)
        ensures
            r == self.spec_input(),
    {
        self.source_pin
    }

    /// The target input-pin index this wire drives.
    pub fn output(&self) -> (r: usize)
        ensures
            r == self.spec_output(),
    {
        self.target_pin
    }
}

/// The model of an operation: its gate kind and the ordered input-pin
/// indices it reads (its arity is the length of `pins`).
pub struct OpModel {
    pub function: Function,
    pub pins: Seq<usize>,
}

/// A gate operation: a kind together with the ordered input-pin indices it
/// reads. The number of indices is the operation's declared arity.
#[derive(Clone, Debug)]
pub enum Operation {
    And(Vec<usize>),
    Or(Vec<usize>),
    Xor(Vec<usize>),
    Nand(Vec<usize>),
    Nor(Vec<usize>),
    Xnor(Vec<usize>),
}

impl View for Operation {
    type V = OpModel;

    open spec fn view(&self) -> OpModel {
        match self {
            Operation::And(v) => OpModel { function: Function::And, pins: v@ },
            Operation::Or(v) => OpModel { function: Function::Or, pins: v@ },
            Operation::Xor(v) => OpModel { function: Function::XOr, pins: v@ },
            Operation::Nand(v) => OpModel { function: Function::NAnd, pins: v@ },
            Operation::Nor(v) => OpModel { function: Function::NOr, pins: v@ },
            Operation::Xnor(v) => OpModel { function: Function::XNOr, pins: v@ },
        }
    }
}

impl Operation {
    /// The operation's declared arity: how many values it consumes.
    pub open spec fn arity(&self) -> nat {
        self@.pins.len()
    }

    /// The ordered input-pin indices this operation reads.
    pub fn get_inputs(&self) -> (r: &Vec<usize>)
        ensures
            r@ == self@.pins,
    {
        match self {
            Operation::And(v) => v,
            Operation::Or(v) => v,
            Operation::Xor(v) => v,
            Operation::Nand(v) => v,
            Operation::Nor(v) => v,
            Operation::Xnor(v) => v,
        }
    }

    /// Applies the operation's gate function to the supplied values, which
    /// must be exactly as many as the declared arity.
    pub fn execute(&self, inputs: Vec<Signal>) -> (r: Signal)
        requires
            inputs@.len() == self.arity(),
        ensures
            r == spec_calculate(self@.function, inputs@),
    {
        match self {
            Operation::And(_) => crate::signal::and(inputs),
            Operation::Or(_) => crate::signal::or(inputs),
            Operation::Xor(_) => crate::signal::xor(inputs),
            Operation::Nand(_) => crate::signal::and(inputs).not(),
            Operation::Nor(_) => crate::signal::or(inputs).not(),
            Operation::Xnor(_) => crate::signal::xor(inputs).not(),
        }
    }

    /// Applies this operation only when the supplied value count equals its
    /// declared arity; any other count always fails, with `None`.
    pub fn checked_execute(&self, inputs: Vec<Signal>) -> (r: Option<Signal>)
        ensures
            r is Some <==> inputs@.len() == self.arity(),
            inputs@.len() == self.arity() ==> r == Some(spec_calculate(self@.function, inputs@)),
    {
        if inputs.len() == self.get_inputs().len() {
            Some(self.execute(inputs))
        } else {
            None
        }
    }
}

/// The model of a logic component: current input-pin values, current
/// output-pin values, and one operation per output pin.
pub struct LogicModel {
    pub inputs: Seq<Signal>,
    pub outputs: Seq<Signal>,
    pub operations: Seq<OpModel>,
}

/// Well-formedness of a logic component: operation `i` produces output pin
/// `i`, and every pin index an operation reads is a valid input pin.
pub open spec fn logic_wf(l: LogicModel) -> bool {
    &&& l.outputs.len() == l.operations.len()
    &&& forall|i: int, j: int|
        0 <= i < l.operations.len() && 0 <= j < l.operations[i].pins.len()
            ==> (#[trigger] l.operations[i].pins[j] as int) < l.inputs.len()
}

/// The values of the pins listed in `pins`, gathered in declared order.
pub open spec fn gather(inputs: Seq<Signal>, pins: Seq<usize>) -> Seq<Signal> {
    Seq::new(pins.len(), |j: int| inputs[pins[j] as int])
}

/// Whether an operation's declared input set includes the given pin.
pub open spec fn affected(op: OpModel, pin: usize) -> bool {
    op.pins.contains(pin)
}

/// The value an operation computes from the component's current inputs.
pub open spec fn eval_op(inputs: Seq<Signal>, op: OpModel) -> Signal {
    spec_calculate(op.function, gather(inputs, op.pins))
}

/// The output-pin values after re-evaluating every operation affected by a
/// change to `pin`; unaffected outputs keep their stored value.
pub open spec fn new_outputs(l: LogicModel, pin: usize) -> Seq<Signal> {
    Seq::new(
        l.outputs.len(),
        |i: int|
            if affected(l.operations[i], pin) {
                eval_op(l.inputs, l.operations[i])
            } else {
                l.outputs[i]
            },
    )
}

/// The output pins among the first `n` operations whose re-evaluation after a
/// change to `pin` differs from the stored output, in ascending order.
pub open spec fn changed_events(l: LogicModel, pin: usize, n: int) -> Seq<usize>
    decreases n,
{
    if n <= 0 {
        Seq::empty()
    } else {
        let prefix = changed_events(l, pin, n - 1);
        if affected(l.operations[n - 1], pin) && eval_op(l.inputs, l.operations[n - 1])
            != l.outputs[n - 1] {
            prefix.push((n - 1) as usize)
        } else {
            prefix
        }
    }
}

/// Every reported changed pin is an index below `n`.
pub proof fn lemma_changed_events_bounds(l: LogicModel, pin: usize, n: int)
    ensures
        forall|k: int|
            0 <= k < changed_events(l, pin, n).len() ==> (#[trigger] changed_events(
                l,
                pin,
                n,
            )[k] as int) < n,
    decreases n,
{
    if n > 0 {
        lemma_changed_events_bounds(l, pin, n - 1);
        let prefix = changed_events(l, pin, n - 1);
        let cur = changed_events(l, pin, n);
        assert forall|k: int| 0 <= k < cur.len() implies (cur[k] as int) < n by {
            if k < prefix.len() {
                assert(cur[k] == prefix[k]);
            } else {
                assert(cur[k] == (n - 1) as usize);
                if n - 1 > usize::MAX {
                    assert((cur[k] as int) <= usize::MAX);
                }
            }
        }
    }
}

/// Returns whether `pins` contains `pin`.
fn contains_pin(pins: &Vec<usize>, pin: usize) -> (r: bool)
    ensures
        r == pins@.contains(pin),
{
    let mut j: usize = 0;
    while j < pins.len()
        invariant
            j <= pins@.len(),
            forall|k: int| 0 <= k < j ==> pins@[k] != pin,
        decreases pins@.len() - j,
    {
        if pins[j] == pin {
            proof {
                assert(pins@[j as int] == pin);
            }
            return true;
        }
        j = j + 1;
    }
    false
}

/// Collects the values of the listed pins in declared order.
fn gather_values(inputs: &Vec<Signal>, pins: &Vec<usize>) -> (r: Vec<Signal>)
    requires
        forall|j: int| 0 <= j < pins@.len() ==> (#[trigger] pins@[j] as int) < inputs@.len(),
    ensures
        r@ == gather(inputs@, pins@),
{
    let mut r: Vec<Signal> = Vec::new();
    let mut j: usize = 0;
    while j < pins.len()
        invariant
            j <= pins@.len(),
            forall|k: int| 0 <= k < pins@.len() ==> (#[trigger] pins@[k] as int) < inputs@.len(),
            r@.len() == j,
            forall|k: int| 0 <= k < j ==> r@[k] == inputs@[#[trigger] pins@[k] as int],
        decreases pins@.len() - j,
    {
        r.push(inputs[pins[j]]);
        j = j + 1;
    }
    proof {
        assert(r@ =~= gather(inputs@, pins@));
    }
    r
}

/// A logic component: input pins, output pins, and one gate operation per
/// output pin. Freshly built pins hold `Low`.
#[derive(Debug)]
pub struct Logic {
    inputs: Vec<Signal>,
    outputs: Vec<Signal>,
    operations: Vec<Operation>,
}

impl View for Logic {
    type V = LogicModel;

    closed spec fn view(&self) -> LogicModel {
        LogicModel {
            inputs: self.inputs@,
            outputs: self.outputs@,
            operations: Seq::new(self.operations@.len(), |i: int| self.operations@[i]@),
        }
    }
}

/// The model of a freshly built single-gate logic component: `arity` input
/// pins holding `Low`, one output pin holding `Low`, and one operation of the
/// given kind reading pins `0..arity` in order.
pub open spec fn gate_model(function: Function, arity: nat) -> LogicModel {
    LogicModel {
        inputs: Seq::new(arity, |i: int| Signal::Low),
        outputs: seq![Signal::Low],
        operations: seq![OpModel { function, pins: Seq::new(arity, |i: int| i as usize) }],
    }
}

impl Logic {
    /// Well-formedness: one output per operation, every read pin valid.
    pub open spec fn wf(&self) -> bool {
        logic_wf(self@)
    }

    /// Builds a single-gate component of the given kind and arity, reading
    /// input pins `0..arity` in order. All pins start at `Low`.
    pub fn new(function: Function, arity: usize) -> (r: Self)
        ensures
            r@ == gate_model(function, arity as nat),
            r.wf(),
    {
        let mut inputs: Vec<Signal> = Vec::new();
        let mut pins: Vec<usize> = Vec::new();
        let mut i: usize = 0;
        while i < arity
            invariant
                i <= arity,
                inputs@.len() == i,
                pins@.len() == i,
                forall|k: int| 0 <= k < i ==> inputs@[k] == Signal::Low,
                forall|k: int| 0 <= k < i ==> pins@[k] == k as usize,
            decreases arity - i,
        {
            inputs.push(Signal::Low);
            pins.push(i);
            i = i + 1;
        }
        let operation = match function {
            Function::And => Operation::And(pins),
            Function::Or => Operation::Or(pins),
            Function::XOr => Operation::Xor(pins),
            Function::NAnd => Operation::Nand(pins),
            Function::NOr => Operation::Nor(pins),
            Function::XNOr => Operation::Xnor(pins),
        };
        let mut operations: Vec<Operation> = Vec::new();
        operations.push(operation);
        let mut outputs: Vec<Signal> = Vec::new();
        outputs.push(Signal::Low);
        let r = Self { inputs, outputs, operations };
        proof {
            assert(r@.inputs =~= gate_model(function, arity as nat).inputs);
            assert(r@.outputs =~= gate_model(function, arity as nat).outputs);
            assert(r@.operations[0].pins =~= gate_model(function, arity as nat).operations[0].pins);
            assert(r@.operations =~= gate_model(function, arity as nat).operations);
        }
        r
    }

    /// Builds a single AND gate with the given number of input pins.
    pub fn new_and(inputs: usize) -> (r: Self)
        ensures
            r@ == gate_model(Function::And, inputs as nat),
            r.wf(),
    {
        Self::new(Function::And, inputs)
    }

    /// Builds a single NAND gate with the given number of input pins.
    pub fn new_nand(inputs: usize) -> (r: Self)
        ensures
            r@ == gate_model(Function::NAnd, inputs as nat),
            r.wf(),
    {
        Self::new(Function::NAnd, inputs)
    }

    /// Overwrites one input pin with no recomputation.
    pub fn set_input(&mut self, input: usize, signal: Signal)
        requires
            input < old(self)@.inputs.len(),
        ensures
            final(self)@.inputs == old(self)@.inputs.update(input as int, signal),
            final(self)@.outputs == old(self)@.outputs,
            final(self)@.operations == old(self)@.operations,
    {
        let slot = &mut self.inputs[input];
        *slot = signal;
    }

    /// Reads the current value of one output pin.
    pub fn get_output(&self, output: usize) -> (r: Signal)
        requires
            output < self@.outputs.len(),
        ensures
            r == self@.outputs[output as int],
    {
        self.outputs[output]
    }

    /// Re-evaluates only the operations whose declared input set includes
    /// `changed_input`; updates each output that differs from its stored
    /// value and reports those output-pin indices in ascending order.
    pub fn evaluate_outputs(&mut self, changed_input: usize) -> (events: Vec<usize>)
        requires
            old(self).wf(),
        ensures
            final(self)@.inputs == old(self)@.inputs,
            final(self)@.operations == old(self)@.operations,
            final(self)@.outputs == new_outputs(old(self)@, changed_input),
            events@ == changed_events(
                old(self)@,
                changed_input,
                old(self)@.operations.len() as int,
            ),
            final(self).wf(),
    {
        let mut events: Vec<usize> = Vec::new();
        let mut index: usize = 0;
        while index < self.operations.len()
            invariant
                old(self).wf(),
                self@.inputs == old(self)@.inputs,
                self@.operations == old(self)@.operations,
                self@.outputs.len() == old(self)@.outputs.len(),
                index <= self@.operations.len(),
                forall|k: int|
                    0 <= k < index ==> self@.outputs[k] == new_outputs(old(self)@, changed_input)[k],
                forall|k: int|
                    index <= k < self@.outputs.len() ==> self@.outputs[k] == old(self)@.outputs[k],
                events@ == changed_events(old(self)@, changed_input, index as int),
            decreases self@.operations.len() - index,
        {
            let op = &self.operations[index];
            proof {
                assert(op@ == old(self)@.operations[index as int]);
                assert(forall|j: int|
                    0 <= j < op@.pins.len() ==> (#[trigger] op@.pins[j] as int)
                        < old(self)@.inputs.len());
            }
            if contains_pin(op.get_inputs(), changed_input) {
                let values = gather_values(&self.inputs, op.get_inputs());
                let new_value = op.execute(values);
                if self.outputs[index] != new_value {
                    let slot = &mut self.outputs[index];
                    *slot = new_value;
                    events.push(index);
                } else {
                    proof {
                        assert(changed_events(old(self)@, changed_input, index + 1)
                            == changed_events(old(self)@, changed_input, index as int));
                    }
                }
            }
            index = index + 1;
        }
        proof {
            assert(self@.outputs =~= new_outputs(old(self)@, changed_input));
        }
        events
    }
}

/// The model of a component: an input source holding one driven signal, or a
/// logic component.
pub enum CompModel {
    Logic(LogicModel),
    Input(Signal),
}

/// Well-formedness of a component model.
pub open spec fn comp_wf(c: CompModel) -> bool {
    match c {
        CompModel::Logic(l) => logic_wf(l),
        CompModel::Input(_) => true,
    }
}

/// The number of input pins a component exposes to wires. An input source
/// has none: it is driven only by the external caller, never by a wire.
pub open spec fn input_pin_count(c: CompModel) -> nat {
    match c {
        CompModel::Logic(l) => l.inputs.len(),
        CompModel::Input(_) => 0,
    }
}

/// The number of output pins a component exposes. An input source has
/// exactly one, at index 0.
pub open spec fn output_pin_count(c: CompModel) -> nat {
    match c {
        CompModel::Logic(l) => l.outputs.len(),
        CompModel::Input(_) => 1,
    }
}

/// The current value at a component's output pin.
pub open spec fn pin_value(c: CompModel, pin: int) -> Signal {
    match c {
        CompModel::Logic(l) => l.outputs[pin],
        CompModel::Input(v) => v,
    }
}

/// An externally driven signal source with a single output pin (index 0).
/// It starts at `Low` and is mutated only through the engine.
#[derive(Debug)]
pub struct Input {
    value: Signal,
}

impl View for Input {
    type V = Signal;

    closed spec fn view(&self) -> Signal {
        self.value
    }
}

impl Input {
    /// Builds a fresh input source holding `Low`.
    pub fn new() -> (r: Self)
        ensures
            r@ == Signal::Low,
    {
        Self { value: Signal::Low }
    }

    /// Overwrites the driven value.
    pub(crate) fn set_value(&mut self, value: Signal)
        ensures
            final(self)@ == value,
    {
        self.value = value;
    }

    /// Reads the driven value.
    pub fn get_value(&self) -> (r: Signal)
        ensures
            r == self@,
    {
        self.value
    }
}

/// A circuit component: the closed set of variants the engine dispatches on.
#[derive(Debug)]
pub enum Component {
    Logic(Logic),
    Input(Input),
}

impl View for Component {
    type V = CompModel;

    open spec fn view(&self) -> CompModel {
        match self {
            Component::Logic(l) => CompModel::Logic(l@),
            Component::Input(inp) => CompModel::Input(inp@),
        }
    }
}

impl Component {
    /// Well-formedness of the component.
    pub open spec fn wf(&self) -> bool {
        comp_wf(self@)
    }

    /// Builds a logic component holding a single AND gate.
    pub fn new_and(inputs: usize) -> (r: Self)
        ensures
            r@ == CompModel::Logic(gate_model(Function::And, inputs as nat)),
            r.wf(),
    {
        Self::Logic(Logic::new_and(inputs))
    }

    /// Builds a logic component holding a single NAND gate.
    pub fn new_nand(inputs: usize) -> (r: Self)
        ensures
            r@ == CompModel::Logic(gate_model(Function::NAnd, inputs as nat)),
            r.wf(),
    {
        Self::Logic(Logic::new_nand(inputs))
    }
}

/// Re-evaluating a second time with the same upstream values reports no
/// change: after one `evaluate_outputs`, every affected output already holds
/// its recomputed value, so the second changed-output report is empty.
pub proof fn lemma_evaluate_idempotent(l: LogicModel, pin: usize)
    requires
        logic_wf(l),
    ensures
        ({
            let l1 = LogicModel {
                inputs: l.inputs,
                outputs: new_outputs(l, pin),
                operations: l.operations,
            };
            &&& changed_events(l1, pin, l1.operations.len() as int) == Seq::<usize>::empty()
            &&& new_outputs(l1, pin) == l1.outputs
        }),
{
    let l1 = LogicModel { inputs: l.inputs, outputs: new_outputs(l, pin), operations: l.operations };
    lemma_changed_events_empty(l1, pin, l1.operations.len() as int);
    assert(new_outputs(l1, pin) =~= l1.outputs);
}

proof fn lemma_changed_events_empty(l: LogicModel, pin: usize, n: int)
    requires
        n <= l.operations.len(),
        l.outputs.len() == l.operations.len(),
        forall|i: int|
            0 <= i < l.operations.len() && affected(#[trigger] l.operations[i], pin)
                ==> eval_op(l.inputs, l.operations[i]) == l.outputs[i],
    ensures
        changed_events(l, pin, n) == Seq::<usize>::empty(),
    decreases n,
{
    if n > 0 {
        lemma_changed_events_empty(l, pin, n - 1);
    }
}

} // verus!
