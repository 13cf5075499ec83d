//! The event-driven propagation engine: a graph of components and wires
//! addressed by stable integer handles, a FIFO event queue, and the step /
//! bounded-stability drivers, each specified by a transition function over
//! the engine's mathematical model.

use std::collections::VecDeque;

use vstd::prelude::*;

use crate::components::{
    changed_events, comp_wf, input_pin_count, new_outputs, output_pin_count, pin_value,
    lemma_changed_events_bounds, CompModel, Component, LogicModel, Wire,
};
use crate::signal::Signal;

verus! {

/// The model of a wire in the graph: source and target component handles and
/// the two local pin indices the wire connects.
pub struct LinkModel {
    pub source: usize,
    pub target: usize,
    pub source_pin: usize,
    pub target_pin: usize,
}

/// The model of the whole engine: the component arena, the wire arena in
/// insertion order, and the FIFO event queue of (component handle,
/// output-pin index) pairs.
#[verifier::ext_equal]
pub struct SimModel {
    pub components: Seq<CompModel>,
    pub links: Seq<LinkModel>,
    pub queue: Seq<(usize, usize)>,
}

/// A wire's handles are live and both its pin indices are valid pins of
/// their endpoints. An input source has no input pins, so no well-formed
/// wire ever targets one.
pub open spec fn link_wf(comps: Seq<CompModel>, l: LinkModel) -> bool {
    &&& (l.source as int) < comps.len()
    &&& (l.target as int) < comps.len()
    &&& (l.source_pin as nat) < output_pin_count(comps[l.source as int])
    &&& (l.target_pin as nat) < input_pin_count(comps[l.target as int])
}

/// A queued event names a live component and one of its output pins.
pub open spec fn event_wf(comps: Seq<CompModel>, e: (usize, usize)) -> bool {
    &&& (e.0 as int) < comps.len()
    &&& (e.1 as nat) < output_pin_count(comps[e.0 as int])
}

/// Well-formedness of the whole engine state.
pub open spec fn sim_wf(s: SimModel) -> bool {
    &&& forall|i: int| 0 <= i < s.components.len() ==> comp_wf(#[trigger] s.components[i])
    &&& forall|i: int| 0 <= i < s.links.len() ==> link_wf(s.components, #[trigger] s.links[i])
    &&& forall|i: int| 0 <= i < s.queue.len() ==> event_wf(s.components, #[trigger] s.queue[i])
}

/// Writes `value` into one input pin of the target component, re-evaluates
/// the operations that read that pin, and returns the updated component
/// arena together with the events for the output pins that changed.
pub open spec fn deliver(comps: Seq<CompModel>, target: usize, pin: usize, value: Signal) -> (
    Seq<CompModel>,
    Seq<(usize, usize)>,
) {
    match comps[target as int] {
        CompModel::Logic(l) => {
            let l1 = LogicModel {
                inputs: l.inputs.update(pin as int, value),
                outputs: l.outputs,
                operations: l.operations,
            };
            let l2 = LogicModel {
                inputs: l1.inputs,
                outputs: new_outputs(l1, pin),
                operations: l1.operations,
            };
            let changed = changed_events(l1, pin, l1.operations.len() as int);
            (
                comps.update(target as int, CompModel::Logic(l2)),
                Seq::new(changed.len(), |k: int| (target, changed[k])),
            )
        },
        CompModel::Input(_) => (comps, Seq::empty()),
    }
}

/// Resolves one event against the wires from index `i` on, in insertion
/// order: every wire leaving `source` at output pin `pin` delivers `value`
/// to its target. Returns the final arena and the emitted events in order.
pub open spec fn propagate(
    comps: Seq<CompModel>,
    links: Seq<LinkModel>,
    i: int,
    source: usize,
    pin: usize,
    value: Signal,
) -> (Seq<CompModel>, Seq<(usize, usize)>)
    decreases links.len() - i,
{
    if i < 0 || i >= links.len() {
        (comps, Seq::empty())
    } else if links[i].source == source && links[i].source_pin == pin {
        let d = deliver(comps, links[i].target, links[i].target_pin, value);
        let rest = propagate(d.0, links, i + 1, source, pin, value);
        (rest.0, d.1 + rest.1)
    } else {
        propagate(comps, links, i + 1, source, pin, value)
    }
}

/// One unit of simulation progress: dequeues the front event, reads the
/// current value at its output pin, delivers it along every outgoing wire of
/// that pin in insertion order, and enqueues the changed-output events. The
/// identity when the queue is empty.
pub open spec fn spec_step(s: SimModel) -> SimModel {
    if s.queue.len() == 0 {
        s
    } else {
        let ev = s.queue[0];
        let value = pin_value(s.components[ev.0 as int], ev.1 as int);
        let r = propagate(s.components, s.links, 0, ev.0, ev.1, value);
        SimModel {
            components: r.0,
            links: s.links,
            queue: s.queue.subrange(1, s.queue.len() as int) + r.1,
        }
    }
}

/// The engine state after `n` consecutive steps.
pub open spec fn run_steps(s: SimModel, n: nat) -> SimModel
    decreases n,
{
    if n == 0 {
        s
    } else {
        spec_step(run_steps(s, (n - 1) as nat))
    }
}

/// Two component states with the same shape: the same variant and the same
/// pin counts, so every handle and pin index valid for one is valid for the
/// other.
pub open spec fn same_shape(a: CompModel, b: CompModel) -> bool {
    &&& (a is Input <==> b is Input)
    &&& input_pin_count(a) == input_pin_count(b)
    &&& output_pin_count(a) == output_pin_count(b)
}

/// The wire targets a live component at a valid input pin, the part of wire
/// validity that delivery relies on.
pub open spec fn link_targets_ok(comps: Seq<CompModel>, l: LinkModel) -> bool {
    &&& (l.target as int) < comps.len()
    &&& (l.target_pin as nat) < input_pin_count(comps[l.target as int])
}

proof fn lemma_propagate_structure(
    comps: Seq<CompModel>,
    links: Seq<LinkModel>,
    i: int,
    source: usize,
    pin: usize,
    value: Signal,
)
    requires
        forall|j: int| 0 <= j < links.len() ==> link_targets_ok(comps, #[trigger] links[j]),
    ensures
        propagate(comps, links, i, source, pin, value).0.len() == comps.len(),
        forall|c: int|
            0 <= c < comps.len() ==> same_shape(
                comps[c],
                #[trigger] propagate(comps, links, i, source, pin, value).0[c],
            ),
    decreases links.len() - i,
{
    if 0 <= i < links.len() {
        if links[i].source == source && links[i].source_pin == pin {
            let d = deliver(comps, links[i].target, links[i].target_pin, value);
            assert forall|c: int| 0 <= c < comps.len() implies same_shape(
                comps[c],
                #[trigger] d.0[c],
            ) by {
                assert(link_targets_ok(comps, links[i]));
                if c != links[i].target {
                    assert(d.0[c] == comps[c]);
                }
            }
            assert forall|j: int| 0 <= j < links.len() implies link_targets_ok(
                d.0,
                #[trigger] links[j],
            ) by {
                assert(link_targets_ok(comps, links[j]));
                assert(same_shape(comps[links[j].target as int], d.0[links[j].target as int]));
            }
            lemma_propagate_structure(d.0, links, i + 1, source, pin, value);
        } else {
            lemma_propagate_structure(comps, links, i + 1, source, pin, value);
        }
    }
}

/// Handle durability: stepping never adds, removes, or reshapes components
/// or wires. A handle returned by `add_component` stays usable for `add_wire`
/// and `set_input` — same arena length, same wires, same variant, and the
/// same pin counts — no matter how many steps have executed.
pub proof fn lemma_handles_durable(s: SimModel, n: nat)
    requires
        forall|j: int| 0 <= j < s.links.len() ==> link_targets_ok(s.components, #[trigger] s.links[j]),
    ensures
        run_steps(s, n).components.len() == s.components.len(),
        run_steps(s, n).links == s.links,
        forall|c: int|
            0 <= c < s.components.len() ==> same_shape(
                s.components[c],
                #[trigger] run_steps(s, n).components[c],
            ),
    decreases n,
{
    if n > 0 {
        lemma_handles_durable(s, (n - 1) as nat);
        let prev = run_steps(s, (n - 1) as nat);
        assert forall|j: int| 0 <= j < prev.links.len() implies link_targets_ok(
            prev.components,
            #[trigger] prev.links[j],
        ) by {
            assert(link_targets_ok(s.components, s.links[j]));
            assert(same_shape(
                s.components[s.links[j].target as int],
                prev.components[s.links[j].target as int],
            ));
        }
        if prev.queue.len() > 0 {
            let ev = prev.queue[0];
            lemma_propagate_structure(
                prev.components,
                prev.links,
                0,
                ev.0,
                ev.1,
                pin_value(prev.components[ev.0 as int], ev.1 as int),
            );
        }
    }
}

/// A pending notification that one output pin's value changed and must be
/// propagated to the components wired to it.
pub struct Event {
    component: usize,
    output: usize,
}

/// The recoverable outcome of `step_until_stable`: the event queue failed to
/// drain within the given bound, indicating an unresolved feedback cycle.
#[derive(Debug, Clone)]
pub struct UnstableError;

struct Connection {
    source: usize,
    target: usize,
    wire: Wire,
}

/// The simulation engine. It exclusively owns the component arena, the wire
/// arena, and the FIFO event queue; callers hold only integer handles.
pub struct Simulator {
    components: Vec<Component>,
    wires: Vec<Connection>,
    events: VecDeque<Event>,
}

impl View for Simulator {
    type V = SimModel;

    closed spec fn view(&self) -> SimModel {
        SimModel {
            components: Seq::new(self.components@.len(), |i: int| self.components@[i]@),
            links: Seq::new(
                self.wires@.len(),
                |i: int|
                    LinkModel {
                        source: self.wires@[i].source,
                        target: self.wires@[i].target,
                        source_pin: self.wires@[i].wire.spec_input(),
                        target_pin: self.wires@[i].wire.spec_output(),
                    },
            ),
            queue: Seq::new(
                self.events@.len(),
                |i: int| (self.events@[i].component, self.events@[i].output),
            ),
        }
    }
}

impl Simulator {
    /// Builds an engine with no components, no wires, and an empty queue.
    pub fn new() -> (r: Self)
        ensures
            r@.components == Seq::<CompModel>::empty(),
            r@.links == Seq::<LinkModel>::empty(),
            r@.queue == Seq::<(usize, usize)>::empty(),
            sim_wf(r@),
    {
        let r = Self { components: Vec::new(), wires: Vec::new(), events: VecDeque::new() };
        proof {
            assert(r@.components =~= Seq::<CompModel>::empty());
            assert(r@.links =~= Seq::<LinkModel>::empty());
            assert(r@.queue =~= Seq::<(usize, usize)>::empty());
        }
        r
    }

    /// Appends a component to the arena and returns its handle. Handles,
    /// once issued, stay valid for the engine's whole lifetime.
    pub fn add_component(&mut self, component: Component) -> (handle: usize)
        requires
            sim_wf(old(self)@),
            component.wf(),
        ensures
            handle == old(self)@.components.len(),
            final(self)@.components == old(self)@.components.push(component@),
            final(self)@.links == old(self)@.links,
            final(self)@.queue == old(self)@.queue,
            sim_wf(final(self)@),
    {
        let handle = self.components.len();
        self.components.push(component);
        proof {
            assert(self@.components =~= old(self)@.components.push(component@));
            assert(self@.links =~= old(self)@.links);
            assert(self@.queue =~= old(self)@.queue);
            assert forall|i: int| 0 <= i < self@.links.len() implies link_wf(
                self@.components,
                #[trigger] self@.links[i],
            ) by {
                assert(link_wf(old(self)@.components, old(self)@.links[i]));
            }
            assert forall|i: int| 0 <= i < self@.queue.len() implies event_wf(
                self@.components,
                #[trigger] self@.queue[i],
            ) by {
                assert(event_wf(old(self)@.components, old(self)@.queue[i]));
            }
        }
        handle
    }

    /// Appends a wire from `component0`'s output pin `wire.input()` to
    /// `component1`'s input pin `wire.output()` and returns its handle.
    /// Wires keep their insertion order: fan-out within a step is resolved
    /// in this order. Both pins must be valid for their endpoints, so the
    /// target is never an input source.
    pub fn add_wire(&mut self, component0: usize, component1: usize, wire: Wire) -> (handle:
        usize)
        requires
            sim_wf(old(self)@),
            component0 < old(self)@.components.len(),
            component1 < old(self)@.components.len(),
            (wire.spec_input() as nat) < output_pin_count(old(self)@.components[component0 as int]),
            (wire.spec_output() as nat) < input_pin_count(old(self)@.components[component1 as int]),
        ensures
            handle == old(self)@.links.len(),
            final(self)@.links == old(self)@.links.push(
                LinkModel {
                    source: component0,
                    target: component1,
                    source_pin: wire.spec_input(),
                    target_pin: wire.spec_output(),
                },
            ),
            final(self)@.components == old(self)@.components,
            final(self)@.queue == old(self)@.queue,
            sim_wf(final(self)@),
    {
        let handle = self.wires.len();
        self.wires.push(Connection { source: component0, target: component1, wire });
        proof {
            assert(self@.components =~= old(self)@.components);
            assert(self@.queue =~= old(self)@.queue);
            assert(self@.links =~= old(self)@.links.push(
                LinkModel {
                    source: component0,
                    target: component1,
                    source_pin: wire.spec_input(),
                    target_pin: wire.spec_output(),
                },
            ));
        }
        handle
    }

    /// Reads the current value at a component's output pin. The graph and
    /// all already-applied signal values stay inspectable at any time, also
    /// after an unstable outcome.
    pub fn get_output(&self, node: usize, output: usize) -> (r: Signal)
        requires
            node < self@.components.len(),
            (output as nat) < output_pin_count(self@.components[node as int]),
        ensures
            r == pin_value(self@.components[node as int], output as int),
    {
        match &self.components[node] {
            Component::Input(inp) => inp.get_value(),
            Component::Logic(l) => l.get_output(output),
        }
    }

    /// Drives an input source. If the new value differs from the stored one,
    /// stores it and enqueues an event for the source's single output pin;
    /// otherwise the engine is unchanged. Only input sources may be driven.
    pub fn set_input(&mut self, node: usize, value: Signal)
        requires
            sim_wf(old(self)@),
            node < old(self)@.components.len(),
            old(self)@.components[node as int] is Input,
        ensures
            sim_wf(final(self)@),
            final(self)@.links == old(self)@.links,
            pin_value(old(self)@.components[node as int], 0) == value ==> final(self)@ == old(
                self,
            )@,
            pin_value(old(self)@.components[node as int], 0) != value ==> {
                &&& final(self)@.components == old(self)@.components.update(
                    node as int,
                    CompModel::Input(value),
                )
                &&& final(self)@.queue == old(self)@.queue.push((node, 0))
            },
    {
        let mut changed = false;
        match &mut self.components[node] {
            Component::Input(input) => {
                if input.get_value() != value {
                    input.set_value(value);
                    changed = true;
                }
            },
            Component::Logic(_) => {
                proof {
                    assert(false);
                }
            },
        }
        if changed {
            self.events.push_back(Event { component: node, output: 0 });
            proof {
                assert(self@.components =~= old(self)@.components.update(
                    node as int,
                    CompModel::Input(value),
                ));
                assert(self@.queue =~= old(self)@.queue.push((node, 0)));
                assert(self@.links =~= old(self)@.links);
                assert forall|i: int| 0 <= i < self@.links.len() implies link_wf(
                    self@.components,
                    #[trigger] self@.links[i],
                ) by {
                    assert(link_wf(old(self)@.components, old(self)@.links[i]));
                    assert(input_pin_count(self@.components[self@.links[i].target as int])
                        == input_pin_count(old(self)@.components[self@.links[i].target as int]));
                    assert(output_pin_count(self@.components[self@.links[i].source as int])
                        == output_pin_count(old(self)@.components[self@.links[i].source as int]));
                }
                assert forall|i: int| 0 <= i < self@.queue.len() implies event_wf(
                    self@.components,
                    #[trigger] self@.queue[i],
                ) by {
                    if i < old(self)@.queue.len() {
                        assert(event_wf(old(self)@.components, old(self)@.queue[i]));
                        assert(output_pin_count(self@.components[self@.queue[i].0 as int])
                            == output_pin_count(
                            old(self)@.components[self@.queue[i].0 as int],
                        ));
                    }
                }
            }
        } else {
            proof {
                assert(self@.components =~= old(self)@.components);
                assert(self@.queue =~= old(self)@.queue);
                assert(self@.links =~= old(self)@.links);
            }
        }
    }

    /// Resolves exactly one dequeued event: reads the current value at its
    /// (component, output pin), writes it along every outgoing wire of that
    /// pin in wire-insertion order, re-evaluates each target, and enqueues an
    /// event for every output pin that changed. A no-op when the queue is
    /// empty.
    #[verifier::loop_isolation(false)]
    pub fn step(&mut self)
        requires
            sim_wf(old(self)@),
        ensures
            final(self)@ == spec_step(old(self)@),
            sim_wf(final(self)@),
    {
        let ghost pre = old(self)@;
        let ev_opt = self.events.pop_front();
        if let Some(event) = ev_opt {
            let source = event.component;
            let pin = event.output;
            proof {
                assert(pre.queue[0] == (source, pin));
                assert(event_wf(pre.components, pre.queue[0]));
                assert(self@.queue =~= pre.queue.subrange(1, pre.queue.len() as int));
                assert(self@.components =~= pre.components);
                assert(self@.links =~= pre.links);
                assert(self.components@[source as int]@ == pre.components[source as int]);
            }
            let value = match &self.components[source] {
                Component::Input(inp) => inp.get_value(),
                Component::Logic(l) => l.get_output(pin),
            };
            proof {
                assert(value == pin_value(pre.components[source as int], pin as int));
            }
            let ghost goal = spec_step(pre);
            let mut i: usize = 0;
            while i < self.wires.len()
                invariant
                    i <= pre.links.len(),
                    self@.links == pre.links,
                    self@.components.len() == pre.components.len(),
                    forall|c: int|
                        0 <= c < pre.components.len() ==> comp_wf(#[trigger] self@.components[c]),
                    forall|c: int|
                        0 <= c < pre.components.len() ==> input_pin_count(
                            #[trigger] self@.components[c],
                        ) == input_pin_count(pre.components[c]) && output_pin_count(
                            self@.components[c],
                        ) == output_pin_count(pre.components[c]),
                    forall|k: int|
                        0 <= k < self@.queue.len() ==> event_wf(
                            self@.components,
                            #[trigger] self@.queue[k],
                        ),
                    ({
                        let r = propagate(
                            self@.components,
                            pre.links,
                            i as int,
                            source,
                            pin,
                            value,
                        );
                        goal.components == r.0 && goal.queue == self@.queue + r.1
                    }),
                decreases pre.links.len() - i,
            {
                let conn_source = self.wires[i].source;
                let conn_target = self.wires[i].target;
                let w_in = self.wires[i].wire.input();
                let w_out = self.wires[i].wire.output();
                proof {
                    assert(pre.links[i as int] == LinkModel {
                        source: conn_source,
                        target: conn_target,
                        source_pin: w_in,
                        target_pin: w_out,
                    });
                }
                if conn_source == source && w_in == pin {
                    proof {
                        assert(link_wf(pre.components, pre.links[i as int]));
                        assert((w_out as nat) < input_pin_count(
                            self@.components[conn_target as int],
                        ));
                    }
                    let ghost c_before = self@.components;
                    let ghost q_before = self@.queue;
                    let ghost dres = deliver(c_before, conn_target, w_out, value);
                    let emitted: Vec<usize>;
                    match &mut self.components[conn_target] {
                        Component::Logic(l) => {
                            proof {
                                assert(CompModel::Logic(l@) == c_before[conn_target as int]);
                            }
                            let ghost l0 = l@;
                            l.set_input(w_out, value);
                            emitted = l.evaluate_outputs(w_out);
                            proof {
                                let l1 = LogicModel {
                                    inputs: l0.inputs.update(w_out as int, value),
                                    outputs: l0.outputs,
                                    operations: l0.operations,
                                };
                                assert(l@.inputs == l1.inputs);
                                assert(l@.outputs == new_outputs(l1, w_out));
                                assert(l@.operations == l1.operations);
                                assert(emitted@ == changed_events(
                                    l1,
                                    w_out,
                                    l1.operations.len() as int,
                                ));
                                lemma_changed_events_bounds(
                                    l1,
                                    w_out,
                                    l1.operations.len() as int,
                                );
                            }
                        },
                        Component::Input(_) => {
                            proof {
                                assert(input_pin_count(c_before[conn_target as int]) == 0);
                                assert(false);
                            }
                            emitted = Vec::new();
                        },
                    }
                    let ghost dcomps = self@.components;
                    proof {
                        assert(dcomps =~= dres.0);
                        assert forall|c: int|
                            0 <= c < pre.components.len() implies comp_wf(
                            #[trigger] dcomps[c],
                        ) && input_pin_count(dcomps[c]) == input_pin_count(pre.components[c])
                            && output_pin_count(dcomps[c]) == output_pin_count(
                            pre.components[c],
                        ) by {
                            if c != conn_target {
                                assert(dcomps[c] == c_before[c]);
                            }
                        }
                        assert(self@.queue == q_before);
                        assert(self@.links =~= pre.links);
                    }
                    let mut j: usize = 0;
                    while j < emitted.len()
                        invariant
                            j <= emitted@.len(),
                            self@.components == dcomps,
                            self@.links == pre.links,
                            self@.queue == q_before + Seq::new(
                                j as nat,
                                |k: int| (conn_target, emitted@[k]),
                            ),
                        decreases emitted@.len() - j,
                    {
                        let ghost q_entry = self@.queue;
                        let out = emitted[j];
                        self.events.push_back(Event { component: conn_target, output: out });
                        proof {
                            assert(self@.components =~= dcomps);
                            assert(self@.links =~= pre.links);
                            assert(self@.queue =~= q_entry.push((conn_target, out)));
                            assert(q_entry.push((conn_target, out)) =~= q_before + Seq::new(
                                (j + 1) as nat,
                                |k: int| (conn_target, emitted@[k]),
                            ));
                        }
                        j = j + 1;
                    }
                    proof {
                        assert(self@.queue =~= q_before + dres.1);
                        // queue well-formedness: old entries keep their pin
                        // counts, new entries name changed output pins.
                        assert forall|k: int| 0 <= k < self@.queue.len() implies event_wf(
                            self@.components,
                            #[trigger] self@.queue[k],
                        ) by {
                            if k < q_before.len() {
                                assert(event_wf(c_before, q_before[k]));
                                assert(self@.queue[k] == q_before[k]);
                            } else {
                                assert(self@.queue[k] == dres.1[k - q_before.len()]);
                            }
                        }
                        // one unfolding of propagate at the matching wire
                        let r_i = propagate(c_before, pre.links, i as int, source, pin, value);
                        let r_next = propagate(
                            self@.components,
                            pre.links,
                            i + 1,
                            source,
                            pin,
                            value,
                        );
                        assert(r_i.0 == r_next.0);
                        assert(r_i.1 == dres.1 + r_next.1);
                        assert(goal.queue == (q_before + dres.1) + r_next.1) by {
                            assert(q_before + (dres.1 + r_next.1) =~= (q_before + dres.1)
                                + r_next.1);
                        }
                    }
                } else {
                    proof {
                        assert(propagate(self@.components, pre.links, i as int, source, pin, value)
                            == propagate(
                            self@.components,
                            pre.links,
                            i + 1,
                            source,
                            pin,
                            value,
                        ));
                    }
                }
                i = i + 1;
            }
            proof {
                assert(propagate(self@.components, pre.links, pre.links.len() as int, source, pin, value).1
                    =~= Seq::<(usize, usize)>::empty());
                assert(goal.queue =~= self@.queue);
                assert(self@ =~= goal);
            }
        } else {
            proof {
                assert(pre.queue.len() == 0);
                assert(self@.components =~= pre.components);
                assert(self@.links =~= pre.links);
                assert(self@.queue =~= pre.queue);
                assert(self@ =~= pre);
            }
        }
    }

    /// Repeatedly steps while the queue is non-empty, counting iterations.
    /// Returns the iteration count once the queue drains; if the queue would
    /// still be non-empty after `limit` iterations, returns the distinguished
    /// unstable outcome, the engine's one recoverable error. The graph and
    /// all already-applied signal values stay valid either way.
    #[verifier::loop_isolation(false)]
    pub fn step_until_stable(&mut self, limit: usize) -> (r: Result<usize, UnstableError>)
        requires
            sim_wf(old(self)@),
        ensures
            sim_wf(final(self)@),
            match r {
                Ok(iterations) => {
                    &&& iterations <= limit
                    &&& final(self)@ == run_steps(old(self)@, iterations as nat)
                    &&& final(self)@.queue.len() == 0
                    &&& forall|k: nat|
                        k < iterations ==> #[trigger] run_steps(old(self)@, k).queue.len() > 0
                },
                Err(_) => {
                    &&& final(self)@ == run_steps(old(self)@, limit as nat)
                    &&& forall|k: nat|
                        k <= limit ==> #[trigger] run_steps(old(self)@, k).queue.len() > 0
                },
            },
    {
        let mut iteration: usize = 0;
        while self.events.len() != 0
            invariant
                iteration <= limit,
                sim_wf(self@),
                self@ == run_steps(old(self)@, iteration as nat),
                forall|k: nat|
                    k < iteration ==> #[trigger] run_steps(old(self)@, k).queue.len() > 0,
            decreases limit - iteration,
        {
            proof {
                assert(self@.queue.len() > 0);
                assert(run_steps(old(self)@, iteration as nat).queue.len() > 0);
            }
            if iteration < limit {
                iteration = iteration + 1;
            } else {
                return Err(UnstableError);
            }
            self.step();
            proof {
                assert(self@ == run_steps(old(self)@, iteration as nat));
            }
        }
        Ok(iteration)
    }
}

} // verus!
