//! Tri-state signal algebra: the `Signal` value type, its AND/OR/XOR/NOT
//! operators, reductions over lists of signals, and each gate function
//! built from them.

use vstd::multiset::Multiset;
use vstd::prelude::*;

verus! {

/// A tri-state logic value. `Undefined` propagates through the operators:
/// it is the result whenever neither operand forces a defined answer.
#[derive(Clone, Copy, Debug, PartialEq, Eq, Structural)]
pub enum Signal {
    High,
    Low,
    Undefined,
}

impl Default for Signal {
    /// The default and reset value: `Undefined`, the value of a pin that has
    /// never been driven or computed.
    fn default() -> (r: Self)
        ensures
            r == Signal::Undefined,
    {
        Signal::Undefined
    }
}

/// Three-valued NOT: swaps `High` and `Low`, keeps `Undefined`.
pub open spec fn spec_not(a: Signal) -> Signal {
    match a {
        Signal::High => Signal::Low,
        Signal::Low => Signal::High,
        Signal::Undefined => Signal::Undefined,
    }
}

/// Three-valued AND: `Low` dominates, then `Undefined`, else `High`.
pub open spec fn spec_and(a: Signal, b: Signal) -> Signal {
    if a == Signal::Low || b == Signal::Low {
        Signal::Low
    } else if a == Signal::High && b == Signal::High {
        Signal::High
    } else {
        Signal::Undefined
    }
}

/// Three-valued OR: `High` dominates, then `Undefined`, else `Low`.
pub open spec fn spec_or(a: Signal, b: Signal) -> Signal {
    if a == Signal::High || b == Signal::High {
        Signal::High
    } else if a == Signal::Low && b == Signal::Low {
        Signal::Low
    } else {
        Signal::Undefined
    }
}

/// Three-valued XOR: `Undefined` if either operand is, else parity.
pub open spec fn spec_xor(a: Signal, b: Signal) -> Signal {
    if a == Signal::Undefined || b == Signal::Undefined {
        Signal::Undefined
    } else if a == b {
        Signal::Low
    } else {
        Signal::High
    }
}

impl Signal {
    /// Logical negation per the three-valued truth table.
    pub fn not(self) -> (r: Signal)
        ensures
            r == spec_not(self),
    {
        match self {
            Signal::High => Signal::Low,
            Signal::Low => Signal::High,
            Signal::Undefined => Signal::Undefined,
        }
    }

    /// Binary AND per the three-valued truth table.
    pub fn bitand(self, rhs: Signal) -> (r: Signal)
        ensures
            r == spec_and(self, rhs),
    {
        match (self, rhs) {
            (Signal::High, Signal::High) => Signal::High,
            (_, Signal::Low) => Signal::Low,
            (Signal::Low, _) => Signal::Low,
            (_, _) => Signal::Undefined,
        }
    }

    /// Binary OR per the three-valued truth table.
    pub fn bitor(self, rhs: Signal) -> (r: Signal)
        ensures
            r == spec_or(self, rhs),
    {
        match (self, rhs) {
            (Signal::Low, Signal::Low) => Signal::Low,
            (_, Signal::High) => Signal::High,
            (Signal::High, _) => Signal::High,
            (_, _) => Signal::Undefined,
        }
    }

    /// Binary XOR per the three-valued truth table.
    pub fn bitxor(self, rhs: Signal) -> (r: Signal)
        ensures
            r == spec_xor(self, rhs),
    {
        match (self, rhs) {
            (Signal::High, Signal::Low) => Signal::High,
            (Signal::Low, Signal::High) => Signal::High,
            (Signal::Low, Signal::Low) => Signal::Low,
            (Signal::High, Signal::High) => Signal::Low,
            (_, _) => Signal::Undefined,
        }
    }
}

/// Left-to-right AND reduction with seed `High`.
pub open spec fn and_all(s: Seq<Signal>) -> Signal
    decreases s.len(),
{
    if s.len() == 0 {
        Signal::High
    } else {
        spec_and(and_all(s.drop_last()), s.last())
    }
}

/// Left-to-right OR reduction with seed `Low`.
pub open spec fn or_all(s: Seq<Signal>) -> Signal
    decreases s.len(),
{
    if s.len() == 0 {
        Signal::Low
    } else {
        spec_or(or_all(s.drop_last()), s.last())
    }
}

/// Left-to-right XOR reduction with seed `Low`.
pub open spec fn xor_all(s: Seq<Signal>) -> Signal
    decreases s.len(),
{
    if s.len() == 0 {
        Signal::Low
    } else {
        spec_xor(xor_all(s.drop_last()), s.last())
    }
}

/// Reduces a sequence of signals with AND, left to right, starting from `High`.
pub fn and(inputs: Vec<Signal>) -> (r: Signal)
    ensures
        r == and_all(inputs@),
{
    let mut r = Signal::High;
    let mut i: usize = 0;
    while i < inputs.len()
        invariant
            i <= inputs.len(),
            r == and_all(inputs@.take(i as int)),
        decreases inputs.len() - i,
    {
        proof {
            assert(inputs@.take(i + 1).drop_last() =~= inputs@.take(i as int));
            assert(inputs@.take(i + 1).last() == inputs@[i as int]);
        }
        r = r.bitand(inputs[i]);
        i = i + 1;
    }
    proof {
        assert(inputs@.take(inputs@.len() as int) =~= inputs@);
    }
    r
}

/// Reduces a sequence of signals with OR, left to right, starting from `Low`.
pub fn or(inputs: Vec<Signal>) -> (r: Signal)
    ensures
        r == or_all(inputs@),
{
    let mut r = Signal::Low;
    let mut i: usize = 0;
    while i < inputs.len()
        invariant
            i <= inputs.len(),
            r == or_all(inputs@.take(i as int)),
        decreases inputs.len() - i,
    {
        proof {
            assert(inputs@.take(i + 1).drop_last() =~= inputs@.take(i as int));
            assert(inputs@.take(i + 1).last() == inputs@[i as int]);
        }
        r = r.bitor(inputs[i]);
        i = i + 1;
    }
    proof {
        assert(inputs@.take(inputs@.len() as int) =~= inputs@);
    }
    r
}

/// Reduces a sequence of signals with XOR, left to right, starting from `Low`.
pub fn xor(inputs: Vec<Signal>) -> (r: Signal)
    ensures
        r == xor_all(inputs@),
{
    let mut r = Signal::Low;
    let mut i: usize = 0;
    while i < inputs.len()
        invariant
            i <= inputs.len(),
            r == xor_all(inputs@.take(i as int)),
        decreases inputs.len() - i,
    {
        proof {
            assert(inputs@.take(i + 1).drop_last() =~= inputs@.take(i as int));
            assert(inputs@.take(i + 1).last() == inputs@[i as int]);
        }
        r = r.bitxor(inputs[i]);
        i = i + 1;
    }
    proof {
        assert(inputs@.take(inputs@.len() as int) =~= inputs@);
    }
    r
}

/// A gate kind: which reduction (possibly complemented) an operation applies
/// to its gathered input values.
#[derive(Clone, Copy, Debug, PartialEq, Eq, Structural)]
pub enum Function {
    And,
    Or,
    XOr,
    NAnd,
    NOr,
    XNOr,
}

/// The value a gate function produces on an ordered list of input values.
/// NAND/NOR/XNOR are NOT composed with AND/OR/XOR.
pub open spec fn spec_calculate(f: Function, s: Seq<Signal>) -> Signal {
    match f {
        Function::And => and_all(s),
        Function::Or => or_all(s),
        Function::XOr => xor_all(s),
        Function::NAnd => spec_not(and_all(s)),
        Function::NOr => spec_not(or_all(s)),
        Function::XNOr => spec_not(xor_all(s)),
    }
}

impl Function {
    /// Applies this gate function to an ordered list of input values.
    pub fn calculate(&self, inputs: Vec<Signal>) -> (r: Signal)
        ensures
            r == spec_calculate(*self, inputs@),
    {
        match self {
            Function::And => and(inputs),
            Function::Or => or(inputs),
            Function::XOr => xor(inputs),
            Function::NAnd => and(inputs).not(),
            Function::NOr => or(inputs).not(),
            Function::XNOr => xor(inputs).not(),
        }
    }
}

/// The number of `High` signals in a sequence.
pub open spec fn count_high(s: Seq<Signal>) -> nat
    decreases s.len(),
{
    if s.len() == 0 {
        0
    } else {
        count_high(s.drop_last()) + (if s.last() == Signal::High {
            1nat
        } else {
            0nat
        })
    }
}

proof fn lemma_contains_drop_last(s: Seq<Signal>, v: Signal)
    requires
        s.len() > 0,
    ensures
        s.contains(v) <==> (s.drop_last().contains(v) || s.last() == v),
{
    if s.drop_last().contains(v) {
        let i = choose|i: int| 0 <= i < s.drop_last().len() && s.drop_last()[i] == v;
        assert(s[i] == v);
    }
    if s.last() == v {
        assert(s[s.len() - 1] == v);
    }
    if s.contains(v) {
        let i = choose|i: int| 0 <= i < s.len() && s[i] == v;
        if i < s.len() - 1 {
            assert(s.drop_last()[i] == v);
        }
    }
}

/// The AND reduction, characterized by which values occur: `Low` wins, then
/// `Undefined`, else `High`.
pub proof fn lemma_and_all_char(s: Seq<Signal>)
    ensures
        and_all(s) == (if s.contains(Signal::Low) {
            Signal::Low
        } else if s.contains(Signal::Undefined) {
            Signal::Undefined
        } else {
            Signal::High
        }),
    decreases s.len(),
{
    if s.len() > 0 {
        lemma_and_all_char(s.drop_last());
        lemma_contains_drop_last(s, Signal::Low);
        lemma_contains_drop_last(s, Signal::Undefined);
    }
}

/// The OR reduction, characterized by which values occur: `High` wins, then
/// `Undefined`, else `Low`.
pub proof fn lemma_or_all_char(s: Seq<Signal>)
    ensures
        or_all(s) == (if s.contains(Signal::High) {
            Signal::High
        } else if s.contains(Signal::Undefined) {
            Signal::Undefined
        } else {
            Signal::Low
        }),
    decreases s.len(),
{
    if s.len() > 0 {
        lemma_or_all_char(s.drop_last());
        lemma_contains_drop_last(s, Signal::High);
        lemma_contains_drop_last(s, Signal::Undefined);
    }
}

/// The XOR reduction, characterized by occurrence of `Undefined` and the
/// parity of the number of `High` values.
pub proof fn lemma_xor_all_char(s: Seq<Signal>)
    ensures
        xor_all(s) == (if s.contains(Signal::Undefined) {
            Signal::Undefined
        } else if count_high(s) % 2 == 1 {
            Signal::High
        } else {
            Signal::Low
        }),
    decreases s.len(),
{
    if s.len() > 0 {
        lemma_xor_all_char(s.drop_last());
        lemma_contains_drop_last(s, Signal::Undefined);
    }
}

proof fn lemma_count_high_multiset(s: Seq<Signal>)
    ensures
        count_high(s) == s.to_multiset().count(Signal::High),
    decreases s.len(),
{
    broadcast use vstd::seq_lib::group_to_multiset_ensures;
    broadcast use vstd::multiset::group_multiset_axioms;

    if s.len() == 0 {
        assert(s.to_multiset() =~= Multiset::<Signal>::empty());
    } else {
        lemma_count_high_multiset(s.drop_last());
        assert(s =~= s.drop_last().push(s.last()));
        assert(s.drop_last().push(s.last()).to_multiset() =~= s.drop_last().to_multiset().insert(
            s.last(),
        ));
    }
}

/// Commutativity of the AND reduction: reordering the inputs (stated as
/// multiset equality) does not change the reduced result.
pub proof fn lemma_and_all_permutation(s1: Seq<Signal>, s2: Seq<Signal>)
    requires
        s1.to_multiset() == s2.to_multiset(),
    ensures
        and_all(s1) == and_all(s2),
{
    lemma_and_all_char(s1);
    lemma_and_all_char(s2);
    vstd::seq_lib::to_multiset_contains(s1, Signal::Low);
    vstd::seq_lib::to_multiset_contains(s2, Signal::Low);
    vstd::seq_lib::to_multiset_contains(s1, Signal::Undefined);
    vstd::seq_lib::to_multiset_contains(s2, Signal::Undefined);

    assert(s1.to_multiset().count(Signal::Low) == s2.to_multiset().count(Signal::Low));
    assert(s1.to_multiset().count(Signal::Undefined) == s2.to_multiset().count(
        Signal::Undefined,
    ));
    assert(s1.contains(Signal::Low) <==> s2.contains(Signal::Low));
    assert(s1.contains(Signal::Undefined) <==> s2.contains(Signal::Undefined));
}

/// Commutativity of the OR reduction: reordering the inputs does not change
/// the reduced result.
pub proof fn lemma_or_all_permutation(s1: Seq<Signal>, s2: Seq<Signal>)
    requires
        s1.to_multiset() == s2.to_multiset(),
    ensures
        or_all(s1) == or_all(s2),
{
    lemma_or_all_char(s1);
    lemma_or_all_char(s2);
    vstd::seq_lib::to_multiset_contains(s1, Signal::High);
    vstd::seq_lib::to_multiset_contains(s2, Signal::High);
    vstd::seq_lib::to_multiset_contains(s1, Signal::Undefined);
    vstd::seq_lib::to_multiset_contains(s2, Signal::Undefined);

    assert(s1.to_multiset().count(Signal::High) == s2.to_multiset().count(Signal::High));
    assert(s1.to_multiset().count(Signal::Undefined) == s2.to_multiset().count(
        Signal::Undefined,
    ));
    assert(s1.contains(Signal::High) <==> s2.contains(Signal::High));
    assert(s1.contains(Signal::Undefined) <==> s2.contains(Signal::Undefined));
}

/// Commutativity of the XOR reduction: reordering the inputs does not change
/// the reduced result.
pub proof fn lemma_xor_all_permutation(s1: Seq<Signal>, s2: Seq<Signal>)
    requires
        s1.to_multiset() == s2.to_multiset(),
    ensures
        xor_all(s1) == xor_all(s2),
{
    lemma_xor_all_char(s1);
    lemma_xor_all_char(s2);
    lemma_count_high_multiset(s1);
    lemma_count_high_multiset(s2);
    vstd::seq_lib::to_multiset_contains(s1, Signal::Undefined);
    vstd::seq_lib::to_multiset_contains(s2, Signal::Undefined);

    assert(s1.to_multiset().count(Signal::Undefined) == s2.to_multiset().count(
        Signal::Undefined,
    ));
    assert(s1.contains(Signal::Undefined) <==> s2.contains(Signal::Undefined));
}

/// Commutativity of every gate function: permuting the input sequence does
/// not change the computed result, for any of the six kinds.
pub proof fn lemma_calculate_permutation(f: Function, s1: Seq<Signal>, s2: Seq<Signal>)
    requires
        s1.to_multiset() == s2.to_multiset(),
    ensures
        spec_calculate(f, s1) == spec_calculate(f, s2),
{
    lemma_and_all_permutation(s1, s2);
    lemma_or_all_permutation(s1, s2);
    lemma_xor_all_permutation(s1, s2);
}

/// On two operands, the reductions agree with the binary truth tables: the
/// seeds `High` (for AND) and `Low` (for OR/XOR) are identities.
pub proof fn lemma_binary_reduction(a: Signal, b: Signal)
    ensures
        and_all(seq![a, b]) == spec_and(a, b),
        or_all(seq![a, b]) == spec_or(a, b),
        xor_all(seq![a, b]) == spec_xor(a, b),
{
    reveal_with_fuel(and_all, 3);
    reveal_with_fuel(or_all, 3);
    reveal_with_fuel(xor_all, 3);
    let s = seq![a, b];
    assert(s.last() == b);
    assert(s.drop_last() =~= seq![a]);
    assert(seq![a].last() == a);
    assert(seq![a].drop_last() =~= Seq::<Signal>::empty());
    assert(and_all(seq![a]) == spec_and(Signal::High, a));
    assert(and_all(s) == spec_and(spec_and(Signal::High, a), b));
    assert(or_all(seq![a]) == spec_or(Signal::Low, a));
    assert(or_all(s) == spec_or(spec_or(Signal::Low, a), b));
    assert(xor_all(seq![a]) == spec_xor(Signal::Low, a));
    assert(xor_all(s) == spec_xor(spec_xor(Signal::Low, a), b));
}

/// NAND, NOR and XNOR are the complement of AND, OR and XOR on every input
/// sequence.
pub proof fn lemma_complement_gates(s: Seq<Signal>)
    ensures
        spec_calculate(Function::NAnd, s) == spec_not(spec_calculate(Function::And, s)),
        spec_calculate(Function::NOr, s) == spec_not(spec_calculate(Function::Or, s)),
        spec_calculate(Function::XNOr, s) == spec_not(spec_calculate(Function::XOr, s)),
{
}

} // verus!
