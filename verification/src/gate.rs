//! Gates, wires and the global label offset.

use crate::primitives::{chacha_first, chacha_keyed};
use crate::s::{xor, S};
use vstd::prelude::*;

verus! {

/// The two-input boolean functions a circuit is built from. The first eight cost
/// one ciphertext each; the last three are free.
#[derive(Clone, Copy, Debug, PartialEq, Eq, Structural)]
pub enum GateType {
    And,
    Nand,
    Nimp,
    Imp,
    Ncimp,
    Cimp,
    Nor,
    Or,
    Xor,
    Xnor,
    Not,
}

/// Position of a gate type in the list of gate types.
pub open spec fn gate_code(t: GateType) -> u32 {
    match t {
        GateType::And => 0,
        GateType::Nand => 1,
        GateType::Nimp => 2,
        GateType::Imp => 3,
        GateType::Ncimp => 4,
        GateType::Cimp => 5,
        GateType::Nor => 6,
        GateType::Or => 7,
        GateType::Xor => 8,
        GateType::Xnor => 9,
        GateType::Not => 10,
    }
}

/// Whether a gate of this type needs no ciphertext.
pub open spec fn free(t: GateType) -> bool {
    t is Xor || t is Xnor || t is Not
}

/// The boolean function of a gate type.
pub open spec fn gate_fn(t: GateType, a: bool, b: bool) -> bool {
    match t {
        GateType::And => a && b,
        GateType::Nand => !(a && b),
        GateType::Nimp => a && !b,
        GateType::Imp => !a || b,
        GateType::Ncimp => !a && b,
        GateType::Cimp => !b || a,
        GateType::Nor => !(a || b),
        GateType::Or => a || b,
        GateType::Xor => a != b,
        GateType::Xnor => a == b,
        GateType::Not => !a,
    }
}

/// The three bits by which a non-free gate is an AND gate with some of its inputs
/// and its output inverted.
pub open spec fn alphas(t: GateType) -> (bool, bool, bool) {
    match t {
        GateType::And => (false, false, false),
        GateType::Nand => (false, false, true),
        GateType::Nimp => (false, true, false),
        GateType::Imp => (false, true, true),
        GateType::Ncimp => (true, false, false),
        GateType::Cimp => (true, false, true),
        GateType::Nor => (true, true, false),
        _ => (true, true, true),
    }
}

impl GateType {
    pub fn is_free(self) -> (r: bool)
        ensures
            r == free(self),
    {
        match self {
            GateType::Xor | GateType::Xnor | GateType::Not => true,
            _ => false,
        }
    }

    /// The value of a gate of this type on two input bits.
    pub fn eval(self, a: bool, b: bool) -> (r: bool)
        ensures
            r == gate_fn(self, a, b),
    {
        match self {
            GateType::And => a && b,
            GateType::Nand => !(a && b),
            GateType::Nimp => a && !b,
            GateType::Imp => !a || b,
            GateType::Ncimp => !a && b,
            GateType::Cimp => !b || a,
            GateType::Nor => !(a || b),
            GateType::Or => a || b,
            GateType::Xor => a != b,
            GateType::Xnor => a == b,
            GateType::Not => !a,
        }
    }

    pub fn alphas_const(self) -> (r: (bool, bool, bool))
        ensures
            r == alphas(self),
    {
        match self {
            GateType::And => (false, false, false),
            GateType::Nand => (false, false, true),
            GateType::Nimp => (false, true, false),
            GateType::Imp => (false, true, true),
            GateType::Ncimp => (true, false, false),
            GateType::Cimp => (true, false, true),
            GateType::Nor => (true, true, false),
            _ => (true, true, true),
        }
    }
}

/// Every non-free gate is an AND gate with the inputs and the output inverted as
/// the three bits of its type say.
pub proof fn alphas_describe_gate(t: GateType, a: bool, b: bool)
    requires
        !free(t),
    ensures
        gate_fn(t, a, b) == (((a != alphas(t).0) && (b != alphas(t).1)) != alphas(t).2),
{
}

/// Gate types compute the functions that they are named after; a name that begins
/// with N is the negation of the one without, and the converse implications are the
/// implications with the inputs exchanged.
pub proof fn gates_are_named_after_functions(a: bool, b: bool)
    ensures
        gate_fn(GateType::And, a, b) <==> a && b,
        gate_fn(GateType::Or, a, b) <==> a || b,
        gate_fn(GateType::Xor, a, b) <==> (a || b) && !(a && b),
        gate_fn(GateType::Imp, a, b) <==> (a ==> b),
        gate_fn(GateType::Cimp, a, b) <==> (b ==> a),
        gate_fn(GateType::Not, a, b) <==> !a,
        gate_fn(GateType::Nand, a, b) != gate_fn(GateType::And, a, b),
        gate_fn(GateType::Nor, a, b) != gate_fn(GateType::Or, a, b),
        gate_fn(GateType::Xnor, a, b) != gate_fn(GateType::Xor, a, b),
        gate_fn(GateType::Nimp, a, b) != gate_fn(GateType::Imp, a, b),
        gate_fn(GateType::Ncimp, a, b) != gate_fn(GateType::Cimp, a, b),
        gate_fn(GateType::Cimp, a, b) == gate_fn(GateType::Imp, b, a),
{
}

/// A gate is free exactly if its function changes with its first input whatever the
/// second is.
pub proof fn free_gates_are_linear(t: GateType)
    ensures
        free(t) <==> gate_fn(t, true, true) != gate_fn(t, false, true) && gate_fn(t, true, false)
            != gate_fn(t, false, false),
{
}

/// The two labels of a wire differ by the offset, and the one for false is the wire's own.
pub proof fn labels_differ_by_offset(label0: S, delta: Delta)
    ensures
        active(label0, delta, false) == label0,
        active(label0, delta, false).0 ^ active(label0, delta, true).0 == delta.0.0,
{
    let (l, d) = (label0.0, delta.0.0);
    assert(l ^ (l ^ d) == d) by (bit_vector);
}

/// Names a wire of a circuit.
#[derive(Clone, Copy, Debug, PartialEq, Eq, Structural)]
pub struct WireId(pub usize);

/// The wire that is always false.
pub const FALSE_WIRE_ID: usize = 0;

/// The wire that is always true.
pub const TRUE_WIRE_ID: usize = 1;

/// The first wire that is not a constant.
pub const MIN_WIRE_ID: usize = 2;

/// The name of a wire that nothing reads.
pub const UNREACHABLE_ID: usize = usize::MAX;

impl From<usize> for WireId {
    fn from(v: usize) -> (r: WireId) {
        WireId(v)
    }
}

impl vstd::std_specs::convert::FromSpecImpl<usize> for WireId {
    open spec fn obeys_from_spec() -> bool {
        true
    }

    open spec fn from_spec(v: usize) -> WireId {
        WireId(v)
    }
}

impl From<WireId> for usize {
    fn from(v: WireId) -> (r: usize) {
        v.0
    }
}

impl vstd::std_specs::convert::FromSpecImpl<WireId> for usize {
    open spec fn obeys_from_spec() -> bool {
        true
    }

    open spec fn from_spec(v: WireId) -> usize {
        v.0
    }
}

/// Whether a wire is one of the two constants.
pub open spec fn constant_wire(w: WireId) -> bool {
    w.0 == FALSE_WIRE_ID || w.0 == TRUE_WIRE_ID
}

/// Whether a wire holds a value that was stored: it is neither a constant nor
/// the unreachable wire.
pub open spec fn stored_wire(w: WireId) -> bool {
    !constant_wire(w) && w.0 != UNREACHABLE_ID
}

impl WireId {
    pub fn is_constant(self) -> (r: bool)
        ensures
            r == constant_wire(self),
    {
        self.0 == FALSE_WIRE_ID || self.0 == TRUE_WIRE_ID
    }

    pub fn is_stored(self) -> (r: bool)
        ensures
            r == stored_wire(self),
    {
        !self.is_constant() && self.0 != UNREACHABLE_ID
    }
}

/// A gate of a circuit: wire `wire_c` carries its function of wires
/// `wire_a` and `wire_b`.
#[derive(Clone, Copy, Debug, PartialEq, Eq, Structural)]
pub struct Gate {
    pub wire_a: WireId,
    pub wire_b: WireId,
    pub wire_c: WireId,
    pub gate_type: GateType,
}

/// The offset between the two labels of every wire.
#[derive(Clone, Copy, Debug, PartialEq, Eq, Structural)]
pub struct Delta(pub S);

/// The label of a wire with false label `label0` that stands for `value`.
pub open spec fn active(label0: S, delta: Delta, value: bool) -> S {
    if value {
        xor(label0, delta.0)
    } else {
        label0
    }
}

impl Delta {
    /// The offset drawn first from the generator keyed with `seed`.
    pub fn generate(seed: [u8; 32]) -> (r: Delta)
        ensures
            r == Delta(S(chacha_keyed(seed@))),
    {
        Delta(S(chacha_first(seed)))
    }
}

/// The two labels of a wire: `label0` stands for false, `label1` for true.
#[derive(Clone, Copy, Debug, PartialEq, Eq, Structural)]
pub struct GarbledWire {
    pub label0: S,
    pub label1: S,
}

/// The label of a garbled wire that stands for `bit`.
pub open spec fn selected(w: GarbledWire, bit: bool) -> S {
    if bit {
        w.label1
    } else {
        w.label0
    }
}

impl GarbledWire {
    pub fn new(label0: S, label1: S) -> (r: GarbledWire)
        ensures
            r == (GarbledWire { label0, label1 }),
    {
        GarbledWire { label0, label1 }
    }

    pub fn select(&self, bit: bool) -> (r: S)
        ensures
            r == selected(*self, bit),
    {
        if bit {
            self.label1
        } else {
            self.label0
        }
    }
}

/// The number of a gate type tells its function: below eight its three bits say which
/// inputs and whether the output of an AND gate are inverted, and the free types follow.
pub proof fn codes_tell_functions(t: GateType, u: GateType, a: bool, b: bool)
    ensures
        gate_code(t) < 8 <==> !free(t),
        gate_code(t) < 8 ==> gate_fn(t, a, b) == (((a != (gate_code(t) / 4 == 1)) && (b != ((gate_code(
            t,
        ) / 2) % 2 == 1))) != (gate_code(t) % 2 == 1)),
        gate_code(t) == 8 ==> gate_fn(t, a, b) == (a != b),
        gate_code(t) == 9 ==> gate_fn(t, a, b) == (a == b),
        gate_code(t) >= 10 ==> gate_code(t) == 10 && gate_fn(t, a, b) == !a,
        gate_code(t) == gate_code(u) ==> t == u,
{
}

/// The constant wires and the wire that nothing reads are not stored, and every other is.
pub proof fn wires_between_are_stored(w: WireId)
    ensures
        stored_wire(w) <==> 1 < w.0 < usize::MAX,
        constant_wire(w) <==> w.0 == 0 || w.0 == 1,
{
}

} // verus!
