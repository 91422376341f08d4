//! Signal references and single gates.
use vstd::prelude::*;

verus! {

/// A reference to a signal: `0` is ground (false), `1` is power (true), and
/// every value from `2` up names the output of a gate created with it.
#[derive(Debug, Clone, Copy, PartialEq, Eq)]
pub struct GateId(u8);

impl View for GateId {
    type V = u8;

    closed spec fn view(&self) -> u8 {
        self.0
    }
}

/// The numeric value of the ground constant.
pub open spec fn ground_value() -> u8 {
    0
}

/// The numeric value of the power constant.
pub open spec fn power_value() -> u8 {
    1
}

/// A reference names a constant rather than a gate.
pub open spec fn is_constant(r: u8) -> bool {
    r <= 1
}

impl GateId {
    pub(crate) fn new(id: u8) -> (r: GateId)
        ensures
            r@ == id,
    {
        GateId(id)
    }

    /// The constant true signal.
    pub fn power() -> (r: GateId)
        ensures
            r@ == power_value(),
    {
        GateId(1)
    }

    /// The constant false signal.
    pub fn ground() -> (r: GateId)
        ensures
            r@ == ground_value(),
    {
        GateId(0)
    }

    pub fn value(&self) -> (r: u8)
        ensures
            r == self@,
    {
        self.0
    }
}

/// The boolean operation a gate performs.
#[derive(Debug, Clone, Copy, PartialEq, Eq)]
pub enum GateType {
    AND,
    OR,
}

/// Dependency depth class of a gate, derived from how many of its inputs are
/// gate outputs rather than constants.
#[derive(Debug, Clone, Copy, PartialEq, Eq)]
pub enum GateLevel {
    ZERO,
    ONE,
    TWO,
}

/// The result of operation `t` on inputs `a` and `b`.
pub open spec fn apply_op(t: GateType, a: bool, b: bool) -> bool {
    match t {
        GateType::AND => a && b,
        GateType::OR => a || b,
    }
}

impl GateType {
    /// The operation applied to `a` and `b`.
    pub fn apply(&self, a: bool, b: bool) -> (r: bool)
        ensures
            r == apply_op(*self, a, b),
    {
        match self {
            GateType::AND => a && b,
            GateType::OR => a || b,
        }
    }
}

/// Depth class of a gate with inputs `i1` and `i2`: zero when both are
/// constants, one when exactly one is, two when neither is.
pub open spec fn level_of(i1: u8, i2: u8) -> GateLevel {
    if is_constant(i1) && is_constant(i2) {
        GateLevel::ZERO
    } else if is_constant(i1) || is_constant(i2) {
        GateLevel::ONE
    } else {
        GateLevel::TWO
    }
}

/// What a gate is, with references as plain numbers.
pub struct GateModel {
    pub id: u8,
    pub level: GateLevel,
    pub gate_type: GateType,
    pub inputs: (u8, u8),
    pub output: Option<bool>,
}

/// One two-input gate; its output is `None` until the circuit is evaluated.
#[derive(Debug, Clone, Copy)]
pub struct Gate {
    id: GateId,
    level: GateLevel,
    gate_type: GateType,
    input: (GateId, GateId),
    output: Option<bool>,
}

impl View for Gate {
    type V = GateModel;

    closed spec fn view(&self) -> GateModel {
        GateModel {
            id: self.id@,
            level: self.level,
            gate_type: self.gate_type,
            inputs: (self.input.0@, self.input.1@),
            output: self.output,
        }
    }
}

impl Gate {
    pub fn get_level(&self) -> (r: GateLevel)
        ensures
            r == self@.level,
    {
        self.level
    }

    /// Depth class of a gate wired to `i1` and `i2`.
    pub fn calculate_level(i1: &GateId, i2: &GateId) -> (r: GateLevel)
        ensures
            r == level_of(i1@, i2@),
    {
        match (i1.value() <= 1, i2.value() <= 1) {
            (true, true) => GateLevel::ZERO,
            (true, false) => GateLevel::ONE,
            (false, true) => GateLevel::ONE,
            (false, false) => GateLevel::TWO,
        }
    }

    /// A new, unresolved gate.
    pub(crate) fn new(id: GateId, gate_type: GateType, input1: GateId, input2: GateId) -> (r: Gate)
        ensures
            r@ == (GateModel {
                id: id@,
                level: level_of(input1@, input2@),
                gate_type,
                inputs: (input1@, input2@),
                output: None,
            }),
    {
        Gate {
            id,
            level: Self::calculate_level(&input1, &input2),
            gate_type,
            input: (input1, input2),
            output: None,
        }
    }

    /// The same gate with its output resolved to `value`.
    pub(crate) fn resolved(&self, value: bool) -> (r: Gate)
        ensures
            r@ == (GateModel { output: Some(value), ..self@ }),
    {
        Gate { output: Some(value), ..*self }
    }

    pub fn id(&self) -> (r: GateId)
        ensures
            r@ == self@.id,
    {
        self.id
    }

    pub fn gate_type(&self) -> (r: GateType)
        ensures
            r == self@.gate_type,
    {
        self.gate_type
    }

    pub fn inputs(&self) -> (r: (GateId, GateId))
        ensures
            r.0@ == self@.inputs.0,
            r.1@ == self@.inputs.1,
    {
        self.input
    }

    /// The resolved output, or `None` before evaluation.
    pub fn output(&self) -> (r: Option<bool>)
        ensures
            r == self@.output,
    {
        self.output
    }
}

} // verus!
