//! A circuit: gate storage, identifier allocation and evaluation.
use vstd::prelude::*;

use crate::gate::{apply_op, is_constant, level_of, Gate, GateId, GateModel, GateType};

verus! {

/// The most gates a circuit holds: identifiers are bytes, and the next one to
/// hand out must stay representable.
pub const MAX_GATES: usize = 253;

/// Why a signal reference could not be resolved to a value.
#[derive(Debug, Clone, Copy, PartialEq, Eq)]
pub enum EvalError {
    /// No constant and no gate of the circuit has this identifier.
    NotFound(u8),
    /// That gate exists but its output was needed before it was computed.
    NotResolved(u8),
}

/// An ordered collection of gates; a gate at position `i` has identifier
/// `i + 2`.
#[derive(Debug)]
pub struct Circuit {
    connections: Vec<Gate>,
    next_id: u8,
}

/// Value of reference `r` for a gate of `gates` that sees `vals`, the outputs
/// of the gates before it: constants are themselves, an earlier gate gives its
/// output, a gate at or after the reader is not resolved yet, and anything else
/// does not exist.
pub open spec fn read_signal(gates: Seq<GateModel>, vals: Seq<bool>, r: u8) -> Result<bool, EvalError> {
    if r == 0 {
        Ok(false)
    } else if r == 1 {
        Ok(true)
    } else if r - 2 < vals.len() {
        Ok(vals[r - 2])
    } else if r - 2 < gates.len() {
        Err(EvalError::NotResolved(r))
    } else {
        Err(EvalError::NotFound(r))
    }
}

/// Outputs of the first `n` gates, each computed from its two inputs in order
/// of creation, or the first failure to read an input.
pub open spec fn eval_prefix(gates: Seq<GateModel>, n: nat) -> Result<Seq<bool>, EvalError>
    decreases n,
{
    if n == 0 {
        Ok(Seq::empty())
    } else {
        match eval_prefix(gates, (n - 1) as nat) {
            Err(e) => Err(e),
            Ok(vals) => {
                let g = gates[n - 1];
                match read_signal(gates, vals, g.inputs.0) {
                    Err(e) => Err(e),
                    Ok(a) => match read_signal(gates, vals, g.inputs.1) {
                        Err(e) => Err(e),
                        Ok(b) => Ok(vals.push(apply_op(g.gate_type, a, b))),
                    },
                }
            },
        }
    }
}

/// Outputs of all gates of `gates`, or the first failure.
pub open spec fn evaluation(gates: Seq<GateModel>) -> Result<Seq<bool>, EvalError> {
    eval_prefix(gates, gates.len())
}

/// `gates` with output `vals[i]` set on each gate at position `i`.
pub open spec fn with_outputs(gates: Seq<GateModel>, vals: Seq<bool>) -> Seq<GateModel> {
    Seq::new(gates.len(), |i: int| GateModel { output: Some(vals[i]), ..gates[i] })
}

/// What `add_gate` creates as the `n`-th gate.
pub open spec fn new_gate(n: nat, gate_type: GateType, i1: u8, i2: u8) -> GateModel {
    GateModel {
        id: (n + 2) as u8,
        level: level_of(i1, i2),
        gate_type,
        inputs: (i1, i2),
        output: None,
    }
}

/// Value of reference `r` in the circuit as it stands.
pub open spec fn stored_signal(gates: Seq<GateModel>, r: u8) -> Result<bool, EvalError> {
    if r == 0 {
        Ok(false)
    } else if r == 1 {
        Ok(true)
    } else if r - 2 < gates.len() {
        match gates[r - 2].output {
            Some(v) => Ok(v),
            None => Err(EvalError::NotResolved(r)),
        }
    } else {
        Err(EvalError::NotFound(r))
    }
}

impl View for Circuit {
    type V = Seq<GateModel>;

    closed spec fn view(&self) -> Seq<GateModel> {
        self.connections@.map_values(|g: Gate| g@)
    }
}

impl Circuit {
    /// Identifiers follow positions, the counter is the next identifier, and
    /// every gate's level matches its inputs.
    pub closed spec fn well_formed(&self) -> bool {
        &&& self.connections@.len() <= MAX_GATES
        &&& self.next_id == self.connections@.len() + 2
        &&& forall|i: int|
            0 <= i < self@.len() ==> #[trigger] self@[i].id == i + 2 && self@[i].level
                == level_of(self@[i].inputs.0, self@[i].inputs.1)
    }

    /// An empty circuit; the first gate added will be identifier 2.
    pub fn new() -> (r: Circuit)
        ensures
            r.well_formed(),
            r@ == Seq::<GateModel>::empty(),
    {
        let r = Circuit { connections: Vec::new(), next_id: 2 };
        assert(r@ =~= Seq::<GateModel>::empty());
        r
    }

    /// Number of gates added so far.
    pub fn gate_count(&self) -> (r: usize)
        requires
            self.well_formed(),
        ensures
            r == self@.len(),
    {
        self.connections.len()
    }

    /// Adds a gate of kind `gate_type` wired to `input1` and `input2`, and
    /// returns its identifier, one past the previous gate's.
    pub fn add_gate(&mut self, gate_type: GateType, input1: GateId, input2: GateId) -> (r: GateId)
        requires
            old(self).well_formed(),
            old(self)@.len() < MAX_GATES,
        ensures
            final(self).well_formed(),
            r@ == old(self)@.len() + 2,
            final(self)@ == old(self)@.push(
                new_gate(old(self)@.len(), gate_type, input1@, input2@),
            ),
    {
        let gate_id = GateId::new(self.next_id);
        self.next_id = self.next_id + 1;
        let gate = Gate::new(gate_id, gate_type, input1, input2);
        self.connections.push(gate);
        assert(self@ =~= old(self)@.push(new_gate(old(self)@.len(), gate_type, input1@, input2@)));
        gate_id
    }

    /// A gate with identifier `gate_id`, if the circuit has one.
    pub fn find_gate_by_id(&self, gate_id: &GateId) -> (r: Option<&Gate>)
        requires
            self.well_formed(),
        ensures
            2 <= gate_id@ < self@.len() + 2 ==> r is Some && r->0@ == self@[gate_id@ - 2],
            !(2 <= gate_id@ < self@.len() + 2) ==> r is None,
    {
        let v = gate_id.value();
        if v >= 2 && ((v - 2) as usize) < self.connections.len() {
            Some(&self.connections[(v - 2) as usize])
        } else {
            None
        }
    }

    /// The boolean that `gate_id` currently carries: a constant's value, or
    /// the resolved output of a gate it names.
    pub fn extract(&self, gate_id: &GateId) -> (r: Result<bool, EvalError>)
        requires
            self.well_formed(),
        ensures
            r == stored_signal(self@, gate_id@),
    {
        let v = gate_id.value();
        if v == 0 {
            Ok(false)
        } else if v == 1 {
            Ok(true)
        } else {
            match self.find_gate_by_id(gate_id) {
                Some(gate) => match gate.output() {
                    Some(output) => Ok(output),
                    None => Err(EvalError::NotResolved(v)),
                },
                None => Err(EvalError::NotFound(v)),
            }
        }
    }

    /// Value of `gate_id` for a gate that sees `vals`, the outputs computed so
    /// far in the current pass.
    fn read_in_pass(&self, vals: &Vec<bool>, gate_id: &GateId) -> (r: Result<bool, EvalError>)
        requires
            self.well_formed(),
            vals@.len() <= self@.len(),
        ensures
            r == read_signal(self@, vals@, gate_id@),
    {
        let v = gate_id.value();
        if v == 0 {
            Ok(false)
        } else if v == 1 {
            Ok(true)
        } else if ((v - 2) as usize) < vals.len() {
            Ok(vals[(v - 2) as usize])
        } else if ((v - 2) as usize) < self.connections.len() {
            Err(EvalError::NotResolved(v))
        } else {
            Err(EvalError::NotFound(v))
        }
    }

    /// Resolves every gate's output from its inputs, taking the gates in order
    /// of creation: each gate may read the constants and the gates created
    /// before it, which makes this a dependency order for circuits of any
    /// depth. All inputs are read first and the outputs written afterwards,
    /// so on failure the circuit is left as it was.
    pub fn evaluate(&mut self) -> (r: Result<(), EvalError>)
        requires
            old(self).well_formed(),
        ensures
            final(self).well_formed(),
            match evaluation(old(self)@) {
                Ok(vals) => r is Ok && final(self)@ == with_outputs(old(self)@, vals),
                Err(e) => r == Err::<(), EvalError>(e) && final(self)@ == old(self)@,
            },
    {
        let n = self.connections.len();
        let mut vals: Vec<bool> = Vec::new();
        let mut i: usize = 0;
        while i < n
            invariant
                self.well_formed(),
                n == self@.len(),
                i <= n,
                vals@.len() == i,
                eval_prefix(self@, i as nat) == Ok::<Seq<bool>, EvalError>(vals@),
            decreases n - i,
        {
            let gate = &self.connections[i];
            let (in1, in2) = gate.inputs();
            let a = match self.read_in_pass(&vals, &in1) {
                Ok(a) => a,
                Err(e) => {
                    proof {
                        lemma_failure_persists(self@, (i + 1) as nat, n as nat);
                    }
                    return Err(e);
                },
            };
            let b = match self.read_in_pass(&vals, &in2) {
                Ok(b) => b,
                Err(e) => {
                    proof {
                        lemma_failure_persists(self@, (i + 1) as nat, n as nat);
                    }
                    return Err(e);
                },
            };
            vals.push(gate.gate_type().apply(a, b));
            i = i + 1;
        }
        let mut resolved: Vec<Gate> = Vec::new();
        let mut j: usize = 0;
        while j < n
            invariant
                self.well_formed(),
                n == self@.len(),
                vals@.len() == n,
                j <= n,
                resolved@.len() == j,
                forall|k: int| 0 <= k < j ==> #[trigger] resolved@[k]@ == with_outputs(self@, vals@)[k],
            decreases n - j,
        {
            let g = self.connections[j].resolved(vals[j]);
            resolved.push(g);
            j = j + 1;
        }
        let ghost before = self@;
        self.connections = resolved;
        assert(self@ =~= with_outputs(before, vals@));
        Ok(())
    }
}

/// Once a prefix of the gates fails to evaluate, every longer prefix fails
/// with the same error.
proof fn lemma_failure_persists(gates: Seq<GateModel>, n: nat, m: nat)
    requires
        n <= m <= gates.len(),
        eval_prefix(gates, n) is Err,
    ensures
        eval_prefix(gates, m) == eval_prefix(gates, n),
    decreases m - n,
{
    if n < m {
        lemma_failure_persists(gates, n, (m - 1) as nat);
    }
}

/// A successful evaluation of a prefix gives one output per gate, and its
/// shorter prefixes evaluate to the corresponding prefixes of the outputs.
proof fn lemma_prefix_outputs(gates: Seq<GateModel>, n: nat, m: nat)
    requires
        m <= n <= gates.len(),
        eval_prefix(gates, n) is Ok,
    ensures
        eval_prefix(gates, n)->Ok_0.len() == n,
        eval_prefix(gates, m) == Ok::<Seq<bool>, EvalError>(eval_prefix(gates, n)->Ok_0.take(m as int)),
    decreases n,
{
    if n > 0 {
        lemma_prefix_outputs(gates, (n - 1) as nat, (n - 1) as nat);
        let vals = eval_prefix(gates, n)->Ok_0;
        let prev = eval_prefix(gates, (n - 1) as nat)->Ok_0;
        assert(vals.take((n - 1) as int) =~= prev);
        if m < n {
            lemma_prefix_outputs(gates, (n - 1) as nat, m);
            assert(vals.take(m as int) =~= prev.take(m as int));
        } else {
            assert(vals.take(m as int) =~= vals);
        }
    } else {
        assert(eval_prefix(gates, n)->Ok_0.take(m as int) =~= Seq::<bool>::empty());
    }
}

/// Evaluation reads only identifiers, kinds and inputs: two gate sequences
/// that agree on those evaluate alike.
proof fn lemma_outputs_ignored(gates: Seq<GateModel>, other: Seq<GateModel>, n: nat)
    requires
        n <= gates.len(),
        other.len() == gates.len(),
        forall|i: int|
            0 <= i < gates.len() ==> #[trigger] other[i].inputs == gates[i].inputs
                && other[i].gate_type == gates[i].gate_type,
    ensures
        eval_prefix(other, n) == eval_prefix(gates, n),
    decreases n,
{
    if n > 0 {
        lemma_outputs_ignored(gates, other, (n - 1) as nat);
    }
}

/// After a successful evaluation every gate's output is its operation applied
/// to the values its two inputs carry in the evaluated circuit.
pub proof fn lemma_outputs_consistent(gates: Seq<GateModel>, i: int)
    requires
        evaluation(gates) is Ok,
        0 <= i < gates.len(),
    ensures
        ({
            let done = with_outputs(gates, evaluation(gates)->Ok_0);
            &&& stored_signal(done, gates[i].inputs.0) is Ok
            &&& stored_signal(done, gates[i].inputs.1) is Ok
            &&& done[i].output == Some(
                apply_op(
                    gates[i].gate_type,
                    stored_signal(done, gates[i].inputs.0)->Ok_0,
                    stored_signal(done, gates[i].inputs.1)->Ok_0,
                ),
            )
        }),
{
    let n = gates.len();
    let vals = evaluation(gates)->Ok_0;
    lemma_prefix_outputs(gates, n, (i + 1) as nat);
    lemma_prefix_outputs(gates, n, i as nat);
    let done = with_outputs(gates, vals);
    let before = vals.take(i);
    assert(eval_prefix(gates, (i + 1) as nat)->Ok_0 =~= vals.take(i + 1));
    assert(vals.take(i + 1)[i] == vals[i]);
    let r1 = gates[i].inputs.0;
    let r2 = gates[i].inputs.1;
    assert(read_signal(gates, before, r1) is Ok);
    assert(read_signal(gates, before, r2) is Ok);
    if r1 >= 2 {
        assert(done[r1 - 2].output == Some(vals[r1 - 2]));
        assert(before[r1 - 2] == vals[r1 - 2]);
    }
    if r2 >= 2 {
        assert(done[r2 - 2].output == Some(vals[r2 - 2]));
        assert(before[r2 - 2] == vals[r2 - 2]);
    }
}

/// A gate whose two inputs are constants resolves to its operation applied to
/// the constants' values, ground being false and power true.
pub proof fn lemma_constant_inputs(gates: Seq<GateModel>, i: int)
    requires
        evaluation(gates) is Ok,
        0 <= i < gates.len(),
        is_constant(gates[i].inputs.0),
        is_constant(gates[i].inputs.1),
    ensures
        with_outputs(gates, evaluation(gates)->Ok_0)[i].output == Some(
            apply_op(gates[i].gate_type, gates[i].inputs.0 == 1, gates[i].inputs.1 == 1),
        ),
{
    lemma_outputs_consistent(gates, i);
}

/// Evaluating a circuit that was just evaluated succeeds again with the same
/// outputs and leaves it unchanged.
pub proof fn lemma_evaluate_idempotent(gates: Seq<GateModel>)
    requires
        evaluation(gates) is Ok,
    ensures
        evaluation(with_outputs(gates, evaluation(gates)->Ok_0)) == evaluation(gates),
        with_outputs(
            with_outputs(gates, evaluation(gates)->Ok_0),
            evaluation(gates)->Ok_0,
        ) == with_outputs(gates, evaluation(gates)->Ok_0),
{
    let vals = evaluation(gates)->Ok_0;
    let done = with_outputs(gates, vals);
    lemma_prefix_outputs(gates, gates.len(), gates.len());
    lemma_outputs_ignored(gates, done, gates.len());
    assert(with_outputs(done, vals) =~= done);
}

/// An input that names neither a constant nor any gate of the circuit makes
/// evaluation fail rather than yield a value.
pub proof fn lemma_dangling_reference_fails(gates: Seq<GateModel>, i: int)
    requires
        0 <= i < gates.len(),
        gates[i].inputs.0 >= gates.len() + 2 || gates[i].inputs.1 >= gates.len() + 2,
    ensures
        evaluation(gates) is Err,
{
    if eval_prefix(gates, i as nat) is Ok {
        lemma_prefix_outputs(gates, i as nat, i as nat);
    } else {
        lemma_failure_persists(gates, i as nat, (i + 1) as nat);
    }
    assert(eval_prefix(gates, (i + 1) as nat) is Err);
    lemma_failure_persists(gates, (i + 1) as nat, gates.len());
}

/// In a well-formed circuit the first gate has identifier 2 and each later
/// gate the identifier of the one before it plus one.
pub proof fn lemma_sequential_ids(c: &Circuit)
    requires
        c.well_formed(),
    ensures
        c@.len() > 0 ==> c@[0].id == 2,
        forall|i: int| 0 < i < c@.len() ==> #[trigger] c@[i].id == c@[i - 1].id + 1,
{
    assert forall|i: int| 0 < i < c@.len() implies #[trigger] c@[i].id == c@[i - 1].id + 1 by {
        assert(c@[i].id == i + 2);
        assert(c@[i - 1].id == i + 1);
    }
    if c@.len() > 0 {
        assert(c@[0].id == 2);
    }
}

} // verus!