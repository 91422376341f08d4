use logic_circuit::circuit::{Circuit, EvalError, MAX_GATES};
use logic_circuit::gate::{Gate, GateId, GateLevel, GateType};

fn output_of(c: &Circuit, id: GateId) -> Option<bool> {
    c.find_gate_by_id(&id).and_then(|g| g.output())
}

#[test]
fn constants_have_reserved_values() {
    assert_eq!(GateId::ground().value(), 0);
    assert_eq!(GateId::power().value(), 1);
}

#[test]
fn gate_type_apply_truth_table() {
    assert!(GateType::AND.apply(true, true));
    assert!(!GateType::AND.apply(true, false));
    assert!(!GateType::AND.apply(false, true));
    assert!(!GateType::AND.apply(false, false));
    assert!(GateType::OR.apply(true, true));
    assert!(GateType::OR.apply(true, false));
    assert!(GateType::OR.apply(false, true));
    assert!(!GateType::OR.apply(false, false));
}

#[test]
fn constant_input_gates_follow_truth_table() {
    let p = GateId::power();
    let g = GateId::ground();
    let cases = [
        (GateType::AND, p, p, true),
        (GateType::AND, p, g, false),
        (GateType::AND, g, p, false),
        (GateType::AND, g, g, false),
        (GateType::OR, p, p, true),
        (GateType::OR, p, g, true),
        (GateType::OR, g, p, true),
        (GateType::OR, g, g, false),
    ];
    let mut c = Circuit::new();
    let mut ids = Vec::new();
    for (t, a, b, _) in cases.iter() {
        ids.push(c.add_gate(*t, *a, *b));
    }
    assert_eq!(c.evaluate(), Ok(()));
    for (id, (_, _, _, expected)) in ids.iter().zip(cases.iter()) {
        assert_eq!(output_of(&c, *id), Some(*expected));
        assert_eq!(c.extract(id), Ok(*expected));
    }
}

#[test]
fn evaluate_twice_gives_same_outputs() {
    let mut c = Circuit::new();
    let a = c.add_gate(GateType::AND, GateId::power(), GateId::ground());
    let b = c.add_gate(GateType::OR, a, GateId::power());
    let d = c.add_gate(GateType::AND, b, a);
    assert_eq!(c.evaluate(), Ok(()));
    let first: Vec<Option<bool>> = [a, b, d].iter().map(|id| output_of(&c, *id)).collect();
    assert_eq!(c.evaluate(), Ok(()));
    let second: Vec<Option<bool>> = [a, b, d].iter().map(|id| output_of(&c, *id)).collect();
    assert_eq!(first, second);
    assert_eq!(second, vec![Some(false), Some(true), Some(false)]);
}

#[test]
fn depth_classification() {
    let mut c = Circuit::new();
    let a = c.add_gate(GateType::AND, GateId::power(), GateId::ground());
    let b = c.add_gate(GateType::OR, a, GateId::power());
    let b2 = c.add_gate(GateType::OR, GateId::ground(), a);
    let d = c.add_gate(GateType::AND, b, a);
    assert_eq!(c.find_gate_by_id(&a).unwrap().get_level(), GateLevel::ZERO);
    assert_eq!(c.find_gate_by_id(&b).unwrap().get_level(), GateLevel::ONE);
    assert_eq!(c.find_gate_by_id(&b2).unwrap().get_level(), GateLevel::ONE);
    assert_eq!(c.find_gate_by_id(&d).unwrap().get_level(), GateLevel::TWO);
    assert_eq!(Gate::calculate_level(&GateId::ground(), &GateId::power()), GateLevel::ZERO);
    assert_eq!(Gate::calculate_level(&a, &GateId::ground()), GateLevel::ONE);
    assert_eq!(Gate::calculate_level(&a, &b), GateLevel::TWO);
}

#[test]
fn identifiers_are_allocated_in_sequence() {
    let mut c = Circuit::new();
    assert_eq!(c.gate_count(), 0);
    let a = c.add_gate(GateType::OR, GateId::ground(), GateId::ground());
    let b = c.add_gate(GateType::AND, a, a);
    let d = c.add_gate(GateType::OR, GateId::power(), b);
    assert_eq!(a.value(), 2);
    assert_eq!(b.value(), 3);
    assert_eq!(d.value(), 4);
    assert_eq!(c.gate_count(), 3);
}

#[test]
fn new_gates_are_unresolved() {
    let mut c = Circuit::new();
    let a = c.add_gate(GateType::OR, GateId::power(), GateId::ground());
    let g = c.find_gate_by_id(&a).unwrap();
    assert_eq!(g.output(), None);
    assert_eq!(g.gate_type(), GateType::OR);
    assert_eq!(g.id(), a);
    assert_eq!(g.inputs(), (GateId::power(), GateId::ground()));
    assert_eq!(c.extract(&a), Err(EvalError::NotResolved(2)));
}

#[test]
fn dangling_reference_is_an_error() {
    let mut other = Circuit::new();
    other.add_gate(GateType::AND, GateId::power(), GateId::power());
    other.add_gate(GateType::AND, GateId::power(), GateId::power());
    let far = other.add_gate(GateType::AND, GateId::power(), GateId::power());
    let mut c = Circuit::new();
    let a = c.add_gate(GateType::OR, GateId::power(), far);
    assert_eq!(c.evaluate(), Err(EvalError::NotFound(4)));
    assert_eq!(output_of(&c, a), None);
    assert_eq!(c.extract(&far), Err(EvalError::NotFound(4)));
    assert!(c.find_gate_by_id(&far).is_none());
}

#[test]
fn forward_reference_is_not_resolved() {
    let mut other = Circuit::new();
    let x = other.add_gate(GateType::AND, GateId::power(), GateId::power());
    let later = other.add_gate(GateType::AND, GateId::power(), GateId::power());
    let mut c = Circuit::new();
    let a = c.add_gate(GateType::AND, later, GateId::power());
    let b = c.add_gate(GateType::OR, GateId::power(), GateId::ground());
    assert_eq!(b, later);
    assert_eq!(x, a);
    assert_eq!(c.evaluate(), Err(EvalError::NotResolved(3)));
    assert_eq!(output_of(&c, a), None);
    assert_eq!(output_of(&c, b), None);
}

#[test]
fn self_reference_is_not_resolved() {
    let mut other = Circuit::new();
    let own = other.add_gate(GateType::AND, GateId::power(), GateId::power());
    let mut c = Circuit::new();
    c.add_gate(GateType::OR, GateId::ground(), own);
    assert_eq!(c.evaluate(), Err(EvalError::NotResolved(2)));
}

#[test]
fn failed_evaluation_keeps_earlier_outputs() {
    let mut c = Circuit::new();
    let a = c.add_gate(GateType::OR, GateId::power(), GateId::ground());
    assert_eq!(c.evaluate(), Ok(()));
    let mut other = Circuit::new();
    for _ in 0..9 {
        other.add_gate(GateType::AND, GateId::power(), GateId::power());
    }
    let far = other.add_gate(GateType::AND, GateId::power(), GateId::power());
    let b = c.add_gate(GateType::AND, a, far);
    assert_eq!(c.evaluate(), Err(EvalError::NotFound(11)));
    assert_eq!(output_of(&c, a), Some(true));
    assert_eq!(output_of(&c, b), None);
}

#[test]
fn scenario_and_or_and() {
    let mut c = Circuit::new();
    let a = c.add_gate(GateType::AND, GateId::power(), GateId::ground());
    let b = c.add_gate(GateType::OR, a, GateId::power());
    let d = c.add_gate(GateType::AND, b, a);
    assert_eq!(c.evaluate(), Ok(()));
    assert_eq!(output_of(&c, a), Some(false));
    assert_eq!(output_of(&c, b), Some(true));
    assert_eq!(output_of(&c, d), Some(false));
}

#[test]
fn scenario_all_ground() {
    let mut c = Circuit::new();
    let a = c.add_gate(GateType::OR, GateId::ground(), GateId::ground());
    let b = c.add_gate(GateType::AND, a, GateId::ground());
    let d = c.add_gate(GateType::OR, b, a);
    assert_eq!(c.evaluate(), Ok(()));
    assert_eq!(output_of(&c, a), Some(false));
    assert_eq!(output_of(&c, b), Some(false));
    assert_eq!(output_of(&c, d), Some(false));
}

#[test]
fn deep_chain_resolves() {
    let mut c = Circuit::new();
    let mut prev = c.add_gate(GateType::AND, GateId::power(), GateId::power());
    let mut ids = vec![prev];
    for i in 0..20 {
        let t = if i % 2 == 0 { GateType::AND } else { GateType::OR };
        prev = c.add_gate(t, prev, GateId::power());
        ids.push(prev);
    }
    let last = c.add_gate(GateType::AND, prev, ids[3]);
    let neg = c.add_gate(GateType::AND, last, GateId::ground());
    assert_eq!(c.evaluate(), Ok(()));
    for id in ids {
        assert_eq!(output_of(&c, id), Some(true));
    }
    assert_eq!(output_of(&c, last), Some(true));
    assert_eq!(output_of(&c, neg), Some(false));
}

#[test]
fn empty_circuit_evaluates() {
    let mut c = Circuit::new();
    assert_eq!(c.evaluate(), Ok(()));
    assert_eq!(c.gate_count(), 0);
    assert_eq!(c.extract(&GateId::power()), Ok(true));
    assert_eq!(c.extract(&GateId::ground()), Ok(false));
}

#[test]
fn circuit_holds_max_gates() {
    let mut c = Circuit::new();
    let mut last = GateId::power();
    for _ in 0..MAX_GATES {
        last = c.add_gate(GateType::OR, GateId::ground(), GateId::power());
    }
    assert_eq!(c.gate_count(), MAX_GATES);
    assert_eq!(last.value(), 254);
    assert_eq!(c.evaluate(), Ok(()));
    assert_eq!(c.extract(&last), Ok(true));
}
