use circom_tfhe_rs::{BuilderError, Circuit, Gate, GateType, Node, ParseError, TypedValue, ValueType};

fn n(index: usize) -> Node {
    Node { index }
}

#[test]
fn xor_gate_loads_with_two_operands() {
    let c = Circuit::parse("2 1 0 1 2 XOR\n", &[ValueType::Bit, ValueType::Bit], &[ValueType::Bit])
        .unwrap();
    assert_eq!(c.gates().len(), 1);
    assert_eq!(c.gates()[0].gate_type(), GateType::Xor);
    assert_eq!(c.gates()[0].inputs().len(), 2);
}

#[test]
fn and_gate_loads_with_two_operands() {
    let c = Circuit::parse("2 1 0 1 2 AND\n", &[ValueType::Bit, ValueType::Bit], &[ValueType::Bit])
        .unwrap();
    assert_eq!(c.gates().len(), 1);
    assert_eq!(c.gates()[0], Gate::And { x: n(0), y: n(1), z: n(2) });
    assert_eq!(c.gates()[0].inputs(), vec![n(0), n(1)]);
}

#[test]
fn inv_gate_loads_with_one_operand() {
    let c = Circuit::parse("1 1 0 1 INV\n", &[ValueType::Bit], &[ValueType::Bit]).unwrap();
    assert_eq!(c.gates().len(), 1);
    assert_eq!(c.gates()[0], Gate::Inv { x: n(0), z: n(1) });
    assert_eq!(c.gates()[0].inputs().len(), 1);
    assert_eq!(c.gates()[0].output(), n(1));
}

#[test]
fn xor_output_is_the_conversion_of_the_gate_result() {
    let c = Circuit::parse("2 1 0 1 2 XOR\n", &[ValueType::Bits(2)], &[ValueType::Bit]).unwrap();
    let z = c.gates()[0].output();
    let expected = ValueType::Bit.to_bin_repr(&[z]).unwrap();
    assert_eq!(c.outputs().len(), 1);
    assert_eq!(c.outputs()[0], expected);
}

#[test]
fn two_bit_input_xor_scenario() {
    let c = Circuit::parse("2 1 0 1 2 XOR\n", &[ValueType::Bits(2)], &[ValueType::Bit]).unwrap();
    assert_eq!(c.gates(), &vec![Gate::Xor { x: n(0), y: n(1), z: n(2) }]);
    assert_eq!(
        c.inputs(),
        &vec![TypedValue { ty: ValueType::Bits(2), feeds: vec![n(0), n(1)] }]
    );
    assert_eq!(c.outputs(), &vec![TypedValue { ty: ValueType::Bit, feeds: vec![n(2)] }]);
    assert_eq!(c.feed_count(), 3);
}

#[test]
fn xor_record_without_second_operand_is_malformed() {
    let r = Circuit::parse("1 1 0 1 XOR\n", &[ValueType::Bits(2)], &[ValueType::Bit]);
    assert!(matches!(r, Err(ParseError::MissingOperand(GateType::Xor))));
}

#[test]
fn undefined_operand_is_reported_with_its_id() {
    let r = Circuit::parse("1 1 100 1 INV\n", &[ValueType::Bit], &[ValueType::Bit]);
    assert!(matches!(r, Err(ParseError::UninitializedFeed(100))));
}

#[test]
fn undefined_second_operand_is_reported_with_its_id() {
    let r = Circuit::parse("2 1 0 7 2 AND\n", &[ValueType::Bit, ValueType::Bit], &[ValueType::Bit]);
    assert!(matches!(r, Err(ParseError::UninitializedFeed(7))));
}

#[test]
fn operand_defined_by_a_later_gate_is_undefined() {
    let text = "2 1 0 3 2 XOR\n2 1 0 1 3 AND\n";
    let r = Circuit::parse(text, &[ValueType::Bit, ValueType::Bit], &[ValueType::Bit]);
    assert!(matches!(r, Err(ParseError::UninitializedFeed(3))));
}

#[test]
fn nand_is_an_unsupported_gate_type() {
    let r = Circuit::parse("2 1 0 1 2 NAND\n", &[ValueType::Bit, ValueType::Bit], &[ValueType::Bit]);
    match r {
        Err(ParseError::UnsupportedGateType(s)) => assert_eq!(s, "NAND"),
        _ => panic!("expected an unsupported gate type"),
    }
}

#[test]
fn too_wide_outputs_are_insufficient() {
    let r = Circuit::parse("2 1 0 1 2 XOR\n", &[ValueType::Bit, ValueType::Bit], &[ValueType::U8]);
    assert!(matches!(
        r,
        Err(ParseError::BuilderError(BuilderError::InsufficientOutputs { width: 8, available: 1 }))
    ));
}

#[test]
fn outputs_fail_from_the_last_descriptor() {
    let text = "2 1 0 1 2 XOR\n2 1 0 2 3 AND\n";
    let r = Circuit::parse(
        text,
        &[ValueType::Bit, ValueType::Bit],
        &[ValueType::Bit, ValueType::Bit, ValueType::Bit],
    );
    assert!(matches!(
        r,
        Err(ParseError::BuilderError(BuilderError::InsufficientOutputs { width: 1, available: 0 }))
    ));
}

#[test]
fn loading_twice_gives_equal_circuits() {
    let text = "2 1 0 1 2 XOR\n1 1 2 3 INV\n";
    let ins = [ValueType::Bit, ValueType::Bit];
    let outs = [ValueType::Bit];
    let a = Circuit::parse(text, &ins, &outs).unwrap();
    let b = Circuit::parse(text, &ins, &outs).unwrap();
    assert_eq!(a.gates(), b.gates());
    assert_eq!(a.inputs(), b.inputs());
    assert_eq!(a.outputs(), b.outputs());
}

#[test]
fn bristol_header_lines_are_skipped() {
    let text = "2 5\n2 1 1\n1 1\n\n2 1 0 1 2 AND\n1 1 2 3 INV\n2 1 3 0 4 XOR\n";
    let c = Circuit::parse(text, &[ValueType::Bit, ValueType::Bit], &[ValueType::Bit]).unwrap();
    assert_eq!(
        c.gates(),
        &vec![
            Gate::And { x: n(0), y: n(1), z: n(2) },
            Gate::Inv { x: n(2), z: n(3) },
            Gate::Xor { x: n(3), y: n(0), z: n(4) },
        ]
    );
    assert_eq!(c.outputs(), &vec![TypedValue { ty: ValueType::Bit, feeds: vec![n(4)] }]);
}

#[test]
fn outputs_take_the_highest_ids_in_declaration_order() {
    let text = "2 1 0 1 5 XOR\n2 1 0 1 3 AND\n1 1 0 4 INV\n";
    let c = Circuit::parse(
        text,
        &[ValueType::Bit, ValueType::Bit],
        &[ValueType::Bit, ValueType::Bits(2)],
    )
    .unwrap();
    // Written ids ascending: 3, 4, 5. The last descriptor takes 4 and 5.
    assert_eq!(
        c.outputs(),
        &vec![
            TypedValue { ty: ValueType::Bit, feeds: vec![n(3)] },
            TypedValue { ty: ValueType::Bits(2), feeds: vec![n(4), n(2)] },
        ]
    );
}

#[test]
fn redefined_ids_count_once() {
    let text = "2 1 0 1 2 XOR\n2 1 0 1 2 AND\n";
    let c = Circuit::parse(text, &[ValueType::Bit, ValueType::Bit], &[ValueType::Bit]).unwrap();
    assert_eq!(c.gates().len(), 2);
    assert_eq!(c.outputs(), &vec![TypedValue { ty: ValueType::Bit, feeds: vec![n(3)] }]);
    let r = Circuit::parse(text, &[ValueType::Bit, ValueType::Bit], &[ValueType::Bit, ValueType::Bit]);
    assert!(matches!(
        r,
        Err(ParseError::BuilderError(BuilderError::InsufficientOutputs { width: 1, available: 0 }))
    ));
}

#[test]
fn oversized_number_is_a_numeric_error() {
    let text = "2 1 0 99999999999999999999999 2 XOR\n";
    let r = Circuit::parse(text, &[ValueType::Bit, ValueType::Bit], &[ValueType::Bit]);
    match r {
        Err(ParseError::ParseIntError(s)) => assert_eq!(s, "99999999999999999999999"),
        _ => panic!("expected a numeric error"),
    }
}

#[test]
fn inverter_with_extra_operand_ignores_it() {
    let c = Circuit::parse("1 1 0 9 1 INV\n", &[ValueType::Bit], &[ValueType::Bit]).unwrap();
    assert_eq!(c.gates(), &vec![Gate::Inv { x: n(0), z: n(1) }]);
}

#[test]
fn unsigned_inputs_take_consecutive_ids() {
    let text = "2 1 7 8 16 XOR\r\n";
    let c = Circuit::parse(text, &[ValueType::U8, ValueType::U8], &[ValueType::Bit]).unwrap();
    assert_eq!(c.inputs().len(), 2);
    assert_eq!(c.inputs()[1].feeds[0], n(8));
    assert_eq!(c.gates(), &vec![Gate::Xor { x: n(7), y: n(8), z: n(16) }]);
    assert_eq!(c.feed_count(), 17);
}

#[test]
fn empty_text_with_no_outputs_loads() {
    let c = Circuit::parse("", &[ValueType::Bit], &[]).unwrap();
    assert_eq!(c.gates().len(), 0);
    assert_eq!(c.inputs().len(), 1);
    assert_eq!(c.outputs().len(), 0);
}

#[test]
fn xor_without_second_operand_is_malformed_before_resolving() {
    let r = Circuit::parse("1 1 100 1 XOR\n", &[ValueType::Bit], &[ValueType::Bit]);
    assert!(matches!(r, Err(ParseError::MissingOperand(GateType::Xor))));
}

#[test]
fn and_without_second_operand_is_malformed() {
    let r = Circuit::parse("1 1 0 1 AND\n", &[ValueType::Bit], &[ValueType::Bit]);
    assert!(matches!(r, Err(ParseError::MissingOperand(GateType::And))));
}

#[test]
fn oversized_input_count_is_a_numeric_error() {
    let text = "99999999999999999999999 1 0 1 2 XOR\n";
    let r = Circuit::parse(text, &[ValueType::Bit, ValueType::Bit], &[ValueType::Bit]);
    match r {
        Err(ParseError::ParseIntError(s)) => assert_eq!(s, "99999999999999999999999"),
        _ => panic!("expected a numeric error"),
    }
}

#[test]
fn oversized_output_count_is_a_numeric_error() {
    let text = "2 18446744073709551616 0 1 2 XOR\n";
    let r = Circuit::parse(text, &[ValueType::Bit, ValueType::Bit], &[ValueType::Bit]);
    match r {
        Err(ParseError::ParseIntError(s)) => assert_eq!(s, "18446744073709551616"),
        _ => panic!("expected a numeric error"),
    }
}

#[test]
fn counts_that_fit_are_not_checked_against_anything() {
    let a = Circuit::parse("9 7 0 1 2 XOR\n", &[ValueType::Bit, ValueType::Bit], &[ValueType::Bit])
        .unwrap();
    let b = Circuit::parse("2 1 0 1 2 XOR\n", &[ValueType::Bit, ValueType::Bit], &[ValueType::Bit])
        .unwrap();
    assert_eq!(a.gates(), b.gates());
    assert_eq!(a.outputs(), b.outputs());
}

#[test]
fn operand_defined_by_an_earlier_gate_resolves() {
    let text = "2 1 0 1 2 AND\n2 1 2 5 3 XOR\n";
    let r = Circuit::parse(text, &[ValueType::Bit, ValueType::Bit], &[ValueType::Bit]);
    assert!(matches!(r, Err(ParseError::UninitializedFeed(5))));
}
