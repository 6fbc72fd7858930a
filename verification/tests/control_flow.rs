use jarde_reader::budget::{Budget, Limits};
use jarde_reader::bytecode::{
    BytecodeStop, ControlFlowTarget, ControlFlowTargetKind, ImmediateValue, InstructionOperands, LocalOperand,
    MethodCodeFacts, SwitchOperands, relative_target_bci,
};
use jarde_reader::attributes::code_nested_attributes;
use jarde_reader::classfile::{class_facts, method_code_facts};
use jarde_reader::error::Error;
use jarde_reader::model::ExecutionReport;

fn limits() -> Limits {
    Limits {
        input_bytes: u64::MAX,
        archive_entries: u64::MAX,
        entry_bytes: u64::MAX,
        read_bytes: u64::MAX,
        class_bytes: u64::MAX,
        attribute_bytes: u64::MAX,
        code_bytes: u64::MAX,
        result_items: u64::MAX,
        output_bytes: u64::MAX,
        class_headers: u64::MAX,
        method_bodies: u64::MAX,
        ir_items: u64::MAX,
        ir_edges: u64::MAX,
        analysis_steps: u64::MAX,
        normalization_clones: u64::MAX,
        nested_depth: u64::MAX,
        dependency_depth: u64::MAX,
        elapsed_millis: u64::MAX,
    }
}

fn u16_be(bytes: &mut Vec<u8>, value: u16) {
    bytes.extend_from_slice(&value.to_be_bytes());
}

fn u32_be(bytes: &mut Vec<u8>, value: u32) {
    bytes.extend_from_slice(&value.to_be_bytes());
}

fn utf8(bytes: &mut Vec<u8>, value: &[u8]) {
    bytes.push(1);
    u16_be(bytes, value.len() as u16);
    bytes.extend_from_slice(value);
}

fn class_entry(bytes: &mut Vec<u8>, name: u16) {
    bytes.push(7);
    u16_be(bytes, name);
}

fn attribute(bytes: &mut Vec<u8>, name: u16, content: &[u8]) {
    u16_be(bytes, name);
    u32_be(bytes, content.len() as u32);
    bytes.extend_from_slice(content);
}

/// A class with one static method `method()V` whose `Code` holds `code` and `handlers`, over a
/// pool that holds one literal of every `ldc` kind and a `String`.
fn operand_fixture(code: &[u8], handlers: &[(u16, u16, u16, u16)]) -> Vec<u8> {
    let mut bytes = Vec::new();
    bytes.extend_from_slice(&0xcafebabe_u32.to_be_bytes());
    u16_be(&mut bytes, 0);
    u16_be(&mut bytes, 52);
    u16_be(&mut bytes, 16);
    utf8(&mut bytes, b"Test");
    class_entry(&mut bytes, 1);
    utf8(&mut bytes, b"java/lang/Object");
    class_entry(&mut bytes, 3);
    utf8(&mut bytes, b"method");
    utf8(&mut bytes, b"()V");
    utf8(&mut bytes, b"Code");
    bytes.push(3);
    bytes.extend_from_slice(&7i32.to_be_bytes());
    bytes.push(4);
    bytes.extend_from_slice(&1.5f32.to_bits().to_be_bytes());
    bytes.push(5);
    bytes.extend_from_slice(&0x1122_3344_5566_7788i64.to_be_bytes());
    bytes.push(6);
    bytes.extend_from_slice(&2.5f64.to_bits().to_be_bytes());
    utf8(&mut bytes, b"hello");
    bytes.push(8);
    u16_be(&mut bytes, 14);
    u16_be(&mut bytes, 0x0021);
    u16_be(&mut bytes, 2);
    u16_be(&mut bytes, 4);
    u16_be(&mut bytes, 0);
    u16_be(&mut bytes, 0);
    u16_be(&mut bytes, 1);
    u16_be(&mut bytes, 0x0009);
    u16_be(&mut bytes, 5);
    u16_be(&mut bytes, 6);
    u16_be(&mut bytes, 1);
    let mut content = Vec::new();
    u16_be(&mut content, 4);
    u16_be(&mut content, 3);
    u32_be(&mut content, code.len() as u32);
    content.extend_from_slice(code);
    u16_be(&mut content, handlers.len() as u16);
    for &(start, end, handler, catch) in handlers {
        u16_be(&mut content, start);
        u16_be(&mut content, end);
        u16_be(&mut content, handler);
        u16_be(&mut content, catch);
    }
    u16_be(&mut content, 0);
    attribute(&mut bytes, 7, &content);
    u16_be(&mut bytes, 0);
    bytes
}

/// One instruction of every operand class, every control-flow target a real instruction start.
fn operand_code() -> Vec<u8> {
    let mut code = Vec::new();
    code.extend_from_slice(&[0x12, 0x08]);
    code.extend_from_slice(&[0x13, 0x00, 0x09]);
    code.extend_from_slice(&[0x14, 0x00, 0x0a]);
    code.extend_from_slice(&[0x14, 0x00, 0x0c]);
    code.extend_from_slice(&[0x10, 0x05]);
    code.extend_from_slice(&[0x11, 0x01, 0x00]);
    code.push(0x57);
    code.extend_from_slice(&[0x15, 0x02]);
    code.push(0x3d);
    code.extend_from_slice(&[0xc4, 0x15, 0x00, 0x02]);
    code.extend_from_slice(&[0x84, 0x01, 0x03]);
    code.extend_from_slice(&[0xc4, 0x84, 0x00, 0x01, 0x00, 0x01]);
    code.extend_from_slice(&[0x12, 0x0f]);
    code.extend_from_slice(&[0x12, 0x63]);
    code.extend_from_slice(&[0xa7, 0x00, 0x03]);
    assert_eq!(code.len(), 40, "tableswitch must start at BCI 40");
    code.push(0xaa);
    code.extend_from_slice(&[0, 0, 0]);
    code.extend_from_slice(&(100i32 - 40).to_be_bytes());
    code.extend_from_slice(&(-1i32).to_be_bytes());
    code.extend_from_slice(&1i32.to_be_bytes());
    for target in [68i32, 71, 72] {
        code.extend_from_slice(&(target - 40).to_be_bytes());
    }
    assert_eq!(code.len(), 68, "ifne must start at BCI 68");
    code.extend_from_slice(&[0x9a, 0x00, 0x03]);
    code.push(0x1a);
    code.push(0x3b);
    assert_eq!(code.len(), 73, "lookupswitch must start at BCI 73");
    code.push(0xab);
    code.extend_from_slice(&[0, 0]);
    code.extend_from_slice(&(100i32 - 73).to_be_bytes());
    code.extend_from_slice(&2i32.to_be_bytes());
    for (key, target) in [(-7i32, 0i32), (9, 68)] {
        code.extend_from_slice(&key.to_be_bytes());
        code.extend_from_slice(&(target - 73).to_be_bytes());
    }
    assert_eq!(code.len(), 100, "return must start at BCI 100");
    code.push(0xb1);
    code
}

fn operand_facts(bytes: &[u8]) -> MethodCodeFacts {
    let mut budget = Budget::new(limits());
    let header = class_facts(bytes, &mut budget).unwrap();
    let method = header.methods.first().expect("fixture has one method").clone();
    method_code_facts(bytes, &method, &mut budget).unwrap()
}

fn target_error(code: &[u8], handlers: &[(u16, u16, u16, u16)]) -> (String, String) {
    let bytes = operand_fixture(code, handlers);
    let facts = operand_facts(&bytes);
    match facts.control_flow_targets().expect_err("fixture must be rejected") {
        Error::InvalidInput { code, message } => (code, message),
        other => panic!("expected a structured invalid-input error, got {other:?}"),
    }
}

#[test]
fn control_flow_targets_convert_branches_switches_and_handlers() {
    let facts = operand_facts(&operand_fixture(&operand_code(), &[(0, 100, 100, 2), (40, 101, 71, 0)]));
    let targets = facts.control_flow_targets().unwrap();
    let expected = vec![
        (37, ControlFlowTargetKind::Branch { offset: 3 }, 40),
        (40, ControlFlowTargetKind::SwitchDefault, 100),
        (40, ControlFlowTargetKind::SwitchCase { index: 0, key: -1 }, 68),
        (40, ControlFlowTargetKind::SwitchCase { index: 1, key: 0 }, 71),
        (40, ControlFlowTargetKind::SwitchCase { index: 2, key: 1 }, 72),
        (68, ControlFlowTargetKind::Branch { offset: 3 }, 71),
        (73, ControlFlowTargetKind::SwitchDefault, 100),
        (73, ControlFlowTargetKind::SwitchCase { index: 0, key: -7 }, 0),
        (73, ControlFlowTargetKind::SwitchCase { index: 1, key: 9 }, 68),
        (100, ControlFlowTargetKind::Handler { ordinal: 0 }, 100),
        (71, ControlFlowTargetKind::Handler { ordinal: 1 }, 71),
    ];
    assert_eq!(
        targets,
        expected
            .into_iter()
            .map(|(instruction_bci, kind, target_bci)| ControlFlowTarget { instruction_bci, kind, target_bci })
            .collect::<Vec<_>>()
    );
}

#[test]
fn operand_facts_carry_the_pool_literals_and_wide_locals() {
    let facts = operand_facts(&operand_fixture(&operand_code(), &[]));
    assert!(matches!(facts.execution, ExecutionReport::Complete { .. }));
    assert_eq!(facts.instructions.len(), 21);
    assert_eq!(facts.operands().len(), facts.instructions.len());
    for (fact, operands) in facts.instructions.iter().zip(facts.operands().iter()) {
        assert_eq!(operands.constant_pool_index, fact.constant_pool_index);
    }
    let at = |bci: u32| {
        let position = facts.instructions.iter().position(|fact| fact.bci == bci).expect("an instruction starts there");
        facts.operands()[position].clone()
    };
    assert_eq!(at(0).immediate, Some(ImmediateValue::Int(7)));
    assert_eq!(at(2).immediate, Some(ImmediateValue::Float(1.5f32.to_bits())));
    assert_eq!(at(5).immediate, Some(ImmediateValue::Long(0x1122_3344_5566_7788)));
    assert_eq!(at(8).immediate, Some(ImmediateValue::Double(2.5f64.to_bits())));
    assert_eq!(at(11).immediate, Some(ImmediateValue::Int(5)));
    assert_eq!(at(13).immediate, Some(ImmediateValue::Int(256)));
    assert_eq!(at(20).effective_opcode, 0x15);
    assert_eq!(at(24).increment, Some(3));
    assert_eq!(at(27).effective_opcode, 0x84);
    assert_eq!(at(33).immediate, None);
    assert_eq!(at(33).constant_pool_index, Some(15));
    assert_eq!(at(35).immediate, None);
    assert_eq!(at(37).branch_offset, Some(3));
}

#[test]
fn branch_targets_inside_operands_are_rejected_with_the_sourcing_bci() {
    let code = [0x10, 0x05, 0xa7, 0x00, 0x01, 0xb1];
    let bytes = operand_fixture(&code, &[]);
    let facts = operand_facts(&bytes);
    assert!(matches!(facts.execution, ExecutionReport::Complete { .. }));
    let (error_code, message) = target_error(&code, &[]);
    assert_eq!(error_code, "classfile_instruction_invalid_target");
    assert!(message.contains("branch from BCI 2 with offset 1"), "{message}");
    assert!(message.contains("target 3"), "{message}");
}

#[test]
fn targets_outside_the_code_array_are_rejected() {
    let (code, message) = target_error(&[0x10, 0x05, 0xa7, 0x00, 0x63, 0xb1], &[]);
    assert_eq!(code, "classfile_instruction_target_out_of_bounds");
    assert!(message.contains("branch from BCI 2 with offset 99"), "{message}");
    assert!(message.contains("target 101 is outside 0..6"), "{message}");
    let (code, message) = target_error(&[0xa7, 0xff, 0xfb], &[]);
    assert_eq!(code, "classfile_instruction_target_out_of_bounds");
    assert!(message.contains("relative offset -5 at BCI 0 targets a BCI before 0"), "{message}");
    let (code, message) = target_error(&[0xb1], &[(0, 1, 9, 0)]);
    assert_eq!(code, "classfile_instruction_target_out_of_bounds");
    assert!(message.contains("exception handler 0 entry target 9 is outside 0..1"), "{message}");
}

#[test]
fn handler_entry_inside_operands_is_rejected() {
    let (code, message) = target_error(&[0x10, 0x05, 0xb1], &[(0, 3, 1, 0)]);
    assert_eq!(code, "classfile_instruction_invalid_target");
    assert!(message.contains("exception handler 0 entry target 1 is not an instruction start"), "{message}");
}

#[test]
fn handler_ranges_must_start_before_they_end_and_stay_inside_the_code() {
    let (code, message) = target_error(&[0x10, 0x05, 0xb1], &[(2, 1, 2, 0)]);
    assert_eq!(code, "classfile_exception_range_invalid");
    assert!(message.contains("exception handler 0 protected range 2..1 starts after its end"), "{message}");
    let (code, message) = target_error(&[0xb1], &[(0, 4, 0, 0)]);
    assert_eq!(code, "classfile_exception_range_invalid");
    assert!(message.contains("exception handler 0 protected range 0..4 ends past code_length 1"), "{message}");
    let facts = operand_facts(&operand_fixture(&[0x10, 0x05, 0xb1], &[(0, 3, 2, 0)]));
    assert_eq!(
        facts.control_flow_targets().unwrap(),
        vec![ControlFlowTarget { instruction_bci: 2, kind: ControlFlowTargetKind::Handler { ordinal: 0 }, target_bci: 2 }]
    );
}

#[test]
fn switch_case_targets_are_validated_like_branches() {
    let mut code = vec![0xaa, 0, 0, 0];
    code.extend_from_slice(&20i32.to_be_bytes());
    code.extend_from_slice(&0i32.to_be_bytes());
    code.extend_from_slice(&0i32.to_be_bytes());
    code.extend_from_slice(&100i32.to_be_bytes());
    code.push(0xb1);
    let (code, message) = target_error(&code, &[]);
    assert_eq!(code, "classfile_instruction_target_out_of_bounds");
    assert!(message.contains("switch case 0 from BCI 0"), "{message}");
    assert!(message.contains("target 100 is outside 0..21"), "{message}");
    let mut code = vec![0xaa, 0, 0, 0];
    code.extend_from_slice(&20i32.to_be_bytes());
    code.extend_from_slice(&0i32.to_be_bytes());
    code.extend_from_slice(&0i32.to_be_bytes());
    code.extend_from_slice(&4i32.to_be_bytes());
    code.push(0xb1);
    let (code, message) = target_error(&code, &[]);
    assert_eq!(code, "classfile_instruction_invalid_target");
    assert!(message.contains("switch case 0 from BCI 0"), "{message}");
    assert!(message.contains("target 4 is not an instruction start"), "{message}");
}

#[test]
fn relative_target_arithmetic_is_checked_in_both_directions() {
    let error = relative_target_bci(u32::MAX, 1).unwrap_err();
    assert!(matches!(error, Error::InvalidInput { ref code, .. } if code == "classfile_code_span_overflow"));
    let error = relative_target_bci(u32::MAX, i32::MAX).unwrap_err();
    assert!(matches!(error, Error::InvalidInput { ref code, .. } if code == "classfile_code_span_overflow"));
    let error = relative_target_bci(0, -1).unwrap_err();
    assert!(matches!(error, Error::InvalidInput { ref code, .. } if code == "classfile_instruction_target_out_of_bounds"));
    let error = relative_target_bci(1, i32::MIN).unwrap_err();
    assert!(matches!(error, Error::InvalidInput { ref code, .. } if code == "classfile_instruction_target_out_of_bounds"));
    assert_eq!(relative_target_bci(10, -10).unwrap(), 0);
    assert_eq!(relative_target_bci(10, 5).unwrap(), 15);
}

#[test]
fn switch_defaults_are_validated_like_cases() {
    let mut code = vec![0xaa, 0, 0, 0];
    code.extend_from_slice(&1i32.to_be_bytes());
    code.extend_from_slice(&0i32.to_be_bytes());
    code.extend_from_slice(&0i32.to_be_bytes());
    code.extend_from_slice(&20i32.to_be_bytes());
    code.push(0xb1);
    let (error_code, message) = target_error(&code, &[]);
    assert_eq!(error_code, "classfile_instruction_invalid_target");
    assert!(message.contains("switch default from BCI 0"), "{message}");
    assert!(message.contains("target 1 is not an instruction start"), "{message}");
    let mut code = vec![0xab, 0, 0, 0];
    code.extend_from_slice(&1000i32.to_be_bytes());
    code.extend_from_slice(&1i32.to_be_bytes());
    code.extend_from_slice(&0i32.to_be_bytes());
    code.extend_from_slice(&20i32.to_be_bytes());
    code.push(0xb1);
    let (error_code, message) = target_error(&code, &[]);
    assert_eq!(error_code, "classfile_instruction_target_out_of_bounds");
    assert!(message.contains("switch default from BCI 0"), "{message}");
    assert!(message.contains("target 1000 is outside 0..21"), "{message}");
    for opcode in [0xaa_u8, 0xab] {
        let mut valid = vec![opcode, 0, 0, 0];
        valid.extend_from_slice(&20i32.to_be_bytes());
        if opcode == 0xaa {
            valid.extend_from_slice(&0i32.to_be_bytes());
            valid.extend_from_slice(&0i32.to_be_bytes());
        } else {
            valid.extend_from_slice(&1i32.to_be_bytes());
            valid.extend_from_slice(&0i32.to_be_bytes());
        }
        valid.extend_from_slice(&20i32.to_be_bytes());
        valid.push(0xb1);
        let facts = operand_facts(&operand_fixture(&valid, &[]));
        assert_eq!(
            facts.control_flow_targets().unwrap(),
            vec![
                ControlFlowTarget { instruction_bci: 0, kind: ControlFlowTargetKind::SwitchDefault, target_bci: 20 },
                ControlFlowTarget {
                    instruction_bci: 0,
                    kind: ControlFlowTargetKind::SwitchCase { index: 0, key: 0 },
                    target_bci: 20,
                },
            ]
        );
    }
}

#[test]
fn jsr_operands_and_targets_use_the_same_validation() {
    let code = [0xa8, 0x00, 0x03, 0xc9, 0x00, 0x00, 0x00, 0x05, 0xb1];
    let facts = operand_facts(&operand_fixture(&code, &[]));
    assert_eq!(facts.operands()[0].branch_offset, Some(3));
    assert_eq!(facts.operands()[1].branch_offset, Some(5));
    assert_eq!(
        facts.control_flow_targets().unwrap(),
        vec![
            ControlFlowTarget { instruction_bci: 0, kind: ControlFlowTargetKind::Branch { offset: 3 }, target_bci: 3 },
            ControlFlowTarget { instruction_bci: 3, kind: ControlFlowTargetKind::Branch { offset: 5 }, target_bci: 8 },
        ]
    );
    let (error_code, message) = target_error(&[0xa8, 0x00, 0x01, 0xb1], &[]);
    assert_eq!(error_code, "classfile_instruction_invalid_target");
    assert!(message.contains("branch from BCI 0 with offset 1"), "{message}");
    let (error_code, message) = target_error(&[0xc9, 0x00, 0x00, 0x00, 0x63, 0xb1], &[]);
    assert_eq!(error_code, "classfile_instruction_target_out_of_bounds");
    assert!(message.contains("branch from BCI 0 with offset 99"), "{message}");
    let (error_code, message) = target_error(&[0xc9, 0xff, 0xff, 0xff, 0xfb], &[]);
    assert_eq!(error_code, "classfile_instruction_target_out_of_bounds");
    assert!(message.contains("relative offset -5 at BCI 0 targets a BCI before 0"), "{message}");
}

#[test]
fn targets_at_code_length_are_out_of_bounds_not_unstarted() {
    let (error_code, message) = target_error(&[0xa7, 0x00, 0x03], &[]);
    assert_eq!(error_code, "classfile_instruction_target_out_of_bounds");
    assert!(message.contains("target 3 is outside 0..3"), "{message}");
    let facts = operand_facts(&operand_fixture(&[0xa7, 0x00, 0x03, 0xb1], &[]));
    assert_eq!(facts.control_flow_targets().unwrap()[0].target_bci, 3);
    let (error_code, message) = target_error(&[0xb1], &[(0, 1, 1, 0)]);
    assert_eq!(error_code, "classfile_instruction_target_out_of_bounds");
    assert!(message.contains("exception handler 0 entry target 1 is outside 0..1"), "{message}");
}

#[test]
fn protected_range_endpoints_must_be_instruction_starts() {
    let code = [0x10, 0x05, 0xb1];
    let (error_code, message) = target_error(&code, &[(1, 3, 2, 0)]);
    assert_eq!(error_code, "classfile_instruction_invalid_target");
    assert!(message.contains("exception handler 0 protected range start 1 is not an instruction start"), "{message}");
    let (error_code, message) = target_error(&code, &[(0, 1, 2, 0)]);
    assert_eq!(error_code, "classfile_instruction_invalid_target");
    assert!(message.contains("protected range end 1 is neither an instruction start nor code_length 3"), "{message}");
    let facts = operand_facts(&operand_fixture(&code, &[(0, 3, 2, 0)]));
    assert_eq!(
        facts.control_flow_targets().unwrap(),
        vec![ControlFlowTarget { instruction_bci: 2, kind: ControlFlowTargetKind::Handler { ordinal: 0 }, target_bci: 2 }]
    );
}

#[test]
fn protected_ranges_must_not_be_empty() {
    let code = [0x10, 0x05, 0xb1];
    let (error_code, message) = target_error(&code, &[(2, 2, 2, 0)]);
    assert_eq!(error_code, "classfile_exception_range_invalid");
    assert!(message.contains("exception handler 0 protected range at BCI 2 is empty"), "{message}");
    let (error_code, message) = target_error(&code, &[(1, 1, 2, 0)]);
    assert_eq!(error_code, "classfile_exception_range_invalid");
    assert!(message.contains("is empty"), "{message}");
    let (error_code, message) = target_error(&code, &[(2, 1, 2, 0)]);
    assert_eq!(error_code, "classfile_exception_range_invalid");
    assert!(message.contains("protected range 2..1 starts after its end"), "{message}");
}
#[test]
fn operand_facts_cover_immediates_locals_increments_and_cp_indices() {
    let facts = operand_facts(&operand_fixture(&operand_code(), &[]));
    assert_eq!(facts.instructions.len(), facts.operands().len());
    assert!(matches!(facts.execution, ExecutionReport::Complete { .. }));
    assert_eq!(facts.instructions.len(), 21);

    // Every operand fact repeats the constant-pool index of its instruction.
    for (fact, operands) in facts.instructions.iter().zip(facts.operands().iter()) {
        assert_eq!(operands.constant_pool_index, fact.constant_pool_index);
    }

    let expected = [
        // `ldc` family: literal kinds become immediates, the `String` entry and an
        // index outside the pool stay reference facts only. The effective opcode equals
        // the raw one for every entry except the two `wide` forms below.
        (
            0,
            InstructionOperands {
                immediate: Some(ImmediateValue::Int(7)),
                constant_pool_index: Some(8),
                effective_opcode: 0x12,
                ..InstructionOperands::default()
            },
        ),
        (
            2,
            InstructionOperands {
                immediate: Some(ImmediateValue::Float(1.5f32.to_bits())),
                constant_pool_index: Some(9),
                effective_opcode: 0x13,
                ..InstructionOperands::default()
            },
        ),
        (
            5,
            InstructionOperands {
                immediate: Some(ImmediateValue::Long(0x1122_3344_5566_7788)),
                constant_pool_index: Some(10),
                effective_opcode: 0x14,
                ..InstructionOperands::default()
            },
        ),
        (
            8,
            InstructionOperands {
                immediate: Some(ImmediateValue::Double(2.5f64.to_bits())),
                constant_pool_index: Some(12),
                effective_opcode: 0x14,
                ..InstructionOperands::default()
            },
        ),
        (
            11,
            InstructionOperands {
                immediate: Some(ImmediateValue::Int(5)),
                effective_opcode: 0x10,
                ..InstructionOperands::default()
            },
        ),
        (
            13,
            InstructionOperands {
                immediate: Some(ImmediateValue::Int(256)),
                effective_opcode: 0x11,
                ..InstructionOperands::default()
            },
        ),
        // `pop` has no operand at all, so its fact is all-`None` but for its opcode.
        (
            16,
            InstructionOperands {
                effective_opcode: 0x57,
                ..InstructionOperands::default()
            },
        ),
        (
            17,
            InstructionOperands {
                local: Some(LocalOperand {
                    index: 2,
                    wide: false,
                }),
                effective_opcode: 0x15,
                ..InstructionOperands::default()
            },
        ),
        (
            19,
            InstructionOperands {
                local: Some(LocalOperand {
                    index: 2,
                    wide: false,
                }),
                effective_opcode: 0x3d,
                ..InstructionOperands::default()
            },
        ),
        (
            20,
            InstructionOperands {
                local: Some(LocalOperand {
                    index: 2,
                    wide: true,
                }),
                // The raw opcode of this instruction is the `wide` prefix; the opcode it
                // wraps is what every classification reads.
                effective_opcode: 0x15,
                ..InstructionOperands::default()
            },
        ),
        (
            24,
            InstructionOperands {
                local: Some(LocalOperand {
                    index: 1,
                    wide: false,
                }),
                increment: Some(3),
                effective_opcode: 0x84,
                ..InstructionOperands::default()
            },
        ),
        (
            27,
            InstructionOperands {
                local: Some(LocalOperand {
                    index: 1,
                    wide: true,
                }),
                increment: Some(1),
                effective_opcode: 0x84,
                ..InstructionOperands::default()
            },
        ),
        (
            33,
            InstructionOperands {
                constant_pool_index: Some(15),
                effective_opcode: 0x12,
                ..InstructionOperands::default()
            },
        ),
        (
            35,
            InstructionOperands {
                constant_pool_index: Some(99),
                effective_opcode: 0x12,
                ..InstructionOperands::default()
            },
        ),
        (
            37,
            InstructionOperands {
                branch_offset: Some(3),
                effective_opcode: 0xa7,
                ..InstructionOperands::default()
            },
        ),
        (
            40,
            InstructionOperands {
                switch: Some(SwitchOperands::Table {
                    default_offset: 60,
                    low: -1,
                    high: 1,
                    offsets: vec![28, 31, 32],
                }),
                effective_opcode: 0xaa,
                ..InstructionOperands::default()
            },
        ),
        (
            68,
            InstructionOperands {
                branch_offset: Some(3),
                effective_opcode: 0x9a,
                ..InstructionOperands::default()
            },
        ),
        (
            71,
            InstructionOperands {
                local: Some(LocalOperand {
                    index: 0,
                    wide: false,
                }),
                effective_opcode: 0x1a,
                ..InstructionOperands::default()
            },
        ),
        (
            72,
            InstructionOperands {
                local: Some(LocalOperand {
                    index: 0,
                    wide: false,
                }),
                effective_opcode: 0x3b,
                ..InstructionOperands::default()
            },
        ),
        (
            73,
            InstructionOperands {
                switch: Some(SwitchOperands::Lookup {
                    default_offset: 27,
                    pairs: vec![(-7, -73), (9, -5)],
                }),
                effective_opcode: 0xab,
                ..InstructionOperands::default()
            },
        ),
        (
            100,
            InstructionOperands {
                effective_opcode: 0xb1,
                ..InstructionOperands::default()
            },
        ),
    ];
    for (bci, operands) in expected {
        assert_eq!(operand_facts_at(&facts, bci), operands, "BCI {bci}");
    }
    // The effective opcode of every other instruction of the fixture is its raw opcode:
    // the fixture's whole point is that only a `wide` form has two opcodes.
    for (fact, operands) in facts.instructions.iter().zip(facts.operands().iter()) {
        if !matches!(fact.bci, 20 | 27) {
            assert_eq!(
                operands.effective_opcode, fact.opcode,
                "BCI {} of a fixture whose only `wide` forms are at 20 and 27",
                fact.bci
            );
        }
    }
    // The raw opcode of the two `wide` forms is untouched, exactly like their width and
    // their span: the public fact keeps the prefix.
    assert_eq!(
        facts
            .instructions
            .iter()
            .filter(|fact| fact.opcode == 0xc4)
            .map(|fact| fact.bci)
            .collect::<Vec<_>>(),
        vec![20, 27]
    );
}

#[test]
fn tableswitch_keys_hold_their_low_high_bounds() {
    // A key interval next to `i32::MAX`: the key of a case is `low + index`, and the
    // interval must not overflow the i32 key space.
    let mut code = vec![0xaa, 0, 0, 0];
    code.extend_from_slice(&28i32.to_be_bytes());
    code.extend_from_slice(&(i32::MAX - 2).to_be_bytes());
    code.extend_from_slice(&i32::MAX.to_be_bytes());
    for _ in 0..3 {
        code.extend_from_slice(&28i32.to_be_bytes());
    }
    code.push(0xb1);
    let facts = operand_facts(&operand_fixture(&code, &[]));
    assert_eq!(
        operand_facts_at(&facts, 0).switch,
        Some(SwitchOperands::Table {
            default_offset: 28,
            low: i32::MAX - 2,
            high: i32::MAX,
            offsets: vec![28, 28, 28],
        })
    );
    assert_eq!(
        facts.control_flow_targets().unwrap(),
        vec![
            ControlFlowTarget {
                instruction_bci: 0,
                kind: ControlFlowTargetKind::SwitchDefault,
                target_bci: 28,
            },
            ControlFlowTarget {
                instruction_bci: 0,
                kind: ControlFlowTargetKind::SwitchCase {
                    index: 0,
                    key: i32::MAX - 2,
                },
                target_bci: 28,
            },
            ControlFlowTarget {
                instruction_bci: 0,
                kind: ControlFlowTargetKind::SwitchCase {
                    index: 1,
                    key: i32::MAX - 1,
                },
                target_bci: 28,
            },
            ControlFlowTarget {
                instruction_bci: 0,
                kind: ControlFlowTargetKind::SwitchCase {
                    index: 2,
                    key: i32::MAX,
                },
                target_bci: 28,
            },
        ]
    );
}

#[test]
fn implicit_and_wide_locals_keep_their_index() {
    let code = [
        0x15, 0x07, // iload 7
        0x16, 0x08, // lload 8
        0x17, 0x09, // fload 9
        0x18, 0x0a, // dload 10
        0x19, 0x0b, // aload 11
        0x36, 0x0c, // istore 12
        0x37, 0x0d, // lstore 13
        0x38, 0x0e, // fstore 14
        0x39, 0x0f, // dstore 15
        0x3a, 0x10, // astore 16
        0x1d, // iload_3
        0x21, // lload_3
        0x25, // fload_3
        0x29, // dload_3
        0x2d, // aload_3
        0x3e, // istore_3
        0x42, // lstore_3
        0x46, // fstore_3
        0x4a, // dstore_3
        0x4e, // astore_3
        0xa9, 0x11, // ret 17
        0xc4, 0x15, 0x00, 0x12, // wide iload 18
        0xc4, 0x39, 0x00, 0x13, // wide dstore 19
        0xc4, 0xa9, 0x00, 0x14, // wide ret 20
        0xc4, 0x3a, 0x00, 0x15, // wide astore 21
        0xc4, 0x17, 0x00, 0x16, // wide fload 22
        0xb1, // return
    ];
    let facts = operand_facts(&operand_fixture(&code, &[]));
    let expected: Vec<(u32, Option<LocalOperand>)> = vec![
        (0, local(7, false)),
        (2, local(8, false)),
        (4, local(9, false)),
        (6, local(10, false)),
        (8, local(11, false)),
        (10, local(12, false)),
        (12, local(13, false)),
        (14, local(14, false)),
        (16, local(15, false)),
        (18, local(16, false)),
        (20, local(3, false)),
        (21, local(3, false)),
        (22, local(3, false)),
        (23, local(3, false)),
        (24, local(3, false)),
        (25, local(3, false)),
        (26, local(3, false)),
        (27, local(3, false)),
        (28, local(3, false)),
        (29, local(3, false)),
        (30, local(17, false)),
        (32, local(18, true)),
        (36, local(19, true)),
        (40, local(20, true)),
        (44, local(21, true)),
        (48, local(22, true)),
        (52, None),
    ];
    for (bci, operands) in expected {
        assert_eq!(operand_facts_at(&facts, bci).local, operands, "BCI {bci}");
    }
}

#[test]
fn stopped_bodies_keep_instruction_and_operand_lockstep() {
    let bytes = operand_fixture(&operand_code(), &[]);
    let mut header_budget = Budget::new(limits());
    let header = class_facts(&bytes, &mut header_budget).unwrap();
    let method = header.methods.first().unwrap().clone();
    let mut limited = limits();
    limited.code_bytes = 5;
    let facts = method_code_facts(&bytes, &method, &mut Budget::new(limited)).unwrap();
    assert!(matches!(facts.execution, ExecutionReport::Partial { .. }));
    assert!(facts.stopped_at.is_some());
    assert_eq!(facts.instructions.len(), 2);
    assert_eq!(facts.operands().len(), 2);
    assert_eq!(
        facts.operands()[1].immediate,
        Some(ImmediateValue::Float(1.5f32.to_bits()))
    );
}

#[test]
fn signed_operands_keep_their_sign() {
    let code = [
        0x10, 0xfb, // 0: bipush -5
        0x11, 0xfe, 0xd4, // 2: sipush -300
        0x84, 0x03, 0xfe, // 5: iinc 3, -2
        0xc4, 0x84, 0x00, 0x04, 0xff, 0xfb, // 8: wide iinc 4, -5
        0xb1, // 14: return
    ];
    let facts = operand_facts(&operand_fixture(&code, &[]));
    assert_eq!(
        operand_facts_at(&facts, 0).immediate,
        Some(ImmediateValue::Int(-5))
    );
    assert_eq!(
        operand_facts_at(&facts, 2).immediate,
        Some(ImmediateValue::Int(-300))
    );
    assert_eq!(
        operand_facts_at(&facts, 5),
        InstructionOperands {
            local: local(3, false),
            increment: Some(-2),
            effective_opcode: 0x84,
            ..InstructionOperands::default()
        }
    );
    assert_eq!(
        operand_facts_at(&facts, 8),
        InstructionOperands {
            local: local(4, true),
            increment: Some(-5),
            // The `wide iinc` of a local above 255: the prefix is the raw opcode, `iinc`
            // is the effective one.
            effective_opcode: 0x84,
            ..InstructionOperands::default()
        }
    );
    // The negative operands decode; nothing in this body is a control-flow target.
    assert_eq!(facts.control_flow_targets().unwrap(), Vec::new());
}

#[test]
fn operand_facts_retain_the_opcode_each_wide_form_wraps() {
    // All twelve wrappings JVMS 6.5 allows, one instruction each, on real bytes: the raw
    // opcode of every one of them is the `wide` prefix, the width is the wide one, and the
    // effective opcode is the opcode the prefix wraps (`wide iinc` is the six-byte form).
    let cases: &[(u8, u32, u16)] = &[
        (0x15, 4, 2),   // wide iload
        (0x16, 4, 300), // wide lload
        (0x17, 4, 4),   // wide fload
        (0x18, 4, 5),   // wide dload
        (0x19, 4, 6),   // wide aload
        (0x36, 4, 7),   // wide istore
        (0x37, 4, 8),   // wide lstore
        (0x38, 4, 9),   // wide fstore
        (0x39, 4, 10),  // wide dstore
        (0x3a, 4, 11),  // wide astore
        (0xa9, 4, 12),  // wide ret
        (0x84, 6, 13),  // wide iinc
    ];
    let mut code = Vec::new();
    let mut expected: Vec<(u32, u8, u32, u16)> = Vec::new();
    for &(wrapped, width, index) in cases {
        expected.push((u32::try_from(code.len()).unwrap(), wrapped, width, index));
        code.push(0xc4);
        code.push(wrapped);
        code.extend_from_slice(&index.to_be_bytes());
        if wrapped == 0x84 {
            code.extend_from_slice(&0i16.to_be_bytes()); // the increment of `wide iinc 13, 0`
        }
    }
    let bytes = single_method(52, 8, 512, &code);
    let facts = operand_facts(&bytes);
    assert!(matches!(facts.execution, ExecutionReport::Complete { .. }));
    assert_eq!(facts.instructions.len(), cases.len());
    for (bci, wrapped, width, index) in expected {
        let fact = facts
            .instructions
            .iter()
            .find(|fact| fact.bci == bci)
            .unwrap_or_else(|| panic!("no instruction at BCI {bci}"));
        let operands = operand_facts_at(&facts, bci);
        assert_eq!(fact.opcode, 0xc4, "BCI {bci} keeps the raw prefix");
        assert_eq!(fact.width, width, "BCI {bci}");
        assert_eq!(
            operands.effective_opcode, wrapped,
            "BCI {bci} must classify as the opcode it wraps"
        );
        assert_eq!(
            operands.local,
            Some(LocalOperand { index, wide: true }),
            "BCI {bci} names the local the wrapped form names"
        );
    }
    // The two opcodes are separate facts: none of these twelve is malformed, so the body
    // decodes completely and every wrapped opcode is one of the twelve.
    assert_eq!(facts.stopped_at, None);
    assert!(
        cases.iter().all(|(wrapped, _, _)| *wrapped != 0xc4),
        "no wrapping is itself a prefix"
    );
}

#[test]
fn operand_facts_retain_array_types_dimensions_and_interface_counts() {
    // Array creation and interface calls, on real bytes. `atype`, `dimensions` and `count`
    // are payloads of their own kind: they are never `immediate`, and the reader records
    // them exactly as encoded — `dimensions = 0` and a `count` that disagrees with the
    // descriptor are facts for the verifier (4.x/5.1) to judge, not reader errors.
    let array_types = [4u8, 5, 6, 7, 8, 9, 10, 11];
    let dimensions = [0u8, 2, 255];
    let counts = [3u8, 2, 0];
    let mut code = Vec::new();
    let mut new_arrays = Vec::new();
    for atype in array_types {
        new_arrays.push((u32::try_from(code.len()).unwrap(), atype));
        code.extend_from_slice(&[0xbc, atype]);
    }
    let mut multi_arrays = Vec::new();
    for dimension in dimensions {
        multi_arrays.push((u32::try_from(code.len()).unwrap(), dimension));
        code.push(0xc5);
        code.extend_from_slice(&9u16.to_be_bytes()); // the `[[I` class entry
        code.push(dimension);
    }
    let mut interface_calls = Vec::new();
    for count in counts {
        interface_calls.push((u32::try_from(code.len()).unwrap(), count));
        code.push(0xb9);
        code.extend_from_slice(&15u16.to_be_bytes()); // `run:(J)V` of the fixture pool
        code.push(count);
        code.push(0);
    }
    code.push(0xb1); // return

    let bytes = single_method(52, 8, 8, &code);
    let facts = operand_facts(&bytes);
    assert!(matches!(facts.execution, ExecutionReport::Complete { .. }));
    assert_eq!(facts.stopped_at, None);
    assert_eq!(
        facts.instructions.len(),
        array_types.len() + dimensions.len() + counts.len() + 1
    );

    for (bci, atype) in new_arrays {
        let operands = operand_facts_at(&facts, bci);
        assert_eq!(operands.effective_opcode, 0xbc, "BCI {bci}");
        assert_eq!(operands.atype, Some(atype), "BCI {bci}");
        assert_eq!(operands.immediate, None, "an element type is not a value");
        assert_eq!(operands.constant_pool_index, None, "BCI {bci}");
    }
    for (bci, dimension) in multi_arrays {
        let operands = operand_facts_at(&facts, bci);
        assert_eq!(operands.effective_opcode, 0xc5, "BCI {bci}");
        assert_eq!(operands.dimensions, Some(dimension), "BCI {bci}");
        assert_eq!(operands.immediate, None, "BCI {bci}");
        assert_eq!(operands.constant_pool_index, Some(9), "BCI {bci}");
    }
    for (bci, count) in interface_calls {
        let operands = operand_facts_at(&facts, bci);
        assert_eq!(operands.effective_opcode, 0xb9, "BCI {bci}");
        assert_eq!(operands.interface_count, Some(count), "BCI {bci}");
        assert_eq!(operands.immediate, None, "BCI {bci}");
        assert_eq!(operands.constant_pool_index, Some(15), "BCI {bci}");
    }

    // The three facts belong to three opcodes: none of them leaks onto any other
    // instruction of the same body.
    for (position, fact) in facts.instructions.iter().enumerate() {
        let operands = &facts.operands()[position];
        match fact.opcode {
            0xbc => {
                assert!(operands.dimensions.is_none() && operands.interface_count.is_none())
            }
            0xc5 => assert!(operands.atype.is_none() && operands.interface_count.is_none()),
            0xb9 => assert!(operands.atype.is_none() && operands.dimensions.is_none()),
            _ => assert!(
                operands.atype.is_none()
                    && operands.dimensions.is_none()
                    && operands.interface_count.is_none(),
                "BCI {} carries no array or invocation payload",
                fact.bci
            ),
        }
    }
}

#[test]
fn an_element_type_outside_the_encoded_range_stops_the_decode() {
    // `atype` is part of the instruction's encoding, so a code outside JVMS' `4..=11` is
    // not an operand fact at all: the instruction does not decode, the reader stops at its
    // BCI, and the reliable prefix keeps only what came before it. The adapter does not
    // guess a fact for an instruction noak refused, and it does not re-decode the bytes.
    for atype in [0u8, 3, 12, 255] {
        let code = [0x00, 0xbc, atype, 0xb1]; // nop; newarray <atype>; return
        let bytes = single_method(52, 8, 8, &code);
        let facts = operand_facts(&bytes);
        assert_eq!(facts.instructions.len(), 1, "atype {atype}");
        assert_eq!(facts.operands().len(), 1, "atype {atype}");
        assert_eq!(facts.operands()[0].effective_opcode, 0x00, "atype {atype}");
        assert_eq!(facts.operands()[0].atype, None, "atype {atype}");
        match &facts.stopped_at {
            Some(BytecodeStop::Instructions { bci, code, .. }) => {
                assert_eq!(*bci, 1, "the stop is the undecodable instruction");
                assert_eq!(code, "classfile_instruction_decode", "atype {atype}");
            }
            other => panic!("expected a decode stop at BCI 1, got {other:?}"),
        }
    }
}

/// Operand facts of the instruction starting at `bci`, with the lockstep check.
fn operand_facts_at(facts: &MethodCodeFacts, bci: u32) -> InstructionOperands {
    let position = facts
        .instructions
        .binary_search_by_key(&bci, |fact| fact.bci)
        .unwrap_or_else(|_| panic!("no instruction starts at BCI {bci}"));
    assert_eq!(
        facts.operands().len(),
        facts.instructions.len(),
        "operand facts must stay in lockstep with instructions"
    );
    facts.operands()[position].clone()
}

/// A local expectation, so the table above reads as one column.
fn local(index: u16, wide: bool) -> Option<LocalOperand> {
    Some(LocalOperand { index, wide })
}

/// Class file (minor 0, major `major`) with one `method()V` whose body is `code`, over a pool
/// that holds a `[[I` class entry at 9 and `java/lang/Runnable.run:(J)V` at 15.
fn single_method(major: u16, max_stack: u16, max_locals: u16, code: &[u8]) -> Vec<u8> {
    let mut bytes = Vec::new();
    bytes.extend_from_slice(&0xcafebabe_u32.to_be_bytes());
    u16_be(&mut bytes, 0);
    u16_be(&mut bytes, major);
    u16_be(&mut bytes, 20);
    utf8(&mut bytes, b"Test");
    class_entry(&mut bytes, 1);
    utf8(&mut bytes, b"java/lang/Object");
    class_entry(&mut bytes, 3);
    utf8(&mut bytes, b"method");
    utf8(&mut bytes, b"()V");
    utf8(&mut bytes, b"Code");
    utf8(&mut bytes, b"[[I");
    class_entry(&mut bytes, 8);
    utf8(&mut bytes, b"java/lang/Runnable");
    class_entry(&mut bytes, 10);
    utf8(&mut bytes, b"run");
    utf8(&mut bytes, b"(J)V");
    bytes.push(12);
    u16_be(&mut bytes, 12);
    u16_be(&mut bytes, 13);
    bytes.push(11);
    u16_be(&mut bytes, 11);
    u16_be(&mut bytes, 14);
    utf8(&mut bytes, b"<init>");
    bytes.push(12);
    u16_be(&mut bytes, 16);
    u16_be(&mut bytes, 6);
    bytes.push(10);
    u16_be(&mut bytes, 2);
    u16_be(&mut bytes, 17);
    bytes.push(10);
    u16_be(&mut bytes, 4);
    u16_be(&mut bytes, 17);
    u16_be(&mut bytes, 0x0021);
    u16_be(&mut bytes, 2);
    u16_be(&mut bytes, 4);
    u16_be(&mut bytes, 0);
    u16_be(&mut bytes, 0);
    u16_be(&mut bytes, 1);
    u16_be(&mut bytes, 0x0009);
    u16_be(&mut bytes, 5);
    u16_be(&mut bytes, 6);
    u16_be(&mut bytes, 1);
    let mut content = Vec::new();
    u16_be(&mut content, max_stack);
    u16_be(&mut content, max_locals);
    u32_be(&mut content, code.len() as u32);
    content.extend_from_slice(code);
    u16_be(&mut content, 0);
    u16_be(&mut content, 0);
    attribute(&mut bytes, 7, &content);
    u16_be(&mut bytes, 0);
    bytes
}

#[test]
fn the_first_refused_switch_case_decides_the_code() {
    let mut code = vec![0xaa, 0, 0, 0];
    code.extend_from_slice(&28i32.to_be_bytes());
    code.extend_from_slice(&0i32.to_be_bytes());
    code.extend_from_slice(&2i32.to_be_bytes());
    code.extend_from_slice(&28i32.to_be_bytes());
    code.extend_from_slice(&100i32.to_be_bytes());
    code.extend_from_slice(&4i32.to_be_bytes());
    assert_eq!(code.len(), 28);
    code.push(0xb1);
    let (code, message) = target_error(&code, &[]);
    assert_eq!(code, "classfile_instruction_target_out_of_bounds");
    assert!(message.contains("switch case 1 from BCI 0"), "{message}");
}

#[test]
fn nested_code_attributes_charge_the_one_code_shell_once() {
    let bytes = operand_fixture(&operand_code(), &[]);
    let mut budget = Budget::new(limits());
    let header = class_facts(&bytes, &mut budget).unwrap();
    let method = header.methods.first().expect("fixture has one method").clone();
    let shell = method.attributes.first().expect("the method has its Code shell").clone();
    let before = budget.usage();
    let nested = code_nested_attributes(&bytes, &method.attributes, &header.constant_pool, &mut budget).unwrap();
    assert!(nested.is_empty());
    let after = budget.usage();
    assert_eq!(after.attribute_bytes, before.attribute_bytes + shell.content_span.length + 6);
    assert_eq!(after.result_items, before.result_items);
    let none = code_nested_attributes(&bytes, &[], &header.constant_pool, &mut budget).unwrap();
    assert!(none.is_empty());
    assert_eq!(budget.usage().attribute_bytes, after.attribute_bytes);
    let twice = vec![shell.clone(), shell];
    match code_nested_attributes(&bytes, &twice, &header.constant_pool, &mut budget) {
        Err(Error::InvalidInput { code, .. }) => assert_eq!(code, "classfile_duplicate_code_attribute"),
        other => panic!("expected a duplicate-Code refusal, got {other:?}"),
    }
    assert_eq!(budget.usage().attribute_bytes, after.attribute_bytes);
}

#[test]
fn a_code_array_past_its_content_is_out_of_bounds_for_the_nested_read() {
    let bytes = operand_fixture(&operand_code(), &[]);
    let mut budget = Budget::new(limits());
    let header = class_facts(&bytes, &mut budget).unwrap();
    let method = header.methods.first().expect("fixture has one method").clone();
    let shell = method.attributes.first().expect("the method has its Code shell").clone();
    let at = shell.content_span.start as usize + 4;
    let mut tampered = bytes.clone();
    tampered[at..at + 4].copy_from_slice(&(shell.content_span.length as u32).to_be_bytes());
    match code_nested_attributes(&tampered, &method.attributes, &header.constant_pool, &mut budget) {
        Err(Error::InvalidInput { code, .. }) => assert_eq!(code, "classfile_code_out_of_bounds"),
        other => panic!("expected an out-of-bounds refusal, got {other:?}"),
    }
    let mut trailing = bytes.clone();
    let end = shell.content_span.start as usize + shell.content_span.length as usize;
    trailing.insert(end, 0);
    let mut longer = shell.clone();
    longer.span.length += 1;
    longer.content_span.length += 1;
    let attribute_length_at = shell.content_span.start as usize - 4;
    trailing[attribute_length_at..attribute_length_at + 4].copy_from_slice(&((shell.content_span.length + 1) as u32).to_be_bytes());
    match code_nested_attributes(&trailing, &[longer], &header.constant_pool, &mut budget) {
        Err(Error::InvalidInput { code, .. }) => assert_eq!(code, "classfile_invalid_attribute_content"),
        other => panic!("expected a trailing-content refusal, got {other:?}"),
    }
}
