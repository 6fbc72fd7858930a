use jarde_reader::budget::{Budget, BudgetDimension, Limits, UsageSnapshot};
use jarde_reader::cancel::CancellationToken;
use jarde_reader::bytecode::{BytecodeInspection, BytecodeStop};
use jarde_reader::bytes::read_u32;
use jarde_reader::classfile::{inspect_header, inspect_method_bytecode};
use jarde_reader::error::{Error, Result};
use jarde_reader::header::{AttributeShell, ClassHeader, HeaderInspection, InspectionMode, MethodSelector};
use jarde_reader::model::{ByteSpan, DiagnosticSeverity, ExecutionReport, JvmBytes, TerminationReason};
use jarde_reader::version::{HeaderStructuralRead, VerificationStatus};

fn limits() -> Limits {
    Limits {
        input_bytes: u64::MAX,
        archive_entries: u64::MAX,
        entry_bytes: u64::MAX,
        read_bytes: u64::MAX,
        class_bytes: u64::MAX,
        attribute_bytes: u64::MAX,
        code_bytes: u64::MAX,
        result_items: u64::MAX,
        output_bytes: u64::MAX,
        class_headers: u64::MAX,
        method_bodies: u64::MAX,
        ir_items: u64::MAX,
        ir_edges: u64::MAX,
        analysis_steps: u64::MAX,
        normalization_clones: u64::MAX,
        nested_depth: u64::MAX,
        dependency_depth: u64::MAX,
        elapsed_millis: u64::MAX,
    }
}

fn u16_be(output: &mut Vec<u8>, value: u16) {
    output.extend_from_slice(&value.to_be_bytes());
}

fn u32_be(output: &mut Vec<u8>, value: u32) {
    output.extend_from_slice(&value.to_be_bytes());
}

fn utf8(output: &mut Vec<u8>, value: &[u8]) {
    output.push(1);
    u16_be(output, u16::try_from(value.len()).unwrap());
    output.extend_from_slice(value);
}

fn class_entry(output: &mut Vec<u8>, name: u16) {
    output.push(7);
    u16_be(output, name);
}

fn attribute(output: &mut Vec<u8>, name: u16, content: &[u8]) -> (ByteSpan, ByteSpan) {
    attribute_with_length_offset(output, name, content).0
}

fn attribute_with_length_offset(
    output: &mut Vec<u8>,
    name: u16,
    content: &[u8],
) -> ((ByteSpan, ByteSpan), usize) {
    let start = output.len();
    u16_be(output, name);
    let length_offset = output.len();
    u32_be(output, u32::try_from(content.len()).unwrap());
    let content_start = output.len();
    output.extend_from_slice(content);
    (
        (
            ByteSpan::new(
                start as u64,
                (6 + content.len()) as u64,
            ),
            ByteSpan::new(content_start as u64, content.len() as u64),
        ),
        length_offset,
    )
}

struct Fixture {
    bytes: Vec<u8>,
    field_attribute: (ByteSpan, ByteSpan),
    method_attribute: (ByteSpan, ByteSpan),
    code_attribute: (ByteSpan, ByteSpan),
    class_attribute: (ByteSpan, ByteSpan),
    attribute_length_offsets: [usize; 5],
}

fn fixture() -> Fixture {
    let special_name = b"A\xc0\x80\xed\xa0\xbd\xed\xb8\x80\xed\xa0\x80\\\"\xe2\x80\xae";
    let mut bytes = Vec::new();
    bytes.extend_from_slice(&0xcafebabe_u32.to_be_bytes());
    u16_be(&mut bytes, 0);
    u16_be(&mut bytes, 52);
    u16_be(&mut bytes, 15);
    utf8(&mut bytes, special_name); // 1
    class_entry(&mut bytes, 1); // 2
    utf8(&mut bytes, b"java/lang/Object"); // 3
    class_entry(&mut bytes, 3); // 4
    utf8(&mut bytes, b"field"); // 5
    utf8(&mut bytes, b"I"); // 6
    utf8(&mut bytes, b"method"); // 7
    utf8(&mut bytes, b"()V"); // 8
    utf8(&mut bytes, b"ClassUnknown"); // 9
    utf8(&mut bytes, b"FieldUnknown"); // 10
    utf8(&mut bytes, b"Code"); // 11
    utf8(&mut bytes, b"pkg/Interface"); // 12
    class_entry(&mut bytes, 12); // 13
    utf8(&mut bytes, b"MethodUnknown"); // 14
    u16_be(&mut bytes, 0x0021);
    u16_be(&mut bytes, 2);
    u16_be(&mut bytes, 4);
    u16_be(&mut bytes, 1);
    u16_be(&mut bytes, 13);
    u16_be(&mut bytes, 1);
    u16_be(&mut bytes, 0x0001);
    u16_be(&mut bytes, 5);
    u16_be(&mut bytes, 6);
    u16_be(&mut bytes, 1);
    let (field_attribute, field_attribute_length_offset) =
        attribute_with_length_offset(&mut bytes, 10, &[0xde, 0xad]);
    u16_be(&mut bytes, 1);
    u16_be(&mut bytes, 0x0009);
    u16_be(&mut bytes, 7);
    u16_be(&mut bytes, 8);
    u16_be(&mut bytes, 2);
    let (method_attribute, method_attribute_length_offset) =
        attribute_with_length_offset(&mut bytes, 14, &[0xff]);
    let mut code_content = Vec::new();
    u16_be(&mut code_content, 1);
    u16_be(&mut code_content, 1);
    u32_be(&mut code_content, 1);
    code_content.push(0xb1);
    u16_be(&mut code_content, 0);
    u16_be(&mut code_content, 1);
    let (_, nested_attribute_length_offset_in_content) =
        attribute_with_length_offset(&mut code_content, 14, &[0xca, 0xfe]);
    let (code_attribute, code_attribute_length_offset) =
        attribute_with_length_offset(&mut bytes, 11, &code_content);
    let nested_attribute_length_offset = usize::try_from(code_attribute.1.start).unwrap()
        + nested_attribute_length_offset_in_content;
    u16_be(&mut bytes, 1);
    let (class_attribute, class_attribute_length_offset) =
        attribute_with_length_offset(&mut bytes, 9, &[1, 2, 3]);
    Fixture {
        bytes,
        field_attribute,
        method_attribute,
        code_attribute,
        class_attribute,
        attribute_length_offsets: [
            class_attribute_length_offset,
            field_attribute_length_offset,
            method_attribute_length_offset,
            code_attribute_length_offset,
            nested_attribute_length_offset,
        ],
    }
}

fn bytecode_fixture(
    major: u16,
    minor: u16,
    code: Option<&[u8]>,
    handlers: &[(u16, u16, u16, u16)],
    duplicate_method: bool,
    duplicate_code: bool,
) -> Vec<u8> {
    let mut bytes = Vec::new();
    bytes.extend_from_slice(&0xcafebabe_u32.to_be_bytes());
    u16_be(&mut bytes, minor);
    u16_be(&mut bytes, major);
    u16_be(&mut bytes, 9);
    utf8(&mut bytes, b"Test"); // 1
    class_entry(&mut bytes, 1); // 2
    utf8(&mut bytes, b"java/lang/Object"); // 3
    class_entry(&mut bytes, 3); // 4
    utf8(&mut bytes, b"method"); // 5
    utf8(&mut bytes, b"()V"); // 6
    utf8(&mut bytes, b"Code"); // 7
    utf8(&mut bytes, b"Noise"); // 8
    u16_be(&mut bytes, 0x0021);
    u16_be(&mut bytes, 2);
    u16_be(&mut bytes, 4);
    u16_be(&mut bytes, 0);
    u16_be(&mut bytes, 0);
    u16_be(&mut bytes, if duplicate_method { 2 } else { 1 });
    for _ in 0..if duplicate_method { 2 } else { 1 } {
        u16_be(&mut bytes, 0x0009);
        u16_be(&mut bytes, 5);
        u16_be(&mut bytes, 6);
        let attributes = if code.is_none() {
            0
        } else if duplicate_code {
            2
        } else {
            1
        };
        u16_be(&mut bytes, attributes);
        for _ in 0..attributes {
            let mut content = Vec::new();
            u16_be(&mut content, 4);
            u16_be(&mut content, 3);
            u32_be(&mut content, code.unwrap().len() as u32);
            content.extend_from_slice(code.unwrap());
            u16_be(&mut content, handlers.len() as u16);
            for &(start, end, handler, catch) in handlers {
                u16_be(&mut content, start);
                u16_be(&mut content, end);
                u16_be(&mut content, handler);
                u16_be(&mut content, catch);
            }
            u16_be(&mut content, 0);
            attribute(&mut bytes, 7, &content);
        }
    }
    u16_be(&mut bytes, 1);
    attribute(&mut bytes, 8, &[0u8; 64]);
    bytes
}

fn selector() -> MethodSelector {
    MethodSelector {
        name: JvmBytes(b"method".to_vec()),
        descriptor: JvmBytes(b"()V".to_vec()),
    }
}

fn mutf8(units: &[u16]) -> Vec<u8> {
    let mut output = Vec::new();
    for &unit in units {
        match unit {
            0 => output.extend_from_slice(&[0xc0, 0x80]),
            1..=0x7f => output.push(unit as u8),
            0x80..=0x7ff => {
                output.push(0xc0 | ((unit >> 6) as u8));
                output.push(0x80 | ((unit & 0x3f) as u8));
            }
            _ => {
                output.push(0xe0 | ((unit >> 12) as u8));
                output.push(0x80 | (((unit >> 6) & 0x3f) as u8));
                output.push(0x80 | ((unit & 0x3f) as u8));
            }
        }
    }
    output
}

fn descriptor_header_fixture(descriptor: &[u8]) -> Vec<u8> {
    let mut bytes = Vec::new();
    bytes.extend_from_slice(&0xcafebabe_u32.to_be_bytes());
    u16_be(&mut bytes, 0);
    u16_be(&mut bytes, 52);
    u16_be(&mut bytes, 7);
    utf8(&mut bytes, b"Test"); // 1
    class_entry(&mut bytes, 1); // 2
    utf8(&mut bytes, b"java/lang/Object"); // 3
    class_entry(&mut bytes, 3); // 4
    utf8(&mut bytes, b"method"); // 5
    utf8(&mut bytes, descriptor); // 6
    u16_be(&mut bytes, 0x0021);
    u16_be(&mut bytes, 2);
    u16_be(&mut bytes, 4);
    u16_be(&mut bytes, 0);
    u16_be(&mut bytes, 0);
    u16_be(&mut bytes, 1);
    u16_be(&mut bytes, 0x0001);
    u16_be(&mut bytes, 5);
    u16_be(&mut bytes, 6);
    u16_be(&mut bytes, 0);
    u16_be(&mut bytes, 0);
    bytes
}

fn fixture_version(major: u16, minor: u16) -> Fixture {
    let mut fixture = fixture();
    fixture.bytes[4..6].copy_from_slice(&minor.to_be_bytes());
    fixture.bytes[6..8].copy_from_slice(&major.to_be_bytes());
    fixture
}

fn slice<'a>(bytes: &'a [u8], span: &ByteSpan) -> &'a [u8] {
    let start = usize::try_from(span.start).unwrap();
    let end = start + usize::try_from(span.length).unwrap();
    &bytes[start..end]
}

fn header_attribute_shells(header: &ClassHeader) -> impl Iterator<Item = &AttributeShell> {
    header
        .attributes
        .iter()
        .chain(header.fields.iter().flat_map(|field| &field.attributes))
        .chain(header.methods.iter().flat_map(|method| &method.attributes))
}

fn assert_attribute_shells_within(header: &ClassHeader, input: &[u8]) {
    let input_len = u64::try_from(input.len()).unwrap();
    for shell in header_attribute_shells(header) {
        let span_end = shell.span.start.checked_add(shell.span.length).unwrap();
        let content_end = shell
            .content_span
            .start
            .checked_add(shell.content_span.length)
            .unwrap();
        assert!(span_end <= input_len);
        assert!(content_end <= input_len);
        assert_eq!(shell.content_span.start, shell.span.start + 6);
        assert_eq!(shell.span.length, shell.content_span.length + 6);
        assert_eq!(span_end, content_end);
        let length_offset = usize::try_from(shell.span.start).unwrap() + 2;
        assert_eq!(
            u64::from(read_u32(input, length_offset).unwrap()),
            shell.content_span.length
        );
    }
    let hosts = std::iter::once(&header.attributes)
        .chain(header.fields.iter().map(|field| &field.attributes))
        .chain(header.methods.iter().map(|method| &method.attributes));
    for shells in hosts {
        for pair in shells.windows(2) {
            assert!(pair[0].span.start + pair[0].span.length <= pair[1].span.start);
        }
    }
}

fn assert_structured_header_result(result: Result<HeaderInspection>, input: &[u8]) {
    match result {
        Ok(inspection) => assert_attribute_shells_within(&inspection.header, input),
        Err(Error::InvalidInput { .. }) => {}
        Err(other) => panic!("unexpected forensic header result: {other:?}"),
    }
}

/// Asserts a report's usage equals a fresh read of the budget, wall clock aside: the elapsed
/// time is read from the clock each time, so only the counted dimensions are compared.
fn assert_usage_matches_budget(usage: &UsageSnapshot, budget: &Budget) {
    let mut reported = usage.clone();
    let mut live = budget.usage();
    reported.elapsed_millis = 0;
    live.elapsed_millis = 0;
    assert_eq!(
        reported, live,
        "the report's usage is a faithful read of the budget"
    );
}

fn assert_bytecode_report_invariants(
    report: &BytecodeInspection,
    bytes: &[u8],
    code: &[u8],
    budget: &Budget,
) {
    let code_length = u32::try_from(code.len()).unwrap();
    assert!(report.exception_handlers.is_empty());
    assert_eq!(report.exception_handler_count, 0);
    assert_eq!(report.verification, VerificationStatus::NotPerformed);
    assert_eq!(report.code_span.length, u64::from(code_length));

    let mut prefix_end = 0u32;
    for fact in &report.instructions {
        assert_eq!(fact.bci, prefix_end);
        assert!(fact.width > 0);
        assert_eq!(
            fact.span.start,
            report.code_span.start + u64::from(fact.bci)
        );
        assert_eq!(fact.span.length, u64::from(fact.width));
        assert_eq!(fact.operands_span.start, fact.span.start + 1);
        assert_eq!(fact.operands_span.length, u64::from(fact.width - 1));
        prefix_end = prefix_end.checked_add(fact.width).unwrap();
        assert!(prefix_end <= code_length);
        assert_eq!(fact.opcode, code[fact.bci as usize]);
        assert_eq!(
            slice(bytes, &fact.span),
            &code[fact.bci as usize..prefix_end as usize]
        );
    }

    match &report.execution {
        ExecutionReport::Complete { usage } => {
            assert_eq!(prefix_end, code_length);
            assert!(report.stopped_at.is_none());
            assert!(report.diagnostics.is_empty());
            assert_usage_matches_budget(usage, budget);
        }
        ExecutionReport::Partial { reason, usage } => {
            let TerminationReason::Error { code: reason_code } = reason else {
                panic!("unlimited instruction failure must have an error reason");
            };
            let Some(BytecodeStop::Instructions {
                bci,
                class_offset,
                code: stop_code,
            }) = report.stopped_at.as_ref()
            else {
                panic!("partial instruction decode must report an instruction stop");
            };
            assert_eq!(*bci, prefix_end);
            assert_eq!(*class_offset, report.code_span.start + u64::from(*bci));
            assert_eq!(report.diagnostics.len(), 1);
            assert_eq!(reason_code, stop_code);
            assert_eq!(reason_code, &report.diagnostics[0].code);
            assert_eq!(report.diagnostics[0].severity, DiagnosticSeverity::Error);
            assert_usage_matches_budget(usage, budget);
        }
        ExecutionReport::Cancelled { .. } | ExecutionReport::Failed { .. } => {
            panic!("unlimited bytecode property must complete or stop on an instruction error")
        }
    }
    let usage = budget.usage();
    assert_eq!(usage.class_bytes, bytes.len() as u64);
    assert_eq!(usage.code_bytes, u64::from(prefix_end));
    assert_eq!(usage.result_items, 1 + report.instructions.len() as u64);
    let shell_start = usize::try_from(report.code_span.start).unwrap() - 14;
    let declared_length = u64::from(read_u32(bytes, shell_start + 2).unwrap());
    assert_eq!(
        usage.attribute_bytes,
        declared_length.checked_add(6).unwrap()
    );
}

fn instruction_stop(stop: &BytecodeStop) -> (u32, u64, &str) {
    match stop {
        BytecodeStop::Instructions {
            bci,
            class_offset,
            code,
        } => (*bci, *class_offset, code),
        BytecodeStop::ExceptionHandlers { .. } => panic!("expected instruction stop"),
    }
}

fn handler_stop(stop: &BytecodeStop) -> (u32, u64, &str) {
    match stop {
        BytecodeStop::ExceptionHandlers {
            ordinal,
            class_offset,
            code,
        } => (*ordinal, *class_offset, code),
        BytecodeStop::Instructions { .. } => panic!("expected exception-handler stop"),
    }
}


#[test]
fn all_header_prefixes_are_panic_free_and_only_complete_input_succeeds() {
    let fixture = fixture();
    for prefix_len in 0..=fixture.bytes.len() {
        let prefix = &fixture.bytes[..prefix_len];
        let result = inspect_header(
            prefix,
            &mut Budget::new(limits()),
            InspectionMode::Forensic,
        );
        assert_eq!(
            result.is_ok(),
            prefix_len == fixture.bytes.len(),
            "unexpected result for prefix {prefix_len}/{}",
            fixture.bytes.len()
        );
        assert_structured_header_result(result, prefix);
    }
}

#[test]
fn oversized_attribute_length_is_rejected_at_the_owner_but_nested_code_stays_lazy() {
    let fixture = fixture();
    for (index, length_offset) in fixture.attribute_length_offsets.into_iter().enumerate() {
        let mut bytes = fixture.bytes.clone();
        bytes[length_offset..length_offset + 4].copy_from_slice(&u32::MAX.to_be_bytes());
        let header = inspect_header(
            &bytes,
            &mut Budget::new(limits()),
            InspectionMode::Forensic,
        );
        if index == 4 {
            assert!(header.is_ok());
            assert!(matches!(
                inspect_method_bytecode(&bytes, selector(), &mut Budget::new(limits()),),
                Err(Error::InvalidInput { .. })
            ));
        } else {
            assert!(matches!(header, Err(Error::InvalidInput { .. })));
        }
    }
}

#[test]
fn oversized_and_truncated_switch_declarations_stop_without_expansion() {
    let mut table_negative = vec![0xaa, 0, 0, 0];
    table_negative.extend_from_slice(&0i32.to_be_bytes());
    table_negative.extend_from_slice(&1i32.to_be_bytes());
    table_negative.extend_from_slice(&0i32.to_be_bytes());

    let mut table_huge = vec![0xaa, 0, 0, 0];
    table_huge.extend_from_slice(&0i32.to_be_bytes());
    table_huge.extend_from_slice(&i32::MIN.to_be_bytes());
    table_huge.extend_from_slice(&i32::MAX.to_be_bytes());

    let mut lookup_negative = vec![0xab, 0, 0, 0];
    lookup_negative.extend_from_slice(&0i32.to_be_bytes());
    lookup_negative.extend_from_slice(&(-1i32).to_be_bytes());

    let mut lookup_huge = vec![0xab, 0, 0, 0];
    lookup_huge.extend_from_slice(&0i32.to_be_bytes());
    lookup_huge.extend_from_slice(&i32::MAX.to_be_bytes());

    let cases = [
        (table_negative, &[0usize, 1, 4, 8, 12][..]),
        (table_huge, &[0usize, 1, 4, 8, 12][..]),
        (lookup_negative, &[0usize, 1, 4, 8][..]),
        (lookup_huge, &[0usize, 1, 4, 8][..]),
    ];
    for (code, cut_points) in cases {
        for &code_len in cut_points.iter().chain(std::iter::once(&code.len())) {
            let bytes = bytecode_fixture(52, 0, Some(&code[..code_len]), &[], false, false);
            let mut budget = Budget::new(limits());
            match inspect_method_bytecode(&bytes, selector(), &mut budget) {
                Ok(report) => {
                    assert_bytecode_report_invariants(
                        &report,
                        &bytes,
                        &code[..code_len],
                        &budget,
                    );
                    if code_len == code.len() {
                        assert!(matches!(report.execution, ExecutionReport::Partial { .. }));
                    }
                }
                Err(Error::InvalidInput { .. } | Error::Unsupported { .. }) => {}
                Err(other) => panic!("unexpected unlimited-budget error: {other:?}"),
            }
        }
    }
}

#[test]
fn invalid_tableswitch_ranges_are_method_local_partial_reports() {
    let cases = [
        (
            vec![0xaa, 0, 0, 0, 0, 0, 0, 0, 0, 0, 0, 1, 0, 0, 0, 0],
            0,
            0,
        ),
        (
            vec![0x00, 0xaa, 0, 0, 0, 0, 0, 0, 0, 0, 0, 1, 0, 0, 0, 0],
            1,
            1,
        ),
    ];
    for (code, expected_bci, expected_facts) in cases {
        let bytes = bytecode_fixture(52, 0, Some(&code), &[], false, false);
        let mut budget = Budget::new(limits());
        let report = inspect_method_bytecode(&bytes, selector(), &mut budget).unwrap();
        assert_eq!(report.instructions.len(), expected_facts);
        assert_bytecode_report_invariants(&report, &bytes, &code, &budget);
        assert_eq!(
            instruction_stop(report.stopped_at.as_ref().unwrap()),
            (
                expected_bci,
                report.code_span.start + u64::from(expected_bci),
                "classfile_instruction_invalid_range"
            )
        );
    }

    let valid = vec![
        0xaa, 0, 0, 0, 0, 0, 0, 0, 0, 0, 0, 1, 0, 0, 0, 1, 0, 0, 0, 0,
    ];
    let bytes = bytecode_fixture(52, 0, Some(&valid), &[], false, false);
    let report =
        inspect_method_bytecode(&bytes, selector(), &mut Budget::new(limits()))
            .unwrap();
    assert!(matches!(report.execution, ExecutionReport::Complete { .. }));
    assert_eq!(report.instructions[0].width, 20);
}

#[test]
fn malformed_wide_forms_stop_exactly_at_the_current_bci() {
    let cases: &[&[u8]] = &[
        &[0xc4],
        &[0xc4, 0x00, 0x00, 0x00],
        &[0xc4, 0x15, 0x00],
        &[0xc4, 0x84, 0x00, 0x01, 0x00],
    ];
    for &code in cases {
        let bytes = bytecode_fixture(52, 0, Some(code), &[], false, false);
        let mut budget = Budget::new(limits());
        let report = inspect_method_bytecode(&bytes, selector(), &mut budget).unwrap();
        assert_bytecode_report_invariants(&report, &bytes, code, &budget);
        assert_eq!(report.instructions.len(), 0);
        assert_eq!(instruction_stop(report.stopped_at.as_ref().unwrap()).0, 0);
    }
}

#[test]
fn synthetic_historical_jsr_jsr_w_and_ret_boundaries_are_preserved() {
    // Synthetic boundary coverage only; this is not a historical compiler corpus.
    let code = [
        0xa8, 0x00, 0x00, // jsr
        0xc9, 0x00, 0x00, 0x00, 0x00, // jsr_w
        0xa9, 0x01, // ret
    ];
    for major in [49, 52] {
        let bytes = bytecode_fixture(major, 0, Some(&code), &[], false, false);
        let report =
            inspect_method_bytecode(&bytes, selector(), &mut Budget::new(limits()))
                .unwrap();
        assert_eq!(
            report
                .instructions
                .iter()
                .map(|fact| (fact.bci, fact.opcode, fact.width, fact.constant_pool_index))
                .collect::<Vec<_>>(),
            vec![(0, 0xa8, 3, None), (3, 0xc9, 5, None), (8, 0xa9, 2, None)]
        );
        for fact in &report.instructions {
            assert_eq!(
                slice(&bytes, &fact.span),
                &code[fact.bci as usize..(fact.bci + fact.width) as usize]
            );
        }
    }
}

#[test]
fn descriptor_mutf8_boundaries_survive_the_real_header_path() {
    let units = [
        b'(' as u16,
        0,
        0xd83d,
        0xde00,
        0xd800,
        b')' as u16,
        b'V' as u16,
    ];
    let raw = mutf8(&units);
    let bytes = descriptor_header_fixture(&raw);
    let header = inspect_header(
        &bytes,
        &mut Budget::new(limits()),
        InspectionMode::Strict,
    )
    .unwrap()
    .header;
    let descriptor = &header.methods[0].descriptor;
    assert_eq!(descriptor.raw().0, raw);
    assert_eq!(descriptor.utf16(), units);
    assert_eq!(descriptor.escaped(), "(\\u0000\\uD83D\\uDE00\\uD800)V");
}

#[test]
fn switch_widths_use_code_start_alignment_and_do_not_iterate_table_pairs() {
    let mut table = vec![0x00, 0xaa, 0, 0];
    table.extend_from_slice(&0i32.to_be_bytes());
    table.extend_from_slice(&i32::MAX.to_be_bytes());
    table.extend_from_slice(&i32::MAX.to_be_bytes());
    table.extend_from_slice(&0i32.to_be_bytes());
    table.push(0xb1);
    let bytes = bytecode_fixture(52, 0, Some(&table), &[], false, false);
    let report =
        inspect_method_bytecode(&bytes, selector(), &mut Budget::new(limits()))
            .unwrap();
    assert_eq!(
        report
            .instructions
            .iter()
            .map(|fact| (fact.bci, fact.width))
            .collect::<Vec<_>>(),
        vec![(0, 1), (1, 19), (20, 1)]
    );

    let mut lookup = vec![0x00, 0xab, 0, 0];
    lookup.extend_from_slice(&0i32.to_be_bytes());
    lookup.extend_from_slice(&1i32.to_be_bytes());
    lookup.extend_from_slice(&7i32.to_be_bytes());
    lookup.extend_from_slice(&0i32.to_be_bytes());
    lookup.push(0xb1);
    let bytes = bytecode_fixture(52, 0, Some(&lookup), &[], false, false);
    let report =
        inspect_method_bytecode(&bytes, selector(), &mut Budget::new(limits()))
            .unwrap();
    assert_eq!(
        report
            .instructions
            .iter()
            .map(|fact| (fact.bci, fact.width))
            .collect::<Vec<_>>(),
        vec![(0, 1), (1, 19), (20, 1)]
    );
}

#[test]
fn method_lookup_code_cardinality_and_version_gate_are_stable() {
    let bytes = bytecode_fixture(52, 0, Some(&[0xb1]), &[], false, false);
    let missing = MethodSelector {
        name: JvmBytes(b"missing".to_vec()),
        descriptor: JvmBytes(b"()V".to_vec()),
    };
    assert!(
        matches!(inspect_method_bytecode(&bytes, missing, &mut Budget::new(limits())), Err(Error::InvalidInput { ref code, .. }) if code == "classfile_method_not_found")
    );
    let duplicate = bytecode_fixture(52, 0, Some(&[0xb1]), &[], true, false);
    assert!(
        matches!(inspect_method_bytecode(&duplicate, selector(), &mut Budget::new(limits())), Err(Error::InvalidInput { ref code, .. }) if code == "classfile_method_ambiguous")
    );
    let no_code = bytecode_fixture(52, 0, None, &[], false, false);
    assert!(
        matches!(inspect_method_bytecode(&no_code, selector(), &mut Budget::new(limits())), Err(Error::Unsupported { ref code, .. }) if code == "classfile_method_has_no_code")
    );
    let duplicate_code = bytecode_fixture(52, 0, Some(&[0xb1]), &[], false, true);
    assert!(
        matches!(inspect_method_bytecode(&duplicate_code, selector(), &mut Budget::new(limits())), Err(Error::InvalidInput { ref code, .. }) if code == "classfile_duplicate_code_attribute")
    );

    for (major, minor, expected) in [
        (52, 1, "classfile_java8_runtime_rejected"),
        (53, 0, "classfile_version_structural_probe_only"),
        (56, u16::MAX, "classfile_preview_unsupported"),
        (72, 0, "classfile_future_release"),
    ] {
        let bytes = bytecode_fixture(major, minor, Some(&[0xb1]), &[], false, false);
        assert!(
            matches!(inspect_method_bytecode(&bytes, selector(), &mut Budget::new(limits())), Err(Error::Unsupported { code, .. }) if code == expected)
        );
    }
}

#[test]
fn bytecode_request_charges_only_local_code_shell_and_returned_facts() {
    let bytes = bytecode_fixture(52, 0, Some(&[0xb1]), &[], false, false);
    let mut configured = limits();
    configured.attribute_bytes = 19;
    configured.result_items = 2;
    let mut budget = Budget::new(configured);
    let report = inspect_method_bytecode(&bytes, selector(), &mut budget).unwrap();
    assert!(matches!(report.execution, ExecutionReport::Complete { .. }));
    assert_eq!(budget.usage().class_bytes, bytes.len() as u64);
    assert_eq!(budget.usage().attribute_bytes, 19);
    assert_eq!(budget.usage().result_items, 2); // report root + one instruction
    assert_eq!(budget.usage().code_bytes, 1);
}

#[test]
fn instruction_failure_preserves_precollected_handlers() {
    let bytes = bytecode_fixture(
        52,
        0,
        Some(&[0x00, 0xcb]),
        &[(0, 1, 1, 0), (0, 2, 1, 2)],
        false,
        false,
    );
    let report =
        inspect_method_bytecode(&bytes, selector(), &mut Budget::new(limits()))
            .unwrap();
    assert_eq!(report.exception_handlers.len(), 2);
    assert_eq!(report.exception_handlers[0].ordinal, 0);
    assert_eq!(report.exception_handlers[1].ordinal, 1);
    assert_eq!(report.instructions.len(), 1);
    assert_eq!(instruction_stop(report.stopped_at.as_ref().unwrap()).0, 1);
}

#[test]
fn bytecode_budgets_return_prefix_reports() {
    let bytes = bytecode_fixture(52, 0, Some(&[0x00, 0x00, 0xb1]), &[], false, false);
    let mut configured = limits();
    configured.code_bytes = 1;
    let report =
        inspect_method_bytecode(&bytes, selector(), &mut Budget::new(configured)).unwrap();
    assert_eq!(report.instructions.len(), 1);
    assert_eq!(instruction_stop(report.stopped_at.as_ref().unwrap()).0, 1);
    assert!(matches!(
        report.execution,
        ExecutionReport::Partial {
            reason: TerminationReason::BudgetExceeded {
                dimension: BudgetDimension::CodeBytes
            },
            ..
        }
    ));
}

#[test]
fn width_adapter_covers_operand_bearing_opcode_categories() {
    let cases: &[(&[u8], u32)] = &[
        (&[0x10, 0], 2),
        (&[0x11, 0, 0], 3),
        (&[0x12, 1], 2),
        (&[0x13, 0, 1], 3),
        (&[0x84, 0, 0], 3),
        (&[0xa7, 0, 0], 3),
        (&[0xb9, 0, 1, 1, 0], 5),
        (&[0xba, 0, 1, 0, 0], 5),
        (&[0xc5, 0, 1, 1], 4),
        (&[0xc8, 0, 0, 0, 0], 5),
        (&[0xc4, 0x15, 0, 1], 4),
        (&[0xc4, 0x84, 0, 1, 0, 1], 6),
    ];
    for &(code, expected) in cases {
        let bytes = bytecode_fixture(52, 0, Some(code), &[], false, false);
        let report =
            inspect_method_bytecode(&bytes, selector(), &mut Budget::new(limits()))
                .unwrap();
        assert_eq!(
            report.instructions[0].width, expected,
            "opcode {:02x}",
            code[0]
        );
    }
}

#[test]
fn forensic_diagnostics_are_atomically_charged_as_result_items() {
    let fixture = fixture_version(55, 1);

    let mut exact_structure = limits();
    exact_structure.result_items = 8;
    let mut budget = Budget::new(exact_structure);
    let error =
        inspect_header(&fixture.bytes, &mut budget, InspectionMode::Forensic).unwrap_err();
    assert_eq!(budget.usage().result_items, 8);
    assert!(matches!(
        error,
        Error::BudgetExceeded {
            dimension: BudgetDimension::ResultItems,
            consumed: 8,
            requested: 2,
            ..
        }
    ));

    let mut with_diagnostics = limits();
    with_diagnostics.result_items = 10;
    let mut budget = Budget::new(with_diagnostics);
    let inspection =
        inspect_header(&fixture.bytes, &mut budget, InspectionMode::Forensic).unwrap();
    assert_eq!(inspection.diagnostics.len(), 2);
    assert_eq!(budget.usage().result_items, 10);

    let mut strict_limit = limits();
    strict_limit.result_items = 8;
    let mut budget = Budget::new(strict_limit);
    let error =
        inspect_header(&fixture.bytes, &mut budget, InspectionMode::Strict).unwrap_err();
    assert!(matches!(
        error,
        Error::Unsupported { ref code, .. }
            if code == "classfile_version_structural_probe_only"
    ));
    assert_eq!(budget.usage().result_items, 8);
}

#[test]
fn inspects_owned_lossless_header_and_exact_attribute_shells() {
    let fixture = fixture();
    let mut budget = Budget::new(limits());
    let inspection =
        inspect_header(&fixture.bytes, &mut budget, InspectionMode::Strict).unwrap();
    assert_eq!(inspection.structural_read, HeaderStructuralRead::Complete);
    assert_eq!(inspection.verification, VerificationStatus::NotPerformed);
    let header = inspection.header;
    assert_eq!((header.major_version, header.minor_version), (52, 0));
    assert_eq!(header.access_flags, 0x0021);
    assert_eq!(
        header.this_class.raw().0,
        b"A\xc0\x80\xed\xa0\xbd\xed\xb8\x80\xed\xa0\x80\\\"\xe2\x80\xae"
    );
    assert_eq!(
        header.this_class.utf16(),
        &[0x41, 0, 0xd83d, 0xde00, 0xd800, 0x5c, 0x22, 0x202e]
    );
    assert_eq!(
        header.this_class.escaped(),
        "A\\u0000\\uD83D\\uDE00\\uD800\\\\\\\"\\u202E"
    );
    assert_eq!(
        header.super_class.as_ref().unwrap().escaped(),
        "java/lang/Object"
    );
    assert_eq!(header.interfaces[0].escaped(), "pkg/Interface");
    assert_eq!(header.fields[0].name.escaped(), "field");
    assert_eq!(header.fields[0].descriptor.escaped(), "I");
    assert_eq!(header.methods[0].name.escaped(), "method");
    assert_eq!(header.methods[0].descriptor.escaped(), "()V");

    assert_eq!(header_attribute_shells(&header).count(), 4);
    let nested_shell_start = fixture.attribute_length_offsets[4] - 2;
    assert!(
        header_attribute_shells(&header)
            .all(|shell| shell.span.start != nested_shell_start as u64)
    );
    let shells = [
        (&header.fields[0].attributes[0], &fixture.field_attribute),
        (&header.methods[0].attributes[0], &fixture.method_attribute),
        (&header.methods[0].attributes[1], &fixture.code_attribute),
        (&header.attributes[0], &fixture.class_attribute),
    ];
    for (actual, expected) in shells {
        assert_eq!(
            (&actual.span, &actual.content_span),
            (&expected.0, &expected.1)
        );
        assert_eq!(
            slice(&fixture.bytes, &actual.span),
            slice(&fixture.bytes, &expected.0)
        );
        assert_eq!(
            slice(&fixture.bytes, &actual.content_span),
            slice(&fixture.bytes, &expected.1)
        );
    }
    assert_eq!(
        slice(
            &fixture.bytes,
            &header.methods[0].attributes[0].content_span
        ),
        &[0xff]
    );
    assert_eq!(
        slice(
            &fixture.bytes,
            &header.methods[0].attributes[1].content_span
        ),
        &[
            0, 1, 0, 1, 0, 0, 0, 1, 0xb1, 0, 0, 0, 1, 0, 14, 0, 0, 0, 2, 0xca, 0xfe,
        ]
    );
    assert_eq!(budget.usage().class_bytes, fixture.bytes.len() as u64);
    assert_eq!(budget.usage().attribute_bytes, 51);
    assert_eq!(budget.usage().result_items, 8);
}

#[test]
fn rejects_trailing_bytes_and_decode_failures_with_stable_codes() {
    let mut trailing = fixture().bytes;
    trailing.push(0);
    let error = inspect_header(
        &trailing,
        &mut Budget::new(limits()),
        InspectionMode::Strict,
    )
    .unwrap_err();
    assert!(
        matches!(error, Error::InvalidInput { ref code, .. } if code == "classfile_trailing_bytes")
    );

    let mut invalid_mutf8 = fixture().bytes;
    let nul = invalid_mutf8.iter().position(|byte| *byte == 0xc0).unwrap();
    invalid_mutf8[nul + 1] = 0x41;
    let error = inspect_header(
        &invalid_mutf8,
        &mut Budget::new(limits()),
        InspectionMode::Strict,
    )
    .unwrap_err();
    assert!(
        matches!(error, Error::InvalidInput { ref code, ref message } if code == "classfile_decode" && message.contains("kind=invalid modified utf8") && message.contains("context=") && message.contains("position="))
    );

    let mut bad_index = fixture().bytes;
    let class_info = bad_index
        .windows(10)
        .position(|window| window == [0, 0x21, 0, 2, 0, 4, 0, 1, 0, 13])
        .unwrap();
    bad_index[class_info + 2..class_info + 4].copy_from_slice(&1u16.to_be_bytes());
    let error = inspect_header(
        &bad_index,
        &mut Budget::new(limits()),
        InspectionMode::Strict,
    )
    .unwrap_err();
    assert!(
        matches!(error, Error::InvalidInput { ref code, .. } if code == "classfile_decode")
    );

    let mut bad_tag = fixture().bytes;
    bad_tag[10] = 2;
    let error = inspect_header(
        &bad_tag,
        &mut Budget::new(limits()),
        InspectionMode::Strict,
    )
    .unwrap_err();
    assert!(
        matches!(error, Error::InvalidInput { ref code, .. } if code == "classfile_decode")
    );

    let truncated = &fixture().bytes[..12];
    let error = inspect_header(
        truncated,
        &mut Budget::new(limits()),
        InspectionMode::Strict,
    )
    .unwrap_err();
    assert!(
        matches!(error, Error::InvalidInput { ref code, .. } if code == "classfile_decode")
    );
}

#[test]
fn enforces_class_attribute_result_and_cancellation_budgets() {
    let fixture = fixture();
    let mut class_limits = limits();
    class_limits.class_bytes = fixture.bytes.len() as u64 - 1;
    assert!(matches!(
        inspect_header(
            &fixture.bytes,
            &mut Budget::new(class_limits),
            InspectionMode::Strict
        ),
        Err(Error::BudgetExceeded {
            dimension: BudgetDimension::ClassBytes,
            ..
        })
    ));

    let mut attribute_limits = limits();
    attribute_limits.attribute_bytes = 7;
    assert!(matches!(
        inspect_header(
            &fixture.bytes,
            &mut Budget::new(attribute_limits),
            InspectionMode::Strict
        ),
        Err(Error::BudgetExceeded {
            dimension: BudgetDimension::AttributeBytes,
            ..
        })
    ));

    let mut result_limits = limits();
    result_limits.result_items = 1;
    assert!(matches!(
        inspect_header(
            &fixture.bytes,
            &mut Budget::new(result_limits),
            InspectionMode::Strict
        ),
        Err(Error::BudgetExceeded {
            dimension: BudgetDimension::ResultItems,
            ..
        })
    ));

    let token = CancellationToken::new();
    token.cancel();
    let mut cancelled = Budget::with_cancellation_token(limits(), token);
    assert!(matches!(
        inspect_header(&fixture.bytes, &mut cancelled, InspectionMode::Strict),
        Err(Error::Cancelled { .. })
    ));
    assert_eq!(cancelled.usage().class_bytes, 0);
}

#[test]
fn rejects_long_in_last_constant_pool_slot_that_noak_accepts() {
    let mut bytes = Vec::new();
    bytes.extend_from_slice(&0xcafebabe_u32.to_be_bytes());
    u16_be(&mut bytes, 0);
    u16_be(&mut bytes, 52);
    u16_be(&mut bytes, 4);
    utf8(&mut bytes, b"A");
    class_entry(&mut bytes, 1);
    bytes.push(5);
    bytes.extend_from_slice(&0i64.to_be_bytes());
    u16_be(&mut bytes, 0);
    u16_be(&mut bytes, 2);
    u16_be(&mut bytes, 0);
    u16_be(&mut bytes, 0);
    u16_be(&mut bytes, 0);
    u16_be(&mut bytes, 0);
    u16_be(&mut bytes, 0);
    assert!(
        noak::reader::Class::new(&bytes).is_ok(),
        "regression premise: noak 0.7.0 accepts the malformed pool boundary"
    );
    let error = inspect_header(
        &bytes,
        &mut Budget::new(limits()),
        InspectionMode::Strict,
    )
    .unwrap_err();
    assert!(
        matches!(error, Error::InvalidInput { ref code, .. } if code == "classfile_invalid_constant_pool_slots")
    );
}

#[test]
fn invalid_magic_keeps_noak_decode_diagnostic_even_if_pool_looks_like_final_long() {
    let mut bytes = Vec::new();
    bytes.extend_from_slice(&0xdeadbeef_u32.to_be_bytes());
    u16_be(&mut bytes, 0);
    u16_be(&mut bytes, 52);
    u16_be(&mut bytes, 2);
    bytes.push(5);
    bytes.extend_from_slice(&0i64.to_be_bytes());
    let error = inspect_header(
        &bytes,
        &mut Budget::new(limits()),
        InspectionMode::Strict,
    )
    .unwrap_err();
    assert!(matches!(
        error,
        Error::InvalidInput { ref code, ref message }
            if code == "classfile_decode"
                && message.contains("kind=invalid file prefix")
                && !message.contains("constant-pool tag")
    ));

    let error = inspect_header(
        &[0xca, 0xfe, 0xba],
        &mut Budget::new(limits()),
        InspectionMode::Strict,
    )
    .unwrap_err();
    assert!(matches!(
        error,
        Error::InvalidInput { ref code, .. } if code == "classfile_decode"
    ));
}
