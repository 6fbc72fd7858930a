use jarde_reader::budget::{Budget, BudgetDimension, CountedBudgetDimension, Limits};
use jarde_reader::bytecode::LocalDebugName;
use jarde_reader::error::Error;
use jarde_reader::header::attribute_slice;
use jarde_reader::ledger::{OperationLedger, UsageOwner};
use jarde_reader::model::{ByteSpan, JvmBytes};

fn limits() -> Limits {
    Limits {
        input_bytes: u64::MAX,
        archive_entries: u64::MAX,
        entry_bytes: u64::MAX,
        read_bytes: u64::MAX,
        class_bytes: u64::MAX,
        attribute_bytes: u64::MAX,
        code_bytes: u64::MAX,
        result_items: u64::MAX,
        output_bytes: u64::MAX,
        class_headers: u64::MAX,
        method_bodies: u64::MAX,
        ir_items: u64::MAX,
        ir_edges: u64::MAX,
        analysis_steps: u64::MAX,
        normalization_clones: u64::MAX,
        nested_depth: u64::MAX,
        dependency_depth: u64::MAX,
        elapsed_millis: u64::MAX,
    }
}

fn code_of(result: Result<&[u8], Error>) -> String {
    match result {
        Err(Error::InvalidInput { code, .. }) => code,
        other => panic!("expected an invalid-input refusal, got {:?}", other.map(|s| s.to_vec())),
    }
}

#[test]
fn a_debug_name_replaces_each_invalid_sequence() {
    let name = LocalDebugName { slot: 1, start_bci: 0, end_bci: 4, name: JvmBytes(vec![0x61, 0xff, 0x62]) };
    assert_eq!(name.name_lossy(), "a\u{FFFD}b");
    let ascii = LocalDebugName { slot: 0, start_bci: 0, end_bci: 1, name: JvmBytes(b"this".to_vec()) };
    assert_eq!(ascii.name_lossy(), "this");
}

#[test]
fn an_attribute_slice_is_refused_only_as_a_bad_span() {
    let bytes = [0u8, 1, 2, 3, 4, 5, 6, 7, 8, 9, 10, 11];
    let shell = ByteSpan::new(2, 8);
    let content = ByteSpan::new(8, 2);
    assert_eq!(attribute_slice(&bytes, &shell, &content).unwrap(), &[8u8, 9][..]);
    let wrong_length = ByteSpan::new(2, 9);
    assert_eq!(code_of(attribute_slice(&bytes, &wrong_length, &content)), "classfile_invalid_attribute_span");
    let wrong_start = ByteSpan::new(3, 8);
    assert_eq!(code_of(attribute_slice(&bytes, &wrong_start, &content)), "classfile_invalid_attribute_span");
    let outside = ByteSpan::new(8, 6);
    let outside_shell = ByteSpan::new(2, 12);
    assert_eq!(code_of(attribute_slice(&bytes, &outside_shell, &outside)), "classfile_invalid_attribute_span");
    let huge = ByteSpan::new(8, u64::MAX - 2);
    assert_eq!(code_of(attribute_slice(&bytes, &shell, &huge)), "classfile_span_overflow");
}

#[test]
fn a_refused_ledger_charge_names_the_limit_the_total_and_the_request() {
    let budget = Budget::new(Limits { class_bytes: 10, ..limits() });
    let ledger = OperationLedger::new(&budget);
    assert!(ledger.charge(UsageOwner::Methods, CountedBudgetDimension::ClassBytes, 4).is_ok());
    match ledger.charge(UsageOwner::Delivery, CountedBudgetDimension::ClassBytes, 7) {
        Err(Error::BudgetExceeded { dimension, limit, consumed, requested }) => {
            assert_eq!(dimension, BudgetDimension::ClassBytes);
            assert_eq!((limit, consumed, requested), (10, 4, 7));
        },
        other => panic!("expected a class-bytes refusal, got {:?}", other),
    }
}

#[test]
fn a_refused_nesting_depth_names_the_limit_and_the_depth_below_it() {
    let budget = Budget::new(Limits { nested_depth: 3, ..limits() });
    let ledger = OperationLedger::new(&budget);
    assert!(ledger.check_nested_depth(UsageOwner::Discovery, 3).is_ok());
    match ledger.check_nested_depth(UsageOwner::Discovery, 5) {
        Err(Error::BudgetExceeded { dimension, limit, consumed, requested }) => {
            assert_eq!(dimension, BudgetDimension::NestedDepth);
            assert_eq!((limit, consumed, requested), (3, 4, 1));
        },
        other => panic!("expected a nesting refusal, got {:?}", other),
    }
}

#[test]
fn a_debug_name_in_valid_utf8_comes_back_unchanged() {
    let name = LocalDebugName { slot: 2, start_bci: 0, end_bci: 4, name: JvmBytes("caf\u{e9}\u{2603}".as_bytes().to_vec()) };
    assert_eq!(name.name_lossy(), "caf\u{e9}\u{2603}");
    assert_eq!(name.name_lossy().as_bytes(), &name.name.0[..]);
}

#[test]
fn elapsed_milliseconds_saturate_to_u64() {
    assert_eq!(jarde_reader::cancel::saturate_millis(5), 5);
    assert_eq!(jarde_reader::cancel::saturate_millis(u64::MAX as u128), u64::MAX);
    assert_eq!(jarde_reader::cancel::saturate_millis(u64::MAX as u128 + 1), u64::MAX);
}
