use op_cache::op::{batch_variable, exit_code, holds_reference};

#[test]
fn exit_codes_pass_through_and_a_signal_is_one() {
    assert_eq!(exit_code(Some(3)), 3);
    assert_eq!(exit_code(Some(0)), 0);
    assert_eq!(exit_code(None), 1);
}

#[test]
fn references_are_recognised_by_their_prefix() {
    assert!(holds_reference(b"op://v/i/f"));
    assert!(holds_reference(b"op://"));
    assert!(!holds_reference(b"op:/"));
    assert!(!holds_reference(b"op-less"));
    assert!(!holds_reference(b" op://v/i/f"));
}

#[test]
fn batch_variables_are_numbered_in_decimal() {
    assert_eq!(batch_variable("OP_CACHE_", 0), "OP_CACHE_0");
    assert_eq!(batch_variable("OP_CACHE_", 7), "OP_CACHE_7");
    assert_eq!(batch_variable("X", 1234567890), "X1234567890");
    assert_eq!(batch_variable("", usize::MAX), usize::MAX.to_string());
}
