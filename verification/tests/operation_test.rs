use rust_the_forth::engine::error::OperationError;
use rust_the_forth::engine::forth_calculator::ForthCalculator;
use rust_the_forth::engine::operation::get_all_standar_operations;
use rust_the_forth::engine::operation::OperationType;

/// Applies the operation `key` of the catalog `ops` to `stack`.
fn apply(
    ops: &[OperationType],
    key: OperationType,
    stack: &mut Vec<i16>,
) -> Result<(), OperationError> {
    let op = ops.iter().find(|op| **op == key).expect("the catalog holds the operation");
    let mut output = String::new();
    ForthCalculator::execute_operation(*op, "", usize::MAX, stack, &mut output)
}

#[test]
fn operation_test_test_complex_sequence() {
    let ops = get_all_standar_operations();
    let mut stack = vec![10, 5, 3, 4, 2];

    apply(&ops, OperationType::Mul, &mut stack).unwrap();
    assert_eq!(stack, vec![10, 5, 3, 8]);

    apply(&ops, OperationType::Sub, &mut stack).unwrap();
    assert_eq!(stack, vec![10, 5, -5]);

    apply(&ops, OperationType::Div, &mut stack).unwrap();
    assert_eq!(stack, vec![10, -1]);

    apply(&ops, OperationType::Sub, &mut stack).unwrap();
    assert_eq!(stack, vec![11]);
}

#[test]
fn test_error_handling() {
    let ops = get_all_standar_operations();
    let mut stack = vec![1, 0];

    assert!(matches!(
        apply(&ops, OperationType::Div, &mut stack),
        Err(OperationError::DivisionByZero)
    ));

    assert_eq!(stack, vec![1, 0]);
}

#[test]
fn operation_test_test_complex_sequence_underflow() {
    let ops = get_all_standar_operations();

    let mut stack = vec![10, 5, 3, 4, 2];

    apply(&ops, OperationType::Mul, &mut stack).unwrap();
    assert_eq!(stack, vec![10, 5, 3, 8]);

    apply(&ops, OperationType::Sub, &mut stack).unwrap();
    assert_eq!(stack, vec![10, 5, -5]);

    apply(&ops, OperationType::Div, &mut stack).unwrap();
    assert_eq!(stack, vec![10, -1]);

    apply(&ops, OperationType::Sub, &mut stack).unwrap();
    assert_eq!(stack, vec![11]);

    assert!(matches!(
        apply(&ops, OperationType::Sub, &mut stack),
        Err(OperationError::StackUnderflow)
    ));
}
