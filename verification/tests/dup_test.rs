use rust_the_forth::engine::error::OperationError;
use rust_the_forth::engine::operation::stack_manipulation::{Dup};
use rust_the_forth::engine::operation::{Operation};

#[test]
fn dup_test_dup_last_number() {
    let mut stack: Vec<i16> = vec![2, 3];
    Dup.apply(&mut stack).unwrap();
    assert_eq!(stack, vec![2, 3, 3]);
}

#[test]
fn dup_test_underflow_dup() {
    let mut stack: Vec<i16> = vec![];
    assert!(matches!(
        Dup.apply(&mut stack),
        Err(OperationError::StackUnderflow)
    ));
}
