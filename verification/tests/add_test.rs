use rust_the_forth::engine::error::OperationError;
use rust_the_forth::engine::operation::arithmetic::{Add};
use rust_the_forth::engine::operation::{Operation};

#[test]
fn add_test_add_two_numbers() {
    let mut stack: Vec<i16> = vec![2, 3];
    Add.apply(&mut stack).unwrap();
    assert_eq!(stack, vec![5]);
}

#[test]
fn add_test_add_last_two_numbers() {
    let mut stack: Vec<i16> = vec![2, 3, 3];
    Add.apply(&mut stack).unwrap();
    assert_eq!(stack, vec![2, 6]);
}

#[test]
fn add_test_add_numbers_multiple_times() {
    let mut stack: Vec<i16> = vec![2, 3, 3];
    Add.apply(&mut stack).unwrap();
    assert_eq!(stack, vec![2, 6]);
    Add.apply(&mut stack).unwrap();
    assert_eq!(stack, vec![8]);
}

#[test]
fn add_test_add_stack_underflow() {
    let mut stack: Vec<i16> = vec![1];
    assert!(matches!(
        Add.apply(&mut stack),
        Err(OperationError::StackUnderflow)
    ));
}
