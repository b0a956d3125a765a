use rust_the_forth::engine::error::OperationError;
use rust_the_forth::engine::operation::boolean::{And};
use rust_the_forth::engine::operation::{Operation};

#[test]
fn and_test_and_numbers() {
    let mut stack: Vec<i16> = vec![-1, -1];
    And.apply(&mut stack).unwrap();
    assert_eq!(stack, vec![-1]);
}

#[test]
fn and_test_not_and_number() {
    let mut stack: Vec<i16> = vec![-1, 0];
    And.apply(&mut stack).unwrap();
    assert_eq!(stack, vec![0]);
    let mut stack_two: Vec<i16> = vec![0, 0];
    And.apply(&mut stack_two).unwrap();
    assert_eq!(stack_two, vec![0]);
}

#[test]
fn and_test_and_numbers_many_elements() {
    let mut stack: Vec<i16> = vec![2, -1, -1];
    And.apply(&mut stack).unwrap();
    assert_eq!(stack, vec![2, -1]);
}

#[test]
fn and_test_underflow_and() {
    let mut stack: Vec<i16> = vec![];
    assert!(matches!(
        And.apply(&mut stack),
        Err(OperationError::StackUnderflow)
    ));

    let mut second_stack: Vec<i16> = vec![1];
    assert!(matches!(
        And.apply(&mut second_stack),
        Err(OperationError::StackUnderflow)
    ));
}
