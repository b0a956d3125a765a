use rust_the_forth::engine::error::OperationError;
use rust_the_forth::engine::operation::boolean::{Greater};
use rust_the_forth::engine::operation::{Operation};

#[test]
fn conditional_test_eq_numbers() {
    let mut stack: Vec<i16> = vec![3, 3];
    rust_the_forth::engine::operation::boolean::Eq.apply(&mut stack).unwrap();
    assert_eq!(stack, vec![-1]);
}

#[test]
fn conditional_test_not_eq_numbers() {
    let mut stack: Vec<i16> = vec![2, 3];
    rust_the_forth::engine::operation::boolean::Eq.apply(&mut stack).unwrap();
    assert_eq!(stack, vec![0]);
}

#[test]
fn conditional_test_eq_numbers_many_elements() {
    let mut stack: Vec<i16> = vec![2, 3, 3];
    rust_the_forth::engine::operation::boolean::Eq.apply(&mut stack).unwrap();
    assert_eq!(stack, vec![2, -1]);
}

#[test]
fn conditional_test_underflow_eq() {
    let mut stack: Vec<i16> = vec![];
    assert!(matches!(
        rust_the_forth::engine::operation::boolean::Eq.apply(&mut stack),
        Err(OperationError::StackUnderflow)
    ));

    let mut second_stack: Vec<i16> = vec![1];
    assert!(matches!(
        rust_the_forth::engine::operation::boolean::Eq.apply(&mut second_stack),
        Err(OperationError::StackUnderflow)
    ));
}

#[test]
fn conditional_test_greater_numbers() {
    let mut stack: Vec<i16> = vec![2, 1];
    Greater.apply(&mut stack).unwrap();
    assert_eq!(stack, vec![-1]);
}

#[test]
fn conditional_test_not_greater_number() {
    let mut stack: Vec<i16> = vec![2, 3];
    Greater.apply(&mut stack).unwrap();
    assert_eq!(stack, vec![0]);
}

#[test]
fn conditional_test_greater_numbers_many_elements() {
    let mut stack: Vec<i16> = vec![2, 4, 3];
    Greater.apply(&mut stack).unwrap();
    assert_eq!(stack, vec![2, -1]);
}

#[test]
fn conditional_test_underflow_greater() {
    let mut stack: Vec<i16> = vec![];
    assert!(matches!(
        Greater.apply(&mut stack),
        Err(OperationError::StackUnderflow)
    ));

    let mut second_stack: Vec<i16> = vec![1];
    assert!(matches!(
        Greater.apply(&mut second_stack),
        Err(OperationError::StackUnderflow)
    ));
}
