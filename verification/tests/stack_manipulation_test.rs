use rust_the_forth::engine::error::OperationError;
use rust_the_forth::engine::operation::stack_manipulation::{Drop, Dup, Over, Rot, Swap};
use rust_the_forth::engine::operation::{Operation};

#[test]
fn stack_manipulation_test_dup_last_number() {
    let mut stack: Vec<i16> = vec![2, 3];
    Dup.apply(&mut stack).unwrap();
    assert_eq!(stack, vec![2, 3, 3]);
}

#[test]
fn stack_manipulation_test_underflow_dup() {
    let mut stack: Vec<i16> = vec![];
    assert!(matches!(
        Dup.apply(&mut stack),
        Err(OperationError::StackUnderflow)
    ));
}

#[test]
fn stack_manipulation_test_drop_last_number() {
    let mut stack: Vec<i16> = vec![2, 3];
    Drop.apply(&mut stack).unwrap();
    assert_eq!(stack, vec![2]);
}

#[test]
fn stack_manipulation_test_underflow_drop() {
    let mut stack: Vec<i16> = vec![];
    assert!(matches!(
        Drop.apply(&mut stack),
        Err(OperationError::StackUnderflow)
    ));
}

#[test]
fn stack_manipulation_test_swap_last_number() {
    let mut stack: Vec<i16> = vec![2, 3];
    Swap.apply(&mut stack).unwrap();
    assert_eq!(stack, vec![3, 2]);
}

#[test]
fn stack_manipulation_test_underflow_swap() {
    let mut stack: Vec<i16> = vec![1];
    assert!(matches!(
        Swap.apply(&mut stack),
        Err(OperationError::StackUnderflow)
    ));

    let mut second_stack: Vec<i16> = vec![];
    assert!(matches!(
        Swap.apply(&mut second_stack),
        Err(OperationError::StackUnderflow)
    ));
}

#[test]
fn stack_manipulation_test_over_last_number() {
    let mut stack: Vec<i16> = vec![2, 3];
    Over.apply(&mut stack).unwrap();
    assert_eq!(stack, vec![2, 3, 2]);
}

#[test]
fn stack_manipulation_test_underflow_over() {
    let mut stack: Vec<i16> = vec![1];
    assert!(matches!(
        Over.apply(&mut stack),
        Err(OperationError::StackUnderflow)
    ));

    let mut second_stack: Vec<i16> = vec![];
    assert!(matches!(
        Over.apply(&mut second_stack),
        Err(OperationError::StackUnderflow)
    ));
}

#[test]
fn stack_manipulation_test_rot_elements() {
    let mut stack: Vec<i16> = vec![1, 2, 3];
    Rot.apply(&mut stack).unwrap();
    assert_eq!(stack, vec![2, 3, 1]);
}

#[test]
fn stack_manipulation_test_underflow_rot() {
    let mut stack: Vec<i16> = vec![1];
    assert!(matches!(
        Rot.apply(&mut stack),
        Err(OperationError::StackUnderflow)
    ));

    let mut second_stack: Vec<i16> = vec![];
    assert!(matches!(
        Rot.apply(&mut second_stack),
        Err(OperationError::StackUnderflow)
    ));
    let mut second_stack: Vec<i16> = vec![1, 2];
    assert!(matches!(
        Rot.apply(&mut second_stack),
        Err(OperationError::StackUnderflow)
    ));
}
