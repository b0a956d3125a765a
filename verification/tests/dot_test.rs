use rust_the_forth::engine::error::OperationError;
use rust_the_forth::engine::operation::output::Dot;
use rust_the_forth::engine::operation::OperationOutput;

#[test]
fn test_print_number() {
    let mut stack: Vec<i16> = vec![2, 3];
    let mut output = String::new();
    let tokens = vec![
        "".to_string(),        
    ];
    Dot.apply(&mut stack, &mut output, &tokens[0]).unwrap();
    assert_eq!(stack, vec![2]);
    assert_eq!(output, "3 ");
}

#[test]
fn test_print_many_numbers() {
    let mut stack: Vec<i16> = vec![2, 3, 4, 5, 6];
    let mut output = String::new();
    let tokens = vec![
        "".to_string(),        
    ];
    Dot.apply(&mut stack, &mut output, &tokens[0]).unwrap();
    Dot.apply(&mut stack, &mut output, &tokens[0]).unwrap();
    Dot.apply(&mut stack, &mut output, &tokens[0]).unwrap();
    Dot.apply(&mut stack, &mut output, &tokens[0]).unwrap();
    assert_eq!(stack, vec![2]);
    assert_eq!(output, "6 5 4 3 ");
}

#[test]
fn test_print_number_underflow() {
    let mut stack: Vec<i16> = vec![];
    let mut output = String::new();
    let tokens = vec![
        "".to_string(),        
    ];
    assert!(matches!(
        Dot.apply(&mut stack, &mut output, &tokens[0]),
        Err(OperationError::StackUnderflow)
    ));
}
