use rust_the_forth::engine::operation::output::{Emit};
use rust_the_forth::engine::operation::{OperationOutput};

#[test]
fn test_emit_lower_case_number() {
    let mut stack: Vec<i16> = vec![97];
    let mut output = String::new();

    Emit.apply(&mut stack, &mut output, &"".to_string())
        .unwrap();
    assert_eq!(stack, vec![]);
    assert_eq!(output, "a ");
}

#[test]
fn test_emit_upper_case_number() {
    let mut stack: Vec<i16> = vec![65];
    let mut output = String::new();

    Emit.apply(&mut stack, &mut output, &"".to_string())
        .unwrap();
    assert_eq!(stack, vec![]);
    assert_eq!(output, "A ");
}

#[test]
fn test_emit_multiple_numbers() {
    let mut stack: Vec<i16> = vec![68, 67, 66, 65];
    let mut output = String::new();

    Emit.apply(&mut stack, &mut output, &"".to_string())
        .unwrap();
    Emit.apply(&mut stack, &mut output, &"".to_string())
        .unwrap();
    Emit.apply(&mut stack, &mut output, &"".to_string())
        .unwrap();
    Emit.apply(&mut stack, &mut output, &"".to_string())
        .unwrap();
    assert_eq!(stack, vec![]);
    assert_eq!(output, "A B C D ");
}
