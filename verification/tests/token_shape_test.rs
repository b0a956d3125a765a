use rust_the_forth::engine::error::OperationError;
use rust_the_forth::engine::operation::conditional::Conditional;
use rust_the_forth::engine::operation::{
    get_all_standar_operations, get_output_operations, OperationType,
};
use rust_the_forth::engine::token::{read_shape, Shape};
use rust_the_forth::number::{parse_i16, parse_index};

fn strings(tokens: &[&str]) -> Vec<String> {
    tokens.iter().map(|t| t.to_string()).collect()
}

#[test]
fn numbers_are_read_as_sixteen_bit_decimals() {
    assert_eq!(parse_i16("0"), Some(0));
    assert_eq!(parse_i16("32767"), Some(32767));
    assert_eq!(parse_i16("-32768"), Some(-32768));
    assert_eq!(parse_i16("+12"), Some(12));
    assert_eq!(parse_i16("-0"), Some(0));
    assert_eq!(parse_i16("0000000000000000000000000000000000123"), Some(123));
    assert_eq!(parse_i16("32768"), None);
    assert_eq!(parse_i16("-32769"), None);
    assert_eq!(parse_i16("99999999999999999999999999"), None);
    assert_eq!(parse_i16(""), None);
    assert_eq!(parse_i16("+"), None);
    assert_eq!(parse_i16("-"), None);
    assert_eq!(parse_i16("+-1"), None);
    assert_eq!(parse_i16("1_0"), None);
    assert_eq!(parse_i16("12a"), None);
    assert_eq!(parse_i16(" 1"), None);
    assert_eq!(parse_i16("\u{661}"), None);
}

#[test]
fn positions_are_read_without_a_minus() {
    assert_eq!(parse_index("0"), Some(0));
    assert_eq!(parse_index("+3"), Some(3));
    assert_eq!(parse_index("0042"), Some(42));
    assert_eq!(parse_index("65536"), Some(65536));
    assert_eq!(parse_index("-0"), None);
    assert_eq!(parse_index(""), None);
    assert_eq!(parse_index("c"), None);
    assert_eq!(parse_index("340282366920938463463374607431768211456"), None);
}

#[test]
fn a_tag_stands_behind_the_last_underscore() {
    assert!(matches!(read_shape("-12"), Shape::Number(-12)));
    assert!(matches!(read_shape("dup_c"), Shape::Canonical(name) if name == "dup"));
    assert!(matches!(read_shape("a_b_c"), Shape::Canonical(name) if name == "a_b"));
    assert!(matches!(read_shape("foo_12"), Shape::Versioned(name, 12) if name == "foo"));
    assert!(matches!(read_shape("a_b_+3"), Shape::Versioned(name, 3) if name == "a_b"));
    assert!(matches!(read_shape("_7"), Shape::Versioned(name, 7) if name.is_empty()));
    assert!(matches!(read_shape("foo"), Shape::Other));
    assert!(matches!(read_shape("foo_"), Shape::Other));
    assert!(matches!(read_shape("foo_bar"), Shape::Other));
    assert!(matches!(read_shape("foo_-1"), Shape::Other));
    assert!(matches!(read_shape("foo_C"), Shape::Other));
    assert!(matches!(
        read_shape("foo_340282366920938463463374607431768211456"),
        Shape::Other
    ));
}

#[test]
fn spellings_resolve_whatever_their_case() {
    assert_eq!(OperationType::from_token("+"), Some(OperationType::Add));
    assert_eq!(OperationType::from_token("-"), Some(OperationType::Sub));
    assert_eq!(OperationType::from_token("*"), Some(OperationType::Mul));
    assert_eq!(OperationType::from_token("/"), Some(OperationType::Div));
    assert_eq!(OperationType::from_token("="), Some(OperationType::Eq));
    assert_eq!(OperationType::from_token("<"), Some(OperationType::Less));
    assert_eq!(OperationType::from_token(">"), Some(OperationType::Greater));
    assert_eq!(OperationType::from_token("AND"), Some(OperationType::And));
    assert_eq!(OperationType::from_token("Or"), Some(OperationType::Or));
    assert_eq!(OperationType::from_token("nOt"), Some(OperationType::Not));
    assert_eq!(OperationType::from_token("DROP"), Some(OperationType::Drop));
    assert_eq!(OperationType::from_token("Over"), Some(OperationType::Over));
    assert_eq!(OperationType::from_token("ROT"), Some(OperationType::Rot));
    assert_eq!(OperationType::from_token("swaP"), Some(OperationType::Swap));
    assert_eq!(OperationType::from_token("Dup"), Some(OperationType::Dup));
    assert_eq!(OperationType::from_token("."), Some(OperationType::Dot));
    assert_eq!(OperationType::from_token("CR"), Some(OperationType::Cr));
    assert_eq!(OperationType::from_token("Emit"), Some(OperationType::Emit));
    assert_eq!(OperationType::from_token(".\" Hi\""), Some(OperationType::PrintText));
    assert_eq!(OperationType::from_token(".\" "), Some(OperationType::PrintText));
    assert_eq!(OperationType::from_token(".\"x"), None);
    assert_eq!(OperationType::from_token("dup_c"), None);
    assert_eq!(OperationType::from_token(""), None);
}

#[test]
fn spellings_as_they_stand_are_in_lower_case() {
    assert_eq!(OperationType::from_spelling("dup"), Some(OperationType::Dup));
    assert_eq!(OperationType::from_spelling("DUP"), None);
    assert_eq!(OperationType::from_spelling(".\" Hi\""), Some(OperationType::PrintText));
    assert_eq!(OperationType::from_spelling("emit"), Some(OperationType::Emit));
}

#[test]
fn the_catalog_splits_in_two() {
    let standard = get_all_standar_operations();
    let output = get_output_operations();
    assert_eq!(standard.len(), 15);
    assert_eq!(
        output,
        vec![OperationType::Dot, OperationType::Cr, OperationType::Emit, OperationType::PrintText]
    );
    assert!(output.iter().all(|op| !standard.contains(op)));
    assert!(standard.contains(&OperationType::Rot));
}

#[test]
fn a_branch_ends_at_its_own_then() {
    let tokens = strings(&["if", "1", "else", "2", "then", "3"]);
    assert_eq!(Conditional::get_branch_indices(&tokens, 0), Ok((4, Some(2))));
    let nested = strings(&["x", "if", "if", "a", "else", "b", "then", "else", "c", "else", "then"]);
    assert_eq!(Conditional::get_branch_indices(&nested, 1), Ok((10, Some(7))));
    assert_eq!(Conditional::get_branch_indices(&nested, 2), Ok((6, Some(4))));
    let plain = strings(&["if", "1", "then"]);
    assert_eq!(Conditional::get_branch_indices(&plain, 0), Ok((2, None)));
}

#[test]
fn a_branch_without_its_then_is_an_invalid_word() {
    let open = strings(&["if", "if", "1", "then"]);
    assert_eq!(Conditional::get_branch_indices(&open, 0), Err(OperationError::InvalidWord));
    let stray = strings(&["then", "if", "then"]);
    assert_eq!(Conditional::get_branch_indices(&stray, 0), Err(OperationError::InvalidWord));
    assert_eq!(Conditional::get_branch_indices(&stray, 7), Err(OperationError::InvalidWord));
    assert_eq!(Conditional::get_branch_indices(&[], 0), Err(OperationError::InvalidWord));
}

#[test]
fn branches_are_cut_out_between_the_marks() {
    let tokens = strings(&["if", "1", "2", "else", "3", "then", "4"]);
    let (then_index, if_branch, else_branch) = Conditional::extract_branch(&tokens, 0).unwrap();
    assert_eq!(then_index, 5);
    assert_eq!(if_branch, &tokens[1..3]);
    assert_eq!(else_branch, Some(&tokens[4..5]));
    let (if_only, none) = Conditional::get_branch_slices(&tokens, 0, 3, None).unwrap();
    assert_eq!(if_only, &tokens[1..3]);
    assert_eq!(none, None);
    assert!(Conditional::extract_branch(&tokens[..5], 0).is_err());
}
