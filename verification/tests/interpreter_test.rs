use rust_the_forth::engine::error::OperationError;
use rust_the_forth::engine::forth_calculator::ForthCalculator;

fn run(code: &str, stack_size: i16) -> (Vec<i16>, String) {
    let mut calculator = ForthCalculator::new(stack_size);
    calculator.run(code.to_string());
    (calculator.get_stack().clone(), calculator.get_output().clone())
}

#[test]
fn numbers_are_pushed_in_order_without_output() {
    assert_eq!(run("1 2 3 4 5", 64), (vec![1, 2, 3, 4, 5], String::new()));
}

#[test]
fn a_number_may_carry_a_plus_sign() {
    assert_eq!(run("+5 -0 007", 64).0, vec![5, 0, 7]);
}

#[test]
fn pushing_on_a_full_stack_overflows() {
    assert_eq!(run("1 2 3", 2), (vec![1, 2], "stack-overflow\n".to_string()));
}

#[test]
fn dup_and_over_on_a_full_stack_overflow() {
    assert_eq!(run("1 dup", 1), (vec![1], "stack-overflow\n".to_string()));
    assert_eq!(run("1 2 over", 2), (vec![1, 2], "stack-overflow\n".to_string()));
}

#[test]
fn the_stack_never_outgrows_its_capacity() {
    for capacity in 0..6i16 {
        let (stack, _) = run(": grow dup dup over ; 1 2 grow grow 7 8", capacity);
        assert!(stack.len() <= capacity as usize);
    }
}

#[test]
fn an_operation_that_fails_leaves_the_stack_alone() {
    assert_eq!(run("+", 64), (vec![], "stack-underflow\n".to_string()));
    assert_eq!(run("1 +", 64), (vec![1], "stack-underflow\n".to_string()));
    assert_eq!(run("1 2 rot", 64), (vec![1, 2], "stack-underflow\n".to_string()));
    assert_eq!(run("4 0 /", 64), (vec![4, 0], "division-by-zero\n".to_string()));
}

#[test]
fn the_first_error_stops_the_run() {
    assert_eq!(run("1 . + 2 3", 64), (vec![], "1 stack-underflow\n".to_string()));
}

#[test]
fn arithmetic_wraps_around() {
    assert_eq!(run("32767 1 +", 64).0, vec![-32768]);
    assert_eq!(run("-32768 1 -", 64).0, vec![32767]);
    assert_eq!(run("300 300 *", 64).0, vec![24464]);
    assert_eq!(run("-32768 -1 /", 64).0, vec![-32768]);
}

#[test]
fn division_rounds_toward_zero() {
    assert_eq!(run("-7 2 /", 64).0, vec![-3]);
    assert_eq!(run("7 -2 /", 64).0, vec![-3]);
    assert_eq!(run("-7 -2 /", 64).0, vec![3]);
    assert_eq!(run("2 4 * 3 /", 64).0, vec![2]);
}

#[test]
fn a_conditional_runs_at_the_top_level() {
    assert_eq!(run("1 if 2 else 3 then", 64).0, vec![2]);
    assert_eq!(run("0 if 2 else 3 then", 64).0, vec![3]);
    assert_eq!(run("0 if 2 then 5", 64).0, vec![5]);
    assert_eq!(run("-1 if 2 then 5", 64).0, vec![2, 5]);
}

#[test]
fn conditionals_nest() {
    assert_eq!(run("1 if 0 if 10 else 20 then else 30 then", 64).0, vec![20]);
    assert_eq!(run("0 if 0 if 10 else 20 then else 30 then 40", 64).0, vec![30, 40]);
}

#[test]
fn a_conditional_inside_a_word() {
    assert_eq!(run(": abs dup 0 < if 0 swap - then ; -3 abs", 64).0, vec![3]);
    assert_eq!(run(": abs dup 0 < if 0 swap - then ; 3 abs", 64).0, vec![3]);
}

#[test]
fn an_if_without_then_is_an_invalid_word() {
    assert_eq!(run("7 1 if 2", 64), (vec![7], "invalid-word\n".to_string()));
}

#[test]
fn an_if_on_an_empty_stack_underflows() {
    assert_eq!(run("if 1 then", 64), (vec![], "stack-underflow\n".to_string()));
}

#[test]
fn a_then_without_if_is_unknown() {
    assert_eq!(run("1 then 2", 64), (vec![1], "?\n".to_string()));
    assert_eq!(run("1 else 2", 64), (vec![1], "?\n".to_string()));
}

#[test]
fn an_undefined_word_is_refused_before_anything_runs() {
    assert_eq!(run("1 2 foo", 64), (vec![], "?\n".to_string()));
}

#[test]
fn definitions_that_do_not_pair_up_are_refused() {
    assert_eq!(run(": foo 1", 64), (vec![], "? invalid word format\n".to_string()));
    assert_eq!(run("1 ;", 64), (vec![], "? invalid word format\n".to_string()));
    assert_eq!(run("a:b", 64), (vec![], "? invalid word format\n".to_string()));
    assert_eq!(run(": foo 1; ; foo", 64), (vec![], "? invalid word format\n".to_string()));
}

#[test]
fn a_number_cannot_be_defined() {
    assert_eq!(run(": 1 2 ;", 64), (vec![], "invalid-word\n".to_string()));
    assert_eq!(run(": +7 2 ;", 64), (vec![], "invalid-word\n".to_string()));
}

#[test]
fn a_definition_alone_leaves_the_stack_empty() {
    let mut calculator = ForthCalculator::new(64);
    calculator.run(": foo 1 2 ;".to_string());
    assert!(calculator.get_stack().is_empty());
    assert_eq!(calculator.get_output(), "");
    let registry = calculator.get_word_registry();
    assert_eq!(registry.words.len(), 1);
    assert_eq!(registry.words[0].name, "foo");
    assert_eq!(registry.words[0].body, vec!["1", "2"]);
}

#[test]
fn a_word_is_bound_where_it_stands() {
    assert_eq!(run(": foo 5 ; : bar foo ; : foo 6 ; bar foo", 64).0, vec![5, 6]);
    assert_eq!(run(": foo 10 ; : foo foo 1 + ; foo", 64).0, vec![11]);
}

#[test]
fn a_later_definition_leaves_earlier_bodies_alone() {
    let mut calculator = ForthCalculator::new(64);
    calculator.run(": foo 5 ; : bar foo foo + ;".to_string());
    let before = calculator.get_word_registry().words[1].body.clone();
    calculator.run("bar".to_string());
    assert_eq!(calculator.get_stack(), &vec![10]);
    calculator.run(": foo 100 ; : + - ; bar".to_string());
    assert_eq!(calculator.get_word_registry().words[1].body, before);
    assert_eq!(calculator.get_stack(), &vec![10, 10]);
}

#[test]
fn definitions_and_stack_last_from_run_to_run() {
    let mut calculator = ForthCalculator::new(64);
    calculator.run(": foo 5 ; 1 .".to_string());
    assert_eq!(calculator.get_output(), "1 ");
    calculator.run("foo foo".to_string());
    assert_eq!(calculator.get_stack(), &vec![5, 5]);
    assert_eq!(calculator.get_output(), "");
}

#[test]
fn a_name_may_hold_underscores() {
    assert_eq!(run(": my_word 7 ; my_word my_word", 64).0, vec![7, 7]);
}

#[test]
fn a_body_cannot_reach_a_later_definition() {
    assert_eq!(run(": a b_1 ; : b 2 ; a", 64), (vec![], "?\n".to_string()));
    assert_eq!(run(": foo foo_0 ; foo", 64), (vec![], "?\n".to_string()));
}

#[test]
fn a_position_must_hold_the_name() {
    assert_eq!(run(": foo 1 ; : bar 2 ; foo_1", 64), (vec![], "?\n".to_string()));
    assert_eq!(run(": foo 1 ; : bar 2 ; bar_1 foo_0", 64).0, vec![2, 1]);
}

#[test]
fn words_are_matched_whatever_their_case() {
    assert_eq!(run(": Foo DUP ; 1 FOO foo", 64).0, vec![1, 1, 1]);
    assert_eq!(run("1 IF 2 ELSE 3 THEN", 64).0, vec![2]);
}

#[test]
fn print_text_prints_its_text_as_it_is() {
    assert_eq!(run(".\" Hello, World!\"", 64), (vec![], " Hello, World!".to_string()));
    assert_eq!(run("1 .\" a_b  c\" 2", 64), (vec![1, 2], " a_b  c".to_string()));
    assert_eq!(run(".\" open", 64), (vec![], " open".to_string()));
}

#[test]
fn output_comes_in_the_order_of_the_program() {
    assert_eq!(run("42 . cr 65 emit .\" ok\" 7 .", 64), (vec![], "42 \nA  ok7 ".to_string()));
    assert_eq!(run("-32768 . 0 .", 64).1, "-32768 0 ");
}

#[test]
fn emit_reads_the_value_as_sixteen_unsigned_bits() {
    assert_eq!(run("-1 emit", 64), (vec![], "\u{ffff} ".to_string()));
    assert_eq!(run("228 emit", 64), (vec![], "\u{e4} ".to_string()));
}

#[test]
fn emit_refuses_what_is_no_character() {
    assert_eq!(
        run("5 -10000 emit", 64),
        (vec![5, -10000], "The current character to emit is not valid\n".to_string())
    );
    assert_eq!(run("-8192 emit", 64), (vec![], "\u{e000} ".to_string()));
    assert_eq!(run("-8193 emit", 64).0, vec![-8193]);
}

#[test]
fn a_failure_to_write_the_stack_is_reported_behind_the_output() {
    let mut calculator = ForthCalculator::new(64);
    calculator.run("1 . 2".to_string());
    calculator.add_writing_error();
    assert_eq!(
        calculator.get_output(),
        "1 We have a problem with writing the stack in stack.fht\n"
    );
    assert_eq!(calculator.get_stack(), &vec![2]);
}

#[test]
fn run_tokens_takes_tokens_in_lower_case() {
    let mut calculator = ForthCalculator::new(64);
    let tokens: Vec<String> = ["1", "dup", "+"].iter().map(|t| t.to_string()).collect();
    calculator.run_tokens(&tokens);
    assert_eq!(calculator.get_stack(), &vec![2]);
    let upper: Vec<String> = ["1", "DUP"].iter().map(|t| t.to_string()).collect();
    calculator.run_tokens(&upper);
    assert_eq!(calculator.get_stack(), &vec![2]);
    assert_eq!(calculator.get_output(), "?\n");
}

#[test]
fn extract_words_binds_and_records() {
    let mut calculator = ForthCalculator::new(64);
    let mut tokens: Vec<String> =
        ["1", ":", "Sq", "DUP", "*", "if", ";", "sq", "dup", "nope", "then", ".\" Hi\""]
            .iter()
            .map(|t| t.to_string())
            .collect();
    assert_eq!(calculator.extract_words(&mut tokens), Ok(()));
    assert_eq!(tokens, vec!["1", "sq_0", "dup_c", "nope", "then", ".\" Hi\"_c"]);
    let registry = calculator.get_word_registry();
    assert_eq!(registry.words[0].name, "sq");
    assert_eq!(registry.words[0].body, vec!["dup_c", "*_c", "if"]);
}

#[test]
fn extract_words_keeps_what_was_defined_before_an_invalid_word() {
    let mut calculator = ForthCalculator::new(64);
    let mut tokens: Vec<String> =
        [":", "a", "1", ";", ":", "2", "3", ";"].iter().map(|t| t.to_string()).collect();
    let before = tokens.clone();
    assert_eq!(calculator.extract_words(&mut tokens), Err(OperationError::InvalidWord));
    assert_eq!(tokens, before);
    assert!(calculator.get_word_registry().contains_key("a"));
}

#[test]
fn a_definition_may_end_with_the_program() {
    let mut calculator = ForthCalculator::new(64);
    let mut tokens: Vec<String> =
        [";", "7", ":", "foo", "1"].iter().map(|t| t.to_string()).collect();
    assert_eq!(calculator.extract_words(&mut tokens), Ok(()));
    assert_eq!(tokens, vec![";", "7"]);
    assert_eq!(calculator.get_word_registry().words[0].body, vec!["1"]);
    let mut colon_last: Vec<String> = [";", "7", ":"].iter().map(|t| t.to_string()).collect();
    assert_eq!(calculator.extract_words(&mut colon_last), Ok(()));
    assert_eq!(colon_last, vec![";", "7"]);
    assert_eq!(calculator.get_word_registry().words.len(), 1);
}

#[test]
fn are_valid_tokens_refuses_unknown_words() {
    let mut calculator = ForthCalculator::new(64);
    let mut tokens: Vec<String> = ["1", "dup", "bar"].iter().map(|t| t.to_string()).collect();
    assert_eq!(calculator.are_valid_tokens(&mut tokens), Err(OperationError::WordNotFound));
    let mut known: Vec<String> = ["1", "dup", "if", "then"].iter().map(|t| t.to_string()).collect();
    assert_eq!(calculator.are_valid_tokens(&mut known), Ok(()));
    assert_eq!(known, vec!["1", "dup_c", "if", "then"]);
}

#[test]
fn push_number_respects_the_capacity() {
    let mut stack = vec![1];
    assert_eq!(ForthCalculator::push_number(&mut stack, 2, 9), Ok(()));
    assert_eq!(ForthCalculator::push_number(&mut stack, 2, 9), Err(OperationError::StackOverflow));
    assert_eq!(stack, vec![1, 9]);
}
