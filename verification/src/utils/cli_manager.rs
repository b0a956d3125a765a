//! The arguments of the command line: the source file and the size of the stack.
use vstd::prelude::*;
use vstd::slice::slice_subrange;
use crate::engine::error::CommandArgsError;
use crate::engine::operation::arithmetic::truncated_quotient;
use crate::number::{is_number, number_value, parse_i16};
use crate::text::{chars_of, contains_char, string_of, texts};

verus! {

/// The size of a stack element in bytes.
pub const I16_SIZE: i16 = 2;

/// The size of the stack in bytes when the command line gives none.
pub const DEFAULT_STACK_BYTES: i16 = 128;

/// The position of the first `=` at or after `at`, or the length of the text
/// when there is none.
pub open spec fn next_equals(text: Seq<char>, at: int) -> int
    decreases text.len() - at,
{
    if at >= text.len() {
        text.len() as int
    } else if text[at] == '=' {
        at
    } else {
        next_equals(text, at + 1)
    }
}

/// What an argument gives as the size: the text between its first `=` and the
/// next one, or its end. An argument without `=` gives none.
pub open spec fn size_text(argument: Seq<char>) -> Option<Seq<char>> {
    let first = next_equals(argument, 0);
    if first >= argument.len() {
        None
    } else {
        Some(argument.subrange(first + 1, next_equals(argument, first + 1)))
    }
}

/// The number of elements that fit in `size` bytes.
pub open spec fn elements_in(size: i16) -> int {
    truncated_quotient(size as int, I16_SIZE as int)
}

/// What is wrong with a stack size argument, if anything: it has no `=`, what
/// stands behind the `=` is no 16-bit number, or the size leaves room for one
/// element at most.
pub open spec fn stack_size_verdict(argument: Seq<char>) -> Result<(), CommandArgsError> {
    match size_text(argument) {
        None => Err(CommandArgsError::InvalidFormat),
        Some(text) => if !is_number(text) {
            Err(CommandArgsError::FailParseStackSize)
        } else if elements_in(number_value(text)) <= 1 {
            Err(CommandArgsError::InvalidStackSize)
        } else {
            Ok(())
        },
    }
}

/// What is wrong with the arguments of the program, if anything. The first
/// argument is the name of the program, the second the source file, which has
/// an extension, and the third, if it is there, the size of the stack.
pub open spec fn command_verdict(args: Seq<Seq<char>>) -> Result<(), CommandArgsError> {
    if args.len() <= 1 {
        Err(CommandArgsError::FileNotSpecified)
    } else if !args[1].contains('.') {
        Err(CommandArgsError::InvalidFileFormat)
    } else if args.len() <= 2 {
        Ok(())
    } else {
        stack_size_verdict(args[2])
    }
}

/// The number of elements of the stack that the arguments ask for: what the
/// third argument gives, and the default when it is missing or gives no number.
pub open spec fn stack_elements(args: Seq<Seq<char>>) -> int {
    if args.len() <= 2 {
        elements_in(DEFAULT_STACK_BYTES)
    } else {
        match size_text(args[2]) {
            Some(text) => if is_number(text) {
                elements_in(number_value(text))
            } else {
                elements_in(DEFAULT_STACK_BYTES)
            },
            None => elements_in(DEFAULT_STACK_BYTES),
        }
    }
}

/// Arguments that pass the validation ask for a stack of at least two elements.
pub proof fn lemma_valid_args_give_room(args: Seq<Seq<char>>)
    requires
        command_verdict(args) is Ok,
    ensures
        2 <= stack_elements(args) <= i16::MAX,
{
}

/// The number of `i16` elements that fit in `size` bytes.
pub fn convert_bytes_to_elements_amount(size: i16) -> (r: i16)
    ensures
        r == elements_in(size),
{
    if size >= 0 {
        size / I16_SIZE
    } else {
        (0 - ((0 - (size as i32)) / (I16_SIZE as i32))) as i16
    }
}

/// Reads what an argument gives as the size.
fn read_size_text(argument: &str) -> (r: Option<String>)
    ensures
        match size_text(argument@) {
            Some(text) => r is Some && r->Some_0@ == text,
            None => r is None,
        },
{
    let cs = chars_of(argument);
    let mut first: usize = 0;
    while first < cs.len() && cs[first] != '='
        invariant
            first <= cs@.len(),
            next_equals(cs@, 0) == next_equals(cs@, first as int),
        decreases cs@.len() - first,
    {
        first += 1;
    }
    if first >= cs.len() {
        return None;
    }
    let mut second: usize = first + 1;
    while second < cs.len() && cs[second] != '='
        invariant
            first < second <= cs@.len(),
            next_equals(cs@, first + 1) == next_equals(cs@, second as int),
        decreases cs@.len() - second,
    {
        second += 1;
    }
    Some(string_of(slice_subrange(cs.as_slice(), first + 1, second)))
}

/// Checks a stack size argument, of the form `stack-size=N`.
pub fn validate_stack_size_arg(stack_size_arg: &str) -> (r: Result<(), CommandArgsError>)
    ensures
        r == stack_size_verdict(stack_size_arg@),
{
    match read_size_text(stack_size_arg) {
        None => Err(CommandArgsError::InvalidFormat),
        Some(text) => match parse_i16(text.as_str()) {
            Some(size) => {
                if convert_bytes_to_elements_amount(size) <= 1 {
                    Err(CommandArgsError::InvalidStackSize)
                } else {
                    Ok(())
                }
            },
            None => Err(CommandArgsError::FailParseStackSize),
        },
    }
}

/// Checks the arguments of the program.
pub fn validate_command_args(args: &[String]) -> (r: Result<(), CommandArgsError>)
    ensures
        r == command_verdict(texts(args@)),
{
    if args.len() <= 1 {
        return Err(CommandArgsError::FileNotSpecified);
    }
    let file = chars_of(args[1].as_str());
    if !contains_char(file.as_slice(), '.') {
        return Err(CommandArgsError::InvalidFileFormat);
    }
    if args.len() <= 2 {
        return Ok(());
    }
    validate_stack_size_arg(args[2].as_str())
}

/// The number of elements of the stack that the arguments ask for.
pub fn get_size_of_stack(args: &[String]) -> (r: i16)
    ensures
        r == stack_elements(texts(args@)),
{
    let default_len = convert_bytes_to_elements_amount(DEFAULT_STACK_BYTES);
    if args.len() <= 2 {
        return default_len;
    }
    match read_size_text(args[2].as_str()) {
        Some(text) => match parse_i16(text.as_str()) {
            Some(size) => convert_bytes_to_elements_amount(size),
            None => default_len,
        },
        None => default_len,
    }
}

} // verus!
