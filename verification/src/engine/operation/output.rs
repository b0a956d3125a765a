//! Operations that write to the output.
use vstd::prelude::*;
use crate::engine::error::OperationError;
use crate::engine::operation::{OperationOutput, OperationType};
use crate::number::{push_signed, signed_decimal};
use crate::text::{chars_of, push_char};

verus! {

/// `.`: removes the top value and prints it in decimal, followed by a space.
pub struct Dot;

/// `cr`: prints a line feed.
pub struct Cr;

/// `emit`: removes the top value and prints the character with that code,
/// followed by a space.
pub struct Emit;

/// `." text"`: prints the text of its own token.
pub struct PrintText;

/// The code point that a stack value stands for: the value read as an unsigned
/// integer of 16 bits.
pub open spec fn code_point(n: i16) -> int {
    if n < 0 {
        n + 0x1_0000
    } else {
        n as int
    }
}

/// Whether a code point is a character: any but the surrogates, up to 0x10FFFF.
pub open spec fn is_scalar_value(code: int) -> bool {
    0 <= code <= 0xD7FF || 0xE000 <= code <= 0x10FFFF
}

/// What a print-text token prints: the token without `."` at its start and
/// without `"` at its end.
pub open spec fn print_text_payload(token: Seq<char>) -> Seq<char> {
    let start: int = if token.len() >= 2 && token[0] == '.' && token[1] == '"' {
        2
    } else {
        0
    };
    let end: int = if token.len() > start && token.last() == '"' {
        token.len() - 1
    } else {
        token.len() as int
    };
    token.subrange(start, end)
}

/// `char::from_u32` of the standard library: the character with the code point
/// `code` where that is a Unicode scalar value, and nothing where it is not.
#[verifier::external_body]
fn char_from_u32(code: u32) -> (r: Option<char>)
    ensures
        r == (if is_scalar_value(code as int) {
            Some(code as char)
        } else {
            None
        }),
{
    char::from_u32(code)
}

impl OperationOutput for Dot {
    open spec fn effect(&self, stack: Seq<i16>, token: Seq<char>) -> Result<
        (Seq<i16>, Seq<char>),
        OperationError,
    > {
        if stack.len() < 1 {
            Err(OperationError::StackUnderflow)
        } else {
            Ok((stack.drop_last(), signed_decimal(stack.last() as int).push(' ')))
        }
    }

    fn apply(&self, stack: &mut Vec<i16>, string_output: &mut String, text_to_print: &str) -> (r:
        Result<(), OperationError>) {
        if stack.len() < 1 {
            return Err(OperationError::StackUnderflow);
        }
        let num = stack.pop().unwrap();
        push_signed(string_output, num);
        push_char(string_output, ' ');
        assert(string_output@ =~= old(string_output)@ + signed_decimal(num as int).push(' '));
        Ok(())
    }
}

impl OperationOutput for Cr {
    open spec fn effect(&self, stack: Seq<i16>, token: Seq<char>) -> Result<
        (Seq<i16>, Seq<char>),
        OperationError,
    > {
        Ok((stack, seq!['\n']))
    }

    fn apply(&self, stack: &mut Vec<i16>, string_output: &mut String, text_to_print: &str) -> (r:
        Result<(), OperationError>) {
        push_char(string_output, '\n');
        assert(string_output@ =~= old(string_output)@ + seq!['\n']);
        Ok(())
    }
}

impl OperationOutput for Emit {
    open spec fn effect(&self, stack: Seq<i16>, token: Seq<char>) -> Result<
        (Seq<i16>, Seq<char>),
        OperationError,
    > {
        if stack.len() < 1 {
            Err(OperationError::StackUnderflow)
        } else if !is_scalar_value(code_point(stack.last())) {
            Err(OperationError::InvalidCharacter)
        } else {
            Ok((stack.drop_last(), seq![code_point(stack.last()) as char, ' ']))
        }
    }

    fn apply(&self, stack: &mut Vec<i16>, string_output: &mut String, text_to_print: &str) -> (r:
        Result<(), OperationError>) {
        if stack.len() < 1 {
            return Err(OperationError::StackUnderflow);
        }
        let num = stack[stack.len() - 1];
        let code: u32 = if num < 0 {
            (num as i32 + 0x1_0000) as u32
        } else {
            num as u32
        };
        match char_from_u32(code) {
            Some(ch) => {
                stack.pop();
                push_char(string_output, ch);
                push_char(string_output, ' ');
                assert(string_output@ =~= old(string_output)@ + seq![ch, ' ']);
                Ok(())
            },
            None => Err(OperationError::InvalidCharacter),
        }
    }
}

impl OperationOutput for PrintText {
    open spec fn effect(&self, stack: Seq<i16>, token: Seq<char>) -> Result<
        (Seq<i16>, Seq<char>),
        OperationError,
    > {
        Ok((stack, print_text_payload(token)))
    }

    fn apply(&self, stack: &mut Vec<i16>, string_output: &mut String, text_to_print: &str) -> (r:
        Result<(), OperationError>) {
        let cs = chars_of(text_to_print);
        let start: usize = if cs.len() >= 2 && cs[0] == '.' && cs[1] == '"' {
            2
        } else {
            0
        };
        let end: usize = if cs.len() > start && cs[cs.len() - 1] == '"' {
            cs.len() - 1
        } else {
            cs.len()
        };
        let mut i: usize = start;
        while i < end
            invariant
                start <= i <= end <= cs.len(),
                string_output@ == old(string_output)@ + cs@.subrange(start as int, i as int),
            decreases end - i,
        {
            push_char(string_output, cs[i]);
            assert(cs@.subrange(start as int, i + 1) =~= cs@.subrange(start as int, i as int).push(
                cs[i as int],
            ));
            i += 1;
        }
        Ok(())
    }
}

/// The identifiers of the operations of this module.
pub open spec fn operations() -> Seq<OperationType> {
    seq![
        OperationType::Dot,
        OperationType::Cr,
        OperationType::Emit,
        OperationType::PrintText,
    ]
}

/// The identifiers of the operations that write to the output.
pub fn get_operations() -> (ops: Vec<OperationType>)
    ensures
        ops@ == operations(),
{
    let mut ops: Vec<OperationType> = Vec::new();
    ops.push(OperationType::Dot);
    ops.push(OperationType::Cr);
    ops.push(OperationType::Emit);
    ops.push(OperationType::PrintText);
    assert(ops@ =~= seq![
        OperationType::Dot,
        OperationType::Cr,
        OperationType::Emit,
        OperationType::PrintText,
    ]);
    ops
}

} // verus!
