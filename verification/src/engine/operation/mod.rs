//! The built-in operations: their identifiers, their spellings and what each
//! does to the stack and to the output.
use vstd::prelude::*;
use crate::engine::error::OperationError;
use crate::text::{chars_of, lowercase_of, str_equal, to_lowercase};

pub mod arithmetic;
pub mod boolean;
pub mod conditional;
pub mod output;
pub mod stack_manipulation;
pub mod word_definition;

verus! {

/// An operation on the stack alone.
pub trait Operation {
    /// What the operation makes of a stack: the stack afterwards, or the error
    /// with which it refuses the stack.
    spec fn effect(&self, stack: Seq<i16>) -> Result<Seq<i16>, OperationError>;

    /// Applies the operation. A stack that is refused is left as it was.
    fn apply(&self, stack: &mut Vec<i16>) -> (r: Result<(), OperationError>)
        ensures
            match self.effect(old(stack)@) {
                Ok(after) => r is Ok && final(stack)@ == after,
                Err(e) => r == Err::<(), OperationError>(e) && final(stack)@ == old(stack)@,
            },
    ;
}

/// An operation that writes to the output.
pub trait OperationOutput {
    /// What the operation makes of a stack and of the token that named it: the
    /// stack afterwards and the text to append to the output, or the error with
    /// which it refuses them.
    spec fn effect(&self, stack: Seq<i16>, token: Seq<char>) -> Result<
        (Seq<i16>, Seq<char>),
        OperationError,
    >;

    /// Applies the operation. On an error stack and output are left as they were.
    fn apply(&self, stack: &mut Vec<i16>, string_output: &mut String, text_to_print: &str) -> (r:
        Result<(), OperationError>)
        ensures
            match self.effect(old(stack)@, text_to_print@) {
                Ok((after, text)) => r is Ok && final(stack)@ == after && final(string_output)@
                    == old(string_output)@ + text,
                Err(e) => r == Err::<(), OperationError>(e) && final(stack)@ == old(stack)@
                    && final(string_output)@ == old(string_output)@,
            },
    ;
}

/// The integer of 16 bits that is congruent to `x` modulo 2^16.
pub open spec fn wrap16(x: int) -> i16 {
    if x % 0x1_0000 > i16::MAX {
        (x % 0x1_0000 - 0x1_0000) as i16
    } else {
        (x % 0x1_0000) as i16
    }
}

/// The flag that stands for a truth value: -1 for true, 0 for false.
pub open spec fn flag(b: bool) -> i16 {
    if b {
        -1i16
    } else {
        0i16
    }
}

/// The identifiers of the built-in operations.
#[derive(Debug, Clone, Copy, PartialEq, Eq, Hash, Structural)]
pub enum OperationType {
    Add,
    Sub,
    Mul,
    Div,
    And,
    Eq,
    Greater,
    Less,
    Not,
    Or,
    Drop,
    Dup,
    Over,
    Rot,
    Swap,
    Dot,
    Cr,
    PrintText,
    Emit,
}

/// A print-text token: `."`, a space, and whatever follows.
pub open spec fn is_print_text(token: Seq<char>) -> bool {
    token.len() >= 3 && token[0] == '.' && token[1] == '"' && token[2] == ' '
}

/// The operation that a lower-case spelling names.
pub open spec fn spelling_table(spelling: Seq<char>) -> Option<OperationType> {
    if spelling == "+"@ {
        Some(OperationType::Add)
    } else if spelling == "-"@ {
        Some(OperationType::Sub)
    } else if spelling == "*"@ {
        Some(OperationType::Mul)
    } else if spelling == "/"@ {
        Some(OperationType::Div)
    } else if spelling == "="@ {
        Some(OperationType::Eq)
    } else if spelling == "<"@ {
        Some(OperationType::Less)
    } else if spelling == ">"@ {
        Some(OperationType::Greater)
    } else if spelling == "and"@ {
        Some(OperationType::And)
    } else if spelling == "or"@ {
        Some(OperationType::Or)
    } else if spelling == "not"@ {
        Some(OperationType::Not)
    } else if spelling == "drop"@ {
        Some(OperationType::Drop)
    } else if spelling == "over"@ {
        Some(OperationType::Over)
    } else if spelling == "rot"@ {
        Some(OperationType::Rot)
    } else if spelling == "swap"@ {
        Some(OperationType::Swap)
    } else if spelling == "dup"@ {
        Some(OperationType::Dup)
    } else if spelling == "."@ {
        Some(OperationType::Dot)
    } else if spelling == "cr"@ {
        Some(OperationType::Cr)
    } else if spelling == "emit"@ {
        Some(OperationType::Emit)
    } else {
        None
    }
}

/// The operation that a token names as it stands: a print-text token names
/// `PrintText`, any other token what the table gives for it.
pub open spec fn resolve_spelling(token: Seq<char>) -> Option<OperationType> {
    if is_print_text(token) {
        Some(OperationType::PrintText)
    } else {
        spelling_table(token)
    }
}

/// The operation that a token names whatever its case: a print-text token names
/// `PrintText`, any other token what the table gives for its lower-case form.
pub open spec fn resolve_token(token: Seq<char>) -> Option<OperationType> {
    if is_print_text(token) {
        Some(OperationType::PrintText)
    } else {
        spelling_table(lowercase_of(token))
    }
}

/// Whether `token` is a print-text token.
pub fn starts_print_text(token: &str) -> (r: bool)
    ensures
        r == is_print_text(token@),
{
    let cs = chars_of(token);
    cs.len() >= 3 && cs[0] == '.' && cs[1] == '"' && cs[2] == ' '
}

/// Looks a lower-case spelling up in the table.
fn lookup_spelling(spelling: &str) -> (r: Option<OperationType>)
    ensures
        r == spelling_table(spelling@),
{
    if str_equal(spelling, "+") {
        Some(OperationType::Add)
    } else if str_equal(spelling, "-") {
        Some(OperationType::Sub)
    } else if str_equal(spelling, "*") {
        Some(OperationType::Mul)
    } else if str_equal(spelling, "/") {
        Some(OperationType::Div)
    } else if str_equal(spelling, "=") {
        Some(OperationType::Eq)
    } else if str_equal(spelling, "<") {
        Some(OperationType::Less)
    } else if str_equal(spelling, ">") {
        Some(OperationType::Greater)
    } else if str_equal(spelling, "and") {
        Some(OperationType::And)
    } else if str_equal(spelling, "or") {
        Some(OperationType::Or)
    } else if str_equal(spelling, "not") {
        Some(OperationType::Not)
    } else if str_equal(spelling, "drop") {
        Some(OperationType::Drop)
    } else if str_equal(spelling, "over") {
        Some(OperationType::Over)
    } else if str_equal(spelling, "rot") {
        Some(OperationType::Rot)
    } else if str_equal(spelling, "swap") {
        Some(OperationType::Swap)
    } else if str_equal(spelling, "dup") {
        Some(OperationType::Dup)
    } else if str_equal(spelling, ".") {
        Some(OperationType::Dot)
    } else if str_equal(spelling, "cr") {
        Some(OperationType::Cr)
    } else if str_equal(spelling, "emit") {
        Some(OperationType::Emit)
    } else {
        None
    }
}

impl OperationType {
    /// Whether the operation works on the stack alone.
    pub open spec fn is_stack_only(self) -> bool {
        !(self is Dot || self is Cr || self is PrintText || self is Emit)
    }

    /// Resolves a token to the operation it names, whatever its case.
    pub fn from_token(token: &str) -> (r: Option<Self>)
        ensures
            r == resolve_token(token@),
    {
        if starts_print_text(token) {
            return Some(OperationType::PrintText);
        }
        let lower = to_lowercase(token);
        lookup_spelling(lower.as_str())
    }

    /// Resolves a token to the operation it names as it stands, without
    /// changing its case.
    pub fn from_spelling(token: &str) -> (r: Option<Self>)
        ensures
            r == resolve_spelling(token@),
    {
        if starts_print_text(token) {
            return Some(OperationType::PrintText);
        }
        lookup_spelling(token)
    }
}

/// The identifiers of the operations on the stack alone: arithmetic, comparisons
/// and logic, and rearranging, in that order.
pub fn get_all_standar_operations() -> (ops: Vec<OperationType>)
    ensures
        ops@ == arithmetic::operations() + boolean::operations()
            + stack_manipulation::operations(),
        forall|op: OperationType| ops@.contains(op) <==> op.is_stack_only(),
{
    let mut ops = arithmetic::get_operations();
    let mut more = boolean::get_operations();
    ops.append(&mut more);
    let mut last = stack_manipulation::get_operations();
    ops.append(&mut last);
    proof {
        let all = arithmetic::operations() + boolean::operations()
            + stack_manipulation::operations();
        assert(ops@ =~= all);
        assert(all.len() == 15);
        assert forall|op: OperationType| op.is_stack_only() implies all.contains(op) by {
            match op {
                OperationType::Add => assert(all[0] == op),
                OperationType::Sub => assert(all[1] == op),
                OperationType::Mul => assert(all[2] == op),
                OperationType::Div => assert(all[3] == op),
                OperationType::Eq => assert(all[4] == op),
                OperationType::Less => assert(all[5] == op),
                OperationType::Greater => assert(all[6] == op),
                OperationType::And => assert(all[7] == op),
                OperationType::Or => assert(all[8] == op),
                OperationType::Not => assert(all[9] == op),
                OperationType::Drop => assert(all[10] == op),
                OperationType::Dup => assert(all[11] == op),
                OperationType::Over => assert(all[12] == op),
                OperationType::Rot => assert(all[13] == op),
                OperationType::Swap => assert(all[14] == op),
                _ => {},
            }
        }
    }
    ops
}

/// The identifiers of the operations that write to the output.
pub fn get_output_operations() -> (ops: Vec<OperationType>)
    ensures
        ops@ == output::operations(),
        forall|op: OperationType| ops@.contains(op) <==> !op.is_stack_only(),
{
    let ops = output::get_operations();
    proof {
        let all = output::operations();
        assert forall|op: OperationType| !op.is_stack_only() implies all.contains(op) by {
            match op {
                OperationType::Dot => assert(all[0] == op),
                OperationType::Cr => assert(all[1] == op),
                OperationType::Emit => assert(all[2] == op),
                OperationType::PrintText => assert(all[3] == op),
                _ => {},
            }
        }
    }
    ops
}

} // verus!
