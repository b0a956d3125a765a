//! Addition, subtraction, multiplication and division, all modulo 2^16.
use vstd::prelude::*;
use crate::engine::error::OperationError;
use crate::engine::operation::{wrap16, Operation, OperationType};

verus! {

/// The quotient of `b` by `a` rounded toward zero; `a` is not zero.
pub open spec fn truncated_quotient(b: int, a: int) -> int {
    if b >= 0 && a > 0 {
        b / a
    } else if b < 0 && a < 0 {
        (-b) / (-a)
    } else if b < 0 {
        -((-b) / a)
    } else {
        -(b / (-a))
    }
}

/// `+`: replaces the two top values by their sum.
#[derive(Debug)]
pub struct Add;

/// `-`: replaces the two top values by the second minus the top.
#[derive(Debug)]
pub struct Sub;

/// `*`: replaces the two top values by their product.
#[derive(Debug)]
pub struct Mul;

/// `/`: replaces the two top values by the second divided by the top.
#[derive(Debug)]
pub struct Div;

impl Operation for Add {
    open spec fn effect(&self, stack: Seq<i16>) -> Result<Seq<i16>, OperationError> {
        if stack.len() < 2 {
            Err(OperationError::StackUnderflow)
        } else {
            Ok(
                stack.take(stack.len() - 2).push(
                    wrap16(stack[stack.len() - 2] + stack[stack.len() - 1]),
                ),
            )
        }
    }

    fn apply(&self, stack: &mut Vec<i16>) -> (r: Result<(), OperationError>)
        ensures
            old(stack)@.len() >= 2 ==> r is Ok && final(stack)@.len() == old(stack)@.len() - 1,
    {
        if stack.len() < 2 {
            return Err(OperationError::StackUnderflow);
        }
        let a = stack.pop().unwrap();
        let b = stack.pop().unwrap();
        stack.push(b.wrapping_add(a));
        assert(stack@ =~= self.effect(old(stack)@)->Ok_0);
        Ok(())
    }
}

impl Operation for Sub {
    open spec fn effect(&self, stack: Seq<i16>) -> Result<Seq<i16>, OperationError> {
        if stack.len() < 2 {
            Err(OperationError::StackUnderflow)
        } else {
            Ok(
                stack.take(stack.len() - 2).push(
                    wrap16(stack[stack.len() - 2] - stack[stack.len() - 1]),
                ),
            )
        }
    }

    fn apply(&self, stack: &mut Vec<i16>) -> (r: Result<(), OperationError>)
        ensures
            old(stack)@.len() >= 2 ==> r is Ok && final(stack)@.len() == old(stack)@.len() - 1,
    {
        if stack.len() < 2 {
            return Err(OperationError::StackUnderflow);
        }
        let a = stack.pop().unwrap();
        let b = stack.pop().unwrap();
        stack.push(b.wrapping_sub(a));
        assert(stack@ =~= self.effect(old(stack)@)->Ok_0);
        Ok(())
    }
}

impl Operation for Mul {
    open spec fn effect(&self, stack: Seq<i16>) -> Result<Seq<i16>, OperationError> {
        if stack.len() < 2 {
            Err(OperationError::StackUnderflow)
        } else {
            Ok(
                stack.take(stack.len() - 2).push(
                    wrap16(stack[stack.len() - 2] * stack[stack.len() - 1]),
                ),
            )
        }
    }

    fn apply(&self, stack: &mut Vec<i16>) -> (r: Result<(), OperationError>)
        ensures
            old(stack)@.len() >= 2 ==> r is Ok && final(stack)@.len() == old(stack)@.len() - 1,
    {
        if stack.len() < 2 {
            return Err(OperationError::StackUnderflow);
        }
        let a = stack.pop().unwrap();
        let b = stack.pop().unwrap();
        stack.push(b.wrapping_mul(a));
        assert(stack@ =~= self.effect(old(stack)@)->Ok_0);
        Ok(())
    }
}

impl Operation for Div {
    open spec fn effect(&self, stack: Seq<i16>) -> Result<Seq<i16>, OperationError> {
        if stack.len() < 2 {
            Err(OperationError::StackUnderflow)
        } else if stack[stack.len() - 1] == 0 {
            Err(OperationError::DivisionByZero)
        } else {
            Ok(
                stack.take(stack.len() - 2).push(
                    wrap16(
                        truncated_quotient(
                            stack[stack.len() - 2] as int,
                            stack[stack.len() - 1] as int,
                        ),
                    ),
                ),
            )
        }
    }

    fn apply(&self, stack: &mut Vec<i16>) -> (r: Result<(), OperationError>)
        ensures
            old(stack)@.len() >= 2 && old(stack)@.last() == 0 ==> r == Err::<(), OperationError>(
                OperationError::DivisionByZero,
            ) && final(stack)@ == old(stack)@,
            old(stack)@.len() >= 2 && old(stack)@.last() != 0 ==> r is Ok && final(stack)@.len()
                == old(stack)@.len() - 1,
    {
        if stack.len() < 2 {
            return Err(OperationError::StackUnderflow);
        }
        if stack[stack.len() - 1] == 0 {
            return Err(OperationError::DivisionByZero);
        }
        let a = stack.pop().unwrap();
        let b = stack.pop().unwrap();
        let quotient = match b.checked_div(a) {
            Some(q) => q,
            None => i16::MIN,
        };
        stack.push(quotient);
        assert(stack@ =~= self.effect(old(stack)@)->Ok_0);
        Ok(())
    }
}

/// The identifiers of the operations of this module.
pub open spec fn operations() -> Seq<OperationType> {
    seq![
        OperationType::Add,
        OperationType::Sub,
        OperationType::Mul,
        OperationType::Div,
    ]
}

/// The identifiers of the arithmetic operations.
pub fn get_operations() -> (ops: Vec<OperationType>)
    ensures
        ops@ == operations(),
{
    let mut ops: Vec<OperationType> = Vec::new();
    ops.push(OperationType::Add);
    ops.push(OperationType::Sub);
    ops.push(OperationType::Mul);
    ops.push(OperationType::Div);
    assert(ops@ =~= seq![
        OperationType::Add,
        OperationType::Sub,
        OperationType::Mul,
        OperationType::Div,
    ]);
    ops
}

} // verus!
