//! Operations that rearrange the top of the stack.
use vstd::prelude::*;
use crate::engine::error::OperationError;
use crate::engine::operation::{Operation, OperationType};

verus! {

/// `dup`: pushes a copy of the top value.
#[derive(Debug)]
pub struct Dup;

/// `drop`: removes the top value.
#[derive(Debug)]
pub struct Drop;

/// `swap`: exchanges the two top values.
#[derive(Debug)]
pub struct Swap;

/// `over`: pushes a copy of the second value.
#[derive(Debug)]
pub struct Over;

/// `rot`: moves the third value to the top.
#[derive(Debug)]
pub struct Rot;

impl Operation for Drop {
    open spec fn effect(&self, stack: Seq<i16>) -> Result<Seq<i16>, OperationError> {
        if stack.len() < 1 {
            Err(OperationError::StackUnderflow)
        } else {
            Ok(stack.drop_last())
        }
    }

    fn apply(&self, stack: &mut Vec<i16>) -> (r: Result<(), OperationError>)
        ensures
            old(stack)@.len() >= 1 ==> r is Ok && final(stack)@.len() == old(stack)@.len() - 1,
    {
        if stack.len() < 1 {
            return Err(OperationError::StackUnderflow);
        }
        stack.pop();
        Ok(())
    }
}

impl Operation for Dup {
    open spec fn effect(&self, stack: Seq<i16>) -> Result<Seq<i16>, OperationError> {
        if stack.len() < 1 {
            Err(OperationError::StackUnderflow)
        } else {
            Ok(stack.push(stack.last()))
        }
    }

    fn apply(&self, stack: &mut Vec<i16>) -> (r: Result<(), OperationError>)
        ensures
            old(stack)@.len() >= 1 ==> r is Ok && final(stack)@.len() == old(stack)@.len() + 1,
    {
        if stack.len() < 1 {
            return Err(OperationError::StackUnderflow);
        }
        let item = stack[stack.len() - 1];
        stack.push(item);
        Ok(())
    }
}

impl Operation for Swap {
    open spec fn effect(&self, stack: Seq<i16>) -> Result<Seq<i16>, OperationError> {
        if stack.len() < 2 {
            Err(OperationError::StackUnderflow)
        } else {
            Ok(
                stack.take(stack.len() - 2).push(stack[stack.len() - 1]).push(
                    stack[stack.len() - 2],
                ),
            )
        }
    }

    fn apply(&self, stack: &mut Vec<i16>) -> (r: Result<(), OperationError>)
        ensures
            old(stack)@.len() >= 2 ==> r is Ok && final(stack)@.len() == old(stack)@.len(),
    {
        if stack.len() < 2 {
            return Err(OperationError::StackUnderflow);
        }
        let last_item = stack.pop().unwrap();
        let penultimate_item = stack.pop().unwrap();
        stack.push(last_item);
        stack.push(penultimate_item);
        assert(stack@ =~= self.effect(old(stack)@)->Ok_0);
        Ok(())
    }
}

impl Operation for Over {
    open spec fn effect(&self, stack: Seq<i16>) -> Result<Seq<i16>, OperationError> {
        if stack.len() < 2 {
            Err(OperationError::StackUnderflow)
        } else {
            Ok(stack.push(stack[stack.len() - 2]))
        }
    }

    fn apply(&self, stack: &mut Vec<i16>) -> (r: Result<(), OperationError>)
        ensures
            old(stack)@.len() >= 2 ==> r is Ok && final(stack)@.len() == old(stack)@.len() + 1,
    {
        if stack.len() < 2 {
            return Err(OperationError::StackUnderflow);
        }
        let penultimate_item = stack[stack.len() - 2];
        stack.push(penultimate_item);
        Ok(())
    }
}

impl Operation for Rot {
    open spec fn effect(&self, stack: Seq<i16>) -> Result<Seq<i16>, OperationError> {
        if stack.len() < 3 {
            Err(OperationError::StackUnderflow)
        } else {
            Ok(
                stack.take(stack.len() - 3).push(stack[stack.len() - 2]).push(
                    stack[stack.len() - 1],
                ).push(stack[stack.len() - 3]),
            )
        }
    }

    fn apply(&self, stack: &mut Vec<i16>) -> (r: Result<(), OperationError>)
        ensures
            old(stack)@.len() >= 3 ==> r is Ok && final(stack)@.len() == old(stack)@.len(),
    {
        if stack.len() < 3 {
            return Err(OperationError::StackUnderflow);
        }
        let third_item = stack.pop().unwrap();
        let second_item = stack.pop().unwrap();
        let first_item = stack.pop().unwrap();
        stack.push(second_item);
        stack.push(third_item);
        stack.push(first_item);
        assert(stack@ =~= self.effect(old(stack)@)->Ok_0);
        Ok(())
    }
}

/// The identifiers of the operations of this module.
pub open spec fn operations() -> Seq<OperationType> {
    seq![
        OperationType::Drop,
        OperationType::Dup,
        OperationType::Over,
        OperationType::Rot,
        OperationType::Swap,
    ]
}

/// The identifiers of the operations that rearrange the stack.
pub fn get_operations() -> (ops: Vec<OperationType>)
    ensures
        ops@ == operations(),
{
    let mut ops: Vec<OperationType> = Vec::new();
    ops.push(OperationType::Drop);
    ops.push(OperationType::Dup);
    ops.push(OperationType::Over);
    ops.push(OperationType::Rot);
    ops.push(OperationType::Swap);
    assert(ops@ =~= seq![
        OperationType::Drop,
        OperationType::Dup,
        OperationType::Over,
        OperationType::Rot,
        OperationType::Swap,
    ]);
    ops
}

} // verus!
