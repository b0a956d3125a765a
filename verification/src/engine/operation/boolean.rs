//! Comparisons and logic. A truth value is the flag -1, a falsehood the flag 0.
use vstd::prelude::*;
use crate::engine::error::OperationError;
use crate::engine::operation::{flag, Operation, OperationType};

verus! {

/// `=`: replaces the two top values by the flag that tells whether the two top values are equal.
pub struct Eq;

/// `>`: replaces the two top values by the flag that tells whether the second value is greater than the top.
pub struct Greater;

/// `<`: replaces the two top values by the flag that tells whether the second value is less than the top.
pub struct Less;

/// `and`: replaces the two top values by the flag that tells whether the two top values are both non-zero.
pub struct And;

/// `or`: replaces the two top values by the flag that tells whether one of the two top values is non-zero.
pub struct Or;

/// `not`: replaces the top value by the flag that tells whether it is zero.
pub struct Not;

impl Operation for Eq {
    open spec fn effect(&self, stack: Seq<i16>) -> Result<Seq<i16>, OperationError> {
        if stack.len() < 2 {
            Err(OperationError::StackUnderflow)
        } else {
            Ok(stack.take(stack.len() - 2).push(flag(stack[stack.len() - 1] == stack[stack.len() - 2])))
        }
    }

    fn apply(&self, stack: &mut Vec<i16>) -> (r: Result<(), OperationError>)
        ensures
            old(stack)@.len() >= 2 ==> r is Ok && final(stack)@.len() == old(stack)@.len() - 1,
            old(stack)@.len() >= 2 ==> (final(stack)@.last() == -1 <==> old(stack)@[old(stack)@.len() - 1]
                == old(stack)@[old(stack)@.len() - 2]),
    {
        if stack.len() < 2 {
            return Err(OperationError::StackUnderflow);
        }
        let a = stack.pop().unwrap();
        let b = stack.pop().unwrap();
        let result: i16 = if a == b {
            -1
        } else {
            0
        };
        stack.push(result);
        assert(stack@ =~= self.effect(old(stack)@)->Ok_0);
        Ok(())
    }
}

impl Operation for Greater {
    open spec fn effect(&self, stack: Seq<i16>) -> Result<Seq<i16>, OperationError> {
        if stack.len() < 2 {
            Err(OperationError::StackUnderflow)
        } else {
            Ok(stack.take(stack.len() - 2).push(flag(stack[stack.len() - 2] > stack[stack.len() - 1])))
        }
    }

    fn apply(&self, stack: &mut Vec<i16>) -> (r: Result<(), OperationError>)
        ensures
            old(stack)@.len() >= 2 ==> r is Ok && final(stack)@.len() == old(stack)@.len() - 1,
    {
        if stack.len() < 2 {
            return Err(OperationError::StackUnderflow);
        }
        let a = stack.pop().unwrap();
        let b = stack.pop().unwrap();
        let result: i16 = if b > a {
            -1
        } else {
            0
        };
        stack.push(result);
        assert(stack@ =~= self.effect(old(stack)@)->Ok_0);
        Ok(())
    }
}

impl Operation for Less {
    open spec fn effect(&self, stack: Seq<i16>) -> Result<Seq<i16>, OperationError> {
        if stack.len() < 2 {
            Err(OperationError::StackUnderflow)
        } else {
            Ok(stack.take(stack.len() - 2).push(flag(stack[stack.len() - 2] < stack[stack.len() - 1])))
        }
    }

    fn apply(&self, stack: &mut Vec<i16>) -> (r: Result<(), OperationError>)
        ensures
            old(stack)@.len() >= 2 ==> r is Ok && final(stack)@.len() == old(stack)@.len() - 1,
    {
        if stack.len() < 2 {
            return Err(OperationError::StackUnderflow);
        }
        let a = stack.pop().unwrap();
        let b = stack.pop().unwrap();
        let result: i16 = if b < a {
            -1
        } else {
            0
        };
        stack.push(result);
        assert(stack@ =~= self.effect(old(stack)@)->Ok_0);
        Ok(())
    }
}

impl Operation for And {
    open spec fn effect(&self, stack: Seq<i16>) -> Result<Seq<i16>, OperationError> {
        if stack.len() < 2 {
            Err(OperationError::StackUnderflow)
        } else {
            Ok(stack.take(stack.len() - 2).push(flag(stack[stack.len() - 2] != 0 && stack[stack.len() - 1] != 0)))
        }
    }

    fn apply(&self, stack: &mut Vec<i16>) -> (r: Result<(), OperationError>)
        ensures
            old(stack)@.len() >= 2 ==> r is Ok && final(stack)@.len() == old(stack)@.len() - 1,
    {
        if stack.len() < 2 {
            return Err(OperationError::StackUnderflow);
        }
        let a = stack.pop().unwrap();
        let b = stack.pop().unwrap();
        let result: i16 = if b != 0 && a != 0 {
            -1
        } else {
            0
        };
        stack.push(result);
        assert(stack@ =~= self.effect(old(stack)@)->Ok_0);
        Ok(())
    }
}

impl Operation for Or {
    open spec fn effect(&self, stack: Seq<i16>) -> Result<Seq<i16>, OperationError> {
        if stack.len() < 2 {
            Err(OperationError::StackUnderflow)
        } else {
            Ok(stack.take(stack.len() - 2).push(flag(stack[stack.len() - 2] != 0 || stack[stack.len() - 1] != 0)))
        }
    }

    fn apply(&self, stack: &mut Vec<i16>) -> (r: Result<(), OperationError>)
        ensures
            old(stack)@.len() >= 2 ==> r is Ok && final(stack)@.len() == old(stack)@.len() - 1,
    {
        if stack.len() < 2 {
            return Err(OperationError::StackUnderflow);
        }
        let a = stack.pop().unwrap();
        let b = stack.pop().unwrap();
        let result: i16 = if b != 0 || a != 0 {
            -1
        } else {
            0
        };
        stack.push(result);
        assert(stack@ =~= self.effect(old(stack)@)->Ok_0);
        Ok(())
    }
}

impl Operation for Not {
    open spec fn effect(&self, stack: Seq<i16>) -> Result<Seq<i16>, OperationError> {
        if stack.len() < 1 {
            Err(OperationError::StackUnderflow)
        } else {
            Ok(stack.drop_last().push(flag(stack.last() == 0)))
        }
    }

    fn apply(&self, stack: &mut Vec<i16>) -> (r: Result<(), OperationError>)
        ensures
            old(stack)@.len() >= 1 ==> r is Ok && final(stack)@.len() == old(stack)@.len(),
    {
        if stack.len() < 1 {
            return Err(OperationError::StackUnderflow);
        }
        let a = stack.pop().unwrap();
        let result: i16 = if a != 0 {
            0
        } else {
            -1
        };
        stack.push(result);
        Ok(())
    }
}

/// Negating a flag twice gives the flag back.
pub proof fn lemma_not_twice(stack: Seq<i16>, x: i16)
    requires
        x == 0 || x == -1,
    ensures
        Not.effect(stack.push(x)) is Ok,
        Not.effect(Not.effect(stack.push(x))->Ok_0) == Ok::<Seq<i16>, OperationError>(
            stack.push(x),
        ),
{
    let once = Not.effect(stack.push(x))->Ok_0;
    assert(stack.push(x).drop_last() =~= stack);
    assert(once.drop_last() =~= stack);
}

/// `=` leaves -1 exactly when the two values are equal, and 0 otherwise.
pub proof fn lemma_eq_flag(stack: Seq<i16>, b: i16, a: i16)
    ensures
        Eq.effect(stack.push(b).push(a)) == Ok::<Seq<i16>, OperationError>(
            stack.push(flag(a == b)),
        ),
        flag(a == b) == -1 <==> a == b,
{
    assert(stack.push(b).push(a).take(stack.len() as int) =~= stack);
}

/// The identifiers of the operations of this module.
pub open spec fn operations() -> Seq<OperationType> {
    seq![
        OperationType::Eq,
        OperationType::Less,
        OperationType::Greater,
        OperationType::And,
        OperationType::Or,
        OperationType::Not,
    ]
}

/// The identifiers of the comparisons and of the logical operations.
pub fn get_operations() -> (ops: Vec<OperationType>)
    ensures
        ops@ == operations(),
{
    let mut ops: Vec<OperationType> = Vec::new();
    ops.push(OperationType::Eq);
    ops.push(OperationType::Less);
    ops.push(OperationType::Greater);
    ops.push(OperationType::And);
    ops.push(OperationType::Or);
    ops.push(OperationType::Not);
    assert(ops@ =~= seq![
        OperationType::Eq,
        OperationType::Less,
        OperationType::Greater,
        OperationType::And,
        OperationType::Or,
        OperationType::Not,
    ]);
    ops
}

} // verus!
