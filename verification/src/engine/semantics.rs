//! What it means to evaluate tokens: the stack, the output and the error, if
//! any, that evaluation ends with.
use vstd::prelude::*;
use crate::engine::error::OperationError;
use crate::engine::operation::conditional::{
    branch_indices,
    if_token,
    lemma_branch_indices_bounds,
};
use crate::engine::operation::word_definition::{has_version, WordSpec};
use crate::engine::operation::{
    arithmetic,
    boolean,
    output,
    resolve_spelling,
    stack_manipulation,
    Operation,
    OperationOutput,
    OperationType,
};
use crate::engine::token::{shape_of, TokenShape};

verus! {

/// How an evaluation ends: with a stack, an output, and an error if it was cut
/// short.
pub struct Outcome {
    pub stack: Seq<i16>,
    pub output: Seq<char>,
    pub error: Option<OperationError>,
}

/// An evaluation that went through.
pub open spec fn done(stack: Seq<i16>, output: Seq<char>) -> Outcome {
    Outcome { stack, output, error: None }
}

/// An evaluation cut short by `error`.
pub open spec fn failed(stack: Seq<i16>, output: Seq<char>, error: OperationError) -> Outcome {
    Outcome { stack, output, error: Some(error) }
}

/// Pushing a number: refused with `StackOverflow` when the stack is full.
pub open spec fn push_outcome(n: i16, capacity: int, stack: Seq<i16>, output: Seq<char>) -> Outcome {
    if stack.len() >= capacity {
        failed(stack, output, OperationError::StackOverflow)
    } else {
        done(stack.push(n), output)
    }
}

/// The outcome of an operation on the stack alone. A result that the stack has
/// no room for is refused with `StackOverflow`; a refusal changes nothing.
pub open spec fn stack_outcome(
    result: Result<Seq<i16>, OperationError>,
    capacity: int,
    stack: Seq<i16>,
    output: Seq<char>,
) -> Outcome {
    match result {
        Ok(after) => if after.len() > capacity {
            failed(stack, output, OperationError::StackOverflow)
        } else {
            done(after, output)
        },
        Err(e) => failed(stack, output, e),
    }
}

/// The outcome of an operation that writes to the output.
pub open spec fn output_outcome(
    result: Result<(Seq<i16>, Seq<char>), OperationError>,
    stack: Seq<i16>,
    output: Seq<char>,
) -> Outcome {
    match result {
        Ok((after, text)) => done(after, output + text),
        Err(e) => failed(stack, output, e),
    }
}

/// The outcome of the built-in operation `op`, named by the token `name`.
pub open spec fn builtin_outcome(
    op: OperationType,
    name: Seq<char>,
    capacity: int,
    stack: Seq<i16>,
    output: Seq<char>,
) -> Outcome {
    match op {
        OperationType::Add => stack_outcome(arithmetic::Add.effect(stack), capacity, stack, output),
        OperationType::Sub => stack_outcome(arithmetic::Sub.effect(stack), capacity, stack, output),
        OperationType::Mul => stack_outcome(arithmetic::Mul.effect(stack), capacity, stack, output),
        OperationType::Div => stack_outcome(arithmetic::Div.effect(stack), capacity, stack, output),
        OperationType::And => stack_outcome(boolean::And.effect(stack), capacity, stack, output),
        OperationType::Eq => stack_outcome(boolean::Eq.effect(stack), capacity, stack, output),
        OperationType::Greater => stack_outcome(boolean::Greater.effect(stack), capacity, stack, output),
        OperationType::Less => stack_outcome(boolean::Less.effect(stack), capacity, stack, output),
        OperationType::Not => stack_outcome(boolean::Not.effect(stack), capacity, stack, output),
        OperationType::Or => stack_outcome(boolean::Or.effect(stack), capacity, stack, output),
        OperationType::Drop => stack_outcome(stack_manipulation::Drop.effect(stack), capacity, stack, output),
        OperationType::Dup => stack_outcome(stack_manipulation::Dup.effect(stack), capacity, stack, output),
        OperationType::Over => stack_outcome(stack_manipulation::Over.effect(stack), capacity, stack, output),
        OperationType::Rot => stack_outcome(stack_manipulation::Rot.effect(stack), capacity, stack, output),
        OperationType::Swap => stack_outcome(stack_manipulation::Swap.effect(stack), capacity, stack, output),
        OperationType::Dot => output_outcome(output::Dot.effect(stack, name), stack, output),
        OperationType::Cr => output_outcome(output::Cr.effect(stack, name), stack, output),
        OperationType::PrintText => output_outcome(output::PrintText.effect(stack, name), stack, output),
        OperationType::Emit => output_outcome(output::Emit.effect(stack, name), stack, output),
    }
}

/// The tokens that a conditional runs: those before its `else` (or its `then`)
/// when the condition is not zero, those after its `else` when it is zero and
/// there is one, and none otherwise.
pub open spec fn taken_branch(
    tokens: Seq<Seq<char>>,
    at: int,
    then_at: int,
    else_at: Option<int>,
    condition: i16,
) -> Seq<Seq<char>> {
    if condition != 0 {
        tokens.subrange(
            at + 1,
            match else_at {
                Some(e) => e,
                None => then_at,
            },
        )
    } else {
        match else_at {
            Some(e) => tokens.subrange(e + 1, then_at),
            None => Seq::empty(),
        }
    }
}

/// The outcome of one token that is not `if`, evaluated at `level`.
///
/// A number is pushed. A name tagged as built-in runs that operation. A name
/// tagged with a position runs the body defined at that position, provided
/// that the position lies below `level` and holds a definition of that name;
/// the body is evaluated at the level of its position, so that it sees only
/// what was defined before it. Every other token is an unknown word.
pub open spec fn step_outcome(
    words: Seq<WordSpec>,
    level: nat,
    token: Seq<char>,
    capacity: int,
    stack: Seq<i16>,
    output: Seq<char>,
) -> Outcome
    decreases level, 0nat, 0nat,
{
    match shape_of(token) {
        TokenShape::Number(n) => push_outcome(n, capacity, stack, output),
        TokenShape::Canonical(name) => match resolve_spelling(name) {
            Some(op) => builtin_outcome(op, name, capacity, stack, output),
            None => failed(stack, output, OperationError::WordNotFound),
        },
        TokenShape::Versioned(name, position) => if position < level && has_version(
            words,
            name,
            position as int,
        ) {
            eval_from(words, position, words[position as int].body, 0, capacity, stack, output)
        } else {
            failed(stack, output, OperationError::WordNotFound)
        },
        TokenShape::Other => failed(stack, output, OperationError::WordNotFound),
    }
}

/// Evaluates `tokens` from position `at` on, token by token, and stops at the
/// first error.
///
/// `if` takes the condition off the stack, runs the branch that the condition
/// selects and goes on behind the matching `then`; without a matching `then`
/// it fails with `InvalidWord`. Any other token does what `step_outcome` says.
pub open spec fn eval_from(
    words: Seq<WordSpec>,
    level: nat,
    tokens: Seq<Seq<char>>,
    at: nat,
    capacity: int,
    stack: Seq<i16>,
    output: Seq<char>,
) -> Outcome
    decreases level, tokens.len(), tokens.len() - at,
{
    if at >= tokens.len() {
        done(stack, output)
    } else if tokens[at as int] == if_token() {
        if stack.len() == 0 {
            failed(stack, output, OperationError::StackUnderflow)
        } else {
            match branch_indices(tokens, at as int) {
                None => failed(stack.drop_last(), output, OperationError::InvalidWord),
                Some((then_at, else_at)) => {
                    proof {
                        lemma_branch_indices_bounds(tokens, at as int);
                    }
                    let inner = eval_from(
                        words,
                        level,
                        taken_branch(tokens, at as int, then_at, else_at, stack.last()),
                        0,
                        capacity,
                        stack.drop_last(),
                        output,
                    );
                    if inner.error is Some {
                        inner
                    } else {
                        eval_from(
                            words,
                            level,
                            tokens,
                            (then_at + 1) as nat,
                            capacity,
                            inner.stack,
                            inner.output,
                        )
                    }
                },
            }
        }
    } else {
        let step = step_outcome(words, level, tokens[at as int], capacity, stack, output);
        if step.error is Some {
            step
        } else {
            eval_from(words, level, tokens, at + 1, capacity, step.stack, step.output)
        }
    }
}

/// Evaluates a whole program against a registry: every definition is in sight.
pub open spec fn eval_program(
    words: Seq<WordSpec>,
    tokens: Seq<Seq<char>>,
    capacity: int,
    stack: Seq<i16>,
    output: Seq<char>,
) -> Outcome {
    eval_from(words, words.len(), tokens, 0, capacity, stack, output)
}

/// Evaluation at a level reads the definitions below that level and no
/// others: two registries that agree below the level give the same outcome.
pub proof fn lemma_eval_reads_below_level(
    words: Seq<WordSpec>,
    others: Seq<WordSpec>,
    level: nat,
    tokens: Seq<Seq<char>>,
    at: nat,
    capacity: int,
    stack: Seq<i16>,
    output: Seq<char>,
)
    requires
        level <= words.len(),
        level <= others.len(),
        forall|k: int| 0 <= k < level ==> words[k] == others[k],
    ensures
        eval_from(words, level, tokens, at, capacity, stack, output) == eval_from(
            others,
            level,
            tokens,
            at,
            capacity,
            stack,
            output,
        ),
    decreases level, tokens.len(), tokens.len() - at,
{
    if at >= tokens.len() {
    } else if tokens[at as int] == if_token() {
        if stack.len() > 0 {
            match branch_indices(tokens, at as int) {
                None => {},
                Some((then_at, else_at)) => {
                    lemma_branch_indices_bounds(tokens, at as int);
                    let branch = taken_branch(tokens, at as int, then_at, else_at, stack.last());
                    lemma_eval_reads_below_level(
                        words,
                        others,
                        level,
                        branch,
                        0,
                        capacity,
                        stack.drop_last(),
                        output,
                    );
                    let inner = eval_from(
                        words,
                        level,
                        branch,
                        0,
                        capacity,
                        stack.drop_last(),
                        output,
                    );
                    if inner.error is None {
                        lemma_eval_reads_below_level(
                            words,
                            others,
                            level,
                            tokens,
                            (then_at + 1) as nat,
                            capacity,
                            inner.stack,
                            inner.output,
                        );
                    }
                },
            }
        }
    } else {
        let step = step_outcome(words, level, tokens[at as int], capacity, stack, output);
        match shape_of(tokens[at as int]) {
            TokenShape::Versioned(name, position) => {
                assert(position < level ==> words[position as int] == others[position as int]);
                if position < level && has_version(words, name, position as int) {
                    lemma_eval_reads_below_level(
                        words,
                        others,
                        position,
                        words[position as int].body,
                        0,
                        capacity,
                        stack,
                        output,
                    );
                }
            },
            _ => {},
        }
        assert(step == step_outcome(others, level, tokens[at as int], capacity, stack, output));
        if step.error is None {
            lemma_eval_reads_below_level(
                words,
                others,
                level,
                tokens,
                at + 1,
                capacity,
                step.stack,
                step.output,
            );
        }
    }
}

/// Early binding: a definition more changes nothing in what the tokens of an
/// earlier level do. In particular the body defined at a position behaves after
/// any later definition, of its own name or of another, as it did before.
pub proof fn lemma_definition_keeps_earlier_behaviour(
    words: Seq<WordSpec>,
    word: WordSpec,
    level: nat,
    tokens: Seq<Seq<char>>,
    capacity: int,
    stack: Seq<i16>,
    output: Seq<char>,
)
    requires
        level <= words.len(),
    ensures
        eval_from(words.push(word), level, tokens, 0, capacity, stack, output) == eval_from(
            words,
            level,
            tokens,
            0,
            capacity,
            stack,
            output,
        ),
        forall|position: int|
            0 <= position < words.len() ==> (#[trigger] words.push(word)[position]).body
                == words[position].body,
{
    lemma_eval_reads_below_level(
        words.push(word),
        words,
        level,
        tokens,
        0,
        capacity,
        stack,
        output,
    );
}

/// The stack never outgrows its capacity: an evaluation that starts within
/// the capacity ends within it.
pub proof fn lemma_eval_within_capacity(
    words: Seq<WordSpec>,
    level: nat,
    tokens: Seq<Seq<char>>,
    at: nat,
    capacity: int,
    stack: Seq<i16>,
    output: Seq<char>,
)
    requires
        stack.len() <= capacity,
    ensures
        eval_from(words, level, tokens, at, capacity, stack, output).stack.len() <= capacity,
    decreases level, tokens.len(), tokens.len() - at,
{
    if at >= tokens.len() {
    } else if tokens[at as int] == if_token() {
        if stack.len() > 0 {
            match branch_indices(tokens, at as int) {
                None => {},
                Some((then_at, else_at)) => {
                    lemma_branch_indices_bounds(tokens, at as int);
                    let branch = taken_branch(tokens, at as int, then_at, else_at, stack.last());
                    lemma_eval_within_capacity(
                        words,
                        level,
                        branch,
                        0,
                        capacity,
                        stack.drop_last(),
                        output,
                    );
                    let inner = eval_from(
                        words,
                        level,
                        branch,
                        0,
                        capacity,
                        stack.drop_last(),
                        output,
                    );
                    if inner.error is None {
                        lemma_eval_within_capacity(
                            words,
                            level,
                            tokens,
                            (then_at + 1) as nat,
                            capacity,
                            inner.stack,
                            inner.output,
                        );
                    }
                },
            }
        }
    } else {
        let step = step_outcome(words, level, tokens[at as int], capacity, stack, output);
        match shape_of(tokens[at as int]) {
            TokenShape::Versioned(name, position) => {
                if position < level && has_version(words, name, position as int) {
                    lemma_eval_within_capacity(
                        words,
                        position,
                        words[position as int].body,
                        0,
                        capacity,
                        stack,
                        output,
                    );
                }
            },
            TokenShape::Canonical(name) => {
                if resolve_spelling(name) is Some {
                    lemma_builtin_within_capacity(
                        resolve_spelling(name)->Some_0,
                        name,
                        capacity,
                        stack,
                        output,
                    );
                }
            },
            _ => {},
        }
        if step.error is None {
            lemma_eval_within_capacity(
                words,
                level,
                tokens,
                at + 1,
                capacity,
                step.stack,
                step.output,
            );
        }
    }
}

/// A built-in operation leaves a stack that is within the capacity within it.
pub proof fn lemma_builtin_within_capacity(
    op: OperationType,
    name: Seq<char>,
    capacity: int,
    stack: Seq<i16>,
    output: Seq<char>,
)
    requires
        stack.len() <= capacity,
    ensures
        builtin_outcome(op, name, capacity, stack, output).stack.len() <= capacity,
{
}

} // verus!
