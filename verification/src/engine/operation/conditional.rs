//! The extent of a conditional: where the `then` that closes an `if` stands, and
//! where its `else`, if it has one.
use vstd::prelude::*;
use vstd::slice::slice_subrange;
use crate::engine::error::OperationError;
use crate::engine::types::{BranchResult, BranchSlices};
use crate::text::{str_equal, texts};

verus! {

/// The token that opens a conditional.
pub open spec fn if_token() -> Seq<char> {
    "if"@
}

/// The token that parts the two branches of a conditional.
pub open spec fn else_token() -> Seq<char> {
    "else"@
}

/// The token that closes a conditional.
pub open spec fn then_token() -> Seq<char> {
    "then"@
}

/// A token that steers evaluation and names no word.
pub open spec fn is_control(token: Seq<char>) -> bool {
    token == if_token() || token == else_token() || token == then_token()
}

/// Scans `tokens` from `at` on with `nesting` conditionals open and the `else`
/// found so far. Every `if` opens one more conditional and every `then` closes
/// one. The `then` that closes the last one ends the scan: the result is its
/// position and the first `else` that was met while exactly one conditional was
/// open. There is no result when a `then` comes with none open, or the tokens
/// end first.
pub open spec fn scan_branch(
    tokens: Seq<Seq<char>>,
    at: int,
    nesting: nat,
    else_index: Option<int>,
) -> Option<(int, Option<int>)>
    decreases tokens.len() - at,
{
    if at < 0 || at >= tokens.len() {
        None
    } else if tokens[at] == if_token() {
        scan_branch(tokens, at + 1, nesting + 1, else_index)
    } else if tokens[at] == then_token() {
        if nesting == 0 {
            None
        } else if nesting == 1 {
            Some((at, else_index))
        } else {
            scan_branch(tokens, at + 1, (nesting - 1) as nat, else_index)
        }
    } else if tokens[at] == else_token() && nesting == 1 && else_index is None {
        scan_branch(tokens, at + 1, nesting, Some(at))
    } else {
        scan_branch(tokens, at + 1, nesting, else_index)
    }
}

/// The extent of the conditional that opens at `start`: the position of its
/// `then` and, if it has one, of its `else`.
pub open spec fn branch_indices(tokens: Seq<Seq<char>>, start: int) -> Option<(int, Option<int>)> {
    scan_branch(tokens, start, 0, None)
}

/// What a scan yields lies where the scan went: the `then` at or after `at`,
/// and an `else` that the scan itself found between `at` and the `then`.
pub proof fn lemma_scan_branch_bounds(
    tokens: Seq<Seq<char>>,
    at: int,
    nesting: nat,
    else_index: Option<int>,
)
    requires
        scan_branch(tokens, at, nesting, else_index) is Some,
    ensures
        ({
            let (then_at, else_at) = scan_branch(tokens, at, nesting, else_index)->Some_0;
            &&& 0 <= at <= then_at < tokens.len()
            &&& tokens[then_at] == then_token()
            &&& nesting == 0 ==> at < then_at
            &&& else_index is Some ==> else_at == else_index
            &&& else_index is None && else_at is Some ==> {
                &&& at <= else_at->Some_0 < then_at
                &&& tokens[else_at->Some_0] == else_token()
                &&& nesting == 0 ==> at < else_at->Some_0
            }
        }),
    decreases tokens.len() - at,
{
    if tokens[at] == if_token() {
        lemma_scan_branch_bounds(tokens, at + 1, nesting + 1, else_index);
    } else if tokens[at] == then_token() {
        if nesting > 1 {
            lemma_scan_branch_bounds(tokens, at + 1, (nesting - 1) as nat, else_index);
        }
    } else if tokens[at] == else_token() && nesting == 1 && else_index is None {
        lemma_scan_branch_bounds(tokens, at + 1, nesting, Some(at));
    } else {
        lemma_scan_branch_bounds(tokens, at + 1, nesting, else_index);
    }
}

/// The extent of a conditional lies after its start: first the `else`, if there
/// is one, then the `then`.
pub proof fn lemma_branch_indices_bounds(tokens: Seq<Seq<char>>, start: int)
    requires
        branch_indices(tokens, start) is Some,
    ensures
        ({
            let (then_at, else_at) = branch_indices(tokens, start)->Some_0;
            &&& 0 <= start < then_at < tokens.len()
            &&& tokens[then_at] == then_token()
            &&& else_at is Some ==> start < else_at->Some_0 < then_at && tokens[else_at->Some_0]
                == else_token()
        }),
{
    lemma_scan_branch_bounds(tokens, start, 0, None);
}

/// The conditionals of a token sequence.
pub struct Conditional;

impl Conditional {
    /// Finds the `then` that closes the conditional opening at `start`, and its
    /// `else` if it has one. Fails with `InvalidWord` when there is no such
    /// `then`.
    pub fn get_branch_indices(tokens: &[String], start: usize) -> (r: Result<
        (usize, Option<usize>),
        OperationError,
    >)
        ensures
            match branch_indices(texts(tokens@), start as int) {
                Some((then_at, else_at)) => r is Ok && r->Ok_0.0 == then_at && (match else_at {
                    Some(e) => r->Ok_0.1 == Some(e as usize),
                    None => r->Ok_0.1 is None,
                }),
                None => r == Err::<(usize, Option<usize>), OperationError>(
                    OperationError::InvalidWord,
                ),
            },
    {
        let mut branch_nesting: usize = 0;
        let mut else_index: Option<usize> = None;
        let mut j: usize = start;
        while j < tokens.len()
            invariant
                start <= j,
                branch_nesting <= j - start,
                else_index is Some ==> else_index->Some_0 < j,
                branch_indices(texts(tokens@), start as int) == scan_branch(
                    texts(tokens@),
                    j as int,
                    branch_nesting as nat,
                    match else_index {
                        Some(e) => Some(e as int),
                        None => None,
                    },
                ),
            decreases tokens.len() - j,
        {
            assert(texts(tokens@)[j as int] == tokens@[j as int]@);
            if str_equal(tokens[j].as_str(), "if") {
                branch_nesting += 1;
            } else if str_equal(tokens[j].as_str(), "then") {
                if branch_nesting == 0 {
                    return Err(OperationError::InvalidWord);
                }
                branch_nesting -= 1;
                if branch_nesting == 0 {
                    return Ok((j, else_index));
                }
            } else if str_equal(tokens[j].as_str(), "else") {
                if branch_nesting == 1 && else_index.is_none() {
                    else_index = Some(j);
                }
            }
            j += 1;
        }
        Err(OperationError::InvalidWord)
    }

    /// The branches of the conditional that opens at `start`: the position of
    /// its `then`, the tokens to run while the condition holds and, where
    /// there is an `else`, the tokens to run while it does not.
    pub fn extract_branch<'a>(tokens: &'a [String], start: usize) -> (r: BranchResult<'a>)
        ensures
            match branch_indices(texts(tokens@), start as int) {
                Some((then_at, else_at)) => r is Ok && r->Ok_0.0 == then_at && r->Ok_0.1@
                    == tokens@.subrange(
                    start + 1,
                    match else_at {
                        Some(e) => e,
                        None => then_at,
                    },
                ) && (match else_at {
                    Some(e) => r->Ok_0.2 is Some && r->Ok_0.2->Some_0@ == tokens@.subrange(
                        e + 1,
                        then_at,
                    ),
                    None => r->Ok_0.2 is None,
                }),
                None => r is Err && r->Err_0 == OperationError::InvalidWord,
            },
    {
        match Self::get_branch_indices(tokens, start) {
            Err(e) => Err(e),
            Ok((then_index, else_index)) => {
                proof {
                    lemma_branch_indices_bounds(texts(tokens@), start as int);
                }
                match Self::get_branch_slices(tokens, start, then_index, else_index) {
                    Err(e) => Err(e),
                    Ok((if_branch, else_branch)) => Ok((then_index, if_branch, else_branch)),
                }
            },
        }
    }

    /// Cuts the branches out of `tokens`, given the positions of the `if`, of
    /// its `then` and of its `else`.
    pub fn get_branch_slices<'a>(
        tokens: &'a [String],
        start: usize,
        then_index: usize,
        else_index: Option<usize>,
    ) -> (r: BranchSlices<'a>)
        requires
            start < then_index <= tokens@.len(),
            else_index is Some ==> start < else_index->Some_0 < then_index,
        ensures
            r is Ok,
            r->Ok_0.0@ == tokens@.subrange(
                start + 1,
                match else_index {
                    Some(e) => e as int,
                    None => then_index as int,
                },
            ),
            match else_index {
                Some(e) => r->Ok_0.1 is Some && r->Ok_0.1->Some_0@ == tokens@.subrange(
                    e + 1,
                    then_index as int,
                ),
                None => r->Ok_0.1 is None,
            },
    {
        let if_start = start + 1;
        let if_end = match else_index {
            Some(e) => e,
            None => then_index,
        };
        let if_branch = slice_subrange(tokens, if_start, if_end);
        let else_branch = match else_index {
            Some(else_pos) => Some(slice_subrange(tokens, else_pos + 1, then_index)),
            None => None,
        };
        Ok((if_branch, else_branch))
    }
}

} // verus!
