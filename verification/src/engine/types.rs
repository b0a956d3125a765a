//! The results of cutting a conditional into its branches.
use vstd::prelude::*;
use crate::engine::error::OperationError;

verus! {

/// The position of the `then`, the tokens that run while the condition holds,
/// and the tokens that run while it does not, where there is an `else`.
pub type BranchResult<'a> = Result<(usize, &'a [String], Option<&'a [String]>), OperationError>;

/// The tokens that run while the condition holds, and the tokens that run
/// while it does not, where there is an `else`.
pub type BranchSlices<'a> = Result<(&'a [String], Option<&'a [String]>), OperationError>;

} // verus!
