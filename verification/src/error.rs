use vstd::prelude::*;

verus! {

/// The aborting error kinds. A withdrawal that cannot be satisfied is not
/// an error: it is a successful operation carrying a failure outcome (see
/// [`crate::msg::WithdrawOutcome`]), so the caller can observe the
/// unchanged balance.
#[derive(Clone, Copy, Debug, PartialEq, Eq, Structural)]
pub enum ContractError {
    /// The addressed vault does not exist.
    NotFound,
    /// A deposit notification came from a sender other than the configured
    /// token contract.
    Unauthorized,
    /// Arithmetic on a balance or an entry amount would leave the
    /// representable range.
    Overflow,
    /// A non-positive amount on input.
    ValidationError,
}

} // verus!
