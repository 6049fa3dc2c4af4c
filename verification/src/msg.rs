use crate::state::Ledger;
use vstd::prelude::*;

verus! {

/// Names the token contract whose deposit notifications the vault trusts.
#[derive(Debug)]
pub struct InstantiateMsg {
    pub cw20_addr: String,
}

/// The routing payload embedded in a deposit notification: which owner's
/// vault receives the funds.
#[derive(Debug)]
pub struct ReceiveMsg {
    pub vault_owner_addr: String,
}

/// An inbound operation.
#[derive(Debug)]
pub enum ExecuteMsg {
    /// Create the caller's vault.
    CreateVault,
    /// Withdraw `amount` from the caller's own vault.
    Withdraw { amount: u128 },
    /// A deposit notification: `amount` was sent to the vault named in
    /// `msg`. Only the configured token contract may send it.
    Receive { amount: u128, msg: ReceiveMsg },
}

/// A query.
#[derive(Debug)]
pub enum QueryMsg {
    GetVault { vault_owner_addr: String },
}

/// The state of one vault, as a query reports it.
#[derive(Debug, Clone, PartialEq, Eq)]
pub struct VaultResponse {
    pub owner_addr: String,
    pub collected: u128,
    pub ledger_list: Vec<Ledger>,
}

/// What a withdrawal request came to. A failed request is not an error:
/// nothing is withdrawn and the unchanged balance is reported, so the
/// caller can observe it without a separate query.
#[derive(Clone, Copy, Debug, PartialEq, Eq, Structural)]
pub struct WithdrawOutcome {
    pub success: bool,
    pub amount_withdrawn: u128,
    pub remaining_collected: u128,
}

/// One outbound transfer instruction, addressed to the token contract
/// that moves the underlying asset.
#[derive(Debug, Clone, PartialEq, Eq)]
pub struct TransferInstruction {
    pub recipient: String,
    pub amount: u128,
}

/// What a completed operation reports.
#[derive(Debug, PartialEq, Eq)]
pub enum ExecResponse {
    /// The caller's vault was created.
    VaultCreated,
    /// The caller already had a vault; nothing changed.
    VaultAlreadyExists,
    /// A withdrawal request was resolved. On success the transfer
    /// instruction for the withdrawn amount is attached; on failure there
    /// is none and the vault is untouched.
    Withdrawal { outcome: WithdrawOutcome, transfer: Option<TransferInstruction> },
    /// A deposit was recorded with the given amount and timestamp.
    Deposited { amount: u128, timestamp: u64 },
}

} // verus!
