//! The error taxonomy: every failure is terminal for the triggering call,
//! typed, and carries the escrow id where one is identified.

use vstd::prelude::*;

verus! {

/// Why an operation failed.
#[derive(Debug, PartialEq, Eq)]
pub enum ContractError {
    /// A supplied identity is not well-formed.
    InvalidIdentity,
    /// The attached asset has zero total value.
    EmptyBalance,
    /// A create named an id that is already in use.
    AlreadyInUse,
    /// The operation named an id with no open escrow.
    InvalidEscrow { id: String },
    /// A query named an id with no open escrow.
    NotFound { id: String },
    /// The caller is not allowed to perform the operation.
    Unauthorized,
    /// A top-up offered a token that the escrow's whitelist does not hold.
    NotInWhitelist,
    /// The escrow is past its end height or end time.
    Expired,
    /// An approve was attempted on an escrow with no recipient set.
    RecipientNotSet,
}

/// The model of a failure.
pub enum ContractErrorView {
    InvalidIdentity,
    EmptyBalance,
    AlreadyInUse,
    InvalidEscrow { id: Seq<char> },
    NotFound { id: Seq<char> },
    Unauthorized,
    NotInWhitelist,
    Expired,
    RecipientNotSet,
}

impl View for ContractError {
    type V = ContractErrorView;

    open spec fn view(&self) -> ContractErrorView {
        match self {
            ContractError::InvalidIdentity => ContractErrorView::InvalidIdentity,
            ContractError::EmptyBalance => ContractErrorView::EmptyBalance,
            ContractError::AlreadyInUse => ContractErrorView::AlreadyInUse,
            ContractError::InvalidEscrow { id } => ContractErrorView::InvalidEscrow { id: id@ },
            ContractError::NotFound { id } => ContractErrorView::NotFound { id: id@ },
            ContractError::Unauthorized => ContractErrorView::Unauthorized,
            ContractError::NotInWhitelist => ContractErrorView::NotInWhitelist,
            ContractError::Expired => ContractErrorView::Expired,
            ContractError::RecipientNotSet => ContractErrorView::RecipientNotSet,
        }
    }
}

} // verus!
