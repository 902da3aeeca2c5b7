use vstd::prelude::*;

verus! {

/// A failure reported by the chain gateway.
#[derive(Debug, Clone, PartialEq, Eq)]
pub enum ChainError {
    /// The chain could not be reached or did not answer; worth retrying.
    Transport(String),
    /// The chain refused the request; retrying the same request is pointless.
    Rejected(String),
    /// The miner identity is already known to the chain.
    AlreadyRegistered,
}

/// The error kinds of the miner.
#[derive(Debug, Clone, PartialEq, Eq)]
pub enum IpseError {
    /// No order exists on chain for the identifier.
    OrderNotFound,
    /// The file does not hash to the commitment recorded in its order.
    CommitmentMismatch,
    /// A placement already exists for the order.
    DuplicateOrder,
    /// No sector can hold the content.
    AllocationExhausted,
    /// A release would push a sector's remaining capacity past the sector size,
    /// or names a sector that does not exist.
    Inconsistent,
    /// The content store failed.
    Store(String),
    /// The metadata store failed to persist or load.
    Metadata(String),
    /// The chain failed.
    Chain(ChainError),
    /// Local state is committed but the chain has not confirmed the order.
    ConfirmationPending(ChainError),
}

impl ChainError {
    /// Whether the same request may succeed if sent again.
    pub fn is_retryable(&self) -> (r: bool)
        ensures
            r == (self is Transport),
    {
        match self {
            ChainError::Transport(_) => true,
            _ => false,
        }
    }
}

impl IpseError {
    /// Whether the failure comes from the system rather than from the request,
    /// so that the same request may succeed later.
    pub fn is_retryable(&self) -> (r: bool)
        ensures
            r == match self {
                IpseError::Store(_) | IpseError::Metadata(_) => true,
                IpseError::Chain(e) | IpseError::ConfirmationPending(e) => e is Transport,
                _ => false,
            },
    {
        match self {
            IpseError::Store(_) | IpseError::Metadata(_) => true,
            IpseError::Chain(e) | IpseError::ConfirmationPending(e) => e.is_retryable(),
            _ => false,
        }
    }
}

} // verus!
