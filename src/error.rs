use vstd::prelude::*;
use crate::ClientId;

verus! {

/// The closed set of recoverable failures shared by every component.
///
/// Each variant is a leaf condition: no variant wraps another error, so a
/// caller can match on the cause exhaustively.
#[derive(Debug, Clone, Copy, PartialEq, Eq, Structural)]
pub enum QuinnetError {
    /// The client with this identifier is not registered.
    UnknownClient(ClientId),
    /// A payload could not be serialized.
    Serialization,
    /// A payload could not be deserialized.
    Deserialization,
    /// The channel holds as many messages as its capacity allows.
    FullQueue,
    /// The channel no longer accepts messages.
    ChannelClosed,
    /// The persisted list of trusted hosts is malformed.
    InvalidHostFile,
    /// A lock guarding shared state could not be acquired.
    LockAcquisitionFailure,
    /// A decision was already applied to this certificate interaction.
    CertificateActionAlreadyApplied,
}

#[verifier::external_type_specification]
#[verifier::external_body]
#[verifier::reject_recursive_types(T)]
pub struct ExPoisonError<T>(std::sync::PoisonError<T>);

/// A poisoned lock is reported as a lock acquisition failure; the lock's own
/// error type never leaves this crate.
impl<T> From<std::sync::PoisonError<T>> for QuinnetError {
    fn from(_e: std::sync::PoisonError<T>) -> (r: Self)
        ensures
            r == QuinnetError::LockAcquisitionFailure,
    {
        QuinnetError::LockAcquisitionFailure
    }
}

impl<T> vstd::std_specs::convert::FromSpecImpl<std::sync::PoisonError<T>> for QuinnetError {
    open spec fn obeys_from_spec() -> bool {
        true
    }

    open spec fn from_spec(v: std::sync::PoisonError<T>) -> Self {
        QuinnetError::LockAcquisitionFailure
    }
}

impl QuinnetError {
    /// Maps the outcome of a lock acquisition to this error type: the guard
    /// is handed back unchanged, a poisoned lock becomes
    /// `LockAcquisitionFailure`.
    pub fn from_lock_result<G>(res: Result<G, std::sync::PoisonError<G>>) -> (r: Result<G, QuinnetError>)
        ensures
            match res {
                Ok(g) => r == Ok::<G, QuinnetError>(g),
                Err(_) => r == Err::<G, QuinnetError>(QuinnetError::LockAcquisitionFailure),
            },
    {
        match res {
            Ok(g) => Ok(g),
            Err(e) => Err(QuinnetError::from(e)),
        }
    }
}

} // verus!
