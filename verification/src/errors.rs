use vstd::prelude::*;

verus! {

/// Reason recorded against a dealer whose contribution was dropped by the
/// dealer filter. Complaints are local bookkeeping: they never abort a stage.
#[derive(Clone, Copy, PartialEq, Eq, Structural, Debug)]
pub enum ComplaintReason {
    /// The dealing bytes could not be parsed.
    MalformedDealing,
    /// The dealing parsed but failed cryptographic verification.
    DealingVerificationError,
    /// The dealer is absent from at least one per-polynomial dealings map.
    MissingDealing,
}

/// Fatal errors of the verification-key pipeline. Ledger and disk failures
/// happen outside the library and are handled by the surrounding driver.
#[derive(Clone, Copy, PartialEq, Eq, Structural, Debug)]
pub enum DkgError {
    /// Fewer surviving dealers than the threshold requires.
    ThresholdUnavailable,
    /// Decrypting our share from a surviving dealing failed.
    ShareDecryptionFailure,
    /// Lagrange combination of the decrypted shares failed.
    ShareCombinationFailure,
    /// Recovering the public verification keys from the dealings failed.
    VerificationKeyRecoveryFailure,
    /// Our own address is not among the surviving receivers.
    ReceiverIndexMissing,
    /// The submission logs carry no proposal-id attribute.
    ProposalIdNotFound,
    /// The proposal-id attribute is not a decimal `u64`.
    ProposalIdUnparsable,
    /// Finalization was asked for before a proposal id was recorded.
    ProposalIdNotSet,
}

} // verus!
