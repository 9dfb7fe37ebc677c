use vstd::prelude::*;
use crate::errors::DkgError;
use crate::state::State;

verus! {

/// What the finalization stage asks of its caller.
pub enum FinalizationOutcome {
    /// The proposal has already been executed: the stage is complete.
    AlreadyDone,
    /// Execute the proposal with this id on the ledger, then record
    /// completion with `record_vk_finalization`.
    Execute(u64),
}

/// Finalizes our own verification-key share: asks the caller to execute the
/// recorded proposal. A no-op once execution has been recorded; asking for
/// finalization before submission recorded a proposal id is an error. The
/// stage does not inspect the proposal's status first: the surrounding
/// epoch driver only advances here after voting has concluded.
pub fn verification_key_finalization(state: &State) -> (r: Result<FinalizationOutcome, DkgError>)
    ensures
        state.executed_proposal ==> r == Ok::<FinalizationOutcome, DkgError>(
            FinalizationOutcome::AlreadyDone,
        ),
        !state.executed_proposal ==> match state.proposal_id {
            Some(id) => r == Ok::<FinalizationOutcome, DkgError>(
                FinalizationOutcome::Execute(id),
            ),
            None => r == Err::<FinalizationOutcome, DkgError>(DkgError::ProposalIdNotSet),
        },
{
    if state.executed_proposal {
        return Ok(FinalizationOutcome::AlreadyDone);
    }
    match state.proposal_id_value() {
        Ok(id) => Ok(FinalizationOutcome::Execute(id)),
        Err(e) => Err(e),
    }
}

/// Records that our proposal has been executed: from here on finalization
/// is a no-op.
pub fn record_vk_finalization(state: &mut State)
    ensures
        final(state).executed_proposal,
        final(state).dealers@ == old(state).dealers@,
        final(state).own_address == old(state).own_address,
        final(state).recovered_vks == old(state).recovered_vks,
        final(state).coconut_keypair == old(state).coconut_keypair,
        final(state).proposal_id == old(state).proposal_id,
        final(state).voted_vks == old(state).voted_vks,
{
    state.executed_proposal = true;
}

} // verus!
