use dkg_verification::dealings::{ContractDealing, Dealing, DealingAssessment};
use dkg_verification::derivation::{derive_partial_keypair, surviving_dealings, CryptoOutcome};
use dkg_verification::errors::{ComplaintReason, DkgError};
use dkg_verification::filter::deterministic_filter_dealers;
use dkg_verification::finalization::{
    record_vk_finalization, verification_key_finalization, FinalizationOutcome,
};
use dkg_verification::keys::{
    GroupElement, KeyPair, RecoveredVerificationKeys, Scalar, SecretKey, VerificationKey,
    GROUP_ELEMENT_BYTES,
};
use dkg_verification::state::{DealerEntry, State};
use dkg_verification::submission::{
    record_vk_submission, verification_key_submission, LogAttribute, LogEvent, SubmissionOutcome,
    TxLog,
};
use dkg_verification::validation::{
    record_vk_validation, verification_key_validation, ContractVKShare, Proposal, ProposalMsg,
    ProposalStatus,
};
use dkg_verification::TOTAL_DEALINGS;

const TEST_VALIDATORS_ADDRESS: [&str; 3] = [
    "n1aq9kakfgwqcufr23lsv644apavcntrsqsk4yus",
    "n1s9l3xr4g0rglvk4yctktmck3h4eq0gp6z2e20v",
    "n19kl4py32vsk297dm93ezem992cdyzdy4zuc2x6",
];

const DEALING_LEN: usize = 8;

/// A well-formed raw dealing of the simulated cryptographic layer: fixed
/// length, last byte a checksum of the rest. Truncation breaks parsing;
/// replacing the checksum breaks verification.
fn raw_dealing(dealer_index: u64, poly: usize) -> Vec<u8> {
    let mut b = vec![dealer_index as u8, poly as u8, 9, 9, 9, 9, 9];
    let sum: u32 = b.iter().map(|x| *x as u32).sum();
    b.push((sum % 256) as u8);
    b
}

fn assess(bytes: &[u8]) -> DealingAssessment {
    if bytes.len() != DEALING_LEN {
        return DealingAssessment::Malformed;
    }
    let sum: u32 = bytes[..DEALING_LEN - 1].iter().map(|x| *x as u32).sum();
    if (sum % 256) as u8 != bytes[DEALING_LEN - 1] {
        return DealingAssessment::VerificationFailed;
    }
    DealingAssessment::Verified(Dealing { bytes: bytes.to_vec() })
}

struct Ledger {
    dealings_db: Vec<(String, Vec<Vec<u8>>)>,
    proposals: Vec<Proposal>,
    shares: Vec<ContractVKShare>,
    next_proposal_id: u64,
}

impl Ledger {
    fn new() -> Ledger {
        let mut dealings_db = Vec::new();
        for (i, addr) in TEST_VALIDATORS_ADDRESS.iter().enumerate() {
            let index = (i + 1) as u64;
            let posted: Vec<Vec<u8>> = (0..TOTAL_DEALINGS).map(|p| raw_dealing(index, p)).collect();
            dealings_db.push((addr.to_string(), posted));
        }
        Ledger { dealings_db, proposals: Vec::new(), shares: Vec::new(), next_proposal_id: 1 }
    }

    fn fetch_assessed(&self) -> Vec<Vec<ContractDealing>> {
        (0..TOTAL_DEALINGS)
            .map(|p| {
                self.dealings_db
                    .iter()
                    .map(|(addr, posted)| ContractDealing {
                        dealer: addr.clone(),
                        assessment: assess(&posted[p]),
                    })
                    .collect()
            })
            .collect()
    }

    fn posted_of(&mut self, addr: &str) -> &mut Vec<Vec<u8>> {
        &mut self.dealings_db.iter_mut().find(|(a, _)| a == addr).unwrap().1
    }

    fn truncate_last_dealing(&mut self, addr: &str) {
        self.posted_of(addr).last_mut().unwrap().pop();
    }

    fn truncate_all_dealings(&mut self, addr: &str) {
        for d in self.posted_of(addr).iter_mut() {
            d.pop();
        }
    }

    fn tamper_last_dealing(&mut self, addr: &str) {
        let d = self.posted_of(addr).last_mut().unwrap();
        d.pop();
        d.push(42);
    }

    fn submit_share(&mut self, owner: &str, node_index: u64, share: String) -> Vec<TxLog> {
        let id = self.next_proposal_id;
        self.next_proposal_id += 1;
        self.proposals.push(Proposal {
            id,
            status: ProposalStatus::Open,
            msgs: vec![ProposalMsg::VerifyVkShare { owner: owner.to_string() }],
        });
        self.shares.push(ContractVKShare { owner: owner.to_string(), node_index, share });
        vec![TxLog {
            events: vec![LogEvent {
                ty: "wasm".to_string(),
                attributes: vec![LogAttribute {
                    key: "dkg_proposal_id".to_string(),
                    value: format!("{}", id),
                }],
            }],
        }]
    }

    fn vote(&mut self, id: u64, yes: bool) {
        let p = self.proposals.iter_mut().find(|p| p.id == id).unwrap();
        if !yes {
            p.status = ProposalStatus::Rejected;
        } else if !matches!(p.status, ProposalStatus::Rejected) {
            p.status = ProposalStatus::Passed;
        }
    }

    fn execute(&mut self, id: u64) {
        self.proposals.iter_mut().find(|p| p.id == id).unwrap().status =
            ProposalStatus::Executed;
    }

    fn proposal_status(&self, id: u64) -> ProposalStatus {
        self.proposals.iter().find(|p| p.id == id).unwrap().status
    }
}

fn new_states() -> Vec<State> {
    TEST_VALIDATORS_ADDRESS
        .iter()
        .map(|addr| {
            let dealers: Vec<DealerEntry> = TEST_VALIDATORS_ADDRESS
                .iter()
                .enumerate()
                .map(|(j, a)| DealerEntry {
                    index: (j + 1) as u64,
                    address: a.to_string(),
                    complaint: None,
                })
                .collect();
            State::new(addr.to_string(), dealers)
        })
        .collect()
}

fn complaint_of(state: &State, addr: &str) -> Option<ComplaintReason> {
    state.all_dealers().iter().find(|d| d.address == addr).unwrap().complaint
}

/// One group element of the simulated cryptographic layer, deterministic in
/// the polynomial and the receiver index alone, as recovery from the public
/// dealings is.
fn ge(poly: usize, idx: u64) -> GroupElement {
    let mut bytes = vec![0u8; GROUP_ELEMENT_BYTES];
    bytes[0] = poly as u8;
    bytes[1] = idx as u8;
    GroupElement { bytes }
}

/// The per-polynomial outcomes the cryptographic layer would hand back for
/// the survivors of an already filtered state.
fn crypto_for(filtered: &State, threshold: u64) -> Vec<CryptoOutcome> {
    let survivors: Vec<u64> = filtered
        .all_dealers()
        .iter()
        .filter(|d| d.complaint.is_none())
        .map(|d| d.index)
        .collect();
    (0..TOTAL_DEALINGS)
        .map(|p| CryptoOutcome::Recovered {
            recovered: RecoveredVerificationKeys {
                public_coefficients: (0..threshold).map(|j| ge(p, 100 + j)).collect(),
                recovered_partials: survivors.iter().map(|ix| ge(p, *ix)).collect(),
            },
            scalar: Scalar { bytes: vec![p as u8] },
        })
        .collect()
}

fn run_submission(ledger: &mut Ledger, state: &mut State, threshold: u64) -> Result<(), DkgError> {
    let dealings = ledger.fetch_assessed();
    let mut probe = state.clone();
    let _ = deterministic_filter_dealers(&mut probe, &dealings);
    let crypto = crypto_for(&probe, threshold);
    match verification_key_submission(state, threshold, &dealings, crypto)? {
        SubmissionOutcome::AlreadyDone => Ok(()),
        SubmissionOutcome::Submit(kp, share) => {
            let owner = state.own_address.clone();
            let node_index =
                state.all_dealers().iter().find(|d| d.address == owner).unwrap().index;
            let logs = ledger.submit_share(&owner, node_index, share);
            record_vk_submission(state, kp, &logs)?;
            Ok(())
        }
    }
}

fn run_validation(ledger: &mut Ledger, state: &mut State) {
    let shares = ledger.shares.clone();
    let proposals = ledger.proposals.clone();
    let votes = verification_key_validation(state, &shares, &proposals);
    for v in votes {
        ledger.vote(v.proposal_id, v.vote_yes);
    }
    record_vk_validation(state);
}

fn run_finalization(ledger: &mut Ledger, state: &mut State) {
    match verification_key_finalization(state).unwrap() {
        FinalizationOutcome::AlreadyDone => {}
        FinalizationOutcome::Execute(id) => {
            ledger.execute(id);
            record_vk_finalization(state);
        }
    }
}

#[test]
fn check_dealers_filter_all_good() {
    let ledger = Ledger::new();
    let mut states = new_states();
    for state in states.iter_mut() {
        let filtered = deterministic_filter_dealers(state, &ledger.fetch_assessed());
        assert_eq!(filtered.len(), TOTAL_DEALINGS);
        for mapping in filtered.iter() {
            assert_eq!(mapping.len(), 3);
        }
    }
}

#[test]
fn check_dealers_filter_one_bad_dealing() {
    let mut ledger = Ledger::new();
    let mut states = new_states();
    ledger.truncate_last_dealing(TEST_VALIDATORS_ADDRESS[0]);
    for state in states.iter_mut().skip(1) {
        let filtered = deterministic_filter_dealers(state, &ledger.fetch_assessed());
        assert_eq!(filtered.len(), TOTAL_DEALINGS);
        let corrupted_status = complaint_of(state, TEST_VALIDATORS_ADDRESS[0]).unwrap();
        assert_eq!(corrupted_status, ComplaintReason::MissingDealing);
    }
}

#[test]
fn check_dealers_filter_all_bad_dealings() {
    let mut ledger = Ledger::new();
    let mut states = new_states();
    ledger.truncate_all_dealings(TEST_VALIDATORS_ADDRESS[0]);
    for state in states.iter_mut().skip(1) {
        let filtered = deterministic_filter_dealers(state, &ledger.fetch_assessed());
        assert_eq!(filtered.len(), TOTAL_DEALINGS);
        for mapping in filtered.iter() {
            assert_eq!(mapping.len(), 2);
        }
        let corrupted_status = complaint_of(state, TEST_VALIDATORS_ADDRESS[0]).unwrap();
        assert_eq!(corrupted_status, ComplaintReason::MissingDealing);
    }
}

#[test]
fn check_dealers_filter_malformed_dealing() {
    let mut ledger = Ledger::new();
    let mut states = new_states();
    ledger.truncate_last_dealing(TEST_VALIDATORS_ADDRESS[0]);
    for state in states.iter_mut().skip(1) {
        deterministic_filter_dealers(state, &ledger.fetch_assessed());
        // the second filter invocation leaves the bad dealer behind and
        // surfaces why it was dropped in the first place
        let filtered = deterministic_filter_dealers(state, &ledger.fetch_assessed());
        assert_eq!(filtered.len(), TOTAL_DEALINGS);
        let corrupted_status = complaint_of(state, TEST_VALIDATORS_ADDRESS[0]).unwrap();
        assert_eq!(corrupted_status, ComplaintReason::MalformedDealing);
    }
}

#[test]
fn check_dealers_filter_dealing_verification_error() {
    let mut ledger = Ledger::new();
    let mut states = new_states();
    ledger.tamper_last_dealing(TEST_VALIDATORS_ADDRESS[0]);
    for state in states.iter_mut().skip(1) {
        deterministic_filter_dealers(state, &ledger.fetch_assessed());
        // the second filter invocation leaves the bad dealer behind and
        // surfaces why it was dropped in the first place
        let filtered = deterministic_filter_dealers(state, &ledger.fetch_assessed());
        assert_eq!(filtered.len(), TOTAL_DEALINGS);
        let corrupted_status = complaint_of(state, TEST_VALIDATORS_ADDRESS[0]).unwrap();
        assert_eq!(corrupted_status, ComplaintReason::DealingVerificationError);
    }
}

#[test]
fn partial_keypair_derivation() {
    let ledger = Ledger::new();
    let mut states = new_states();
    for state in states.iter_mut() {
        let filtered = deterministic_filter_dealers(state, &ledger.fetch_assessed());
        let crypto = crypto_for(state, 2);
        assert!(derive_partial_keypair(state, 2, &filtered, crypto).is_ok());
    }
}

#[test]
fn partial_keypair_derivation_with_threshold() {
    let mut ledger = Ledger::new();
    let mut states = new_states();
    ledger.truncate_last_dealing(TEST_VALIDATORS_ADDRESS[0]);
    for state in states.iter_mut().skip(1) {
        let filtered = deterministic_filter_dealers(state, &ledger.fetch_assessed());
        let crypto = crypto_for(state, 2);
        assert!(derive_partial_keypair(state, 2, &filtered, crypto).is_ok());
    }
}

#[test]
fn submit_verification_key() {
    let mut ledger = Ledger::new();
    let mut states = new_states();
    for state in states.iter_mut() {
        run_submission(&mut ledger, state, 2).unwrap();
    }
    for state in states.iter_mut() {
        let id = state.proposal_id_value().unwrap();
        assert!(ledger.proposals.iter().any(|p| p.id == id));
        assert!(state.coconut_keypair_is_some());
    }
}

#[test]
fn validate_verification_key() {
    let mut ledger = Ledger::new();
    let mut states = new_states();
    for state in states.iter_mut() {
        run_submission(&mut ledger, state, 2).unwrap();
    }
    for state in states.iter_mut() {
        run_validation(&mut ledger, state);
    }
    for state in states.iter() {
        let proposal_id = state.proposal_id_value().unwrap();
        assert_eq!(ledger.proposal_status(proposal_id), ProposalStatus::Passed);
    }
}

#[test]
fn validate_verification_key_malformed_share() {
    let mut ledger = Ledger::new();
    let mut states = new_states();
    for state in states.iter_mut() {
        run_submission(&mut ledger, state, 2).unwrap();
    }
    ledger
        .shares
        .iter_mut()
        .find(|s| s.owner == TEST_VALIDATORS_ADDRESS[0])
        .unwrap()
        .share
        .push('x');
    for state in states.iter_mut() {
        run_validation(&mut ledger, state);
    }
    for (idx, state) in states.iter().enumerate() {
        let proposal_id = state.proposal_id_value().unwrap();
        if idx == 0 {
            assert_eq!(ledger.proposal_status(proposal_id), ProposalStatus::Rejected);
        } else {
            assert_eq!(ledger.proposal_status(proposal_id), ProposalStatus::Passed);
        }
    }
}

#[test]
fn validate_verification_key_unpaired_share() {
    let mut ledger = Ledger::new();
    let mut states = new_states();
    for state in states.iter_mut() {
        run_submission(&mut ledger, state, 2).unwrap();
    }
    let second_share = ledger
        .shares
        .iter()
        .find(|s| s.owner == TEST_VALIDATORS_ADDRESS[1])
        .unwrap()
        .share
        .clone();
    ledger
        .shares
        .iter_mut()
        .find(|s| s.owner == TEST_VALIDATORS_ADDRESS[0])
        .unwrap()
        .share = second_share;
    for state in states.iter_mut() {
        run_validation(&mut ledger, state);
    }
    for (idx, state) in states.iter().enumerate() {
        let proposal_id = state.proposal_id_value().unwrap();
        if idx == 0 {
            assert_eq!(ledger.proposal_status(proposal_id), ProposalStatus::Rejected);
        } else {
            assert_eq!(ledger.proposal_status(proposal_id), ProposalStatus::Passed);
        }
    }
}

#[test]
fn finalize_verification_key() {
    let mut ledger = Ledger::new();
    let mut states = new_states();
    for state in states.iter_mut() {
        run_submission(&mut ledger, state, 2).unwrap();
    }
    for state in states.iter_mut() {
        run_validation(&mut ledger, state);
    }
    for state in states.iter_mut() {
        run_finalization(&mut ledger, state);
    }
    for state in states.iter() {
        let proposal_id = state.proposal_id_value().unwrap();
        assert_eq!(ledger.proposal_status(proposal_id), ProposalStatus::Executed);
    }
}

#[test]
fn stages_are_idempotent() {
    let mut ledger = Ledger::new();
    let mut states = new_states();
    for state in states.iter_mut() {
        run_submission(&mut ledger, state, 2).unwrap();
    }
    let proposals_after_submission = ledger.proposals.len();
    for state in states.iter_mut() {
        run_submission(&mut ledger, state, 2).unwrap();
    }
    assert_eq!(ledger.proposals.len(), proposals_after_submission);
    for state in states.iter_mut() {
        run_validation(&mut ledger, state);
    }
    for state in states.iter_mut() {
        // a second validation casts no votes: nothing can flip a proposal
        let votes = verification_key_validation(state, &ledger.shares, &ledger.proposals);
        assert!(votes.is_empty());
    }
    for state in states.iter_mut() {
        run_finalization(&mut ledger, state);
        run_finalization(&mut ledger, state);
    }
    for state in states.iter() {
        let proposal_id = state.proposal_id_value().unwrap();
        assert_eq!(ledger.proposal_status(proposal_id), ProposalStatus::Executed);
    }
}

#[test]
fn complaints_survive_repeated_filtering() {
    let mut ledger = Ledger::new();
    let mut states = new_states();
    ledger.truncate_all_dealings(TEST_VALIDATORS_ADDRESS[0]);
    let state = &mut states[1];
    deterministic_filter_dealers(state, &ledger.fetch_assessed());
    assert!(complaint_of(state, TEST_VALIDATORS_ADDRESS[0]).is_some());
    for _ in 0..3 {
        deterministic_filter_dealers(state, &ledger.fetch_assessed());
        assert!(complaint_of(state, TEST_VALIDATORS_ADDRESS[0]).is_some());
    }
}

#[test]
fn derivation_below_threshold_fails() {
    let mut ledger = Ledger::new();
    let mut states = new_states();
    ledger.truncate_all_dealings(TEST_VALIDATORS_ADDRESS[0]);
    let state = &mut states[1];
    let filtered = deterministic_filter_dealers(state, &ledger.fetch_assessed());
    let crypto = crypto_for(state, 3);
    assert!(matches!(
        derive_partial_keypair(state, 3, &filtered, crypto),
        Err(DkgError::ThresholdUnavailable)
    ));
}

#[test]
fn derivation_without_own_index_fails() {
    let mut ledger = Ledger::new();
    let mut states = new_states();
    ledger.truncate_all_dealings(TEST_VALIDATORS_ADDRESS[0]);
    // the corrupted dealer itself no longer appears among the survivors
    let state = &mut states[0];
    let filtered = deterministic_filter_dealers(state, &ledger.fetch_assessed());
    let crypto = crypto_for(state, 2);
    assert!(matches!(
        derive_partial_keypair(state, 2, &filtered, crypto),
        Err(DkgError::ReceiverIndexMissing)
    ));
}

#[test]
fn derivation_propagates_crypto_failure() {
    let ledger = Ledger::new();
    let mut states = new_states();
    let state = &mut states[0];
    let filtered = deterministic_filter_dealers(state, &ledger.fetch_assessed());
    let mut crypto = crypto_for(state, 2);
    crypto[1] = CryptoOutcome::DecryptionFailure;
    assert!(matches!(
        derive_partial_keypair(state, 2, &filtered, crypto),
        Err(DkgError::ShareDecryptionFailure)
    ));
    let mut crypto2 = crypto_for(state, 2);
    crypto2[0] = CryptoOutcome::CombinationFailure;
    assert!(matches!(
        derive_partial_keypair(state, 2, &filtered, crypto2),
        Err(DkgError::ShareCombinationFailure)
    ));
    let mut crypto3 = crypto_for(state, 2);
    crypto3[TOTAL_DEALINGS - 1] = CryptoOutcome::RecoveryFailure;
    assert!(matches!(
        derive_partial_keypair(state, 2, &filtered, crypto3),
        Err(DkgError::VerificationKeyRecoveryFailure)
    ));
}

#[test]
fn submission_without_proposal_id_fails() {
    let mut states = new_states();
    let state = &mut states[0];
    let kp = sample_keypair();
    let logs: Vec<TxLog> = Vec::new();
    assert!(matches!(
        record_vk_submission(state, kp, &logs),
        Err(DkgError::ProposalIdNotFound)
    ));
    assert!(!state.coconut_keypair_is_some());
    let kp = sample_keypair();
    let logs = vec![TxLog {
        events: vec![LogEvent {
            ty: "wasm".to_string(),
            attributes: vec![LogAttribute {
                key: "dkg_proposal_id".to_string(),
                value: "not-a-number".to_string(),
            }],
        }],
    }];
    assert!(matches!(
        record_vk_submission(state, kp, &logs),
        Err(DkgError::ProposalIdUnparsable)
    ));
    assert!(!state.coconut_keypair_is_some());
}

fn sample_keypair() -> KeyPair {
    KeyPair {
        secret_key: SecretKey {
            x: Scalar { bytes: vec![4] },
            ys: vec![
                Scalar { bytes: vec![0] },
                Scalar { bytes: vec![1] },
                Scalar { bytes: vec![2] },
                Scalar { bytes: vec![3] },
            ],
        },
        verification_key: VerificationKey {
            alpha: ge(4, 1),
            betas: (0..TOTAL_DEALINGS - 1).map(|p| ge(p, 1)).collect(),
        },
    }
}

#[test]
fn finalization_before_submission_fails() {
    let states = new_states();
    assert!(matches!(
        verification_key_finalization(&states[0]),
        Err(DkgError::ProposalIdNotSet)
    ));
}

#[test]
fn surviving_dealings_drop_freshly_bad_dealers() {
    let mut ledger = Ledger::new();
    let mut states = new_states();
    ledger.truncate_all_dealings(TEST_VALIDATORS_ADDRESS[0]);
    let state = &mut states[1];
    let filtered = deterministic_filter_dealers(state, &ledger.fetch_assessed());
    // every map holds the two surviving dealers; their dealings are handed
    // to the cryptographic layer in map order
    for (p, map) in filtered.iter().enumerate() {
        let picked = surviving_dealings(state, map);
        assert_eq!(picked.len(), 2);
        assert_eq!(picked[0].bytes, raw_dealing(2, p));
        assert_eq!(picked[1].bytes, raw_dealing(3, p));
    }
}
