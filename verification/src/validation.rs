use vstd::prelude::*;
use crate::codec::{bs58_decoding, spec_serialize_vk, spec_vk_from_bs58, vk_try_from_bs58, lemma_vk_share_roundtrip};
use crate::keys::{
    check_vk_pairing, clone_group_element, matrix_rect, partials_view, row_view, spec_vk_pairs,
    transpose_matrix, vk_wf, GroupElement, RecoveredVerificationKeys, VerificationKeyV,
};
use crate::state::{good_count, good_indices, DealerV, State};
use crate::TOTAL_DEALINGS;

verus! {

/// Status of an on-chain governance proposal.
#[derive(Clone, Copy, PartialEq, Eq, Structural, Debug)]
pub enum ProposalStatus {
    Pending,
    Open,
    Rejected,
    Passed,
    Executed,
}

/// One message carried by a proposal: either the protocol message asking
/// the cohort to verify one participant's verification-key share, or
/// anything else.
#[derive(Clone)]
pub enum ProposalMsg {
    VerifyVkShare { owner: String },
    Other,
}

/// Ghost value of a proposal message.
pub ghost enum ProposalMsgV {
    VerifyVkShare { owner: Seq<char> },
    Other,
}

impl View for ProposalMsg {
    type V = ProposalMsgV;

    open spec fn view(&self) -> ProposalMsgV {
        match self {
            ProposalMsg::VerifyVkShare { owner } => ProposalMsgV::VerifyVkShare {
                owner: owner@,
            },
            ProposalMsg::Other => ProposalMsgV::Other,
        }
    }
}

/// One on-chain governance proposal.
#[derive(Clone)]
pub struct Proposal {
    pub id: u64,
    pub status: ProposalStatus,
    pub msgs: Vec<ProposalMsg>,
}

/// Ghost value of a proposal.
#[verifier::ext_equal]
pub ghost struct ProposalV {
    pub id: u64,
    pub status: ProposalStatus,
    pub msgs: Seq<ProposalMsgV>,
}

impl View for Proposal {
    type V = ProposalV;

    open spec fn view(&self) -> ProposalV {
        ProposalV {
            id: self.id,
            status: self.status,
            msgs: self.msgs@.map_values(|m: ProposalMsg| m@),
        }
    }
}

/// Ghost value of a proposal list.
pub open spec fn proposals_view(ps: Seq<Proposal>) -> Seq<ProposalV> {
    ps.map_values(|p: Proposal| p@)
}

/// One verification-key share published on the ledger.
#[derive(Clone)]
pub struct ContractVKShare {
    pub owner: String,
    pub node_index: u64,
    pub share: String,
}

/// Ghost value of a published share.
#[verifier::ext_equal]
pub ghost struct ContractVKShareV {
    pub owner: Seq<char>,
    pub node_index: u64,
    pub share: Seq<char>,
}

impl View for ContractVKShare {
    type V = ContractVKShareV;

    open spec fn view(&self) -> ContractVKShareV {
        ContractVKShareV { owner: self.owner@, node_index: self.node_index, share: self.share@ }
    }
}

/// Ghost value of a share list.
pub open spec fn shares_view(ss: Seq<ContractVKShare>) -> Seq<ContractVKShareV> {
    ss.map_values(|s: ContractVKShare| s@)
}

/// One vote to cast: on which proposal, and whether in favour.
#[derive(Clone, Copy, PartialEq, Eq, Structural, Debug)]
pub struct Vote {
    pub proposal_id: u64,
    pub vote_yes: bool,
}

/// Ghost value of a vote list.
pub open spec fn votes_view(vs: Seq<Vote>) -> Seq<(u64, bool)> {
    vs.map_values(|v: Vote| (v.proposal_id, v.vote_yes))
}

/// The owner a proposal's messages identify: the owner of the first
/// share-verification message, if any.
pub open spec fn spec_owner_from_msgs(msgs: Seq<ProposalMsgV>) -> Option<Seq<char>>
    decreases msgs.len(),
{
    if msgs.len() == 0 {
        None
    } else {
        match msgs[0] {
            ProposalMsgV::VerifyVkShare { owner } => Some(owner),
            ProposalMsgV::Other => spec_owner_from_msgs(msgs.drop_first()),
        }
    }
}

/// Extracts from a proposal's messages the address whose share the proposal
/// asks the cohort to verify.
pub fn owner_from_cosmos_msgs(msgs: &Vec<ProposalMsg>) -> (r: Option<String>)
    ensures
        match r {
            Some(o) => spec_owner_from_msgs(msgs@.map_values(|m: ProposalMsg| m@)) == Some(o@),
            None => spec_owner_from_msgs(msgs@.map_values(|m: ProposalMsg| m@)) is None,
        },
{
    let ghost mv = msgs@.map_values(|m: ProposalMsg| m@);
    proof {
        assert(mv.skip(0) =~= mv);
    }
    let n = msgs.len();
    let mut i: usize = 0;
    while i < n
        invariant
            n == msgs@.len(),
            i <= n,
            mv == msgs@.map_values(|m: ProposalMsg| m@),
            spec_owner_from_msgs(mv) == spec_owner_from_msgs(mv.skip(i as int)),
        decreases n - i,
    {
        proof {
            assert(mv.skip(i as int)[0] == mv[i as int]);
            assert(mv.skip(i as int).drop_first() =~= mv.skip(i as int + 1));
        }
        match &msgs[i] {
            ProposalMsg::VerifyVkShare { owner } => {
                return Some(owner.clone());
            },
            ProposalMsg::Other => {},
        }
        i = i + 1;
    }
    proof {
        assert(mv.skip(n as int) =~= Seq::<ProposalMsgV>::empty());
    }
    None
}

/// The owner/id pair of a voteable proposal: one that is still open and
/// whose messages identify an owner.
pub open spec fn spec_validate_proposal(p: ProposalV) -> Option<(Seq<char>, u64)> {
    if p.status == ProposalStatus::Open {
        match spec_owner_from_msgs(p.msgs) {
            Some(o) => Some((o, p.id)),
            None => None,
        }
    } else {
        None
    }
}

/// Accepts a proposal for voting: it must be open and identify an owner.
pub fn validate_proposal(proposal: &Proposal) -> (r: Option<(String, u64)>)
    ensures
        match r {
            Some(p) => spec_validate_proposal(proposal@) == Some((p.0@, p.1)),
            None => spec_validate_proposal(proposal@) is None,
        },
{
    if proposal.status == ProposalStatus::Open {
        match owner_from_cosmos_msgs(&proposal.msgs) {
            Some(owner) => Some((owner, proposal.id)),
            None => None,
        }
    } else {
        None
    }
}

/// The proposal id under which an owner's share is up for a vote: of all
/// voteable proposals naming that owner, the last one listed.
pub open spec fn spec_proposal_id_for(ps: Seq<ProposalV>, owner: Seq<char>) -> Option<u64>
    decreases ps.len(),
{
    if ps.len() == 0 {
        None
    } else {
        match spec_validate_proposal(ps.last()) {
            Some(p) => if p.0 == owner {
                Some(p.1)
            } else {
                spec_proposal_id_for(ps.drop_last(), owner)
            },
            None => spec_proposal_id_for(ps.drop_last(), owner),
        }
    }
}

/// Finds the proposal id under which an owner's share is up for a vote.
fn lookup_proposal_id(proposals: &Vec<Proposal>, owner: &String) -> (r: Option<u64>)
    ensures
        r == spec_proposal_id_for(proposals_view(proposals@), owner@),
{
    let ghost pv = proposals_view(proposals@);
    let n = proposals.len();
    let mut found: Option<u64> = None;
    let mut k: usize = 0;
    while k < n
        invariant
            n == proposals@.len(),
            k <= n,
            pv == proposals_view(proposals@),
            found == spec_proposal_id_for(pv.take(k as int), owner@),
        decreases n - k,
    {
        proof {
            assert(pv.take(k as int + 1).drop_last() =~= pv.take(k as int));
            assert(pv.take(k as int + 1).last() == pv[k as int]);
            assert(pv[k as int] == proposals@[k as int]@);
        }
        match validate_proposal(&proposals[k]) {
            Some(p) => {
                if p.0.eq(owner) {
                    found = Some(p.1);
                }
            },
            None => {},
        }
        k = k + 1;
    }
    proof {
        assert(pv.take(n as int) =~= pv);
    }
    found
}

/// Position of the first occurrence of a node index in a receiver list.
pub open spec fn first_position(s: Seq<u64>, x: u64) -> Option<int>
    decreases s.len(),
{
    if s.len() == 0 {
        None
    } else if s[0] == x {
        Some(0int)
    } else {
        match first_position(s.drop_first(), x) {
            Some(p) => Some(p + 1),
            None => None,
        }
    }
}

proof fn lemma_first_position_bounds(s: Seq<u64>, x: u64)
    ensures
        match first_position(s, x) {
            Some(p) => 0 <= p < s.len() && s[p] == x,
            None => true,
        },
    decreases s.len(),
{
    if s.len() == 0 {
    } else if s[0] == x {
    } else {
        lemma_first_position_bounds(s.drop_first(), x);
    }
}

/// Finds the position of a node index in a receiver list.
fn position_of(s: &Vec<u64>, x: u64) -> (r: Option<usize>)
    ensures
        match first_position(s@, x) {
            Some(p) => r == Some(p as usize),
            None => r is None,
        },
{
    let n = s.len();
    proof {
        assert(s@.skip(0) =~= s@);
        assert(first_position(s@, x) == match first_position(s@.skip(0), x) {
            Some(p) => Some(p + 0),
            None => None::<int>,
        });
    }
    let mut i: usize = 0;
    while i < n
        invariant
            n == s@.len(),
            i <= n,
            first_position(s@, x) == match first_position(s@.skip(i as int), x) {
                Some(p) => Some(p + i),
                None => None::<int>,
            },
        decreases n - i,
    {
        proof {
            assert(s@.skip(i as int)[0] == s@[i as int]);
            assert(s@.skip(i as int).drop_first() =~= s@.skip(i as int + 1));
        }
        if s[i] == x {
            return Some(i);
        }
        i = i + 1;
    }
    proof {
        assert(s@.skip(n as int) =~= Seq::<u64>::empty());
    }
    None
}

/// The surviving receivers' indices have one position per survivor.
pub proof fn lemma_good_indices_len(ds: Seq<DealerV>)
    ensures
        good_indices(ds).len() == good_count(ds),
    decreases ds.len(),
{
    if ds.len() == 0 {
    } else {
        lemma_good_indices_len(ds.drop_last());
    }
}

/// The public share expected of the receiver at one row: its recovered
/// partial from each polynomial, in polynomial order.
pub open spec fn expected_row(recs: Seq<RecoveredVerificationKeys>, pos: int) -> Seq<Seq<u8>> {
    Seq::new(recs.len(), |p: int| partials_view(recs[p])[pos])
}

/// The vote the validator casts on one published share, if any: no vote
/// without a voteable proposal naming the owner; a `no` vote on a share
/// that does not decode to a verification key; no vote when the owner's
/// node index is not among the surviving receivers; else `yes` exactly when
/// the key pairs with the partials recovered for that receiver.
pub open spec fn share_decision(
    ds: Seq<DealerV>,
    recs: Seq<RecoveredVerificationKeys>,
    s: ContractVKShareV,
    ps: Seq<ProposalV>,
) -> Option<(u64, bool)> {
    match spec_proposal_id_for(ps, s.owner) {
        None => None,
        Some(pid) => match spec_vk_from_bs58(s.share) {
            None => Some((pid, false)),
            Some(vk) => match first_position(good_indices(ds), s.node_index) {
                None => None,
                Some(pos) => Some((pid, spec_vk_pairs(expected_row(recs, pos), vk))),
            },
        },
    }
}

/// The votes cast over a share list, in listed order.
pub open spec fn spec_votes(
    ds: Seq<DealerV>,
    recs: Seq<RecoveredVerificationKeys>,
    shares: Seq<ContractVKShareV>,
    ps: Seq<ProposalV>,
) -> Seq<(u64, bool)>
    decreases shares.len(),
{
    if shares.len() == 0 {
        Seq::empty()
    } else {
        let rest = spec_votes(ds, recs, shares.drop_last(), ps);
        match share_decision(ds, recs, shares.last(), ps) {
            Some(v) => rest.push(v),
            None => rest,
        }
    }
}

/// Copies a row of group elements.
fn clone_elements(v: &Vec<GroupElement>) -> (r: Vec<GroupElement>)
    ensures
        r@.len() == v@.len(),
        forall|i: int| 0 <= i < v@.len() ==> (#[trigger] r@[i])@ == v@[i]@,
{
    let mut out: Vec<GroupElement> = Vec::new();
    let mut i: usize = 0;
    while i < v.len()
        invariant
            i <= v@.len(),
            out@.len() == i,
            forall|j: int| 0 <= j < i ==> (#[trigger] out@[j])@ == v@[j]@,
        decreases v@.len() - i,
    {
        out.push(clone_group_element(&v[i]));
        i = i + 1;
    }
    out
}

/// Votes on every peer's published verification-key share: for each share
/// whose owner has an open proposal, casts the vote `share_decision`
/// prescribes, in listed order. Once the validator has recorded completion
/// (`voted_vks`), another invocation casts nothing. The caller dispatches
/// the votes to the ledger and then records completion with
/// `record_vk_validation`.
#[verifier::loop_isolation(false)]
pub fn verification_key_validation(
    state: &State,
    vk_shares: &Vec<ContractVKShare>,
    proposals: &Vec<Proposal>,
) -> (r: Vec<Vote>)
    requires
        state.recovered_vks@.len() == TOTAL_DEALINGS,
        forall|p: int|
            0 <= p < state.recovered_vks@.len() ==> partials_view(
                #[trigger] state.recovered_vks@[p],
            ).len() == good_count(state.dealers_v()),
    ensures
        state.voted_vks ==> r@.len() == 0,
        !state.voted_vks ==> votes_view(r@) == spec_votes(
            state.dealers_v(),
            state.recovered_vks@,
            shares_view(vk_shares@),
            proposals_view(proposals@),
        ),
{
    let mut votes: Vec<Vote> = Vec::new();
    if state.voted_vks {
        return votes;
    }
    let ghost ds = state.dealers_v();
    let ghost recs = state.recovered_vks@;
    let ghost sv = shares_view(vk_shares@);
    let ghost pv = proposals_view(proposals@);

    // The expected public share of each surviving receiver: the recovered
    // partials, transposed from per-polynomial rows to per-receiver rows.
    let mut matrix: Vec<Vec<GroupElement>> = Vec::new();
    let mut p: usize = 0;
    while p < state.recovered_vks.len()
        invariant
            p <= recs.len(),
            matrix@.len() == p,
            forall|q: int|
                0 <= q < p ==> (#[trigger] matrix@[q])@.len() == good_count(ds),
            forall|q: int, t: int|
                0 <= q < p && 0 <= t < good_count(ds) ==> (#[trigger] matrix@[q]@[t])@
                    == partials_view(recs[q])[t],
        decreases recs.len() - p,
    {
        let row = clone_elements(&state.recovered_vks[p].recovered_partials);
        matrix.push(row);
        p = p + 1;
    }
    proof {
        assert(matrix_rect(matrix@));
        lemma_good_indices_len(ds);
    }
    let transposed = transpose_matrix(&matrix);
    let receivers = state.current_receivers();

    let n = vk_shares.len();
    let mut k: usize = 0;
    while k < n
        invariant
            k <= n,
            votes_view(votes@) == spec_votes(ds, recs, sv.take(k as int), pv),
        decreases n - k,
    {
        proof {
            assert(sv.take(k as int + 1).drop_last() =~= sv.take(k as int));
            assert(sv.take(k as int + 1).last() == sv[k as int]);
            assert(sv[k as int] == vk_shares@[k as int]@);
        }
        let share = &vk_shares[k];
        match lookup_proposal_id(proposals, &share.owner) {
            None => {},
            Some(pid) => {
                match vk_try_from_bs58(&share.share) {
                    None => {
                        votes.push(Vote { proposal_id: pid, vote_yes: false });
                        proof {
                            assert(votes_view(votes@) =~= spec_votes(
                                ds,
                                recs,
                                sv.take(k as int + 1),
                                pv,
                            ));
                        }
                    },
                    Some(vk) => {
                        match position_of(&receivers, share.node_index) {
                            None => {},
                            Some(pos) => {
                                proof {
                                    lemma_first_position_bounds(receivers@, share.node_index);
                                }
                                let yes = check_vk_pairing(&transposed[pos], &vk);
                                proof {
                                    assert(row_view(transposed@[pos as int]@) =~= expected_row(
                                        recs,
                                        pos as int,
                                    ));
                                }
                                votes.push(Vote { proposal_id: pid, vote_yes: yes });
                                proof {
                                    assert(votes_view(votes@) =~= spec_votes(
                                        ds,
                                        recs,
                                        sv.take(k as int + 1),
                                        pv,
                                    ));
                                }
                            },
                        }
                    },
                }
            },
        }
        k = k + 1;
    }
    proof {
        assert(sv.take(n as int) =~= sv);
    }
    votes
}

/// Records that peer validation has completed: from here on the validator
/// is a no-op.
pub fn record_vk_validation(state: &mut State)
    ensures
        final(state).voted_vks,
        final(state).dealers@ == old(state).dealers@,
        final(state).own_address == old(state).own_address,
        final(state).recovered_vks == old(state).recovered_vks,
        final(state).coconut_keypair == old(state).coconut_keypair,
        final(state).proposal_id == old(state).proposal_id,
        final(state).executed_proposal == old(state).executed_proposal,
{
    state.voted_vks = true;
}

/// Honest consensus over a whole share list: when the decision on every
/// listed share is either a `yes` vote or no vote at all, every vote the
/// validator casts is `yes`.
pub proof fn lemma_honest_consensus(
    ds: Seq<DealerV>,
    recs: Seq<RecoveredVerificationKeys>,
    shares: Seq<ContractVKShareV>,
    ps: Seq<ProposalV>,
)
    ensures
        (forall|k: int|
            0 <= k < shares.len() ==> match share_decision(ds, recs, #[trigger] shares[k], ps) {
                Some(v) => v.1,
                None => true,
            }) ==> (forall|j: int|
            0 <= j < spec_votes(ds, recs, shares, ps).len() ==> (#[trigger] spec_votes(
                ds,
                recs,
                shares,
                ps,
            )[j]).1),
    decreases shares.len(),
{
    if shares.len() == 0 {
    } else {
        lemma_honest_consensus(ds, recs, shares.drop_last(), ps);
        if forall|k: int|
            0 <= k < shares.len() ==> match share_decision(ds, recs, #[trigger] shares[k], ps) {
                Some(v) => v.1,
                None => true,
            } {
            assert forall|k: int| 0 <= k < shares.drop_last().len() implies match share_decision(
                ds,
                recs,
                #[trigger] shares.drop_last()[k],
                ps,
            ) {
                Some(v) => v.1,
                None => true,
            } by {
                assert(shares.drop_last()[k] == shares[k]);
            }
            let votes = spec_votes(ds, recs, shares, ps);
            let rest = spec_votes(ds, recs, shares.drop_last(), ps);
            assert forall|j: int| 0 <= j < votes.len() implies (#[trigger] votes[j]).1 by {
                match share_decision(ds, recs, shares.last(), ps) {
                    Some(v) => {
                        assert(shares.last() == shares[shares.len() - 1]);
                        if j < rest.len() {
                            assert(votes[j] == rest[j]);
                        } else {
                            assert(votes[j] == v);
                        }
                    },
                    None => {
                        assert(votes[j] == rest[j]);
                    },
                }
            }
        }
    }
}

/// Malformed peer share: a considered share that does not decode draws a
/// `no` vote.
pub proof fn lemma_malformed_share_votes_no(
    ds: Seq<DealerV>,
    recs: Seq<RecoveredVerificationKeys>,
    s: ContractVKShareV,
    ps: Seq<ProposalV>,
)
    ensures
        spec_proposal_id_for(ps, s.owner) is Some && spec_vk_from_bs58(s.share) is None
            ==> share_decision(ds, recs, s, ps) == Some(
            (spec_proposal_id_for(ps, s.owner)->Some_0, false),
        ),
{
}

/// Unpaired peer share: a considered share that decodes but does not match
/// the partials recovered for its receiver row draws a `no` vote.
pub proof fn lemma_unpaired_share_votes_no(
    ds: Seq<DealerV>,
    recs: Seq<RecoveredVerificationKeys>,
    s: ContractVKShareV,
    ps: Seq<ProposalV>,
)
    ensures
        (spec_proposal_id_for(ps, s.owner) is Some && spec_vk_from_bs58(s.share) is Some
            && first_position(good_indices(ds), s.node_index) is Some && !spec_vk_pairs(
            expected_row(recs, first_position(good_indices(ds), s.node_index)->Some_0),
            spec_vk_from_bs58(s.share)->Some_0,
        )) ==> share_decision(ds, recs, s, ps) == Some(
            (spec_proposal_id_for(ps, s.owner)->Some_0, false),
        ),
{
}

/// Honest consensus: the share of a surviving participant that publishes
/// exactly the key the recovered partials prescribe for its row draws a
/// `yes` vote from every honest validator.
pub proof fn lemma_honest_share_votes_yes(
    ds: Seq<DealerV>,
    recs: Seq<RecoveredVerificationKeys>,
    s: ContractVKShareV,
    ps: Seq<ProposalV>,
    vk: VerificationKeyV,
)
    ensures
        ({
            let pos_o = first_position(good_indices(ds), s.node_index);
            (spec_proposal_id_for(ps, s.owner) is Some && pos_o is Some && recs.len() >= 1
                && vk_wf(vk) && vk.alpha == expected_row(recs, pos_o->Some_0)[recs.len() - 1]
                && vk.betas =~= expected_row(recs, pos_o->Some_0).drop_last() && bs58_decoding(
                s.share,
            ) == Some(spec_serialize_vk(vk))) ==> share_decision(ds, recs, s, ps) == Some(
                (spec_proposal_id_for(ps, s.owner)->Some_0, true),
            )
        }),
{
    let pos_o = first_position(good_indices(ds), s.node_index);
    if spec_proposal_id_for(ps, s.owner) is Some && pos_o is Some && recs.len() >= 1 && vk_wf(vk)
        && vk.alpha == expected_row(recs, pos_o->Some_0)[recs.len() - 1] && vk.betas
        =~= expected_row(recs, pos_o->Some_0).drop_last() && bs58_decoding(s.share) == Some(
        spec_serialize_vk(vk),
    ) {
        lemma_vk_share_roundtrip(vk);
        let pos = pos_o->Some_0;
        let row = expected_row(recs, pos);
        assert(spec_vk_from_bs58(s.share) == Some(vk));
        assert(vk.betas.len() == recs.len() - 1);
        assert forall|j: int| 0 <= j < vk.betas.len() implies vk.betas[j] == row[j] by {
            assert(vk.betas[j] == row.drop_last()[j]);
        }
        assert(spec_vk_pairs(row, vk));
    }
}

} // verus!
