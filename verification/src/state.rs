use vstd::prelude::*;
use crate::errors::{ComplaintReason, DkgError};
use crate::keys::{KeyPair, RecoveredVerificationKeys};

verus! {

/// One registered dealer of the epoch: its node index (the evaluation point
/// of every secret-sharing polynomial), its account address, and the
/// complaint currently recorded against it, if any.
#[derive(Clone)]
pub struct DealerEntry {
    pub index: u64,
    pub address: String,
    pub complaint: Option<ComplaintReason>,
}

/// Ghost value of a dealer entry.
#[verifier::ext_equal]
pub ghost struct DealerV {
    pub index: u64,
    pub address: Seq<char>,
    pub complaint: Option<ComplaintReason>,
}

impl View for DealerEntry {
    type V = DealerV;

    open spec fn view(&self) -> DealerV {
        DealerV { index: self.index, address: self.address@, complaint: self.complaint }
    }
}

/// Ghost value of a dealer list.
pub open spec fn dealers_view(ds: Seq<DealerEntry>) -> Seq<DealerV> {
    ds.map_values(|e: DealerEntry| e@)
}

/// The dealer list is kept sorted by strictly increasing node index, node
/// indices are positive, and addresses are pairwise distinct: the
/// address/index bijection established by the earlier phases of the epoch.
pub open spec fn dealers_wf(ds: Seq<DealerV>) -> bool {
    &&& forall|i: int, j: int| 0 <= i < j < ds.len() ==> ds[i].index < ds[j].index
    &&& forall|i: int, j: int| 0 <= i < j < ds.len() ==> ds[i].address != ds[j].address
    &&& forall|i: int| 0 <= i < ds.len() ==> (#[trigger] ds[i]).index >= 1
}

/// Whether a dealer is still surviving: no complaint recorded.
pub open spec fn is_good(e: DealerV) -> bool {
    e.complaint is None
}

/// Number of surviving dealers.
pub open spec fn good_count(ds: Seq<DealerV>) -> int
    decreases ds.len(),
{
    if ds.len() == 0 {
        0
    } else {
        good_count(ds.drop_last()) + if is_good(ds.last()) {
            1int
        } else {
            0int
        }
    }
}

/// The node indices of the surviving dealers, in ascending order.
pub open spec fn good_indices(ds: Seq<DealerV>) -> Seq<u64>
    decreases ds.len(),
{
    if ds.len() == 0 {
        Seq::empty()
    } else {
        let rest = good_indices(ds.drop_last());
        if is_good(ds.last()) {
            rest.push(ds.last().index)
        } else {
            rest
        }
    }
}

/// The node index registered for an address, available while that dealer is
/// surviving.
pub open spec fn good_index_of(ds: Seq<DealerV>, a: Seq<char>) -> Option<u64>
    decreases ds.len(),
{
    if ds.len() == 0 {
        None
    } else if is_good(ds[0]) && ds[0].address == a {
        Some(ds[0].index)
    } else {
        good_index_of(ds.drop_first(), a)
    }
}

/// Marks every dealer with the given address (at most one, by
/// well-formedness) with the given complaint.
pub open spec fn mark_one(e: DealerV, a: Seq<char>, r: ComplaintReason) -> DealerV {
    if e.address == a {
        DealerV { complaint: Some(r), ..e }
    } else {
        e
    }
}

/// Pointwise effect of recording one complaint.
pub open spec fn mark_bad_spec(ds: Seq<DealerV>, a: Seq<char>, r: ComplaintReason) -> Seq<
    DealerV,
> {
    ds.map_values(|e: DealerV| mark_one(e, a, r))
}

/// Per-participant, per-epoch state of the verification-key pipeline.
#[derive(Clone)]
pub struct State {
    /// Our own account address.
    pub own_address: String,
    /// The dealers registered for the epoch, with their standing.
    pub dealers: Vec<DealerEntry>,
    /// Per-polynomial recovered public keys, set by the share deriver.
    pub recovered_vks: Vec<RecoveredVerificationKeys>,
    /// The local threshold keypair, set once submission has succeeded.
    pub coconut_keypair: Option<KeyPair>,
    /// The on-chain id of our verification-key-share proposal.
    pub proposal_id: Option<u64>,
    /// Idempotency flag of the peer validator.
    pub voted_vks: bool,
    /// Idempotency flag of the finalizer.
    pub executed_proposal: bool,
}

impl State {
    /// Ghost value of the dealer list.
    pub open spec fn dealers_v(self) -> Seq<DealerV> {
        dealers_view(self.dealers@)
    }

    pub open spec fn wf(self) -> bool {
        dealers_wf(self.dealers_v())
    }

    /// Creates the state at epoch start, before any stage has run.
    pub fn new(own_address: String, dealers: Vec<DealerEntry>) -> (r: State)
        requires
            dealers_wf(dealers_view(dealers@)),
        ensures
            r.wf(),
            r.own_address@ == own_address@,
            r.dealers_v() == dealers_view(dealers@),
            r.recovered_vks@.len() == 0,
            r.coconut_keypair is None,
            r.proposal_id is None,
            !r.voted_vks,
            !r.executed_proposal,
    {
        State {
            own_address,
            dealers,
            recovered_vks: Vec::new(),
            coconut_keypair: None,
            proposal_id: None,
            voted_vks: false,
            executed_proposal: false,
        }
    }

    /// All registered dealers with their current standing.
    pub fn all_dealers(&self) -> (r: &Vec<DealerEntry>)
        ensures
            r@ == self.dealers@,
    {
        &self.dealers
    }

    /// True once the local threshold keypair has been recorded.
    pub fn coconut_keypair_is_some(&self) -> (r: bool)
        ensures
            r == (self.coconut_keypair is Some),
    {
        self.coconut_keypair.is_some()
    }

    /// The recorded proposal id, or the error finalization reports when it
    /// is asked for before submission has recorded one.
    pub fn proposal_id_value(&self) -> (r: Result<u64, DkgError>)
        ensures
            match self.proposal_id {
                Some(id) => r == Ok::<u64, DkgError>(id),
                None => r == Err::<u64, DkgError>(DkgError::ProposalIdNotSet),
            },
    {
        match self.proposal_id {
            Some(id) => Ok(id),
            None => Err(DkgError::ProposalIdNotSet),
        }
    }

    /// Our node index: the index registered for our own address, available
    /// while we are surviving.
    pub fn receiver_index_value(&self) -> (r: Result<u64, DkgError>)
        ensures
            match good_index_of(self.dealers_v(), self.own_address@) {
                Some(ix) => r == Ok::<u64, DkgError>(ix),
                None => r == Err::<u64, DkgError>(DkgError::ReceiverIndexMissing),
            },
    {
        let ghost ds = self.dealers_v();
        proof {
            assert(ds.skip(0) =~= ds);
        }
        let n = self.dealers.len();
        let mut i: usize = 0;
        while i < n
            invariant
                n == self.dealers@.len(),
                i <= n,
                ds == self.dealers_v(),
                good_index_of(ds, self.own_address@) == good_index_of(
                    ds.skip(i as int),
                    self.own_address@,
                ),
            decreases n - i,
        {
            proof {
                assert(ds.skip(i as int)[0] == ds[i as int]);
                assert(ds.skip(i as int).drop_first() =~= ds.skip(i + 1));
            }
            if self.dealers[i].complaint.is_none() && self.dealers[i].address.eq(
                &self.own_address,
            ) {
                return Ok(self.dealers[i].index);
            }
            i = i + 1;
        }
        proof {
            assert(ds.skip(n as int) =~= Seq::<DealerV>::empty());
        }
        Err(DkgError::ReceiverIndexMissing)
    }

    /// The node indices of the surviving dealers, ascending: the receiver
    /// set used by recovery, combination and peer validation.
    pub fn current_receivers(&self) -> (r: Vec<u64>)
        ensures
            r@ == good_indices(self.dealers_v()),
    {
        let ghost ds = self.dealers_v();
        let n = self.dealers.len();
        let mut out: Vec<u64> = Vec::new();
        let mut i: usize = 0;
        while i < n
            invariant
                n == self.dealers@.len(),
                i <= n,
                ds == self.dealers_v(),
                out@ == good_indices(ds.take(i as int)),
            decreases n - i,
        {
            proof {
                assert(ds.take(i + 1).drop_last() =~= ds.take(i as int));
                assert(ds.take(i + 1).last() == ds[i as int]);
            }
            if self.dealers[i].complaint.is_none() {
                out.push(self.dealers[i].index);
            }
            i = i + 1;
        }
        proof {
            assert(ds.take(n as int) =~= ds);
        }
        out
    }

    /// Number of surviving dealers.
    pub fn good_dealer_count(&self) -> (r: usize)
        ensures
            r == good_count(self.dealers_v()),
    {
        let ghost ds = self.dealers_v();
        let n = self.dealers.len();
        let mut count: usize = 0;
        let mut i: usize = 0;
        while i < n
            invariant
                n == self.dealers@.len(),
                i <= n,
                ds == self.dealers_v(),
                count == good_count(ds.take(i as int)),
                count <= i,
            decreases n - i,
        {
            proof {
                assert(ds.take(i + 1).drop_last() =~= ds.take(i as int));
                assert(ds.take(i + 1).last() == ds[i as int]);
            }
            if self.dealers[i].complaint.is_none() {
                count = count + 1;
            }
            i = i + 1;
        }
        proof {
            assert(ds.take(n as int) =~= ds);
        }
        count
    }

    /// Records a complaint against a dealer. A complaint overwrites an
    /// earlier one but never clears: a dealer marked bad stays bad.
    pub fn mark_bad_dealer(&mut self, dealer: &String, reason: ComplaintReason)
        ensures
            final(self).dealers_v() == mark_bad_spec(old(self).dealers_v(), dealer@, reason),
            final(self).dealers@.len() == old(self).dealers@.len(),
            final(self).own_address == old(self).own_address,
            final(self).recovered_vks == old(self).recovered_vks,
            final(self).coconut_keypair == old(self).coconut_keypair,
            final(self).proposal_id == old(self).proposal_id,
            final(self).voted_vks == old(self).voted_vks,
            final(self).executed_proposal == old(self).executed_proposal,
    {
        let ghost ds0 = old(self).dealers_v();
        let n = self.dealers.len();
        let mut i: usize = 0;
        while i < n
            invariant
                n == self.dealers@.len(),
                i <= n,
                self.dealers@.len() == ds0.len(),
                forall|j: int|
                    0 <= j < i ==> #[trigger] self.dealers@[j]@ == mark_one(ds0[j], dealer@, reason),
                forall|j: int| i <= j < n ==> #[trigger] self.dealers@[j]@ == ds0[j],
                self.own_address == old(self).own_address,
                self.recovered_vks == old(self).recovered_vks,
                self.coconut_keypair == old(self).coconut_keypair,
                self.proposal_id == old(self).proposal_id,
                self.voted_vks == old(self).voted_vks,
                self.executed_proposal == old(self).executed_proposal,
            decreases n - i,
        {
            proof {
                assert(self.dealers@[i as int]@ == ds0[i as int]);
            }
            let same = self.dealers[i].address.eq(dealer);
            if same {
                self.dealers[i].complaint = Some(reason);
            }
            proof {
                assert(self.dealers@[i as int]@ =~= mark_one(ds0[i as int], dealer@, reason));
            }
            i = i + 1;
        }
        proof {
            assert(final(self).dealers_v() =~= mark_bad_spec(ds0, dealer@, reason));
        }
    }
}

} // verus!
