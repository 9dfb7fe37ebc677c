use vstd::prelude::*;
use crate::dealings::{clone_dealing, map_view, Dealing, DealingsMap, MapEntryV};
use crate::errors::DkgError;
use crate::keys::{
    clone_group_element, partials_view, GroupElement, KeyPair, RecoveredVerificationKeys, Scalar,
    SecretKey, VerificationKey, GROUP_ELEMENT_BYTES,
};
use crate::state::{good_count, good_index_of, is_good, DealerV, State};
use crate::TOTAL_DEALINGS;

verus! {

/// What the cryptographic layer made of one polynomial's surviving
/// dealings: either the recovered public keys together with our combined
/// secret scalar, or the stage at which it failed.
pub enum CryptoOutcome {
    /// Recovery, decryption and combination all succeeded.
    Recovered { recovered: RecoveredVerificationKeys, scalar: Scalar },
    /// Recovering the public verification keys failed.
    RecoveryFailure,
    /// Decrypting our share from some surviving dealing failed.
    DecryptionFailure,
    /// Combining the decrypted shares failed.
    CombinationFailure,
}

/// The error a failed outcome propagates.
pub open spec fn outcome_error(c: CryptoOutcome) -> Option<DkgError> {
    match c {
        CryptoOutcome::Recovered { .. } => None,
        CryptoOutcome::RecoveryFailure => Some(DkgError::VerificationKeyRecoveryFailure),
        CryptoOutcome::DecryptionFailure => Some(DkgError::ShareDecryptionFailure),
        CryptoOutcome::CombinationFailure => Some(DkgError::ShareCombinationFailure),
    }
}

/// The recovered keys of a successful outcome.
pub open spec fn outcome_recovered(c: CryptoOutcome) -> RecoveredVerificationKeys {
    match c {
        CryptoOutcome::Recovered { recovered, .. } => recovered,
        _ => arbitrary(),
    }
}

/// The combined scalar of a successful outcome.
pub open spec fn outcome_scalar(c: CryptoOutcome) -> Scalar {
    match c {
        CryptoOutcome::Recovered { scalar, .. } => scalar,
        _ => arbitrary(),
    }
}

/// The keypair the deriver assembles from successful outcomes for the
/// participant at row `pos` of the recovered partials: the last
/// polynomial's scalar is the top-level secret `x`, the others the `y`
/// scalars in order, and the verification key is the participant's row of
/// the recovered partials, `alpha` from the last polynomial.
pub open spec fn keypair_from_outcomes(kp: KeyPair, pos: int, cs: Seq<CryptoOutcome>) -> bool {
    &&& kp.secret_key.x == outcome_scalar(cs[TOTAL_DEALINGS - 1])
    &&& kp.secret_key.ys@.len() == TOTAL_DEALINGS - 1
    &&& (forall|q: int|
        0 <= q < TOTAL_DEALINGS - 1 ==> kp.secret_key.ys@[q] == outcome_scalar(#[trigger] cs[q]))
    &&& kp.verification_key@.alpha == partials_view(outcome_recovered(cs[TOTAL_DEALINGS - 1]))[pos]
    &&& kp.verification_key@.betas.len() == TOTAL_DEALINGS - 1
    &&& (forall|q: int|
        0 <= q < TOTAL_DEALINGS - 1 ==> kp.verification_key@.betas[q] == partials_view(
            outcome_recovered(#[trigger] cs[q]),
        )[pos])
}

/// Above the threshold the derived verification key is well formed
/// whenever the recovered partials are serialized group elements; by the
/// share round-trip law of the codec, the published share then decodes
/// back to exactly the derived key.
pub proof fn lemma_derived_vk_wf(kp: KeyPair, pos: int, cs: Seq<CryptoOutcome>)
    requires
        keypair_from_outcomes(kp, pos, cs),
        cs.len() == TOTAL_DEALINGS,
        forall|p: int|
            0 <= p < cs.len() ==> partials_view(outcome_recovered(#[trigger] cs[p]))[pos].len()
                == GROUP_ELEMENT_BYTES,
    ensures
        crate::keys::vk_wf(kp.verification_key@),
{
    assert(kp.verification_key@.alpha.len() == GROUP_ELEMENT_BYTES);
    assert forall|i: int| 0 <= i < kp.verification_key@.betas.len() implies (
    #[trigger] kp.verification_key@.betas[i]).len() == GROUP_ELEMENT_BYTES by {
        assert(kp.verification_key@.betas[i] == partials_view(outcome_recovered(cs[i]))[pos]);
    }
}

/// The error of the first failed outcome, in polynomial order.
pub open spec fn first_failure(cs: Seq<CryptoOutcome>) -> Option<DkgError>
    decreases cs.len(),
{
    if cs.len() == 0 {
        None
    } else {
        match outcome_error(cs[0]) {
            Some(e) => Some(e),
            None => first_failure(cs.drop_first()),
        }
    }
}

proof fn lemma_first_failure_at(cs: Seq<CryptoOutcome>, p: int)
    requires
        0 <= p < cs.len(),
        forall|q: int| 0 <= q < p ==> outcome_error(#[trigger] cs[q]) is None,
        outcome_error(cs[p]) is Some,
    ensures
        first_failure(cs) == outcome_error(cs[p]),
    decreases p,
{
    if p == 0 {
    } else {
        assert(outcome_error(cs[0]) is None);
        assert(cs.drop_first()[p - 1] == cs[p]);
        assert forall|q: int| 0 <= q < p - 1 implies outcome_error(
            #[trigger] cs.drop_first()[q],
        ) is None by {
            assert(cs.drop_first()[q] == cs[q + 1]);
        }
        lemma_first_failure_at(cs.drop_first(), p - 1);
    }
}

proof fn lemma_no_failure(cs: Seq<CryptoOutcome>)
    requires
        forall|q: int| 0 <= q < cs.len() ==> outcome_error(#[trigger] cs[q]) is None,
    ensures
        first_failure(cs) is None,
    decreases cs.len(),
{
    if cs.len() == 0 {
    } else {
        assert forall|q: int| 0 <= q < cs.len() - 1 implies outcome_error(
            #[trigger] cs.drop_first()[q],
        ) is None by {
            assert(cs.drop_first()[q] == cs[q + 1]);
        }
        lemma_no_failure(cs.drop_first());
    }
}

/// Position of the first surviving dealer with the given address among the
/// surviving dealers: the row of that dealer in the recovered partials.
pub open spec fn good_position_of(ds: Seq<DealerV>, a: Seq<char>) -> Option<int>
    decreases ds.len(),
{
    if ds.len() == 0 {
        None
    } else {
        match good_position_of(ds.drop_last(), a) {
            Some(p) => Some(p),
            None => if is_good(ds.last()) && ds.last().address == a {
                Some(good_count(ds.drop_last()))
            } else {
                None
            },
        }
    }
}

/// A surviving dealer's position lies within the survivor count.
pub proof fn lemma_good_position_bounds(ds: Seq<DealerV>, a: Seq<char>)
    ensures
        match good_position_of(ds, a) {
            Some(p) => 0 <= p < good_count(ds),
            None => true,
        },
        good_count(ds) >= 0,
    decreases ds.len(),
{
    if ds.len() == 0 {
    } else {
        lemma_good_position_bounds(ds.drop_last(), a);
    }
}

/// Finds our own position among the surviving dealers.
fn own_good_position(state: &State) -> (r: Option<usize>)
    ensures
        match good_position_of(state.dealers_v(), state.own_address@) {
            Some(p) => r == Some(p as usize),
            None => r is None,
        },
{
    let ghost ds = state.dealers_v();
    let n = state.dealers.len();
    let mut found: Option<usize> = None;
    let mut good_seen: usize = 0;
    let mut i: usize = 0;
    while i < n
        invariant
            n == state.dealers@.len(),
            i <= n,
            ds == state.dealers_v(),
            good_seen == good_count(ds.take(i as int)),
            good_seen <= i,
            match good_position_of(ds.take(i as int), state.own_address@) {
                Some(p) => found == Some(p as usize) && p <= i,
                None => found is None,
            },
        decreases n - i,
    {
        proof {
            assert(ds.take(i as int + 1).drop_last() =~= ds.take(i as int));
            assert(ds.take(i as int + 1).last() == ds[i as int]);
            assert(ds[i as int] == state.dealers@[i as int]@);
            lemma_good_position_bounds(ds.take(i as int), state.own_address@);
        }
        let good = state.dealers[i].complaint.is_none();
        if found.is_none() && good && state.dealers[i].address.eq(&state.own_address) {
            found = Some(good_seen);
        }
        if good {
            good_seen = good_seen + 1;
        }
        i = i + 1;
    }
    proof {
        assert(ds.take(n as int) =~= ds);
    }
    found
}

/// Whether an address belongs to a surviving dealer.
fn is_surviving(state: &State, addr: &String) -> (r: bool)
    ensures
        r == (good_index_of(state.dealers_v(), addr@) is Some),
{
    let ghost ds = state.dealers_v();
    proof {
        assert(ds.skip(0) =~= ds);
    }
    let n = state.dealers.len();
    let mut i: usize = 0;
    while i < n
        invariant
            n == state.dealers@.len(),
            i <= n,
            ds == state.dealers_v(),
            good_index_of(ds, addr@) == good_index_of(ds.skip(i as int), addr@),
        decreases n - i,
    {
        proof {
            assert(ds.skip(i as int)[0] == ds[i as int]);
            assert(ds.skip(i as int).drop_first() =~= ds.skip(i as int + 1));
        }
        if dealer_good_and_matches(state, i, addr) {
            return true;
        }
        i = i + 1;
    }
    proof {
        assert(ds.skip(n as int) =~= Seq::<DealerV>::empty());
    }
    false
}

/// Reads one dealer entry: surviving and carrying the given address.
fn dealer_good_and_matches(state: &State, i: usize, addr: &String) -> (r: bool)
    requires
        i < state.dealers@.len(),
    ensures
        r == (is_good(state.dealers_v()[i as int]) && state.dealers_v()[i as int].address
            == addr@),
{
    proof {
        assert(state.dealers_v()[i as int] == state.dealers@[i as int]@);
    }
    state.dealers[i].complaint.is_none() && state.dealers[i].address.eq(addr)
}

/// The dealings of one map whose dealer is still surviving, in map order:
/// what the cryptographic layer receives for one polynomial.
pub open spec fn spec_surviving_dealings(ds: Seq<DealerV>, entries: Seq<MapEntryV>) -> Seq<
    Seq<u8>,
>
    decreases entries.len(),
{
    if entries.len() == 0 {
        Seq::empty()
    } else {
        let rest = spec_surviving_dealings(ds, entries.drop_last());
        if good_index_of(ds, entries.last().address) is Some {
            rest.push(entries.last().dealing)
        } else {
            rest
        }
    }
}

/// Selects from one dealings map the dealings of the dealers that are still
/// surviving, in map order: the inputs recovery, decryption and combination
/// work on for one polynomial.
pub fn surviving_dealings(state: &State, map: &DealingsMap) -> (r: Vec<Dealing>)
    ensures
        r@.map_values(|d: Dealing| d@) == spec_surviving_dealings(
            state.dealers_v(),
            map_view(*map),
        ),
{
    let ghost ev = map_view(*map);
    let mut out: Vec<Dealing> = Vec::new();
    let n = map.entries.len();
    let mut k: usize = 0;
    while k < n
        invariant
            n == map.entries@.len(),
            k <= n,
            ev == map_view(*map),
            out@.map_values(|d: Dealing| d@) == spec_surviving_dealings(
                state.dealers_v(),
                ev.take(k as int),
            ),
        decreases n - k,
    {
        proof {
            assert(ev.take(k as int + 1).drop_last() =~= ev.take(k as int));
            assert(ev.take(k as int + 1).last() == ev[k as int]);
            assert(ev[k as int] == map.entries@[k as int]@);
        }
        if is_surviving(state, &map.entries[k].address) {
            out.push(clone_dealing(&map.entries[k].dealing));
            proof {
                assert(out@.map_values(|d: Dealing| d@) =~= spec_surviving_dealings(
                    state.dealers_v(),
                    ev.take(k as int + 1),
                ));
            }
        }
        k = k + 1;
    }
    proof {
        assert(ev.take(n as int) =~= ev);
    }
    out
}

/// Combines the per-polynomial outcomes of the cryptographic layer into the
/// local threshold keypair, and records the recovered public keys in state.
///
/// The last polynomial's scalar becomes the top-level secret `x`; the
/// others become the per-attribute `y` scalars, in polynomial order. The
/// verification key is read off the recovered partials at our own row, so
/// it is exactly what every peer will reconstruct for us. Fails when our
/// own entry is no longer surviving, when fewer dealers survive than the
/// threshold requires, or with the first failure of the cryptographic
/// layer; on failure the state is untouched.
#[verifier::loop_isolation(false)]
pub fn derive_partial_keypair(
    state: &mut State,
    threshold: u64,
    dealings_maps: &Vec<DealingsMap>,
    crypto: Vec<CryptoOutcome>,
) -> (r: Result<KeyPair, DkgError>)
    requires
        dealings_maps@.len() == TOTAL_DEALINGS,
        crypto@.len() == TOTAL_DEALINGS,
        forall|p: int|
            0 <= p < crypto@.len() && outcome_error(#[trigger] crypto@[p]) is None
                ==> partials_view(outcome_recovered(crypto@[p])).len() == good_count(
                old(state).dealers_v(),
            ),
        forall|p: int|
            0 <= p < crypto@.len() && outcome_error(#[trigger] crypto@[p]) is None
                ==> outcome_recovered(crypto@[p]).public_coefficients@.len() == threshold,
    ensures
        ({
            let ds = old(state).dealers_v();
            let pos_o = good_position_of(ds, old(state).own_address@);
            let cs = crypto@;
            &&& (pos_o is None ==> r == Err::<KeyPair, DkgError>(DkgError::ReceiverIndexMissing))
            &&& (pos_o is Some && good_count(ds) < threshold as int ==> r == Err::<
                KeyPair,
                DkgError,
            >(DkgError::ThresholdUnavailable))
            &&& (pos_o is Some && good_count(ds) >= threshold as int && first_failure(cs) is Some
                ==> r == Err::<KeyPair, DkgError>(first_failure(cs)->Some_0))
            &&& (pos_o is Some && good_count(ds) >= threshold as int && first_failure(cs) is None
                ==> r is Ok)
            &&& (r is Err ==> *final(state) == *old(state))
            &&& (r is Ok ==> {
                let kp = r->Ok_0;
                let pos = pos_o->Some_0;
                &&& final(state).recovered_vks@ == cs.map_values(
                    |c: CryptoOutcome| outcome_recovered(c),
                )
                &&& final(state).dealers@ == old(state).dealers@
                &&& final(state).own_address == old(state).own_address
                &&& final(state).coconut_keypair == old(state).coconut_keypair
                &&& final(state).proposal_id == old(state).proposal_id
                &&& final(state).voted_vks == old(state).voted_vks
                &&& final(state).executed_proposal == old(state).executed_proposal
                &&& keypair_from_outcomes(kp, pos, cs)
            })
        }),
{
    let ghost ds = old(state).dealers_v();
    let ghost cs = crypto@;
    let pos = match own_good_position(state) {
        Some(p) => p,
        None => {
            return Err(DkgError::ReceiverIndexMissing);
        },
    };
    proof {
        lemma_good_position_bounds(ds, old(state).own_address@);
    }
    let survivors = state.good_dealer_count();
    if (survivors as u64) < threshold {
        return Err(DkgError::ThresholdUnavailable);
    }
    let mut crypto = crypto;
    let mut recovered: Vec<RecoveredVerificationKeys> = Vec::new();
    let mut scalars: Vec<Scalar> = Vec::new();
    let mut p: usize = 0;
    while p < TOTAL_DEALINGS
        invariant
            cs.len() == TOTAL_DEALINGS,
            ds == old(state).dealers_v(),
            forall|t: int|
                0 <= t < cs.len() && outcome_error(#[trigger] cs[t]) is None ==> partials_view(
                    outcome_recovered(cs[t]),
                ).len() == good_count(ds),
            good_position_of(ds, old(state).own_address@) == Some(pos as int),
            pos < good_count(ds),
            good_count(ds) >= threshold as int,
            p <= TOTAL_DEALINGS,
            crypto@ == cs.skip(p as int),
            recovered@.len() == p,
            scalars@.len() == p,
            forall|q: int| 0 <= q < p ==> outcome_error(#[trigger] cs[q]) is None,
            forall|q: int| 0 <= q < p ==> recovered@[q] == outcome_recovered(#[trigger] cs[q]),
            forall|q: int| 0 <= q < p ==> scalars@[q] == outcome_scalar(#[trigger] cs[q]),
            *state == *old(state),
        decreases TOTAL_DEALINGS - p,
    {
        proof {
            assert(cs.skip(p as int)[0] == cs[p as int]);
            assert(cs.skip(p as int).drop_first() =~= cs.skip(p as int + 1));
        }
        let c = crypto.remove(0);
        proof {
            assert(crypto@ =~= cs.skip(p as int + 1));
        }
        match c {
            CryptoOutcome::Recovered { recovered: rec, scalar } => {
                recovered.push(rec);
                scalars.push(scalar);
            },
            CryptoOutcome::RecoveryFailure => {
                proof {
                    lemma_first_failure_at(cs, p as int);
                }
                return Err(DkgError::VerificationKeyRecoveryFailure);
            },
            CryptoOutcome::DecryptionFailure => {
                proof {
                    lemma_first_failure_at(cs, p as int);
                }
                return Err(DkgError::ShareDecryptionFailure);
            },
            CryptoOutcome::CombinationFailure => {
                proof {
                    lemma_first_failure_at(cs, p as int);
                }
                return Err(DkgError::ShareCombinationFailure);
            },
        }
        p = p + 1;
    }
    proof {
        lemma_no_failure(cs);
    }

    // The verification key is read off our own row of the recovered
    // partials: alpha from the last, top-level polynomial, one beta per
    // attribute polynomial.
    proof {
        assert(outcome_error(cs[TOTAL_DEALINGS - 1]) is None);
        assert(partials_view(outcome_recovered(cs[TOTAL_DEALINGS - 1])).len() == good_count(ds));
        assert(recovered@[TOTAL_DEALINGS - 1] == outcome_recovered(cs[TOTAL_DEALINGS - 1]));
        assert(partials_view(recovered@[TOTAL_DEALINGS - 1]).len() == recovered@[TOTAL_DEALINGS
            - 1].recovered_partials@.len());
    }
    let alpha = clone_group_element(&recovered[TOTAL_DEALINGS - 1].recovered_partials[pos]);
    let mut betas: Vec<GroupElement> = Vec::new();
    let mut q: usize = 0;
    while q < TOTAL_DEALINGS - 1
        invariant
            cs.len() == TOTAL_DEALINGS,
            recovered@.len() == TOTAL_DEALINGS,
            forall|t: int| 0 <= t < TOTAL_DEALINGS ==> outcome_error(#[trigger] cs[t]) is None,
            forall|t: int|
                0 <= t < TOTAL_DEALINGS ==> recovered@[t] == outcome_recovered(#[trigger] cs[t]),
            forall|t: int|
                0 <= t < cs.len() && outcome_error(#[trigger] cs[t]) is None ==> partials_view(
                    outcome_recovered(cs[t]),
                ).len() == good_count(ds),
            pos < good_count(ds),
            ds == old(state).dealers_v(),
            q <= TOTAL_DEALINGS - 1,
            betas@.len() == q,
            forall|t: int|
                0 <= t < q ==> betas@[t]@ == partials_view(
                    outcome_recovered(#[trigger] cs[t]),
                )[pos as int],
        decreases TOTAL_DEALINGS - 1 - q,
    {
        proof {
            assert(outcome_error(cs[q as int]) is None);
            assert(partials_view(outcome_recovered(cs[q as int])).len() == good_count(ds));
            assert(recovered@[q as int] == outcome_recovered(cs[q as int]));
            assert(partials_view(recovered@[q as int]).len() == recovered@[
                q as int
            ].recovered_partials@.len());
        }
        betas.push(clone_group_element(&recovered[q].recovered_partials[pos]));
        q = q + 1;
    }
    proof {
        assert(partials_view(recovered@[TOTAL_DEALINGS - 1]) == recovered@[
            TOTAL_DEALINGS - 1
        ].recovered_partials@.map_values(|g: GroupElement| g@));
    }
    let verification_key = VerificationKey { alpha, betas };

    let x = match scalars.pop() {
        Some(x) => x,
        None => {
            proof {
                assert(false);
            }
            return Err(DkgError::ShareCombinationFailure);
        },
    };
    let secret_key = SecretKey { x, ys: scalars };
    state.recovered_vks = recovered;
    proof {
        assert(state.recovered_vks@ =~= cs.map_values(|c: CryptoOutcome| outcome_recovered(c)));
    }
    Ok(KeyPair { secret_key, verification_key })
}

} // verus!
