use vstd::prelude::*;
use crate::dealings::{
    clone_dealing, map_view, poly_view, polys_view, AssessmentV, ContractDealing,
    ContractDealingV, Dealing, DealingAssessment, DealingsMap, MapEntry, MapEntryV,
};
use crate::errors::ComplaintReason;
use crate::state::{dealers_view, is_good, DealerEntry, DealerV, State};
use crate::TOTAL_DEALINGS;

verus! {

/// The complaint a bad assessment earns.
pub open spec fn bad_reason(a: AssessmentV) -> Option<ComplaintReason> {
    match a {
        AssessmentV::Malformed => Some(ComplaintReason::MalformedDealing),
        AssessmentV::VerificationFailed => Some(ComplaintReason::DealingVerificationError),
        AssessmentV::Verified(_) => None,
    }
}

/// The complaint of the last bad posting by `a` among one polynomial's
/// postings: later postings overwrite earlier complaints.
pub open spec fn last_bad_in(items: Seq<ContractDealingV>, a: Seq<char>) -> Option<
    ComplaintReason,
>
    decreases items.len(),
{
    if items.len() == 0 {
        None
    } else if items.last().dealer == a && bad_reason(items.last().assessment) is Some {
        bad_reason(items.last().assessment)
    } else {
        last_bad_in(items.drop_last(), a)
    }
}

/// The complaint of the last bad posting by `a` across all polynomials, in
/// polynomial order.
pub open spec fn last_bad(polys: Seq<Seq<ContractDealingV>>, a: Seq<char>) -> Option<
    ComplaintReason,
>
    decreases polys.len(),
{
    if polys.len() == 0 {
        None
    } else {
        match last_bad_in(polys.last(), a) {
            Some(r) => Some(r),
            None => last_bad(polys.drop_last(), a),
        }
    }
}

/// The payload of the last verified posting by `a` among one polynomial's
/// postings: for duplicate postings the last one wins.
pub open spec fn last_verified_in(items: Seq<ContractDealingV>, a: Seq<char>) -> Option<Seq<u8>>
    decreases items.len(),
{
    if items.len() == 0 {
        None
    } else if items.last().dealer == a && items.last().assessment is Verified {
        Some(items.last().assessment->Verified_0)
    } else {
        last_verified_in(items.drop_last(), a)
    }
}

/// Whether `a` lacks a verified posting in at least one polynomial.
pub open spec fn missing_somewhere(polys: Seq<Seq<ContractDealingV>>, a: Seq<char>) -> bool {
    exists|p: int| 0 <= p < polys.len() && last_verified_in(polys[p], a) is None
}

/// The complaint standing against a dealer once one filter invocation over
/// `polys` has run. A dealer surviving at entry that lacks a verified
/// posting anywhere ends as `MissingDealing`, whatever more specific reason
/// the posting pass recorded: the completeness pass runs last. Every other
/// dealer keeps the complaint of its last bad posting, or its old standing
/// when it posted nothing bad. A dealer already bad at entry is never
/// cleared; at most its reason is made more specific.
pub open spec fn complaint_after_filter(
    e: DealerV,
    polys: Seq<Seq<ContractDealingV>>,
) -> Option<ComplaintReason> {
    if e.complaint is None && missing_somewhere(polys, e.address) {
        Some(ComplaintReason::MissingDealing)
    } else if last_bad(polys, e.address) is Some {
        last_bad(polys, e.address)
    } else {
        e.complaint
    }
}

/// One dealer entry after one filter invocation: only the complaint moves.
pub open spec fn entry_after_filter(e: DealerV, polys: Seq<Seq<ContractDealingV>>) -> DealerV {
    DealerV { complaint: complaint_after_filter(e, polys), ..e }
}

/// The whole dealer list after one filter invocation.
pub open spec fn dealers_after_filter(
    ds: Seq<DealerV>,
    polys: Seq<Seq<ContractDealingV>>,
) -> Seq<DealerV> {
    ds.map_values(|e: DealerV| entry_after_filter(e, polys))
}

/// The dealings map of one polynomial: for each dealer surviving at entry,
/// in ascending index order, its last verified posting, where there is one.
pub open spec fn surviving_map(ds: Seq<DealerV>, items: Seq<ContractDealingV>) -> Seq<MapEntryV>
    decreases ds.len(),
{
    if ds.len() == 0 {
        Seq::empty()
    } else {
        let rest = surviving_map(ds.drop_last(), items);
        let e = ds.last();
        if e.complaint is None && last_verified_in(items, e.address) is Some {
            rest.push(
                MapEntryV {
                    index: e.index,
                    address: e.address,
                    dealing: last_verified_in(items, e.address)->Some_0,
                },
            )
        } else {
            rest
        }
    }
}

/// A dealer entry after the posting pass alone, before the completeness
/// pass: the complaint of its last bad posting, or its old standing.
pub open spec fn after_marks(e: DealerV, polys_done: Seq<Seq<ContractDealingV>>) -> DealerV {
    DealerV {
        complaint: match last_bad(polys_done, e.address) {
            Some(r) => Some(r),
            None => e.complaint,
        },
        ..e
    }
}

/// A dealer entry in the middle of the posting pass: all of `polys_done`
/// and the prefix `items_done` of the current polynomial processed.
pub open spec fn during_marks(
    e: DealerV,
    polys_done: Seq<Seq<ContractDealingV>>,
    items_done: Seq<ContractDealingV>,
) -> DealerV {
    DealerV {
        complaint: match last_bad_in(items_done, e.address) {
            Some(r) => Some(r),
            None => match last_bad(polys_done, e.address) {
                Some(r) => Some(r),
                None => e.complaint,
            },
        },
        ..e
    }
}

/// Scans one polynomial's postings for the last verified dealing posted by
/// the given address.
fn find_last_verified(items: &Vec<ContractDealing>, addr: &String) -> (r: Option<Dealing>)
    ensures
        match r {
            Some(d) => last_verified_in(poly_view(items@), addr@) == Some(d@),
            None => last_verified_in(poly_view(items@), addr@) is None,
        },
{
    let ghost iv = poly_view(items@);
    let mut found: Option<Dealing> = None;
    let mut j: usize = 0;
    while j < items.len()
        invariant
            iv == poly_view(items@),
            j <= items@.len(),
            match found {
                Some(d) => last_verified_in(iv.take(j as int), addr@) == Some(d@),
                None => last_verified_in(iv.take(j as int), addr@) is None,
            },
        decreases items@.len() - j,
    {
        proof {
            assert(iv.take(j as int + 1).drop_last() =~= iv.take(j as int));
            assert(iv.take(j as int + 1).last() == iv[j as int]);
            assert(iv[j as int] == items@[j as int]@);
        }
        let item = &items[j];
        let same = item.dealer.eq(addr);
        if same {
            match &item.assessment {
                DealingAssessment::Verified(d) => {
                    found = Some(clone_dealing(d));
                },
                _ => {},
            }
        }
        j = j + 1;
    }
    proof {
        assert(iv.take(items@.len() as int) =~= iv);
    }
    found
}

/// Filters the dealers by the dealings they posted: builds, for each
/// polynomial, the map of surviving dealings keyed by dealer node index,
/// and records complaints. The postings are processed in posting order, a
/// later posting by the same dealer overwriting an earlier one; a
/// completeness pass then marks `MissingDealing` against every dealer that
/// was surviving at entry and lacks a verified posting in some polynomial.
/// The outcome is a function of the entry state and the postings alone, so
/// every honest participant converges on the same surviving set.
pub fn deterministic_filter_dealers(
    state: &mut State,
    dealings: &Vec<Vec<ContractDealing>>,
) -> (r: Vec<DealingsMap>)
    requires
        old(state).wf(),
        dealings@.len() == TOTAL_DEALINGS,
    ensures
        final(state).wf(),
        final(state).dealers_v() == dealers_after_filter(
            old(state).dealers_v(),
            polys_view(dealings@),
        ),
        // Complaints are monotone: a dealer bad before the call is bad after it.
        forall|i: int|
            0 <= i < old(state).dealers_v().len() && old(state).dealers_v()[i].complaint is Some
                ==> (#[trigger] final(state).dealers_v()[i]).complaint is Some,
        final(state).own_address == old(state).own_address,
        final(state).recovered_vks == old(state).recovered_vks,
        final(state).coconut_keypair == old(state).coconut_keypair,
        final(state).proposal_id == old(state).proposal_id,
        final(state).voted_vks == old(state).voted_vks,
        final(state).executed_proposal == old(state).executed_proposal,
        r@.len() == TOTAL_DEALINGS,
        forall|p: int|
            0 <= p < r@.len() ==> map_view(#[trigger] r@[p]) == surviving_map(
                old(state).dealers_v(),
                polys_view(dealings@)[p],
            ),
{
    let ghost ds0 = old(state).dealers_v();
    let ghost pv = polys_view(dealings@);
    let n = state.dealers.len();

    // The per-polynomial maps, from the dealers surviving at entry.
    let mut maps: Vec<DealingsMap> = Vec::new();
    let mut p: usize = 0;
    while p < dealings.len()
        invariant
            *state == *old(state),
            ds0 == state.dealers_v(),
            pv == polys_view(dealings@),
            n == state.dealers@.len(),
            p <= dealings@.len(),
            maps@.len() == p,
            forall|q: int|
                0 <= q < p ==> map_view(#[trigger] maps@[q]) == surviving_map(ds0, pv[q]),
        decreases dealings@.len() - p,
    {
        let items = &dealings[p];
        proof {
            assert(pv[p as int] == poly_view(items@));
        }
        let mut entries: Vec<MapEntry> = Vec::new();
        let mut k: usize = 0;
        while k < n
            invariant
                *state == *old(state),
                ds0 == state.dealers_v(),
                n == state.dealers@.len(),
                k <= n,
                entries@.map_values(|e: MapEntry| e@) == surviving_map(
                    ds0.take(k as int),
                    poly_view(items@),
                ),
            decreases n - k,
        {
            proof {
                assert(ds0.take(k as int + 1).drop_last() =~= ds0.take(k as int));
                assert(ds0.take(k as int + 1).last() == ds0[k as int]);
                assert(ds0[k as int] == state.dealers@[k as int]@);
            }
            let good = state.dealers[k].complaint.is_none();
            if good {
                match find_last_verified(items, &state.dealers[k].address) {
                    Some(dealing) => {
                        let entry = MapEntry {
                            index: state.dealers[k].index,
                            address: state.dealers[k].address.clone(),
                            dealing,
                        };
                        entries.push(entry);
                        proof {
                            assert(entries@.map_values(|e: MapEntry| e@) =~= surviving_map(
                                ds0.take(k as int + 1),
                                poly_view(items@),
                            ));
                        }
                    },
                    None => {},
                }
            }
            k = k + 1;
        }
        proof {
            assert(ds0.take(n as int) =~= ds0);
        }
        maps.push(DealingsMap { entries });
        p = p + 1;
    }

    // Which dealers surviving at entry lack a verified posting somewhere.
    let mut lacks: Vec<bool> = Vec::new();
    let mut k: usize = 0;
    while k < n
        invariant
            *state == *old(state),
            ds0 == state.dealers_v(),
            pv == polys_view(dealings@),
            n == state.dealers@.len(),
            k <= n,
            lacks@.len() == k,
            forall|i: int|
                0 <= i < k ==> lacks@[i] == (is_good(ds0[i]) && missing_somewhere(
                    pv,
                    ds0[i].address,
                )),
        decreases n - k,
    {
        proof {
            assert(ds0[k as int] == state.dealers@[k as int]@);
        }
        let good = state.dealers[k].complaint.is_none();
        let mut miss = false;
        if good {
            let mut q: usize = 0;
            while q < dealings.len()
                invariant
                    *state == *old(state),
                    ds0 == state.dealers_v(),
                    pv == polys_view(dealings@),
                    n == state.dealers@.len(),
                    k < n,
                    ds0[k as int] == state.dealers@[k as int]@,
                    q <= dealings@.len(),
                    miss == exists|t: int|
                        0 <= t < q && last_verified_in(pv[t], ds0[k as int].address) is None,
                decreases dealings@.len() - q,
            {
                proof {
                    assert(pv[q as int] == poly_view(dealings@[q as int]@));
                }
                let ghost miss_before = miss;
                if find_last_verified(&dealings[q], &state.dealers[k].address).is_none() {
                    miss = true;
                }
                proof {
                    if miss {
                        if miss_before {
                        } else {
                            assert(last_verified_in(
                                pv[q as int],
                                ds0[k as int].address,
                            ) is None);
                        }
                        assert(exists|t: int|
                            0 <= t < q as int + 1 && last_verified_in(
                                pv[t],
                                ds0[k as int].address,
                            ) is None);
                    } else {
                        assert forall|t: int| 0 <= t < q as int + 1 implies !(last_verified_in(
                            #[trigger] pv[t],
                            ds0[k as int].address,
                        ) is None) by {
                            if t < q {
                                assert(!(last_verified_in(pv[t], ds0[k as int].address) is None));
                            }
                        }
                    }
                }
                q = q + 1;
            }
        }
        lacks.push(miss);
        k = k + 1;
    }

    // The posting pass: record a complaint for every bad posting, in order.
    let mut p: usize = 0;
    while p < dealings.len()
        invariant
            pv == polys_view(dealings@),
            n == state.dealers@.len(),
            ds0.len() == n,
            p <= dealings@.len(),
            forall|i: int|
                0 <= i < n ==> #[trigger] state.dealers_v()[i] == after_marks(
                    ds0[i],
                    pv.take(p as int),
                ),
            state.own_address == old(state).own_address,
            state.recovered_vks == old(state).recovered_vks,
            state.coconut_keypair == old(state).coconut_keypair,
            state.proposal_id == old(state).proposal_id,
            state.voted_vks == old(state).voted_vks,
            state.executed_proposal == old(state).executed_proposal,
        decreases dealings@.len() - p,
    {
        proof {
            assert(pv[p as int] == poly_view(dealings@[p as int]@));
        }
        let m = dealings[p].len();
        let mut j: usize = 0;
        while j < m
            invariant
                pv == polys_view(dealings@),
                n == state.dealers@.len(),
                ds0.len() == n,
                p < dealings@.len(),
                pv[p as int] == poly_view(dealings@[p as int]@),
                m == dealings@[p as int]@.len(),
                j <= m,
                forall|i: int|
                    0 <= i < n ==> #[trigger] state.dealers_v()[i] == during_marks(
                        ds0[i],
                        pv.take(p as int),
                        pv[p as int].take(j as int),
                    ),
                state.own_address == old(state).own_address,
                state.recovered_vks == old(state).recovered_vks,
                state.coconut_keypair == old(state).coconut_keypair,
                state.proposal_id == old(state).proposal_id,
                state.voted_vks == old(state).voted_vks,
                state.executed_proposal == old(state).executed_proposal,
            decreases m - j,
        {
            proof {
                assert(pv[p as int].take(j as int + 1).drop_last() =~= pv[p as int].take(
                    j as int,
                ));
                assert(pv[p as int].take(j as int + 1).last() == pv[p as int][j as int]);
                assert(pv[p as int][j as int] == dealings@[p as int]@[j as int]@);
            }
            let ghost pre = state.dealers_v();
            let item = &dealings[p][j];
            match &item.assessment {
                DealingAssessment::Malformed => {
                    state.mark_bad_dealer(&item.dealer, ComplaintReason::MalformedDealing);
                },
                DealingAssessment::VerificationFailed => {
                    state.mark_bad_dealer(&item.dealer, ComplaintReason::DealingVerificationError);
                },
                DealingAssessment::Verified(_) => {},
            }
            proof {
                assert forall|i: int| 0 <= i < n implies #[trigger] state.dealers_v()[i]
                    == during_marks(
                    ds0[i],
                    pv.take(p as int),
                    pv[p as int].take(j as int + 1),
                ) by {
                    assert(pre[i] == during_marks(
                        ds0[i],
                        pv.take(p as int),
                        pv[p as int].take(j as int),
                    ));
                }
            }
            j = j + 1;
        }
        proof {
            assert(pv.take(p as int + 1).drop_last() =~= pv.take(p as int));
            assert(pv.take(p as int + 1).last() == pv[p as int]);
            assert(pv[p as int].take(m as int) =~= pv[p as int]);
            assert forall|i: int| 0 <= i < n implies #[trigger] state.dealers_v()[i]
                == after_marks(ds0[i], pv.take(p as int + 1)) by {
                assert(state.dealers_v()[i] == during_marks(
                    ds0[i],
                    pv.take(p as int),
                    pv[p as int].take(m as int),
                ));
            }
        }
        p = p + 1;
    }
    proof {
        assert(pv.take(pv.len() as int) =~= pv);
    }

    // The completeness pass: a dealer surviving at entry that is missing
    // somewhere is marked `MissingDealing`, overwriting any earlier reason.
    let mut k: usize = 0;
    while k < n
        invariant
            pv == polys_view(dealings@),
            n == state.dealers@.len(),
            ds0.len() == n,
            lacks@.len() == n,
            k <= n,
            forall|i: int|
                0 <= i < n ==> lacks@[i] == (is_good(ds0[i]) && missing_somewhere(
                    pv,
                    ds0[i].address,
                )),
            forall|i: int|
                0 <= i < k && lacks@[i] ==> #[trigger] state.dealers_v()[i] == (DealerV {
                    complaint: Some(ComplaintReason::MissingDealing),
                    ..ds0[i]
                }),
            forall|i: int|
                0 <= i < n && !(0 <= i < k && lacks@[i]) ==> #[trigger] state.dealers_v()[i]
                    == after_marks(ds0[i], pv),
            state.own_address == old(state).own_address,
            state.recovered_vks == old(state).recovered_vks,
            state.coconut_keypair == old(state).coconut_keypair,
            state.proposal_id == old(state).proposal_id,
            state.voted_vks == old(state).voted_vks,
            state.executed_proposal == old(state).executed_proposal,
        decreases n - k,
    {
        let ghost pre = state.dealers@;
        if lacks[k] {
            proof {
                assert(state.dealers_v()[k as int] == after_marks(ds0[k as int], pv));
                assert(state.dealers@[k as int]@ == after_marks(ds0[k as int], pv));
            }
            overwrite_with_missing(state, k);
            proof {
                assert(state.dealers@[k as int]@ =~= (DealerV {
                    complaint: Some(ComplaintReason::MissingDealing),
                    ..ds0[k as int]
                }));
                assert forall|i: int| 0 <= i < n && i != k implies #[trigger] state.dealers_v()[i]
                    == dealers_view(pre)[i] by {
                    assert(state.dealers@[i] == pre[i]);
                }
            }
        }
        k = k + 1;
    }

    proof {
        assert forall|i: int| 0 <= i < n implies #[trigger] state.dealers_v()[i]
            == entry_after_filter(ds0[i], pv) by {
            if lacks@[i] {
            } else {
            }
        }
        assert(state.dealers_v() =~= dealers_after_filter(ds0, pv));
        assert forall|i: int, j: int|
            0 <= i < j < state.dealers_v().len() implies state.dealers_v()[i].index
            < state.dealers_v()[j].index && state.dealers_v()[i].address
            != state.dealers_v()[j].address by {
            assert(state.dealers_v()[i] == dealers_after_filter(ds0, pv)[i]);
            assert(state.dealers_v()[j] == dealers_after_filter(ds0, pv)[j]);
        }
        assert forall|i: int| 0 <= i < state.dealers_v().len() implies (
        #[trigger] state.dealers_v()[i]).index >= 1 by {
            assert(state.dealers_v()[i] == dealers_after_filter(ds0, pv)[i]);
        }
    }
    maps
}

/// Overwrites the complaint of the dealer at one position with
/// `MissingDealing`: the completeness pass of the filter.
fn overwrite_with_missing(state: &mut State, k: usize)
    requires
        k < old(state).dealers@.len(),
    ensures
        final(state).dealers@ == old(state).dealers@.update(
            k as int,
            entry_with_complaint(old(state).dealers@[k as int], Some(ComplaintReason::MissingDealing)),
        ),
        final(state).own_address == old(state).own_address,
        final(state).recovered_vks == old(state).recovered_vks,
        final(state).coconut_keypair == old(state).coconut_keypair,
        final(state).proposal_id == old(state).proposal_id,
        final(state).voted_vks == old(state).voted_vks,
        final(state).executed_proposal == old(state).executed_proposal,
{
    state.dealers[k].complaint = Some(ComplaintReason::MissingDealing);
}

/// All-good path: when every dealer is surviving at entry, every polynomial
/// holds a verified posting by every dealer, and no dealer has a bad
/// posting, one filter invocation leaves every dealer surviving and
/// unchanged, and every per-polynomial map holds all of them.
pub proof fn lemma_filter_all_good(ds: Seq<DealerV>, polys: Seq<Seq<ContractDealingV>>)
    requires
        forall|i: int| 0 <= i < ds.len() ==> is_good(#[trigger] ds[i]),
        forall|i: int|
            0 <= i < ds.len() ==> !missing_somewhere(polys, (#[trigger] ds[i]).address),
        forall|i: int| 0 <= i < ds.len() ==> last_bad(polys, (#[trigger] ds[i]).address) is None,
    ensures
        dealers_after_filter(ds, polys) == ds,
        forall|p: int|
            0 <= p < polys.len() ==> surviving_map(ds, #[trigger] polys[p]).len() == ds.len(),
{
    assert forall|i: int| 0 <= i < ds.len() implies dealers_after_filter(ds, polys)[i]
        == ds[i] by {
        assert(entry_after_filter(ds[i], polys) =~= ds[i]);
    }
    assert(dealers_after_filter(ds, polys) =~= ds);
    assert forall|p: int| 0 <= p < polys.len() implies surviving_map(ds, #[trigger] polys[p]).len()
        == ds.len() by {
        assert forall|i: int| 0 <= i < ds.len() implies last_verified_in(
            polys[p],
            (#[trigger] ds[i]).address,
        ) is Some by {
            assert(!missing_somewhere(polys, ds[i].address));
        }
        lemma_surviving_map_full(ds, polys[p]);
    }
}

/// In a dealer list where every dealer survives and has a verified posting,
/// the surviving map holds one entry per dealer.
proof fn lemma_surviving_map_full(ds: Seq<DealerV>, items: Seq<ContractDealingV>)
    requires
        forall|i: int| 0 <= i < ds.len() ==> is_good(#[trigger] ds[i]),
        forall|i: int|
            0 <= i < ds.len() ==> last_verified_in(items, (#[trigger] ds[i]).address) is Some,
    ensures
        surviving_map(ds, items).len() == ds.len(),
    decreases ds.len(),
{
    if ds.len() == 0 {
    } else {
        lemma_surviving_map_full(ds.drop_last(), items);
    }
}

/// Complete-loss classification: when one dealer lacks a verified posting
/// in every polynomial while all others are whole, a single filter
/// invocation marks that dealer `MissingDealing`, leaves the others
/// surviving, and every map holds all dealers but one.
pub proof fn lemma_filter_complete_loss(
    ds: Seq<DealerV>,
    polys: Seq<Seq<ContractDealingV>>,
    w: int,
)
    requires
        0 <= w < ds.len(),
        polys.len() > 0,
        forall|i: int| 0 <= i < ds.len() ==> is_good(#[trigger] ds[i]),
        forall|i: int| 0 <= i < ds.len() && i != w ==> (#[trigger] ds[i]).address != ds[w].address,
        forall|p: int|
            0 <= p < polys.len() ==> last_verified_in(#[trigger] polys[p], ds[w].address) is None,
        forall|i: int|
            0 <= i < ds.len() && i != w ==> !missing_somewhere(
                polys,
                (#[trigger] ds[i]).address,
            ) && last_bad(polys, ds[i].address) is None,
    ensures
        dealers_after_filter(ds, polys)[w].complaint == Some(ComplaintReason::MissingDealing),
        forall|i: int|
            0 <= i < ds.len() && i != w ==> (#[trigger] dealers_after_filter(
                ds,
                polys,
            )[i]).complaint is None,
        forall|p: int|
            0 <= p < polys.len() ==> surviving_map(ds, #[trigger] polys[p]).len() == ds.len() - 1,
{
    assert(missing_somewhere(polys, ds[w].address));
    assert(dealers_after_filter(ds, polys)[w] == entry_after_filter(ds[w], polys));
    assert forall|i: int| 0 <= i < ds.len() && i != w implies (#[trigger] dealers_after_filter(
        ds,
        polys,
    )[i]).complaint is None by {
        assert(dealers_after_filter(ds, polys)[i] == entry_after_filter(ds[i], polys));
    }
    assert forall|p: int| 0 <= p < polys.len() implies surviving_map(ds, #[trigger] polys[p]).len()
        == ds.len() - 1 by {
        assert forall|i: int| 0 <= i < ds.len() && i != w implies last_verified_in(
            polys[p],
            (#[trigger] ds[i]).address,
        ) is Some by {
            assert(!missing_somewhere(polys, ds[i].address));
        }
        lemma_surviving_map_all_but(ds, polys[p], w);
    }
}

/// In a dealer list where every dealer survives and all but one have a
/// verified posting, the surviving map holds one entry per dealer but one.
proof fn lemma_surviving_map_all_but(ds: Seq<DealerV>, items: Seq<ContractDealingV>, w: int)
    requires
        0 <= w < ds.len(),
        forall|i: int| 0 <= i < ds.len() ==> is_good(#[trigger] ds[i]),
        forall|i: int| 0 <= i < ds.len() && i != w ==> (#[trigger] ds[i]).address != ds[w].address,
        forall|i: int|
            0 <= i < ds.len() && i != w ==> last_verified_in(
                items,
                (#[trigger] ds[i]).address,
            ) is Some,
        last_verified_in(items, ds[w].address) is None,
    ensures
        surviving_map(ds, items).len() == ds.len() - 1,
    decreases ds.len(),
{
    if w == ds.len() - 1 {
        lemma_surviving_map_full(ds.drop_last(), items);
    } else {
        lemma_surviving_map_all_but(ds.drop_last(), items, w);
    }
}

/// Two-pass classification: a dealer surviving at entry that ends up
/// without a verified posting somewhere is marked `MissingDealing` by the
/// first filter invocation, whatever more specific reason its bad postings
/// carry; a second invocation over the same postings then surfaces the
/// reason of its last bad posting (`MalformedDealing` or
/// `DealingVerificationError`) instead.
pub proof fn lemma_filter_two_pass_classification(
    ds: Seq<DealerV>,
    polys: Seq<Seq<ContractDealingV>>,
    w: int,
)
    requires
        0 <= w < ds.len(),
        is_good(ds[w]),
        missing_somewhere(polys, ds[w].address),
        last_bad(polys, ds[w].address) is Some,
    ensures
        dealers_after_filter(ds, polys)[w].complaint == Some(ComplaintReason::MissingDealing),
        dealers_after_filter(dealers_after_filter(ds, polys), polys)[w].complaint == last_bad(
            polys,
            ds[w].address,
        ),
{
    let once = dealers_after_filter(ds, polys);
    assert(once[w] == entry_after_filter(ds[w], polys));
    assert(dealers_after_filter(once, polys)[w] == entry_after_filter(once[w], polys));
}

/// Whether a map holds an entry under the given node index.
pub open spec fn map_holds_index(m: Seq<MapEntryV>, ix: u64) -> bool {
    exists|k: int| 0 <= k < m.len() && (#[trigger] m[k]).index == ix
}

/// A dealer surviving at entry with a verified posting stands in the map.
proof fn lemma_map_holds_dealer(ds: Seq<DealerV>, items: Seq<ContractDealingV>, i: int)
    requires
        0 <= i < ds.len(),
        ds[i].complaint is None,
        last_verified_in(items, ds[i].address) is Some,
    ensures
        map_holds_index(surviving_map(ds, items), ds[i].index),
    decreases ds.len(),
{
    let m = surviving_map(ds, items);
    if i == ds.len() - 1 {
        assert(m[m.len() - 1].index == ds[i].index);
    } else {
        lemma_map_holds_dealer(ds.drop_last(), items, i);
        let rest = surviving_map(ds.drop_last(), items);
        let k = choose|k: int|
            0 <= k < rest.len() && (#[trigger] rest[k]).index == ds.drop_last()[i].index;
        assert(m[k].index == ds[i].index);
    }
}

/// Cross-polynomial completeness: a dealer still surviving once the filter
/// has run appears, under its node index, in every per-polynomial map; a
/// dealer missing from some map has been marked instead.
pub proof fn lemma_survivors_in_every_map(
    ds: Seq<DealerV>,
    polys: Seq<Seq<ContractDealingV>>,
    i: int,
)
    requires
        0 <= i < ds.len(),
        dealers_after_filter(ds, polys)[i].complaint is None,
    ensures
        forall|p: int|
            0 <= p < polys.len() ==> map_holds_index(
                surviving_map(ds, #[trigger] polys[p]),
                ds[i].index,
            ),
{
    assert(dealers_after_filter(ds, polys)[i] == entry_after_filter(ds[i], polys));
    assert(ds[i].complaint is None);
    assert(!missing_somewhere(polys, ds[i].address));
    assert forall|p: int| 0 <= p < polys.len() implies map_holds_index(
        surviving_map(ds, #[trigger] polys[p]),
        ds[i].index,
    ) by {
        assert(!(last_verified_in(polys[p], ds[i].address) is None));
        lemma_map_holds_dealer(ds, polys[p], i);
    }
}

/// A dealer entry with its complaint replaced.
pub open spec fn entry_with_complaint(
    e: DealerEntry,
    c: Option<ComplaintReason>,
) -> DealerEntry {
    DealerEntry { complaint: c, ..e }
}

} // verus!
