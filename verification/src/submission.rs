use vstd::prelude::*;
use crate::codec::{bs58_decoding, spec_serialize_vk, vk_to_bs58};
use crate::dealings::{polys_view, ContractDealing, DealingsMap};
use crate::derivation::{
    derive_partial_keypair, first_failure, good_position_of, keypair_from_outcomes,
    outcome_error, outcome_recovered, CryptoOutcome,
};
use crate::errors::DkgError;
use crate::filter::{dealers_after_filter, deterministic_filter_dealers};
use crate::keys::{partials_view, KeyPair};
use crate::state::{good_count, State};
use crate::TOTAL_DEALINGS;

verus! {

/// One attribute of a transaction-log event.
pub struct LogAttribute {
    pub key: String,
    pub value: String,
}

/// Ghost value of a log attribute.
#[verifier::ext_equal]
pub ghost struct LogAttributeV {
    pub key: Seq<char>,
    pub value: Seq<char>,
}

impl View for LogAttribute {
    type V = LogAttributeV;

    open spec fn view(&self) -> LogAttributeV {
        LogAttributeV { key: self.key@, value: self.value@ }
    }
}

/// One event of a transaction log.
pub struct LogEvent {
    pub ty: String,
    pub attributes: Vec<LogAttribute>,
}

/// Ghost value of a log event.
#[verifier::ext_equal]
pub ghost struct LogEventV {
    pub ty: Seq<char>,
    pub attributes: Seq<LogAttributeV>,
}

impl View for LogEvent {
    type V = LogEventV;

    open spec fn view(&self) -> LogEventV {
        LogEventV {
            ty: self.ty@,
            attributes: self.attributes@.map_values(|a: LogAttribute| a@),
        }
    }
}

/// The log of one message of a transaction.
pub struct TxLog {
    pub events: Vec<LogEvent>,
}

/// Ghost value of one message log.
pub open spec fn log_view(l: TxLog) -> Seq<LogEventV> {
    l.events@.map_values(|e: LogEvent| e@)
}

/// Ghost value of a transaction's logs.
pub open spec fn logs_view(ls: Seq<TxLog>) -> Seq<Seq<LogEventV>> {
    ls.map_values(|l: TxLog| log_view(l))
}

/// The value of the first attribute with the given key, within one event.
pub open spec fn spec_find_attr(attrs: Seq<LogAttributeV>, key: Seq<char>) -> Option<Seq<char>>
    decreases attrs.len(),
{
    if attrs.len() == 0 {
        None
    } else if attrs[0].key == key {
        Some(attrs[0].value)
    } else {
        spec_find_attr(attrs.drop_first(), key)
    }
}

/// The value of the first matching attribute within a list of events: only
/// events of the given type are searched, in order.
pub open spec fn spec_find_in_events(
    events: Seq<LogEventV>,
    ty: Seq<char>,
    key: Seq<char>,
) -> Option<Seq<char>>
    decreases events.len(),
{
    if events.len() == 0 {
        None
    } else {
        let rest = spec_find_in_events(events.drop_first(), ty, key);
        if events[0].ty == ty {
            match spec_find_attr(events[0].attributes, key) {
                Some(v) => Some(v),
                None => rest,
            }
        } else {
            rest
        }
    }
}

/// The value of the first matching attribute across a transaction's logs.
pub open spec fn spec_find_attribute(
    logs: Seq<Seq<LogEventV>>,
    ty: Seq<char>,
    key: Seq<char>,
) -> Option<Seq<char>>
    decreases logs.len(),
{
    if logs.len() == 0 {
        None
    } else {
        match spec_find_in_events(logs[0], ty, key) {
            Some(v) => Some(v),
            None => spec_find_attribute(logs.drop_first(), ty, key),
        }
    }
}

/// Finds the first attribute with the given key among the attributes of one
/// event.
fn find_attr_in_event(attrs: &Vec<LogAttribute>, key: &String) -> (r: Option<String>)
    ensures
        ({
            let av = attrs@.map_values(|a: LogAttribute| a@);
            match r {
                Some(v) => spec_find_attr(av, key@) == Some(v@),
                None => spec_find_attr(av, key@) is None,
            }
        }),
{
    let ghost av = attrs@.map_values(|a: LogAttribute| a@);
    proof {
        assert(av.skip(0) =~= av);
    }
    let n = attrs.len();
    let mut i: usize = 0;
    while i < n
        invariant
            n == attrs@.len(),
            i <= n,
            av == attrs@.map_values(|a: LogAttribute| a@),
            spec_find_attr(av, key@) == spec_find_attr(av.skip(i as int), key@),
        decreases n - i,
    {
        proof {
            assert(av.skip(i as int)[0] == av[i as int]);
            assert(av.skip(i as int).drop_first() =~= av.skip(i as int + 1));
        }
        if attrs[i].key.eq(key) {
            return Some(attrs[i].value.clone());
        }
        i = i + 1;
    }
    proof {
        assert(av.skip(n as int) =~= Seq::<LogAttributeV>::empty());
    }
    None
}

/// Finds the first matching attribute among the events of one message log.
fn find_in_events(events: &Vec<LogEvent>, ty: &String, key: &String) -> (r: Option<String>)
    ensures
        ({
            let ev = events@.map_values(|e: LogEvent| e@);
            match r {
                Some(v) => spec_find_in_events(ev, ty@, key@) == Some(v@),
                None => spec_find_in_events(ev, ty@, key@) is None,
            }
        }),
{
    let ghost ev = events@.map_values(|e: LogEvent| e@);
    proof {
        assert(ev.skip(0) =~= ev);
    }
    let n = events.len();
    let mut i: usize = 0;
    while i < n
        invariant
            n == events@.len(),
            i <= n,
            ev == events@.map_values(|e: LogEvent| e@),
            spec_find_in_events(ev, ty@, key@) == spec_find_in_events(ev.skip(i as int), ty@, key@),
        decreases n - i,
    {
        proof {
            assert(ev.skip(i as int)[0] == ev[i as int]);
            assert(ev.skip(i as int).drop_first() =~= ev.skip(i as int + 1));
        }
        if events[i].ty.eq(ty) {
            match find_attr_in_event(&events[i].attributes, key) {
                Some(v) => {
                    return Some(v);
                },
                None => {},
            }
        }
        i = i + 1;
    }
    proof {
        assert(ev.skip(n as int) =~= Seq::<LogEventV>::empty());
    }
    None
}

/// Finds the value of the first attribute with the given key among events
/// of the given type, across a transaction's logs.
pub fn find_attribute(logs: &Vec<TxLog>, event_type: &String, key: &String) -> (r: Option<String>)
    ensures
        match r {
            Some(v) => spec_find_attribute(logs_view(logs@), event_type@, key@) == Some(v@),
            None => spec_find_attribute(logs_view(logs@), event_type@, key@) is None,
        },
{
    let ghost lv = logs_view(logs@);
    proof {
        assert(lv.skip(0) =~= lv);
    }
    let n = logs.len();
    let mut i: usize = 0;
    while i < n
        invariant
            n == logs@.len(),
            i <= n,
            lv == logs_view(logs@),
            spec_find_attribute(lv, event_type@, key@) == spec_find_attribute(
                lv.skip(i as int),
                event_type@,
                key@,
            ),
        decreases n - i,
    {
        proof {
            assert(lv.skip(i as int)[0] == lv[i as int]);
            assert(lv.skip(i as int).drop_first() =~= lv.skip(i as int + 1));
        }
        match find_in_events(&logs[i].events, event_type, key) {
            Some(v) => {
                return Some(v);
            },
            None => {},
        }
        i = i + 1;
    }
    proof {
        assert(lv.skip(n as int) =~= Seq::<Seq<LogEventV>>::empty());
    }
    None
}

/// Whether a character is a decimal digit.
pub open spec fn is_digit(c: char) -> bool {
    48 <= c as int && c as int <= 57
}

/// Whether a string is all decimal digits.
pub open spec fn all_digits(s: Seq<char>) -> bool {
    forall|i: int| 0 <= i < s.len() ==> is_digit(#[trigger] s[i])
}

/// The number a digit string denotes.
pub open spec fn digits_value(s: Seq<char>) -> int
    decreases s.len(),
{
    if s.len() == 0 {
        0
    } else {
        digits_value(s.drop_last()) * 10 + (s.last() as int - 48)
    }
}

/// What `u64` a decimal string denotes: defined exactly on non-empty
/// all-digit strings whose value fits.
pub open spec fn spec_parse_u64(s: Seq<char>) -> Option<u64> {
    if s.len() > 0 && all_digits(s) && digits_value(s) <= u64::MAX {
        Some(digits_value(s) as u64)
    } else {
        None
    }
}

proof fn lemma_digits_value_nonneg(s: Seq<char>)
    requires
        all_digits(s),
    ensures
        digits_value(s) >= 0,
    decreases s.len(),
{
    if s.len() == 0 {
    } else {
        assert(all_digits(s.drop_last()));
        lemma_digits_value_nonneg(s.drop_last());
        assert(digits_value(s.drop_last()) * 10 >= 0) by (nonlinear_arith)
            requires
                digits_value(s.drop_last()) >= 0,
        ;
    }
}

proof fn lemma_digits_value_prefix(s: Seq<char>, i: int)
    requires
        all_digits(s),
        0 <= i <= s.len(),
    ensures
        digits_value(s) >= digits_value(s.take(i)),
    decreases s.len() - i,
{
    if i == s.len() {
        assert(s.take(i) =~= s);
    } else {
        lemma_digits_value_prefix(s, i + 1);
        assert(s.take(i + 1).drop_last() =~= s.take(i));
        assert(all_digits(s.take(i + 1)));
        assert(all_digits(s.take(i)));
        lemma_digits_value_nonneg(s.take(i));
        assert(s.take(i + 1).last() == s[i]);
        assert(digits_value(s.take(i + 1)) >= digits_value(s.take(i))) by (nonlinear_arith)
            requires
                digits_value(s.take(i + 1)) == digits_value(s.take(i)) * 10 + (s.take(i + 1).last()
                    as int - 48),
                digits_value(s.take(i)) >= 0,
                is_digit(s.take(i + 1).last()),
        ;
    }
}

/// Parses a decimal `u64`: accepts exactly the non-empty all-digit strings
/// whose value fits in a `u64`.
#[verifier::loop_isolation(false)]
pub fn parse_u64(s: &String) -> (r: Option<u64>)
    ensures
        r == spec_parse_u64(s@),
{
    let st = s.as_str();
    let n = st.unicode_len();
    if n == 0 {
        return None;
    }
    let mut acc: u64 = 0;
    let mut i: usize = 0;
    while i < n
        invariant
            i <= n,
            all_digits(s@.take(i as int)),
            acc == digits_value(s@.take(i as int)),
        decreases n - i,
    {
        let c = st.get_char(i);
        proof {
            assert(s@.take(i as int + 1).drop_last() =~= s@.take(i as int));
            assert(s@.take(i as int + 1).last() == s@[i as int]);
        }
        let v = c as u32;
        if v < 48 || v > 57 {
            proof {
                assert(!is_digit(s@[i as int]));
                assert(!all_digits(s@));
            }
            return None;
        }
        let d = (v - 48) as u64;
        if acc > 1844674407370955161u64 || (acc == 1844674407370955161u64 && d > 5) {
            proof {
                assert(digits_value(s@.take(i as int + 1)) == acc * 10 + d);
                assert(digits_value(s@.take(i as int + 1)) > u64::MAX);
                if all_digits(s@) {
                    lemma_digits_value_prefix(s@, i as int + 1);
                }
            }
            return None;
        }
        acc = acc * 10 + d;
        i = i + 1;
    }
    proof {
        assert(s@.take(n as int) =~= s@);
    }
    Some(acc)
}

/// What the submission stage asks of its caller.
pub enum SubmissionOutcome {
    /// The keypair is already recorded: the stage is complete.
    AlreadyDone,
    /// Persist the keypair, submit the share string to the ledger, and then
    /// record completion with `record_vk_submission`.
    Submit(KeyPair, String),
}

/// Runs the dealer filter and the share deriver and prepares our
/// verification-key share for submission: the share string is the base58
/// encoding of the derived verification key. A no-op once the keypair has
/// been recorded. The caller persists the keypair, submits the share, and
/// hands the transaction logs to `record_vk_submission`; only that call
/// records the keypair, so a failed submission leaves the stage pending.
pub fn verification_key_submission(
    state: &mut State,
    threshold: u64,
    dealings: &Vec<Vec<ContractDealing>>,
    crypto: Vec<CryptoOutcome>,
) -> (r: Result<SubmissionOutcome, DkgError>)
    requires
        old(state).wf(),
        dealings@.len() == TOTAL_DEALINGS,
        crypto@.len() == TOTAL_DEALINGS,
        forall|p: int|
            0 <= p < crypto@.len() && outcome_error(#[trigger] crypto@[p]) is None
                ==> partials_view(outcome_recovered(crypto@[p])).len() == good_count(
                dealers_after_filter(old(state).dealers_v(), polys_view(dealings@)),
            ),
        forall|p: int|
            0 <= p < crypto@.len() && outcome_error(#[trigger] crypto@[p]) is None
                ==> outcome_recovered(crypto@[p]).public_coefficients@.len() == threshold,
    ensures
        old(state).coconut_keypair is Some ==> r == Ok::<SubmissionOutcome, DkgError>(
            SubmissionOutcome::AlreadyDone,
        ) && *final(state) == *old(state),
        old(state).coconut_keypair is None ==> ({
            let ds1 = dealers_after_filter(old(state).dealers_v(), polys_view(dealings@));
            let pos_o = good_position_of(ds1, old(state).own_address@);
            let cs = crypto@;
            &&& final(state).dealers_v() == ds1
            &&& final(state).wf()
            &&& final(state).own_address == old(state).own_address
            &&& final(state).coconut_keypair is None
            &&& final(state).proposal_id == old(state).proposal_id
            &&& final(state).voted_vks == old(state).voted_vks
            &&& final(state).executed_proposal == old(state).executed_proposal
            &&& (r is Err ==> final(state).recovered_vks == old(state).recovered_vks)
            &&& (pos_o is None ==> r == Err::<SubmissionOutcome, DkgError>(
                DkgError::ReceiverIndexMissing,
            ))
            &&& (pos_o is Some && good_count(ds1) < threshold as int ==> r == Err::<
                SubmissionOutcome,
                DkgError,
            >(DkgError::ThresholdUnavailable))
            &&& (pos_o is Some && good_count(ds1) >= threshold as int && first_failure(cs) is Some
                ==> r == Err::<SubmissionOutcome, DkgError>(first_failure(cs)->Some_0))
            &&& (pos_o is Some && good_count(ds1) >= threshold as int && first_failure(cs) is None
                ==> (r matches Ok(o) && o matches SubmissionOutcome::Submit(kp, share)
                && keypair_from_outcomes(kp, pos_o->Some_0, cs) && bs58_decoding(share@) == Some(
                    spec_serialize_vk(kp.verification_key@),
                ) && final(state).recovered_vks@ == cs.map_values(
                    |c: CryptoOutcome| outcome_recovered(c),
                )))
        }),
{
    if state.coconut_keypair_is_some() {
        return Ok(SubmissionOutcome::AlreadyDone);
    }
    let maps = deterministic_filter_dealers(state, dealings);
    let kp = match derive_partial_keypair(state, threshold, &maps, crypto) {
        Ok(kp) => kp,
        Err(e) => {
            return Err(e);
        },
    };
    let share = vk_to_bs58(&kp.verification_key);
    Ok(SubmissionOutcome::Submit(kp, share))
}

/// Records a completed submission: reads the proposal id off the
/// transaction logs (the `dkg_proposal_id` attribute of the first `wasm`
/// event) and only then records the keypair, so an earlier failure leaves
/// the submission stage pending and repeatable.
pub fn record_vk_submission(
    state: &mut State,
    keypair: KeyPair,
    logs: &Vec<TxLog>,
) -> (r: Result<u64, DkgError>)
    ensures
        ({
            let found = spec_find_attribute(logs_view(logs@), "wasm"@, "dkg_proposal_id"@);
            &&& (found is None ==> r == Err::<u64, DkgError>(DkgError::ProposalIdNotFound)
                && *final(state) == *old(state))
            &&& (found is Some && spec_parse_u64(found->Some_0) is None ==> r == Err::<
                u64,
                DkgError,
            >(DkgError::ProposalIdUnparsable) && *final(state) == *old(state))
            &&& (found is Some && spec_parse_u64(found->Some_0) is Some ==> ({
                let id = spec_parse_u64(found->Some_0)->Some_0;
                &&& r == Ok::<u64, DkgError>(id)
                &&& final(state).proposal_id == Some(id)
                &&& final(state).coconut_keypair == Some(keypair)
                &&& final(state).dealers@ == old(state).dealers@
                &&& final(state).own_address == old(state).own_address
                &&& final(state).recovered_vks == old(state).recovered_vks
                &&& final(state).voted_vks == old(state).voted_vks
                &&& final(state).executed_proposal == old(state).executed_proposal
            }))
        }),
{
    let ty: String = "wasm".to_owned();
    let key: String = "dkg_proposal_id".to_owned();
    let value = match find_attribute(logs, &ty, &key) {
        Some(v) => v,
        None => {
            return Err(DkgError::ProposalIdNotFound);
        },
    };
    let id = match parse_u64(&value) {
        Some(id) => id,
        None => {
            return Err(DkgError::ProposalIdUnparsable);
        },
    };
    state.proposal_id = Some(id);
    state.coconut_keypair = Some(keypair);
    Ok(id)
}

} // verus!
